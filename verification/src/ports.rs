//! Serial ports: how a port is described, which modem interface a
//! description belongs to, which port the connection form proposes, and the
//! device name behind a chosen label.

use vstd::prelude::*;

use crate::text::{
    chars_of, contains, lowercase, push_str, push_string, str_contains, str_eq, string_of,
    to_lower, to_upper, uppercase,
};

verus! {

// ---------------------------------------------------------------------------
// Profiles
// ---------------------------------------------------------------------------

/// Whether a lower-cased description names the interface of a profile:
/// the PC UI port of "Project Mode", or a serial or shell port of "Debug
/// Mode". No other profile matches.
pub open spec fn matches_profile(desc_lower: Seq<char>, profile: Seq<char>) -> bool {
    if profile == "Project Mode"@ {
        contains(desc_lower, "fc - pc ui"@) || contains(desc_lower, "fc pc ui"@) || contains(
            desc_lower,
            "pc ui"@,
        ) || contains(desc_lower, "pcui"@) || contains(desc_lower, "application interface"@)
            || contains(desc_lower, "huawei mobile connect"@)
    } else if profile == "Debug Mode"@ {
        contains(desc_lower, "seriala"@) || contains(desc_lower, "serial a"@) || contains(
            desc_lower,
            "serialb"@,
        ) || contains(desc_lower, "serial b"@) || contains(desc_lower, "serialc"@) || contains(
            desc_lower,
            "serial c"@,
        ) || contains(desc_lower, "shalla"@) || contains(desc_lower, "shall a"@) || contains(
            desc_lower,
            "shallb"@,
        ) || contains(desc_lower, "shall b"@)
    } else {
        false
    }
}

/// Tells whether a lower-cased description names the interface of a
/// profile.
pub fn port_matches_profile(desc_lower: &str, profile: &str) -> (r: bool)
    ensures
        r == matches_profile(desc_lower@, profile@),
{
    if str_eq(profile, "Project Mode") {
        str_contains(desc_lower, "fc - pc ui") || str_contains(desc_lower, "fc pc ui")
            || str_contains(desc_lower, "pc ui") || str_contains(desc_lower, "pcui")
            || str_contains(desc_lower, "application interface") || str_contains(
            desc_lower,
            "huawei mobile connect",
        )
    } else if str_eq(profile, "Debug Mode") {
        str_contains(desc_lower, "seriala") || str_contains(desc_lower, "serial a")
            || str_contains(desc_lower, "serialb") || str_contains(desc_lower, "serial b")
            || str_contains(desc_lower, "serialc") || str_contains(desc_lower, "serial c")
            || str_contains(desc_lower, "shalla") || str_contains(desc_lower, "shall a")
            || str_contains(desc_lower, "shallb") || str_contains(desc_lower, "shall b")
    } else {
        false
    }
}

/// Whether some label, lower-cased, names the interface of a profile.
pub open spec fn any_matches(labels: Seq<String>, profile: Seq<char>) -> bool {
    exists|i: int| 0 <= i < labels.len() && matches_profile(lowercase(labels[i]@), profile)
}

/// The profile a set of port labels shows: "Debug Mode" when a debug port
/// is present, else "Project Mode" when a PC UI port is, else `fallback`.
pub open spec fn profile_of_labels(labels: Seq<String>, fallback: Seq<char>) -> Seq<char> {
    if any_matches(labels, "Debug Mode"@) {
        "Debug Mode"@
    } else if any_matches(labels, "Project Mode"@) {
        "Project Mode"@
    } else {
        fallback
    }
}

/// Names the profile that the present ports show.
pub fn serial_profile_label_for_ports(ports: &[String], fallback: &str) -> (r: String)
    ensures
        r@ == profile_of_labels(ports@, fallback@),
{
    let mut has_debug = false;
    let mut has_project = false;
    let mut i: usize = 0;
    while i < ports.len()
        invariant
            0 <= i <= ports@.len(),
            has_debug == exists|k: int|
                0 <= k < i && matches_profile(lowercase(ports@[k]@), "Debug Mode"@),
            has_project == exists|k: int|
                0 <= k < i && matches_profile(lowercase(ports@[k]@), "Project Mode"@),
        decreases ports.len() - i,
    {
        let lower = to_lower(ports[i].as_str());
        if port_matches_profile(lower.as_str(), "Debug Mode") {
            has_debug = true;
        }
        if port_matches_profile(lower.as_str(), "Project Mode") {
            has_project = true;
        }
        i = i + 1;
    }
    if has_debug {
        string_of("Debug Mode")
    } else if has_project {
        string_of("Project Mode")
    } else {
        string_of(fallback)
    }
}

/// The profile of one port's description: debug first, then PC UI, else
/// "Unknown".
pub open spec fn profile_of_description(desc: Seq<char>) -> Seq<char> {
    let d = lowercase(desc);
    if matches_profile(d, "Debug Mode"@) {
        "Debug Mode"@
    } else if matches_profile(d, "Project Mode"@) {
        "Project Mode"@
    } else {
        "Unknown"@
    }
}

/// Names the profile of one port's description.
pub fn detect_port_profile(desc: &str) -> (r: String)
    ensures
        r@ == profile_of_description(desc@),
{
    let d = to_lower(desc);
    if port_matches_profile(d.as_str(), "Debug Mode") {
        string_of("Debug Mode")
    } else if port_matches_profile(d.as_str(), "Project Mode") {
        string_of("Project Mode")
    } else {
        string_of("Unknown")
    }
}

/// The profile shown in the status bar: "Unknown" while disconnected.
pub fn serial_profile_label(connected: bool, displayed: &str) -> (r: String)
    ensures
        r@ == (if connected {
            displayed@
        } else {
            "Unknown"@
        }),
{
    if !connected {
        string_of("Unknown")
    } else {
        string_of(displayed)
    }
}

// ---------------------------------------------------------------------------
// Describing ports
// ---------------------------------------------------------------------------

/// What a USB port reports about its device.
#[derive(Debug, Clone)]
pub struct UsbInfo {
    pub manufacturer: Option<String>,
    pub product: Option<String>,
    pub serial_number: Option<String>,
}

/// An optional text, empty when absent.
pub open spec fn or_empty(o: Option<String>) -> Seq<char> {
    match o {
        Some(s) => s@,
        None => Seq::empty(),
    }
}

/// How a port is described: by the system's friendly name when it has
/// one, else by its USB manufacturer, product and serial number separated
/// by spaces, else as "Unknown device".
pub open spec fn description_text(friendly: Option<Seq<char>>, usb: Option<UsbInfo>) -> Seq<char> {
    match friendly {
        Some(f) => f,
        None => match usb {
            Some(u) => or_empty(u.manufacturer) + " "@ + or_empty(u.product) + " "@ + or_empty(
                u.serial_number,
            ),
            None => "Unknown device"@,
        },
    }
}

fn push_opt(s: &mut String, o: &Option<String>)
    ensures
        final(s)@ == old(s)@ + or_empty(*o),
{
    match o {
        Some(t) => push_string(s, t),
        None => {},
    }
}

/// Describes a port.
pub fn port_description(friendly: Option<&str>, usb: Option<&UsbInfo>) -> (r: String)
    ensures
        r@ == description_text(
            match friendly {
                Some(f) => Some(f@),
                None => None,
            },
            match usb {
                Some(u) => Some(*u),
                None => None,
            },
        ),
{
    match friendly {
        Some(f) => string_of(f),
        None => match usb {
            Some(u) => {
                let mut r = String::new();
                push_opt(&mut r, &u.manufacturer);
                push_str(&mut r, " ");
                push_opt(&mut r, &u.product);
                push_str(&mut r, " ");
                push_opt(&mut r, &u.serial_number);
                r
            },
            None => string_of("Unknown device"),
        },
    }
}

// ---------------------------------------------------------------------------
// The proposed port
// ---------------------------------------------------------------------------

/// A present port: its device name and its label.
#[derive(Debug, Clone)]
pub struct PortEntry {
    pub name: String,
    pub label: String,
}

/// The label of the last port named `device` (empty when `device` is empty
/// or no port has that name).
pub open spec fn label_of_device(ports: Seq<PortEntry>, device: Seq<char>) -> Seq<char>
    decreases ports.len(),
{
    if ports.len() == 0 || device.len() == 0 {
        Seq::empty()
    } else if ports.last().name@ == device {
        ports.last().label@
    } else {
        label_of_device(ports.drop_last(), device)
    }
}

/// The label of the first port whose lower-cased label names a PC UI port.
pub open spec fn first_pcui_label(ports: Seq<PortEntry>) -> Seq<char>
    decreases ports.len(),
{
    if ports.len() == 0 {
        Seq::empty()
    } else if matches_profile(lowercase(ports[0].label@), "Project Mode"@) {
        ports[0].label@
    } else {
        first_pcui_label(ports.drop_first())
    }
}

/// The port the connection form proposes: the connected one, else the
/// first PC UI port, else the one chosen before, else the first port.
pub open spec fn proposed_port(
    ports: Seq<PortEntry>,
    connected_device: Seq<char>,
    previous_device: Seq<char>,
) -> Seq<char> {
    let c = label_of_device(ports, connected_device);
    let p = first_pcui_label(ports);
    let q = label_of_device(ports, previous_device);
    if c.len() > 0 {
        c
    } else if p.len() > 0 {
        p
    } else if q.len() > 0 {
        q
    } else if ports.len() > 0 {
        ports[0].label@
    } else {
        Seq::empty()
    }
}

fn last_label_of(ports: &[PortEntry], device: &str) -> (r: String)
    ensures
        r@ == label_of_device(ports@, device@),
{
    let mut r = String::new();
    if device.is_empty() {
        return r;
    }
    let mut i: usize = 0;
    while i < ports.len()
        invariant
            0 <= i <= ports@.len(),
            device@.len() > 0,
            r@ == label_of_device(ports@.take(i as int), device@),
        decreases ports.len() - i,
    {
        assert(ports@.take(i + 1).drop_last() == ports@.take(i as int));
        if str_eq(ports[i].name.as_str(), device) {
            r = ports[i].label.clone();
        }
        i = i + 1;
    }
    assert(ports@.take(ports@.len() as int) == ports@);
    r
}

fn first_pcui_of(ports: &[PortEntry]) -> (r: String)
    ensures
        r@ == first_pcui_label(ports@),
{
    assert(ports@.subrange(0, ports@.len() as int) == ports@);
    let mut i: usize = 0;
    while i < ports.len()
        invariant
            0 <= i <= ports@.len(),
            first_pcui_label(ports@) == first_pcui_label(ports@.subrange(i as int, ports@.len() as int)),
        decreases ports.len() - i,
    {
        let ghost rest = ports@.subrange(i as int, ports@.len() as int);
        assert(rest[0] == ports@[i as int]);
        assert(rest.drop_first() == ports@.subrange(i + 1, ports@.len() as int));
        let lower = to_lower(ports[i].label.as_str());
        if port_matches_profile(lower.as_str(), "Project Mode") {
            return ports[i].label.clone();
        }
        i = i + 1;
    }
    String::new()
}

/// Chooses the port the connection form proposes.
pub fn propose_port(ports: &[PortEntry], connected_device: &str, previous_device: &str) -> (r:
    String)
    ensures
        r@ == proposed_port(ports@, connected_device@, previous_device@),
{
    let c = last_label_of(ports, connected_device);
    if !c.as_str().is_empty() {
        return c;
    }
    let p = first_pcui_of(ports);
    if !p.as_str().is_empty() {
        return p;
    }
    let q = last_label_of(ports, previous_device);
    if !q.as_str().is_empty() {
        return q;
    }
    if ports.len() > 0 {
        ports[0].label.clone()
    } else {
        String::new()
    }
}

// ---------------------------------------------------------------------------
// The device behind a label
// ---------------------------------------------------------------------------

/// The device of the last entry for a label, if any.
pub open spec fn device_of_label(map: Seq<PortEntry>, label: Seq<char>) -> Option<Seq<char>>
    decreases map.len(),
{
    if map.len() == 0 {
        None
    } else if map.last().label@ == label {
        Some(map.last().name@)
    } else {
        device_of_label(map.drop_last(), label)
    }
}

/// 'c', 'o' or 'm' in either case.
pub open spec fn com_at(s: Seq<char>, i: int) -> bool {
    0 <= i && i + 3 < s.len() && (s[i] == 'c' || s[i] == 'C') && (s[i + 1] == 'o' || s[i + 1]
        == 'O') && (s[i + 2] == 'm' || s[i + 2] == 'M') && crate::scan::is_digit(s[i + 3])
}

/// Where the first "COM" (any case) followed by digits starts, from `i` on.
pub open spec fn first_com(s: Seq<char>, i: int) -> Option<int>
    decreases s.len() - i,
{
    if i < 0 || i >= s.len() {
        None
    } else if com_at(s, i) {
        Some(i)
    } else {
        first_com(s, i + 1)
    }
}

/// The first "COM" and number in a label (any case), upper-cased; empty
/// when there is none.
pub open spec fn com_name_in(label: Seq<char>) -> Seq<char> {
    match first_com(label, 0) {
        Some(i) => uppercase(label.subrange(i, i + 3 + crate::scan::digit_run(label, i + 3))),
        None => Seq::empty(),
    }
}

/// The device to open for the label chosen in the form: the device listed
/// under that label, else the COM name written in it.
pub open spec fn manual_port_device(map: Seq<PortEntry>, label: Seq<char>) -> Seq<char> {
    match device_of_label(map, label) {
        Some(d) => d,
        None => com_name_in(label),
    }
}

proof fn lemma_digit_run_bound(s: Seq<char>, i: int)
    requires
        0 <= i <= s.len(),
    ensures
        i + crate::scan::digit_run(s, i) <= s.len(),
    decreases s.len() - i,
{
    if i < s.len() && crate::scan::is_digit(s[i]) {
        lemma_digit_run_bound(s, i + 1);
    }
}

/// Finds the device to open for the label chosen in the form.
pub fn get_manual_port_device(map: &[PortEntry], label: &str) -> (r: String)
    ensures
        r@ == manual_port_device(map@, label@),
{
    let mut found: Option<usize> = None;
    let mut i: usize = 0;
    while i < map.len()
        invariant
            0 <= i <= map@.len(),
            match found {
                Some(k) => k < i && device_of_label(map@.take(i as int), label@) == Some(
                    map@[k as int].name@,
                ),
                None => device_of_label(map@.take(i as int), label@) is None,
            },
        decreases map.len() - i,
    {
        assert(map@.take(i + 1).drop_last() == map@.take(i as int));
        if str_eq(map[i].label.as_str(), label) {
            found = Some(i);
        }
        i = i + 1;
    }
    assert(map@.take(map@.len() as int) == map@);
    match found {
        Some(k) => return map[k].name.clone(),
        None => {},
    }
    let cs = chars_of(label);
    let mut j: usize = 0;
    while j < cs.len()
        invariant
            0 <= j <= cs.len(),
            cs@ == label@,
            device_of_label(map@, label@) is None,
            first_com(cs@, 0) == first_com(cs@, j as int),
        decreases cs.len() - j,
    {
        if cs.len() >= 3 && j < cs.len() - 3 && (cs[j] == 'c' || cs[j] == 'C') && (cs[j + 1] == 'o' || cs[j + 1]
            == 'O') && (cs[j + 2] == 'm' || cs[j + 2] == 'M') && '0' <= cs[j + 3] && cs[j + 3]
            <= '9' {
            let mut k: usize = j + 3;
            while k < cs.len() && '0' <= cs[k] && cs[k] <= '9'
                invariant
                    j + 3 <= k <= cs.len(),
                    k + crate::scan::digit_run(cs@, k as int) == j + 3 + crate::scan::digit_run(
                        cs@,
                        j + 3,
                    ),
                decreases cs.len() - k,
            {
                k = k + 1;
            }
            let mut m: Vec<char> = Vec::new();
            let mut t: usize = j;
            while t < k
                invariant
                    j <= t <= k <= cs.len(),
                    m@ == cs@.subrange(j as int, t as int),
                decreases k - t,
            {
                m.push(cs[t]);
                t = t + 1;
                assert(cs@.subrange(j as int, t as int) == cs@.subrange(j as int, t - 1).push(
                    cs@[t - 1],
                ));
            }
            assert(com_at(cs@, j as int));
            assert(first_com(cs@, 0) == Some(j as int));
            assert(crate::scan::digit_run(cs@, k as int) == 0);
            let ms = crate::text::string_from_chars(m.as_slice());
            return to_upper(ms.as_str());
        }
        j = j + 1;
    }
    String::new()
}


/// A port tag "(COMn)" starts at `i`: an opening bracket, "COM", one or
/// more digits and a closing bracket.
pub open spec fn port_tag_at(s: Seq<char>, i: int) -> bool {
    let d = crate::scan::digit_run(s, i + 4);
    0 <= i && i + 4 <= s.len() && s[i] == '(' && s[i + 1] == 'C' && s[i + 2] == 'O' && s[i + 3]
        == 'M' && d >= 1 && i + 4 + d < s.len() && s[i + 4 + d] == ')'
}

/// Where the first port tag starts, from `i` on.
pub open spec fn first_port_tag(s: Seq<char>, i: int) -> Option<int>
    decreases s.len() - i,
{
    if i < 0 || i >= s.len() {
        None
    } else if port_tag_at(s, i) {
        Some(i)
    } else {
        first_port_tag(s, i + 1)
    }
}

/// The port named by the first tag "(COMn)" of a device's friendly name,
/// without the brackets.
pub open spec fn friendly_port(line: Seq<char>) -> Option<Seq<char>> {
    match first_port_tag(line, 0) {
        Some(i) => Some(line.subrange(i + 1, i + 4 + crate::scan::digit_run(line, i + 4))),
        None => None,
    }
}

/// Reads the port name out of a device's friendly name, such as "COM7"
/// out of "HUAWEI Mobile Connect - PC UI Interface (COM7)".
pub fn friendly_port_of(line: &str) -> (r: Option<String>)
    ensures
        match r {
            Some(p) => friendly_port(line@) == Some(p@),
            None => friendly_port(line@) is None,
        },
{
    let cs = chars_of(line);
    let mut j: usize = 0;
    while j < cs.len()
        invariant
            0 <= j <= cs.len(),
            cs@ == line@,
            first_port_tag(cs@, 0) == first_port_tag(cs@, j as int),
        decreases cs.len() - j,
    {
        if cs.len() >= 4 && j <= cs.len() - 4 && cs[j] == '(' && cs[j + 1] == 'C' && cs[j + 2] == 'O' && cs[j + 3]
            == 'M' {
            let k = crate::ussd::digits_end(&cs, j + 4);
            if k > j + 4 && k < cs.len() && cs[k] == ')' {
                let mut m: Vec<char> = Vec::new();
                let mut t: usize = j + 1;
                while t < k
                    invariant
                        j + 1 <= t <= k <= cs.len(),
                        m@ == cs@.subrange(j + 1, t as int),
                    decreases k - t,
                {
                    m.push(cs[t]);
                    t = t + 1;
                    assert(cs@.subrange(j + 1, t as int) == cs@.subrange(j + 1, t - 1).push(
                        cs@[t - 1],
                    ));
                }
                assert(port_tag_at(cs@, j as int));
                assert(first_port_tag(cs@, 0) == Some(j as int));
                return Some(crate::text::string_from_chars(m.as_slice()));
            }
        }
        assert(!port_tag_at(cs@, j as int));
        j = j + 1;
    }
    None
}

// ---------------------------------------------------------------------------
// Hardware changes
// ---------------------------------------------------------------------------

/// The names in a list of port names, as a set.
pub open spec fn name_set(v: Seq<String>) -> Set<Seq<char>> {
    Set::new(|n: Seq<char>| exists|i: int| 0 <= i < v.len() && #[trigger] v[i]@ == n)
}

fn holds_name(v: &[String], n: &str) -> (r: bool)
    ensures
        r == name_set(v@).contains(n@),
{
    let mut i: usize = 0;
    while i < v.len()
        invariant
            0 <= i <= v@.len(),
            forall|j: int| 0 <= j < i ==> v@[j]@ != n@,
        decreases v.len() - i,
    {
        if str_eq(v[i].as_str(), n) {
            assert(v@[i as int]@ == n@);
            return true;
        }
        i = i + 1;
    }
    false
}

/// Whether every name of `a` is in `b`.
fn all_held(a: &[String], b: &[String]) -> (r: bool)
    ensures
        r == name_set(a@).subset_of(name_set(b@)),
{
    let mut i: usize = 0;
    while i < a.len()
        invariant
            0 <= i <= a@.len(),
            forall|j: int| 0 <= j < i ==> name_set(b@).contains(#[trigger] a@[j]@),
        decreases a.len() - i,
    {
        if !holds_name(b, a[i].as_str()) {
            assert(name_set(a@).contains(a@[i as int]@));
            return false;
        }
        i = i + 1;
    }
    true
}

/// Whether the hardware changed between two looks: another set of serial
/// port names, or the remote NDIS adapter came or went.
pub fn hardware_changed(last_ports: &[String], ports: &[String], last_rndis: bool, rndis: bool) -> (r:
    bool)
    ensures
        r == (name_set(last_ports@) != name_set(ports@) || last_rndis != rndis),
{
    let same = all_held(last_ports, ports) && all_held(ports, last_ports);
    proof {
        if name_set(last_ports@).subset_of(name_set(ports@)) && name_set(ports@).subset_of(
            name_set(last_ports@),
        ) {
            assert(name_set(last_ports@) =~= name_set(ports@));
        }
    }
    !same || last_rndis != rndis
}

} // verus!
