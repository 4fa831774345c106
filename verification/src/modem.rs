//! The modem as the window sees it: the information panel, the connection
//! status and what each background event does to it, the handshake that
//! opens a connection, and the choices behind connecting and switching
//! the modem between its router (HiLink) and serial modes.

use vstd::prelude::*;

use crate::inbox::listing_lines;
use crate::lines::{
    first_quoted, line_signal, map_operator, network_of_line, opt_view, operator_name,
    registration, registration_of_line, signal_of_line, Registration,
};
use crate::ports::{profile_of_labels, serial_profile_label_for_ports, PortEntry};
use crate::text::{chars_of, contains, lowercase, to_lower, occurs_at, push_str, str_contains, str_eq, str_trim, string_from_chars, string_of, trim_spec};

verus! {

// ---------------------------------------------------------------------------
// The information panel
// ---------------------------------------------------------------------------

/// What the information panel shows about the modem and its cell.
#[derive(Debug, Clone)]
pub struct FullModemInfo {
    pub signal: String,
    pub operator: String,
    pub network: String,
    pub net_reg: String,
    pub tac_lac: String,
    pub cell_id: String,
    pub net_tech: String,
    pub cell_band: String,
    pub dl_earfcn: String,
    pub dl_freq: String,
    pub dl_bw: String,
    pub ul_earfcn: String,
    pub ul_freq: String,
    pub ul_bw: String,
    pub rssi: String,
    pub rsrp: String,
    pub sinr: String,
    pub rsrq: String,
}

/// Every field of the panel, as characters.
pub open spec fn info_view(i: FullModemInfo) -> Seq<Seq<char>> {
    seq![
        i.signal@,
        i.operator@,
        i.network@,
        i.net_reg@,
        i.tac_lac@,
        i.cell_id@,
        i.net_tech@,
        i.cell_band@,
        i.dl_earfcn@,
        i.dl_freq@,
        i.dl_bw@,
        i.ul_earfcn@,
        i.ul_freq@,
        i.ul_bw@,
        i.rssi@,
        i.rsrp@,
        i.sinr@,
        i.rsrq@,
    ]
}

impl Default for FullModemInfo {
    /// A panel with every field empty.
    fn default() -> (r: Self)
        ensures
            info_view(r).len() == 18,
            forall|k: int| 0 <= k < 18 ==> (#[trigger] info_view(r)[k]).len() == 0,
    {
        FullModemInfo {
            signal: String::new(),
            operator: String::new(),
            network: String::new(),
            net_reg: String::new(),
            tac_lac: String::new(),
            cell_id: String::new(),
            net_tech: String::new(),
            cell_band: String::new(),
            dl_earfcn: String::new(),
            dl_freq: String::new(),
            dl_bw: String::new(),
            ul_earfcn: String::new(),
            ul_freq: String::new(),
            ul_bw: String::new(),
            rssi: String::new(),
            rsrp: String::new(),
            sinr: String::new(),
            rsrq: String::new(),
        }
    }
}

/// The panel with field `k` set to `v` and the others as they were.
pub open spec fn info_with(before: FullModemInfo, k: int, v: Seq<char>) -> Seq<Seq<char>> {
    info_view(before).update(k, v)
}

/// The registration that the first registration line of a response gives.
pub open spec fn first_registration(lines: Seq<Seq<char>>, i: int) -> Option<
    (Seq<char>, Option<Seq<char>>, Option<Seq<char>>),
>
    decreases lines.len() - i,
{
    if i < 0 || i >= lines.len() {
        None
    } else if registration(lines[i]) is Some {
        registration(lines[i])
    } else {
        first_registration(lines, i + 1)
    }
}

impl FullModemInfo {
    /// Takes the signal from the answer to `AT+CSQ`, when it gives one.
    pub fn apply_signal_response(&mut self, resp: &str)
        ensures
            info_view(*final(self)) == match line_signal(resp@) {
                Some(t) => info_with(*old(self), 0, t),
                None => info_view(*old(self)),
            },
    {
        match signal_of_line(resp) {
            Some(t) => {
                self.signal = t;
                assert(info_view(*self) =~= info_with(*old(self), 0, self.signal@));
            },
            None => {
                assert(info_view(*self) =~= info_view(*old(self)));
            },
        }
    }

    /// Takes the operator from the answer to `AT+COPS?`: its first quoted
    /// text, named through `operator_name`.
    pub fn apply_operator_response(&mut self, resp: &str)
        ensures
            info_view(*final(self)) == match first_quoted(resp@) {
                Some(q) => info_with(*old(self), 1, operator_name(q)),
                None => info_view(*old(self)),
            },
    {
        match network_of_line(resp) {
            Some(q) => {
                self.operator = map_operator(q.as_str());
                assert(info_view(*self) =~= info_with(*old(self), 1, self.operator@));
            },
            None => {
                assert(info_view(*self) =~= info_view(*old(self)));
            },
        }
    }

    /// Takes the network mode from the answer to `AT^SYSINFOEX`: its first
    /// quoted text.
    pub fn apply_network_response(&mut self, resp: &str)
        ensures
            info_view(*final(self)) == match first_quoted(resp@) {
                Some(q) => info_with(*old(self), 2, q),
                None => info_view(*old(self)),
            },
    {
        match network_of_line(resp) {
            Some(q) => {
                self.network = q;
                assert(info_view(*self) =~= info_with(*old(self), 2, self.network@));
            },
            None => {
                assert(info_view(*self) =~= info_view(*old(self)));
            },
        }
    }

    /// Takes the registration from the answer to `AT+CREG?`: the status
    /// text, and the area and cell codes where the line gives them.
    pub fn apply_registration_response(&mut self, resp: &str)
        ensures
            match first_registration(listing_lines(resp@), 0) {
                Some((st, lac, ci)) => info_view(*final(self)) == info_view(*old(self)).update(
                    3,
                    st,
                ).update(
                    4,
                    match lac {
                        Some(l) => l,
                        None => old(self).tac_lac@,
                    },
                ).update(
                    5,
                    match ci {
                        Some(c) => c,
                        None => old(self).cell_id@,
                    },
                ),
                None => info_view(*final(self)) == info_view(*old(self)),
            },
    {
        let cs = chars_of(resp);
        let raw = crate::contacts::split_chars(&cs, '\n');
        let ghost lines = listing_lines(resp@);
        let mut i: usize = 0;
        while i < raw.len()
            invariant
                0 <= i <= raw@.len(),
                raw@.len() == lines.len(),
                lines == listing_lines(resp@),
                *self == *old(self),
                forall|t: int| 0 <= t < raw@.len() ==> (#[trigger] raw@[t])@ == crate::contacts::split_fields(
                    resp@,
                    '\n',
                )[t],
                first_registration(lines, 0) == first_registration(lines, i as int),
            decreases raw.len() - i,
        {
            let t = crate::lines::trim_chars(raw[i].as_slice());
            let ts = string_from_chars(t.as_slice());
            assert(ts@ == lines[i as int]);
            match registration_of_line(ts.as_str()) {
                Some(g) => {
                    self.net_reg = g.status;
                    match g.lac {
                        Some(l) => self.tac_lac = l,
                        None => {},
                    }
                    match g.cell_id {
                        Some(c) => self.cell_id = c,
                        None => {},
                    }
                    assert(info_view(*self) =~= info_view(*old(self)).update(3, self.net_reg@).update(
                        4,
                        self.tac_lac@,
                    ).update(5, self.cell_id@));
                    return;
                },
                None => {},
            }
            i = i + 1;
        }
    }
}

// ---------------------------------------------------------------------------
// Connection status
// ---------------------------------------------------------------------------

/// The colours the status line uses.
#[derive(Debug, Clone, Copy, PartialEq, Eq, Structural)]
pub enum StatusColor {
    Red,
    Green,
    LightBlue,
    Orange,
}

/// What the status bar knows about the connection.
#[derive(Debug)]
pub struct ConnectionState {
    pub connected: bool,
    pub detected_mode: String,
    pub status_text: String,
    pub status_color: StatusColor,
    pub mode_detection_pending: bool,
    pub serial_profile: String,
    pub displayed_serial_profile: String,
    pub com_ports: Vec<String>,
    pub manual_port: String,
    pub signal: String,
    pub operator: String,
    pub network: String,
    /// Whether a remote NDIS adapter was last seen ("Unknown" until asked).
    pub rndis_status: String,
}

/// Status text and colour after a mode was detected while disconnected:
/// kept unless the status speaks of a switch, a restart, or is
/// "Disconnected".
pub open spec fn status_after_mode(text: Seq<char>, color: StatusColor, mode: Seq<char>) -> (
    Seq<char>,
    StatusColor,
) {
    if contains(text, "Switching"@) || contains(text, "restart"@) || text == "Disconnected"@ {
        if mode == "Serial"@ {
            ("Serial mode detected (not connected)"@, StatusColor::LightBlue)
        } else if mode == "HiLink"@ {
            ("Not connected"@, StatusColor::Red)
        } else {
            ("Disconnected"@, StatusColor::Red)
        }
    } else {
        (text, color)
    }
}

impl ConnectionState {
    /// A disconnected modem of unknown mode and profile.
    pub fn new() -> (r: Self)
        ensures
            !r.connected && !r.mode_detection_pending,
            r.detected_mode@ == "Unknown"@ && r.serial_profile@ == "Unknown"@
                && r.displayed_serial_profile@ == "Unknown"@,
            r.status_text@ == "Disconnected"@ && r.status_color == StatusColor::Red,
            r.com_ports@.len() == 0,
            r.signal@ == "---"@ && r.operator@ == "---"@ && r.network@ == "---"@,
            r.rndis_status@ == "Unknown"@,
    {
        ConnectionState {
            connected: false,
            detected_mode: string_of("Unknown"),
            status_text: string_of("Disconnected"),
            status_color: StatusColor::Red,
            mode_detection_pending: false,
            serial_profile: string_of("Unknown"),
            displayed_serial_profile: string_of("Unknown"),
            com_ports: Vec::new(),
            manual_port: String::new(),
            signal: string_of("---"),
            operator: string_of("---"),
            network: string_of("---"),
            rndis_status: string_of("Unknown"),
        }
    }

    /// A report of the remote NDIS adapter: recorded, and worth a log line
    /// only when it differs from the last one (two workers may report the
    /// same state at once).
    pub fn on_rndis_status(&mut self, status: &str) -> (changed: bool)
        ensures
            changed == (status@ != old(self).rndis_status@),
            final(self).rndis_status@ == status@,
            final(self).connected == old(self).connected,
            final(self).com_ports@ == old(self).com_ports@,
            final(self).serial_profile@ == old(self).serial_profile@,
            final(self).status_text@ == old(self).status_text@,
            final(self).detected_mode@ == old(self).detected_mode@,
    {
        let changed = !str_eq(status, self.rndis_status.as_str());
        self.rndis_status = string_of(status);
        changed
    }

    /// The profile label follows the present ports, else the profile.
    pub fn update_serial_profile_label(&mut self)
        ensures
            final(self).displayed_serial_profile@ == profile_of_labels(
                old(self).com_ports@,
                old(self).serial_profile@,
            ),
            final(self).com_ports@ == old(self).com_ports@,
            final(self).serial_profile@ == old(self).serial_profile@,
            final(self).connected == old(self).connected,
            final(self).manual_port@ == old(self).manual_port@,
            final(self).status_text@ == old(self).status_text@,
            final(self).status_color == old(self).status_color,
            final(self).detected_mode@ == old(self).detected_mode@,
            final(self).mode_detection_pending == old(self).mode_detection_pending,
    {
        self.displayed_serial_profile = serial_profile_label_for_ports(
            self.com_ports.as_slice(),
            self.serial_profile.as_str(),
        );
    }

    /// A detected mode: taken while disconnected, with the status it
    /// implies; detection is no longer pending.
    pub fn on_mode(&mut self, mode: &str)
        ensures
            !final(self).mode_detection_pending,
            final(self).connected == old(self).connected,
            !old(self).connected ==> final(self).detected_mode@ == mode@ && (
            final(self).status_text@,
            final(self).status_color,
            ) == status_after_mode(old(self).status_text@, old(self).status_color, mode@),
            old(self).connected ==> final(self).detected_mode@ == old(self).detected_mode@
                && final(self).status_text@ == old(self).status_text@ && final(self).status_color
                == old(self).status_color,
    {
        if !self.connected {
            self.detected_mode = string_of(mode);
            let t = self.status_text.as_str();
            if str_contains(t, "Switching") || str_contains(t, "restart") || str_eq(
                t,
                "Disconnected",
            ) {
                if str_eq(mode, "Serial") {
                    self.status_text = string_of("Serial mode detected (not connected)");
                    self.status_color = StatusColor::LightBlue;
                } else if str_eq(mode, "HiLink") {
                    self.status_text = string_of("Not connected");
                    self.status_color = StatusColor::Red;
                } else {
                    self.status_text = string_of("Disconnected");
                    self.status_color = StatusColor::Red;
                }
            }
        }
        self.mode_detection_pending = false;
    }

    /// A detected profile: taken while disconnected, and the label follows.
    pub fn on_serial_profile(&mut self, profile: &str)
        ensures
            final(self).connected == old(self).connected,
            final(self).serial_profile@ == (if old(self).connected {
                old(self).serial_profile@
            } else {
                profile@
            }),
            final(self).com_ports@ == old(self).com_ports@,
    {
        if !self.connected {
            self.serial_profile = string_of(profile);
            self.update_serial_profile_label();
        }
    }

    /// A fresh port list: the proposed port is taken when there is one or
    /// nothing was chosen yet; the detected profile is taken while
    /// disconnected; the label follows.
    pub fn on_com_ports(&mut self, ports: Vec<String>, manual: &str, profile: &str)
        ensures
            final(self).connected == old(self).connected,
            final(self).com_ports@ == ports@,
            final(self).manual_port@ == (if manual@.len() > 0 || old(self).manual_port@.len() == 0 {
                manual@
            } else {
                old(self).manual_port@
            }),
            final(self).serial_profile@ == (if old(self).connected {
                old(self).serial_profile@
            } else {
                profile@
            }),
            final(self).displayed_serial_profile@ == profile_of_labels(
                ports@,
                final(self).serial_profile@,
            ),
    {
        self.com_ports = ports;
        if !manual.is_empty() || self.manual_port.as_str().is_empty() {
            self.manual_port = string_of(manual);
        }
        if !self.connected {
            self.serial_profile = string_of(profile);
        }
        self.update_serial_profile_label();
    }

    /// The connection opened on `port`, whose own profile is `detected`
    /// ("Unknown" leaves the profile chosen in the settings).
    pub fn on_connected(&mut self, port: &str, detected: &str, switch_mode: &str)
        ensures
            final(self).connected,
            final(self).status_text@ == "Connected: "@ + port@,
            final(self).status_color == StatusColor::Green,
            final(self).serial_profile@ == (if detected@ == "Unknown"@ {
                switch_mode@
            } else {
                detected@
            }),
            final(self).displayed_serial_profile@ == profile_of_labels(
                old(self).com_ports@,
                final(self).serial_profile@,
            ),
    {
        self.connected = true;
        let mut t = string_of("Connected: ");
        push_str(&mut t, port);
        self.status_text = t;
        self.status_color = StatusColor::Green;
        self.serial_profile = if str_eq(detected, "Unknown") {
            string_of(switch_mode)
        } else {
            string_of(detected)
        };
        self.update_serial_profile_label();
    }

    /// The connection closed.
    pub fn on_disconnect(&mut self)
        ensures
            !final(self).connected && !final(self).mode_detection_pending,
            final(self).status_text@ == "Disconnected"@ && final(self).status_color
                == StatusColor::Red,
            final(self).signal@ == "---"@ && final(self).operator@ == "---"@
                && final(self).network@ == "---"@,
            final(self).serial_profile@ == old(self).serial_profile@,
    {
        self.connected = false;
        self.mode_detection_pending = false;
        self.status_text = string_of("Disconnected");
        self.status_color = StatusColor::Red;
        self.signal = string_of("---");
        self.operator = string_of("---");
        self.network = string_of("---");
    }
}

// ---------------------------------------------------------------------------
// Opening a connection
// ---------------------------------------------------------------------------

/// The steps of the handshake: the modem answers, the SIM is ready, PDU
/// mode is set.
#[derive(Debug, Clone, Copy, PartialEq, Eq, Structural)]
pub enum HandshakeStep {
    Attention,
    SimCheck,
    PduMode,
}

/// What follows an answer during the handshake.
#[derive(Debug, Clone, Copy, PartialEq, Eq, Structural)]
pub enum HandshakeOutcome {
    Next(HandshakeStep),
    Connected,
    /// The connection fails; the step tells why.
    Failed(HandshakeStep),
}

/// The command each step sends.
pub open spec fn step_command(s: HandshakeStep) -> Seq<char> {
    match s {
        HandshakeStep::Attention => "AT"@,
        HandshakeStep::SimCheck => "AT+CPIN?"@,
        HandshakeStep::PduMode => "AT+CMGF=0"@,
    }
}

/// Sends the command of a step.
pub fn handshake_command(s: HandshakeStep) -> (r: &'static str)
    ensures
        r@ == step_command(s),
{
    match s {
        HandshakeStep::Attention => "AT",
        HandshakeStep::SimCheck => "AT+CPIN?",
        HandshakeStep::PduMode => "AT+CMGF=0",
    }
}

/// What an answer leads to: "OK" to the first and last steps, "READY" to
/// the SIM check, moves on; anything else fails.
pub open spec fn handshake_next(s: HandshakeStep, resp: Seq<char>) -> HandshakeOutcome {
    match s {
        HandshakeStep::Attention => if contains(resp, "OK"@) {
            HandshakeOutcome::Next(HandshakeStep::SimCheck)
        } else {
            HandshakeOutcome::Failed(s)
        },
        HandshakeStep::SimCheck => if contains(resp, "READY"@) {
            HandshakeOutcome::Next(HandshakeStep::PduMode)
        } else {
            HandshakeOutcome::Failed(s)
        },
        HandshakeStep::PduMode => if contains(resp, "OK"@) {
            HandshakeOutcome::Connected
        } else {
            HandshakeOutcome::Failed(s)
        },
    }
}

/// Judges the answer to a handshake step.
pub fn handshake_reply(s: HandshakeStep, resp: &str) -> (r: HandshakeOutcome)
    ensures
        r == handshake_next(s, resp@),
{
    match s {
        HandshakeStep::Attention => if str_contains(resp, "OK") {
            HandshakeOutcome::Next(HandshakeStep::SimCheck)
        } else {
            HandshakeOutcome::Failed(s)
        },
        HandshakeStep::SimCheck => if str_contains(resp, "READY") {
            HandshakeOutcome::Next(HandshakeStep::PduMode)
        } else {
            HandshakeOutcome::Failed(s)
        },
        HandshakeStep::PduMode => if str_contains(resp, "OK") {
            HandshakeOutcome::Connected
        } else {
            HandshakeOutcome::Failed(s)
        },
    }
}

/// Why a handshake failed, as the log says it.
pub open spec fn failure_text(s: HandshakeStep) -> Seq<char> {
    match s {
        HandshakeStep::Attention => "Connection failed: Modem not responding"@,
        HandshakeStep::SimCheck => "Connection failed: SIM not ready"@,
        HandshakeStep::PduMode => "Connection failed: Failed to set PDU mode"@,
    }
}

/// The log line for a failed step.
pub fn handshake_failure(s: HandshakeStep) -> (r: &'static str)
    ensures
        r@ == failure_text(s),
{
    match s {
        HandshakeStep::Attention => "Connection failed: Modem not responding",
        HandshakeStep::SimCheck => "Connection failed: SIM not ready",
        HandshakeStep::PduMode => "Connection failed: Failed to set PDU mode",
    }
}

// ---------------------------------------------------------------------------
// Choices behind connecting and switching
// ---------------------------------------------------------------------------

/// The router address to use: the trimmed setting, or the usual default.
pub open spec fn modem_address(ip: Seq<char>) -> Seq<char> {
    if trim_spec(ip).len() == 0 {
        "192.168.8.1"@
    } else {
        trim_spec(ip)
    }
}

/// Chooses the router address.
pub fn modem_address_of(ip: &str) -> (r: String)
    ensures
        r@ == modem_address(ip@),
{
    let t = str_trim(ip);
    if t.is_empty() {
        string_of("192.168.8.1")
    } else {
        string_of(t)
    }
}

/// The baud rate of the settings, 9600 when it is not a number.
pub fn baud_of(text: &str) -> (r: u32)
    ensures
        r == match crate::schedule::parse_u32(text@) {
            Some(v) => v,
            None => 9600,
        },
{
    match crate::schedule::parse_u32_text(text) {
        Some(v) => v,
        None => 9600,
    }
}

/// A lower-cased port description names a PC UI interface.
pub open spec fn pcui_text(desc_lower: Seq<char>) -> bool {
    contains(desc_lower, "fc - pc ui"@) || contains(desc_lower, "pc ui"@)
}

/// Whether a lower-cased port description is a PC UI interface.
pub fn is_pcui_description(desc_lower: &str) -> (r: bool)
    ensures
        r == pcui_text(desc_lower@),
{
    str_contains(desc_lower, "fc - pc ui") || str_contains(desc_lower, "pc ui")
}

/// The device name of the first port whose label, lower-cased, names a PC
/// UI interface.
pub open spec fn first_pcui_port(ports: Seq<PortEntry>) -> Option<Seq<char>>
    decreases ports.len(),
{
    if ports.len() == 0 {
        None
    } else if pcui_text(lowercase(ports[0].label@)) {
        Some(ports[0].name@)
    } else {
        first_pcui_port(ports.drop_first())
    }
}

/// Finds the PC UI port among the present ports, the one to connect to
/// after the modem was switched to its project mode.
pub fn pcui_port_of(ports: &[PortEntry]) -> (r: Option<String>)
    ensures
        opt_view(r) == first_pcui_port(ports@),
{
    assert(ports@.subrange(0, ports@.len() as int) == ports@);
    let mut i: usize = 0;
    while i < ports.len()
        invariant
            0 <= i <= ports@.len(),
            first_pcui_port(ports@) == first_pcui_port(ports@.subrange(i as int, ports@.len() as int)),
        decreases ports.len() - i,
    {
        let ghost rest = ports@.subrange(i as int, ports@.len() as int);
        assert(rest[0] == ports@[i as int]);
        assert(rest.drop_first() == ports@.subrange(i + 1, ports@.len() as int));
        let lower = to_lower(ports[i].label.as_str());
        if is_pcui_description(lower.as_str()) {
            return Some(string_of(ports[i].name.as_str()));
        }
        i = i + 1;
    }
    None
}

/// How a connection is to be made.
#[derive(Debug, Clone, Copy, PartialEq, Eq, Structural)]
pub enum ConnectPlan {
    /// The router network is up and the modem is already in the wanted
    /// mode: connect to its PC UI port.
    PcUiPort,
    /// The router network is up: switch the mode over HTTP, then wait for
    /// the PC UI port.
    SwitchThenWait,
    /// The modem is in another serial profile: reset it to router mode,
    /// then switch.
    ResetAndSwitch,
    /// Connect to the port chosen in the settings.
    ChosenPort,
    /// No port is chosen.
    NoPort,
}

/// The plan of a connection attempt.
pub open spec fn connect_plan(
    rndis_available: bool,
    detected: Seq<char>,
    switch_mode: Seq<char>,
    current_profile: Seq<char>,
    manual_port: Seq<char>,
) -> ConnectPlan {
    if rndis_available {
        if detected == switch_mode {
            ConnectPlan::PcUiPort
        } else {
            ConnectPlan::SwitchThenWait
        }
    } else if current_profile != switch_mode {
        ConnectPlan::ResetAndSwitch
    } else if manual_port.len() == 0 {
        ConnectPlan::NoPort
    } else {
        ConnectPlan::ChosenPort
    }
}

/// Plans a connection attempt.
pub fn plan_connection(
    rndis_available: bool,
    detected: &str,
    switch_mode: &str,
    current_profile: &str,
    manual_port: &str,
) -> (r: ConnectPlan)
    ensures
        r == connect_plan(rndis_available, detected@, switch_mode@, current_profile@, manual_port@),
{
    if rndis_available {
        if str_eq(detected, switch_mode) {
            ConnectPlan::PcUiPort
        } else {
            ConnectPlan::SwitchThenWait
        }
    } else if !str_eq(current_profile, switch_mode) {
        ConnectPlan::ResetAndSwitch
    } else if manual_port.is_empty() {
        ConnectPlan::NoPort
    } else {
        ConnectPlan::ChosenPort
    }
}

/// What the mode switch of the menu does.
#[derive(Debug)]
pub enum SwitchAction {
    /// Disconnect, then reset the modem on this port into router mode.
    ResetConnected(String),
    /// Reset the modem on this (not connected) serial port into router
    /// mode.
    ResetSelected(String),
    /// No serial port to reset.
    NoPort,
    /// Ask the router over HTTP to switch to serial mode.
    SwitchOverHttp,
}

/// The action of the mode switch: a connected modem is reset on its port
/// (or the chosen one); a modem seen in serial mode is reset on the chosen
/// port; otherwise the router is asked to switch.
pub open spec fn switch_action_matches(
    r: SwitchAction,
    connected: bool,
    connected_port: Option<Seq<char>>,
    chosen_device: Seq<char>,
    detected_mode: Seq<char>,
    serial_profile: Seq<char>,
) -> bool {
    if connected {
        let port = match connected_port {
            Some(p) => p,
            None => chosen_device,
        };
        if port.len() == 0 {
            r is NoPort
        } else {
            r matches SwitchAction::ResetConnected(p) && p@ == port
        }
    } else if detected_mode == "Serial"@ || serial_profile == "Project Mode"@ || serial_profile
        == "Debug Mode"@ {
        if chosen_device.len() == 0 {
            r is NoPort
        } else {
            r matches SwitchAction::ResetSelected(p) && p@ == chosen_device
        }
    } else {
        r is SwitchOverHttp
    }
}

/// Chooses the action of the mode switch.
pub fn switch_action(
    connected: bool,
    connected_port: Option<&str>,
    chosen_device: &str,
    detected_mode: &str,
    serial_profile: &str,
) -> (r: SwitchAction)
    ensures
        switch_action_matches(
            r,
            connected,
            match connected_port {
                Some(p) => Some(p@),
                None => None,
            },
            chosen_device@,
            detected_mode@,
            serial_profile@,
        ),
{
    if connected {
        let port = match connected_port {
            Some(p) => string_of(p),
            None => string_of(chosen_device),
        };
        if port.as_str().is_empty() {
            SwitchAction::NoPort
        } else {
            SwitchAction::ResetConnected(port)
        }
    } else if str_eq(detected_mode, "Serial") || str_eq(serial_profile, "Project Mode") || str_eq(
        serial_profile,
        "Debug Mode",
    ) {
        if chosen_device.is_empty() {
            SwitchAction::NoPort
        } else {
            SwitchAction::ResetSelected(string_of(chosen_device))
        }
    } else {
        SwitchAction::SwitchOverHttp
    }
}

/// The page and switch type of the router's mode switch: debug mode uses
/// its own page and type "1"; any other mode the project page and "0".
pub open spec fn switch_request(switch_mode: Seq<char>) -> (Seq<char>, Seq<char>) {
    if switch_mode == "Debug Mode"@ {
        ("switchDebugMode.html"@, "1"@)
    } else {
        ("switchProjectMode.html"@, "0"@)
    }
}

/// The body posted to the router to switch modes.
pub open spec fn switch_payload(switch_type: Seq<char>) -> Seq<char> {
    "<api version=\"1.0\"><header><function>switchMode</function></header><body><request><switchType>"@
        + switch_type + "</switchType></request></body></api>"@
}

/// The switch page, type and request body for a mode.
pub fn switch_request_for(switch_mode: &str) -> (r: (&'static str, &'static str, String))
    ensures
        r.0@ == switch_request(switch_mode@).0,
        r.1@ == switch_request(switch_mode@).1,
        r.2@ == switch_payload(switch_request(switch_mode@).1),
{
    let (page, kind): (&'static str, &'static str) = if str_eq(switch_mode, "Debug Mode") {
        ("switchDebugMode.html", "1")
    } else {
        ("switchProjectMode.html", "0")
    };
    let mut body = string_of(
        "<api version=\"1.0\"><header><function>switchMode</function></header><body><request><switchType>",
    );
    push_str(&mut body, kind);
    push_str(&mut body, "</switchType></request></body></api>");
    (page, kind, body)
}

/// Whether the router answered like a live HiLink router: 200 or 401 from
/// its information page, or 200, 302 or 401 from its front page.
pub open spec fn hilink_answer_ok(status: u16, front_page: bool) -> bool {
    status == 200 || status == 401 || (front_page && status == 302)
}

/// Judges an HTTP status from the router.
pub fn hilink_status_ok(status: u16, front_page: bool) -> (r: bool)
    ensures
        r == hilink_answer_ok(status, front_page),
{
    status == 200 || status == 401 || (front_page && status == 302)
}

/// Whether the information page of a router looks like a Huawei modem's.
pub open spec fn looks_like_modem(success: bool, body: Seq<char>) -> bool {
    success && (contains(body, "Huawei"@) || contains(body, "DeviceName"@) || contains(
        body,
        "<Response>"@,
    ))
}

/// Judges the information page of a candidate router address.
pub fn looks_like_modem_page(success: bool, body: &str) -> (r: bool)
    ensures
        r == looks_like_modem(success, body@),
{
    success && (str_contains(body, "Huawei") || str_contains(body, "DeviceName") || str_contains(
        body,
        "<Response>",
    ))
}


/// The addresses a router-mode modem usually answers on, in the order they
/// are tried.
pub open spec fn router_address_list() -> Seq<&'static str> {
    Seq::empty().push("192.168.8.1").push("192.168.9.1").push("192.168.1.1").push(
        "192.168.0.1",
    ).push("10.0.0.138")
}

/// Lists the addresses to try when looking for the modem's router.
pub fn router_addresses() -> (r: Vec<&'static str>)
    ensures
        r@ == router_address_list(),
{
    let mut v: Vec<&'static str> = Vec::new();
    v.push("192.168.8.1");
    v.push("192.168.9.1");
    v.push("192.168.1.1");
    v.push("192.168.0.1");
    v.push("10.0.0.138");
    v
}

/// The commands that prepare a freshly connected modem, in order:
/// registration reports with area and cell, signal reports, periodic
/// status reports off, messages stored in the modem's own memory (chosen
/// before routing is set), and new messages and status reports stored
/// with a notice.
pub open spec fn init_command_list() -> Seq<&'static str> {
    Seq::empty().push("AT+CREG=2").push("AT+CGREG=2").push("AT^HCSQ=1").push("AT^CURC=0").push(
        "AT+CPMS=\"ME\",\"ME\",\"ME\"",
    ).push("AT+CNMI=2,0,0,2,1")
}

/// Lists the commands that prepare a freshly connected modem.
pub fn modem_init_commands() -> (r: Vec<&'static str>)
    ensures
        r@ == init_command_list(),
{
    let mut v: Vec<&'static str> = Vec::new();
    v.push("AT+CREG=2");
    v.push("AT+CGREG=2");
    v.push("AT^HCSQ=1");
    v.push("AT^CURC=0");
    v.push("AT+CPMS=\"ME\",\"ME\",\"ME\"");
    v.push("AT+CNMI=2,0,0,2,1");
    v
}

/// The colours of the signal reading.
#[derive(Debug, Clone, Copy, PartialEq, Eq, Structural)]
pub enum SignalColor {
    Gray,
    Green,
    Yellow,
    Red,
}

/// The colour of a signal reading such as "3/5 (21)": by the raw value in
/// brackets, green from 20, yellow from 12, red below; grey while there is
/// no reading or no signal.
pub open spec fn signal_color(signal: Seq<char>) -> SignalColor {
    if signal == "---"@ || contains(signal, "No signal"@) {
        SignalColor::Gray
    } else {
        match crate::scan::tagged_u32(signal, "("@) {
            Some(v) => if v > i32::MAX {
                SignalColor::Gray
            } else if v >= 20 {
                SignalColor::Green
            } else if v >= 12 {
                SignalColor::Yellow
            } else {
                SignalColor::Red
            },
            None => SignalColor::Gray,
        }
    }
}

/// Colours a signal reading.
pub fn get_signal_color(signal: &str) -> (r: SignalColor)
    ensures
        r == signal_color(signal@),
{
    if str_eq(signal, "---") || str_contains(signal, "No signal") {
        return SignalColor::Gray;
    }
    let cs = chars_of(signal);
    let tag = chars_of("(");
    match crate::scan::tagged_number(&cs, &tag) {
        Some(v) => if v > 2147483647 {
            SignalColor::Gray
        } else if v >= 20 {
            SignalColor::Green
        } else if v >= 12 {
            SignalColor::Yellow
        } else {
            SignalColor::Red
        },
        None => SignalColor::Gray,
    }
}

/// The mode that a detected profile means while no connection is open: a
/// known serial profile means serial mode.
pub fn mode_for_profile(profile: &str) -> (r: &'static str)
    ensures
        r@ == (if profile@ != "Unknown"@ {
            "Serial"@
        } else {
            "Unknown"@
        }),
{
    if !str_eq(profile, "Unknown") {
        "Serial"
    } else {
        "Unknown"
    }
}

/// Position of the first occurrence of `p` in `s` from `i` on.
pub open spec fn find_from(s: Seq<char>, p: Seq<char>, i: int) -> Option<int>
    decreases s.len() + 1 - i,
{
    if i < 0 || i > s.len() {
        None
    } else if occurs_at(s, p, i) {
        Some(i)
    } else {
        find_from(s, p, i + 1)
    }
}

proof fn lemma_find_from_bounds(s: Seq<char>, p: Seq<char>, i: int)
    requires
        0 <= i,
    ensures
        match find_from(s, p, i) {
            Some(k) => i <= k && k + p.len() <= s.len() && occurs_at(s, p, k),
            None => true,
        },
    decreases s.len() + 1 - i,
{
    if i <= s.len() && !occurs_at(s, p, i) {
        lemma_find_from_bounds(s, p, i + 1);
    }
}

pub(crate) fn find_chars(s: &[char], p: &[char], i: usize) -> (r: Option<usize>)
    requires
        i <= s.len(),
    ensures
        match r {
            Some(k) => find_from(s@, p@, i as int) == Some(k as int) && k + p@.len() <= s@.len(),
            None => find_from(s@, p@, i as int) is None,
        },
{
    let mut k: usize = i;
    while k <= s.len()
        invariant
            i <= k <= s.len() + 1,
            find_from(s@, p@, i as int) == find_from(s@, p@, k as int),
        decreases s.len() + 1 - k,
    {
        if crate::text::matches_at(s, p, k) {
            proof {
                lemma_find_from_bounds(s@, p@, k as int);
            }
            return Some(k);
        }
        if k == s.len() {
            assert(find_from(s@, p@, k + 1) is None);
            return None;
        }
        k = k + 1;
    }
    None
}

/// The value of the `csrf_token` tag of the router's switch page: the text
/// after the first `content="` that follows the first "csrf_token", up to
/// the next '"'.
pub open spec fn csrf_token(page: Seq<char>) -> Option<Seq<char>> {
    match find_from(page, "csrf_token"@, 0) {
        None => None,
        Some(a) => match find_from(page, "content=\""@, a) {
            None => None,
            Some(c) => {
                let v = c + 9;
                match find_from(page, "\""@, v) {
                    None => None,
                    Some(e) => Some(page.subrange(v, e)),
                }
            },
        },
    }
}

/// Reads the request token of the router's switch page.
pub fn csrf_token_of(page: &str) -> (r: Option<String>)
    ensures
        opt_view(r) == csrf_token(page@),
{
    let cs = chars_of(page);
    let t1 = chars_of("csrf_token");
    let t2 = chars_of("content=\"");
    let t3 = chars_of("\"");
    proof {
        reveal_strlit("content=\"");
    }
    assert(t2@.len() == 9);
    let a = match find_chars(&cs, &t1, 0) {
        Some(a) => a,
        None => return None,
    };
    let c = match find_chars(&cs, &t2, a) {
        Some(c) => c,
        None => return None,
    };
    assert(c + t2@.len() <= cs@.len());
    assert(c + 9 <= cs.len());
    let v = c + 9;
    let e = match find_chars(&cs, &t3, v) {
        Some(e) => e,
        None => return None,
    };
    proof {
        lemma_find_from_bounds(cs@, t3@, v as int);
    }
    let mut out: Vec<char> = Vec::new();
    let mut k: usize = v;
    while k < e
        invariant
            v <= k <= e <= cs@.len(),
            out@ == cs@.subrange(v as int, k as int),
        decreases e - k,
    {
        out.push(cs[k]);
        k = k + 1;
        assert(cs@.subrange(v as int, k as int) == cs@.subrange(v as int, k - 1).push(cs@[k - 1]));
    }
    Some(string_from_chars(out.as_slice()))
}

} // verus!
