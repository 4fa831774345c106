//! The phone book and the comma-separated recipient list of the SMS form.

use vstd::prelude::*;

use crate::text::{
    chars_of, push_str, push_string, str_eq, str_trim, string_from_chars, string_of,
    string_push, trim_spec,
};

verus! {

/// A phone book entry.
#[derive(Debug, Clone)]
pub struct Contact {
    pub name: String,
    pub number: String,
}

// ---------------------------------------------------------------------------
// Splitting on a separator
// ---------------------------------------------------------------------------

/// The pieces of `s` between occurrences of `sep` (`str::split`): `n`
/// separators give `n + 1` pieces, so the empty text is one empty piece.
pub open spec fn split_fields(s: Seq<char>, sep: char) -> Seq<Seq<char>>
    decreases s.len(),
{
    if s.len() == 0 {
        seq![Seq::empty()]
    } else {
        let f = split_fields(s.drop_last(), sep);
        if s.last() == sep {
            f.push(Seq::empty())
        } else {
            f.update(f.len() - 1, f.last().push(s.last()))
        }
    }
}

proof fn lemma_split_fields_nonempty(s: Seq<char>, sep: char)
    ensures
        split_fields(s, sep).len() >= 1,
    decreases s.len(),
{
    if s.len() > 0 {
        lemma_split_fields_nonempty(s.drop_last(), sep);
    }
}

/// Splitting gives at least one piece.
pub proof fn lemma_split_fields_nonempty_pub(s: Seq<char>, sep: char)
    ensures
        split_fields(s, sep).len() >= 1,
{
    lemma_split_fields_nonempty(s, sep);
}

/// Splits the characters of `s` on `sep`.
pub fn split_chars(s: &[char], sep: char) -> (r: Vec<Vec<char>>)
    ensures
        r@.len() == split_fields(s@, sep).len(),
        forall|i: int| 0 <= i < r@.len() ==> (#[trigger] r@[i])@ == split_fields(s@, sep)[i],
{
    let mut r: Vec<Vec<char>> = Vec::new();
    let mut cur: Vec<char> = Vec::new();
    let mut i: usize = 0;
    while i < s.len()
        invariant
            0 <= i <= s.len(),
            r@.len() + 1 == split_fields(s@.take(i as int), sep).len(),
            forall|k: int| 0 <= k < r@.len() ==> (#[trigger] r@[k])@ == split_fields(
                s@.take(i as int),
                sep,
            )[k],
            cur@ == split_fields(s@.take(i as int), sep).last(),
        decreases s.len() - i,
    {
        proof {
            lemma_split_fields_nonempty(s@.take(i as int), sep);
            assert(s@.take(i + 1).drop_last() == s@.take(i as int));
        }
        if s[i] == sep {
            r.push(cur);
            cur = Vec::new();
        } else {
            cur.push(s[i]);
        }
        i = i + 1;
    }
    assert(s@.take(s.len() as int) == s@);
    r.push(cur);
    r
}

/// The non-empty trimmed pieces, in order.
pub open spec fn nonempty_trimmed(fields: Seq<Seq<char>>) -> Seq<Seq<char>>
    decreases fields.len(),
{
    if fields.len() == 0 {
        Seq::empty()
    } else {
        let rest = nonempty_trimmed(fields.drop_last());
        if trim_spec(fields.last()).len() > 0 {
            rest.push(trim_spec(fields.last()))
        } else {
            rest
        }
    }
}

/// The recipients of a comma-separated list: every piece trimmed, empty
/// pieces dropped.
pub open spec fn recipient_list(s: Seq<char>) -> Seq<Seq<char>> {
    nonempty_trimmed(split_fields(s, ','))
}

/// Splits a comma-separated recipient list.
pub fn recipients(phone_number: &str) -> (r: Vec<String>)
    ensures
        r@.len() == recipient_list(phone_number@).len(),
        forall|i: int| 0 <= i < r@.len() ==> (#[trigger] r@[i])@ == recipient_list(phone_number@)[i],
{
    let cs = chars_of(phone_number);
    let fields = split_chars(&cs, ',');
    let ghost fs = split_fields(phone_number@, ',');
    let mut r: Vec<String> = Vec::new();
    let mut i: usize = 0;
    while i < fields.len()
        invariant
            0 <= i <= fields.len(),
            fields@.len() == fs.len(),
            forall|k: int| 0 <= k < fields@.len() ==> (#[trigger] fields@[k])@ == fs[k],
            r@.len() == nonempty_trimmed(fs.take(i as int)).len(),
            forall|k: int| 0 <= k < r@.len() ==> (#[trigger] r@[k])@ == nonempty_trimmed(
                fs.take(i as int),
            )[k],
        decreases fields.len() - i,
    {
        let piece = string_from_chars(&fields[i]);
        let t = str_trim(piece.as_str());
        assert(fs.take(i + 1).drop_last() == fs.take(i as int));
        assert(fs.take(i + 1).last() == fs[i as int]);
        if !t.is_empty() {
            r.push(string_of(t));
        }
        i = i + 1;
    }
    assert(fs.take(fields.len() as int) == fs);
    r
}

/// The first piece of a comma-separated list, trimmed
/// (`split(',').next().unwrap_or("").trim()`).
pub open spec fn first_recipient(s: Seq<char>) -> Seq<char> {
    trim_spec(split_fields(s, ',')[0])
}

proof fn lemma_split_first(s: Seq<char>, sep: char, i: int)
    requires
        0 <= i <= s.len(),
        forall|k: int| 0 <= k < i ==> s[k] != sep,
    ensures
        split_fields(s.take(i), sep).len() == 1,
        split_fields(s.take(i), sep)[0] == s.take(i),
    decreases i,
{
    if i > 0 {
        lemma_split_first(s, sep, i - 1);
        assert(s.take(i).drop_last() == s.take(i - 1));
        assert(s.take(i - 1).push(s[i - 1]) == s.take(i));
    }
}

proof fn lemma_split_first_stable(s: Seq<char>, sep: char, i: int)
    requires
        0 <= i <= s.len(),
        split_fields(s.take(i), sep).len() >= 2,
    ensures
        split_fields(s, sep)[0] == split_fields(s.take(i), sep)[0],
    decreases s.len() - i,
{
    if i < s.len() {
        assert(s.take(i + 1).drop_last() == s.take(i));
        lemma_split_first_stable(s, sep, i + 1);
    } else {
        assert(s.take(i) == s);
    }
}

/// The first recipient of a comma-separated list.
pub fn first_recipient_of(phone_number: &str) -> (r: String)
    ensures
        r@ == first_recipient(phone_number@),
{
    let cs = chars_of(phone_number);
    let mut i: usize = 0;
    while i < cs.len() && cs[i] != ','
        invariant
            0 <= i <= cs.len(),
            cs@ == phone_number@,
            forall|k: int| 0 <= k < i ==> cs@[k] != ',',
        decreases cs.len() - i,
    {
        i = i + 1;
    }
    proof {
        lemma_split_first(cs@, ',', i as int);
        if i < cs.len() {
            assert(cs@.take(i + 1).drop_last() == cs@.take(i as int));
            lemma_split_first_stable(cs@, ',', i + 1);
        } else {
            assert(cs@.take(i as int) == cs@);
        }
    }
    let mut piece: Vec<char> = Vec::new();
    let mut k: usize = 0;
    while k < i
        invariant
            0 <= k <= i <= cs.len(),
            piece@ == cs@.take(k as int),
        decreases i - k,
    {
        piece.push(cs[k]);
        k = k + 1;
        assert(cs@.take(k as int) == cs@.take(k - 1).push(cs@[k - 1]));
    }
    let ps = string_from_chars(&piece);
    string_of(str_trim(ps.as_str()))
}

// ---------------------------------------------------------------------------
// Phone book
// ---------------------------------------------------------------------------

/// How a number is shown: "name (number)" for the first phone book entry
/// whose trimmed number equals the trimmed number, else the trimmed number.
pub open spec fn contact_display(book: Seq<Contact>, phone: Seq<char>) -> Seq<char>
    decreases book.len(),
{
    let n = trim_spec(phone);
    if n.len() == 0 || book.len() == 0 {
        n
    } else if trim_spec(book[0].number@) == n {
        book[0].name@ + " ("@ + n + ")"@
    } else {
        contact_display(book.drop_first(), phone)
    }
}

/// Shows a number by the name the phone book gives it.
pub fn resolve_contact_name(book: &[Contact], phone: &str) -> (r: String)
    ensures
        r@ == contact_display(book@, phone@),
{
    let normalized = str_trim(phone);
    if normalized.is_empty() {
        return string_of(normalized);
    }
    assert(book@.subrange(0, book@.len() as int) == book@);
    let mut i: usize = 0;
    while i < book.len()
        invariant
            0 <= i <= book.len(),
            normalized@ == trim_spec(phone@),
            normalized@.len() > 0,
            contact_display(book@, phone@) == contact_display(book@.subrange(i as int, book@.len() as int), phone@),
        decreases book.len() - i,
    {
        let ghost rest = book@.subrange(i as int, book@.len() as int);
        assert(rest[0] == book@[i as int]);
        assert(rest.drop_first() == book@.subrange(i + 1, book@.len() as int));
        if str_eq(str_trim(book[i].number.as_str()), normalized) {
            let mut r = String::new();
            push_string(&mut r, &book[i].name);
            push_str(&mut r, " (");
            push_str(&mut r, normalized);
            push_str(&mut r, ")");
            return r;
        }
        i = i + 1;
    }
    string_of(normalized)
}

/// Why a new contact was not added.
#[derive(Debug, Clone, Copy, PartialEq, Eq)]
pub enum ContactError {
    /// "Please enter a name"
    MissingName,
    /// "Enter a phone number first"
    MissingPhone,
    /// "Please fill both fields"
    MissingField,
}

/// The warning shown for a refused contact.
pub fn contact_error_message(e: ContactError) -> (r: &'static str)
    ensures
        r@ == match e {
            ContactError::MissingName => "Please enter a name"@,
            ContactError::MissingPhone => "Enter a phone number first"@,
            ContactError::MissingField => "Please fill both fields"@,
        },
{
    match e {
        ContactError::MissingName => "Please enter a name",
        ContactError::MissingPhone => "Enter a phone number first",
        ContactError::MissingField => "Please fill both fields",
    }
}

/// Adds a contact for the first recipient of the SMS form under `name`
/// (both trimmed); a blank name or an empty recipient is refused.
pub fn add_current_phone_as_contact(
    book: &mut Vec<Contact>,
    phone_number: &str,
    name: &str,
) -> (r: Result<(), ContactError>)
    ensures
        trim_spec(name@).len() == 0 ==> r == Err::<(), ContactError>(ContactError::MissingName)
            && final(book)@ == old(book)@,
        trim_spec(name@).len() > 0 && first_recipient(phone_number@).len() == 0 ==> r == Err::<
            (),
            ContactError,
        >(ContactError::MissingPhone) && final(book)@ == old(book)@,
        trim_spec(name@).len() > 0 && first_recipient(phone_number@).len() > 0 ==> r is Ok
            && final(book)@.len() == old(book)@.len() + 1 && final(book)@.take(old(book)@.len() as int)
            == old(book)@ && final(book)@.last().name@ == trim_spec(name@) && final(book)@.last().number@
            == first_recipient(phone_number@),
{
    let phone = first_recipient_of(phone_number);
    let n = str_trim(name);
    if n.is_empty() {
        return Err(ContactError::MissingName);
    }
    if phone.as_str().is_empty() {
        return Err(ContactError::MissingPhone);
    }
    book.push(Contact { name: string_of(n), number: phone });
    assert(book@.take(old(book)@.len() as int) == old(book)@);
    Ok(())
}

/// Adds a contact typed into the dialog (name and number trimmed); either
/// field blank is refused.
pub fn add_manual_contact(book: &mut Vec<Contact>, name: &str, number: &str) -> (r: Result<
    (),
    ContactError,
>)
    ensures
        (trim_spec(name@).len() == 0 || trim_spec(number@).len() == 0) ==> r == Err::<
            (),
            ContactError,
        >(ContactError::MissingField) && final(book)@ == old(book)@,
        (trim_spec(name@).len() > 0 && trim_spec(number@).len() > 0) ==> r is Ok && final(book)@.len()
            == old(book)@.len() + 1 && final(book)@.take(old(book)@.len() as int) == old(book)@
            && final(book)@.last().name@ == trim_spec(name@) && final(book)@.last().number@
            == trim_spec(number@),
{
    let n = str_trim(name);
    let m = str_trim(number);
    if n.is_empty() || m.is_empty() {
        return Err(ContactError::MissingField);
    }
    book.push(Contact { name: string_of(n), number: string_of(m) });
    assert(book@.take(old(book)@.len() as int) == old(book)@);
    Ok(())
}

/// The recipient list after adding a contact's number: appended after a
/// comma to the trimmed list, or the number alone when the list is blank.
pub open spec fn with_recipient(current: Seq<char>, number: Seq<char>) -> Seq<char> {
    let t = trim_spec(current);
    if t.len() > 0 {
        t + seq![','] + number
    } else {
        number
    }
}

/// Adds a contact's number to the recipient list.
pub fn append_contact_to_recipients(phone_number: &str, contact: &Contact) -> (r: String)
    ensures
        r@ == with_recipient(phone_number@, contact.number@),
{
    let current = str_trim(phone_number);
    if !current.is_empty() {
        let mut r = string_of(current);
        string_push(&mut r, ',');
        push_string(&mut r, &contact.number);
        r
    } else {
        contact.number.clone()
    }
}

} // verus!
