use crate::command::Command;
use vstd::prelude::*;
use vstd::slice::slice_subrange;
use vstd::string::StringSliceAdditionalSpecFns;

verus! {

/// The byte that ends a record in the log.
pub const NEWLINE: u8 = 10;

/// The byte that closes the text of a record: a closing round bracket.
pub const CLOSE: u8 = 41;

/// The text that `ron::ser::to_string` gives for a string; `None` where it
/// gives an error.
pub uninterp spec fn ron_text(string: Seq<char>) -> Option<Seq<u8>>;

/// The string that `ron::de::from_bytes` reads from a text; `None` where it
/// gives an error.
pub uninterp spec fn ron_string(text: Seq<u8>) -> Option<Seq<char>>;

/// The bytes of an optional byte vector.
pub open spec fn bytes_view(bytes: Option<Vec<u8>>) -> Option<Seq<u8>> {
    match bytes {
        Some(b) => Some(b@),
        None => None,
    }
}

/// The view of an optional string.
pub open spec fn text_view(text: Option<String>) -> Option<Seq<char>> {
    match text {
        Some(t) => Some(t@),
        None => None,
    }
}

/// Calls `ron::ser::to_string` on a string and hands back the bytes of its
/// text. Nothing is claimed of the text but that it is the one the
/// serializer gives for this string.
#[verifier::external_body]
fn ron_encode(string: &String) -> (text: Option<Vec<u8>>)
    ensures
        bytes_view(text) == ron_text(string@),
{
    ron::ser::to_string(string).ok().map(String::into_bytes)
}

/// Calls `ron::de::from_bytes` on `text`, asking for a string. Nothing is
/// claimed of the string but that it is the one the deserializer reads from
/// these bytes.
#[verifier::external_body]
fn ron_decode(text: &[u8]) -> (string: Option<String>)
    ensures
        text_view(string) == ron_string(text@),
{
    ron::de::from_bytes::<String>(text).ok()
}

/// What opens the record of a command that gives a key a value.
pub open spec fn put_open() -> Seq<u8> {
    "Set(key:".spec_bytes()
}

/// What stands between the key and the value in such a record.
pub open spec fn value_mark() -> Seq<u8> {
    ",value:".spec_bytes()
}

/// What opens the record of a command that removes a key.
pub open spec fn remove_open() -> Seq<u8> {
    "Remove(key:".spec_bytes()
}

/// What `text` holds between `open` and the closing bracket, where it
/// starts with the one and ends with the other.
pub open spec fn inner_of(text: Seq<u8>, open: Seq<u8>) -> Option<Seq<u8>> {
    if open.len() < text.len() && text.subrange(0, open.len() as int) == open && text.last()
        == CLOSE {
        Some(text.subrange(open.len() as int, text.len() - 1))
    } else {
        None
    }
}

/// The key and the value that `inner` holds if it is parted at `at`: the
/// value mark stands there, what comes before it reads as a string, and so
/// does what comes after it.
pub open spec fn fields_at(inner: Seq<u8>, at: int) -> Option<(Seq<char>, Seq<char>)> {
    let end = at + value_mark().len();
    if 0 <= at && end <= inner.len() && inner.subrange(at, end) == value_mark() {
        match (ron_string(inner.subrange(0, at)), ron_string(inner.subrange(end, inner.len() as int))) {
            (Some(key), Some(value)) => Some((key, value)),
            _ => None,
        }
    } else {
        None
    }
}

/// The key and the value that `inner` holds: those of the first place at or
/// after `from` at which it can be parted.
pub open spec fn split_fields(inner: Seq<u8>, from: int) -> Option<(Seq<char>, Seq<char>)>
    decreases inner.len() - from,
{
    if from < 0 || from >= inner.len() {
        None
    } else {
        match fields_at(inner, from) {
            Some(fields) => Some(fields),
            None => split_fields(inner, from + 1),
        }
    }
}

/// The fields of the command that `text` is the record of: the key, and the
/// value where the command gives one.
pub open spec fn record_fields(text: Seq<u8>) -> Option<(Seq<char>, Option<Seq<char>>)> {
    match inner_of(text, put_open()) {
        Some(inner) => match split_fields(inner, 0) {
            Some((key, value)) => Some((key, Some(value))),
            None => None,
        },
        None => match inner_of(text, remove_open()) {
            Some(inner) => match ron_string(inner) {
                Some(key) => Some((key, None)),
                None => None,
            },
            None => None,
        },
    }
}

/// The text that the fields of a command are framed into: the opening, the
/// text of the key, for a value the mark and the text of the value, and the
/// closing bracket. `None` where a string has no text.
pub open spec fn framed(fields: (Seq<char>, Option<Seq<char>>)) -> Option<Seq<u8>> {
    match fields.1 {
        Some(value) => match (ron_text(fields.0), ron_text(value)) {
            (Some(key_text), Some(value_text)) => Some(
                put_open() + key_text + value_mark() + value_text + seq![CLOSE],
            ),
            _ => None,
        },
        None => match ron_text(fields.0) {
            Some(key_text) => Some(remove_open() + key_text + seq![CLOSE]),
            None => None,
        },
    }
}

/// Whether `text` can stand in the log as the record of the command with
/// these fields: it holds no record boundary and reads back as the fields.
pub open spec fn is_record_of(text: Seq<u8>, fields: (Seq<char>, Option<Seq<char>>)) -> bool {
    &&& !text.contains(NEWLINE)
    &&& record_fields(text) == Some(fields)
}

/// The text of the record of a command with these fields, without its
/// boundary; `None` for a command that has no record.
pub open spec fn record_text(fields: (Seq<char>, Option<Seq<char>>)) -> Option<Seq<u8>> {
    match framed(fields) {
        Some(text) => if is_record_of(text, fields) {
            Some(text)
        } else {
            None
        },
        None => None,
    }
}

/// Whether `text` holds no record boundary.
pub fn is_one_line(text: &Vec<u8>) -> (one: bool)
    ensures
        one == !text@.contains(NEWLINE),
{
    let mut i: usize = 0;
    while i < text.len()
        invariant
            i <= text.len(),
            forall|j: int| 0 <= j < i ==> text@[j] != NEWLINE,
        decreases text.len() - i,
    {
        if text[i] == NEWLINE {
            return false;
        }
        i += 1;
    }
    true
}

/// Whether `part` stands in `text` at the offset `at`.
pub fn has_at(text: &[u8], at: usize, part: &[u8]) -> (has: bool)
    ensures
        has == (at + part@.len() <= text@.len() && text@.subrange(
            at as int,
            at + part@.len(),
        ) == part@),
{
    if part.len() > text.len() || at > text.len() - part.len() {
        return false;
    }
    let mut i: usize = 0;
    while i < part.len()
        invariant
            at + part.len() <= text.len(),
            i <= part.len(),
            forall|j: int| 0 <= j < i ==> text@[at + j] == part@[j],
        decreases part.len() - i,
    {
        if text[at + i] != part[i] {
            assert(text@.subrange(at as int, at + part@.len())[i as int] == text@[at + i]);
            return false;
        }
        i += 1;
    }
    assert(text@.subrange(at as int, at + part@.len()) =~= part@);
    true
}

/// Adds the bytes of `part` to the end of `text`.
pub fn append_all(text: &mut Vec<u8>, part: &[u8])
    ensures
        final(text)@ == old(text)@ + part@,
{
    let mut i: usize = 0;
    while i < part.len()
        invariant
            i <= part.len(),
            text@ == old(text)@ + part@.subrange(0, i as int),
        decreases part.len() - i,
    {
        text.push(part[i]);
        i += 1;
        assert(text@ =~= old(text)@ + part@.subrange(0, i as int));
    }
    assert(part@.subrange(0, part@.len() as int) =~= part@);
}

/// What `text` holds between `open` and the closing bracket.
pub fn inner<'a>(text: &'a [u8], open: &[u8]) -> (inside: Option<&'a [u8]>)
    ensures
        match inner_of(text@, open@) {
            Some(bytes) => inside matches Some(found) && found@ == bytes,
            None => inside is None,
        },
{
    if open.len() < text.len() && has_at(text, 0, open) && text[text.len() - 1] == CLOSE {
        Some(slice_subrange(text, open.len(), text.len() - 1))
    } else {
        None
    }
}

/// Parts the inside of a record into its key and its value, at the first
/// value mark that has a string on either side.
pub fn split(inside: &[u8]) -> (fields: Option<(String, String)>)
    ensures
        match split_fields(inside@, 0) {
            Some((key, value)) => fields matches Some((k, v)) && k@ == key && v@ == value,
            None => fields is None,
        },
{
    let mark = ",value:".as_bytes();
    let mut at: usize = 0;
    while at < inside.len()
        invariant
            mark@ == value_mark(),
            at <= inside.len(),
            split_fields(inside@, 0) == split_fields(inside@, at as int),
        decreases inside.len() - at,
    {
        if has_at(inside, at, mark) {
            let key = ron_decode(slice_subrange(inside, 0, at));
            let value = ron_decode(slice_subrange(inside, at + mark.len(), inside.len()));
            match (key, value) {
                (Some(k), Some(v)) => {
                    return Some((k, v));
                },
                _ => {},
            }
        }
        at += 1;
    }
    None
}

/// Reads the command that the text of a record stands for.
pub fn decode(text: &[u8]) -> (command: Option<Command>)
    ensures
        match record_fields(text@) {
            Some(fields) => command matches Some(c) && c.fields() == fields,
            None => command is None,
        },
{
    match inner(text, "Set(key:".as_bytes()) {
        Some(inside) => match split(inside) {
            Some((key, value)) => Some(Command::Put { key, value }),
            None => None,
        },
        None => match inner(text, "Remove(key:".as_bytes()) {
            Some(inside) => match ron_decode(inside) {
                Some(key) => Some(Command::Remove { key }),
                None => None,
            },
            None => None,
        },
    }
}

/// Frames the fields of `command` into one text.
pub fn frame(command: &Command) -> (text: Option<Vec<u8>>)
    ensures
        bytes_view(text) == framed(command.fields()),
{
    match command {
        Command::Put { key, value } => match (ron_encode(key), ron_encode(value)) {
            (Some(key_text), Some(value_text)) => {
                let mut text: Vec<u8> = Vec::new();
                append_all(&mut text, "Set(key:".as_bytes());
                append_all(&mut text, key_text.as_slice());
                append_all(&mut text, ",value:".as_bytes());
                append_all(&mut text, value_text.as_slice());
                text.push(CLOSE);
                assert(text@ =~= put_open() + key_text@ + value_mark() + value_text@
                    + seq![CLOSE]);
                Some(text)
            },
            _ => None,
        },
        Command::Remove { key } => match ron_encode(key) {
            Some(key_text) => {
                let mut text: Vec<u8> = Vec::new();
                append_all(&mut text, "Remove(key:".as_bytes());
                append_all(&mut text, key_text.as_slice());
                text.push(CLOSE);
                assert(text@ =~= remove_open() + key_text@ + seq![CLOSE]);
                Some(text)
            },
            None => None,
        },
    }
}

/// Tests a text that was framed for `command`: it is the command's record
/// where it is one line that reads back as the command.
pub fn checked_record(command: &Command, text: Option<Vec<u8>>) -> (record: Option<Vec<u8>>)
    ensures
        match text {
            Some(t) => if is_record_of(t@, command.fields()) {
                record == text
            } else {
                record is None
            },
            None => record is None,
        },
{
    match text {
        Some(t) => {
            if !is_one_line(&t) {
                return None;
            }
            match decode(t.as_slice()) {
                Some(read) => if command.same_as(&read) {
                    Some(t)
                } else {
                    None
                },
                None => None,
            }
        },
        None => None,
    }
}

/// Writes `command` as the text of its record, without the boundary.
pub fn encode(command: &Command) -> (record: Option<Vec<u8>>)
    ensures
        bytes_view(record) == record_text(command.fields()),
{
    let text = frame(command);
    checked_record(command, text)
}

} // verus!
