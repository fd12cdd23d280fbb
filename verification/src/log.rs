use crate::codec::{decode, is_record_of, record_fields, NEWLINE};
use crate::command::Command;
use vstd::hash_map::StringHashMap;
use vstd::prelude::*;
use vstd::slice::slice_subrange;

verus! {

/// The position of the first record boundary of `log` at or after `from`,
/// or the length of `log` where there is none.
pub open spec fn line_end(log: Seq<u8>, from: int) -> int
    decreases log.len() - from,
{
    if from < 0 || from >= log.len() {
        log.len() as int
    } else if log[from] == NEWLINE {
        from
    } else {
        line_end(log, from + 1)
    }
}

/// The fields of the record that starts at `offset`, where the bytes from
/// there to the next boundary are a record.
pub open spec fn record_at(log: Seq<u8>, offset: int) -> Option<(Seq<char>, Option<Seq<char>>)> {
    if 0 <= offset < log.len() && line_end(log, offset) < log.len() {
        record_fields(log.subrange(offset, line_end(log, offset)))
    } else {
        None
    }
}

/// The index after the record with these fields, found at `offset`, has
/// been applied: a record with a value binds its key to `offset`, one
/// without unbinds its key.
pub open spec fn apply(
    index: Map<Seq<char>, usize>,
    fields: (Seq<char>, Option<Seq<char>>),
    offset: int,
) -> Map<Seq<char>, usize> {
    match fields.1 {
        Some(_) => index.insert(fields.0, offset as usize),
        None => index.remove(fields.0),
    }
}

/// The index that comes of applying, to `index`, each record of `log` from
/// the offset `from` on, in order; `None` where the bytes from there on are
/// not a run of records, each with its boundary.
pub open spec fn replay(log: Seq<u8>, from: int, index: Map<Seq<char>, usize>) -> Option<
    Map<Seq<char>, usize>,
>
    decreases log.len() - from,
    via replay_advances
{
    if from < 0 || from >= log.len() {
        Some(index)
    } else {
        match record_at(log, from) {
            Some(fields) => replay(log, line_end(log, from) + 1, apply(index, fields, from)),
            None => None,
        }
    }
}

#[via_fn]
proof fn replay_advances(log: Seq<u8>, from: int, index: Map<Seq<char>, usize>) {
    if 0 <= from < log.len() {
        lemma_line_end_is_first(log, from);
    }
}

/// Whether `index` binds `key` to the offset of a record of `log` that
/// gives `key` a value.
pub open spec fn points_at_value(log: Seq<u8>, index: Map<Seq<char>, usize>, key: Seq<char>) -> bool {
    match record_at(log, index[key] as int) {
        Some(fields) => fields.0 == key && fields.1 is Some,
        None => false,
    }
}

/// Whether every key of `index` is bound to the offset of a record of `log`
/// that gives that key a value.
pub open spec fn index_fits(log: Seq<u8>, index: Map<Seq<char>, usize>) -> bool {
    forall|key: Seq<char>| #[trigger] index.contains_key(key) ==> points_at_value(log, index, key)
}

/// `line_end` lies between `from` and the end of the log, no byte before
/// it from `from` on is a boundary, and it is one unless it is the end.
pub proof fn lemma_line_end_is_first(log: Seq<u8>, from: int)
    requires
        0 <= from <= log.len(),
    ensures
        from <= line_end(log, from) <= log.len(),
        forall|i: int| from <= i < line_end(log, from) ==> log[i] != NEWLINE,
        line_end(log, from) < log.len() ==> log[line_end(log, from)] == NEWLINE,
    decreases log.len() - from,
{
    if from < log.len() && log[from] != NEWLINE {
        lemma_line_end_is_first(log, from + 1);
    }
}

/// A position that no boundary comes before, and that is a boundary or the
/// end of the log, is the `line_end`.
pub proof fn lemma_line_end_found(log: Seq<u8>, from: int, end: int)
    requires
        0 <= from <= end <= log.len(),
        forall|i: int| from <= i < end ==> log[i] != NEWLINE,
        end < log.len() ==> log[end] == NEWLINE,
    ensures
        line_end(log, from) == end,
    decreases end - from,
{
    if from < end {
        lemma_line_end_found(log, from + 1, end);
    }
}

/// A record that ends inside `log` is the same record in any log that
/// `log` begins.
pub proof fn lemma_record_kept(log: Seq<u8>, more: Seq<u8>, offset: int)
    requires
        0 <= offset < log.len(),
        line_end(log, offset) < log.len(),
    ensures
        line_end(log + more, offset) == line_end(log, offset),
        record_at(log + more, offset) == record_at(log, offset),
{
    let end = line_end(log, offset);
    lemma_line_end_is_first(log, offset);
    lemma_line_end_found(log + more, offset, end);
    assert((log + more).subrange(offset, end) =~= log.subrange(offset, end));
}

/// The record that was appended to `log` starts at the old end of `log` and
/// ends at the new one.
pub proof fn lemma_record_appended(
    log: Seq<u8>,
    text: Seq<u8>,
    fields: (Seq<char>, Option<Seq<char>>),
)
    requires
        is_record_of(text, fields),
    ensures
        line_end(log + text + seq![NEWLINE], log.len() as int) == log.len() + text.len(),
        record_at(log + text + seq![NEWLINE], log.len() as int) == Some(fields),
{
    let grown = log + text + seq![NEWLINE];
    let start = log.len() as int;
    let end = start + text.len();
    assert forall|i: int| start <= i < end implies grown[i] != NEWLINE by {
        assert(grown[i] == text[i - start]);
    }
    lemma_line_end_found(grown, start, end);
    assert(grown.subrange(start, end) =~= text);
}

/// Replaying a log that grew by one record gives what replaying the log
/// gave, with that record applied at the offset where it was appended.
pub proof fn lemma_replay_appended(
    log: Seq<u8>,
    from: int,
    index: Map<Seq<char>, usize>,
    text: Seq<u8>,
    fields: (Seq<char>, Option<Seq<char>>),
)
    requires
        0 <= from <= log.len(),
        replay(log, from, index) is Some,
        is_record_of(text, fields),
    ensures
        replay(log + text + seq![NEWLINE], from, index) == Some(
            apply(replay(log, from, index).unwrap(), fields, log.len() as int),
        ),
    decreases log.len() - from,
{
    let grown = log + text + seq![NEWLINE];
    if from == log.len() {
        lemma_record_appended(log, text, fields);
        assert(replay(grown, grown.len() as int, apply(index, fields, from)) == Some(
            apply(index, fields, from),
        ));
    } else {
        let end = line_end(log, from);
        lemma_line_end_is_first(log, from);
        assert(grown =~= log + (text + seq![NEWLINE]));
        lemma_record_kept(log, text + seq![NEWLINE], from);
        lemma_replay_appended(log, end + 1, apply(index, record_at(log, from).unwrap(), from), text, fields);
    }
}

/// Whether `log` is empty or ends in a record boundary.
pub open spec fn is_terminated(log: Seq<u8>) -> bool {
    log.len() == 0 || log.last() == NEWLINE
}

/// Replaying a log that ended in a boundary and grew by one record: where
/// the log could be replayed, the result is what that gave with the new
/// record applied; where it could not, the grown log cannot be either.
pub proof fn lemma_replay_grown(
    log: Seq<u8>,
    from: int,
    index: Map<Seq<char>, usize>,
    text: Seq<u8>,
    fields: (Seq<char>, Option<Seq<char>>),
)
    requires
        0 <= from <= log.len(),
        is_terminated(log),
        is_record_of(text, fields),
    ensures
        replay(log + text + seq![NEWLINE], from, index) == match replay(log, from, index) {
            Some(found) => Some(apply(found, fields, log.len() as int)),
            None => None,
        },
    decreases log.len() - from,
{
    let grown = log + text + seq![NEWLINE];
    if from == log.len() {
        lemma_replay_appended(log, from, index, text, fields);
    } else {
        let end = line_end(log, from);
        lemma_line_end_is_first(log, from);
        assert(end < log.len()) by {
            assert(log[log.len() - 1] == NEWLINE);
        }
        assert(grown =~= log + (text + seq![NEWLINE]));
        lemma_record_kept(log, text + seq![NEWLINE], from);
        match record_at(log, from) {
            Some(read) => {
                lemma_replay_grown(log, end + 1, apply(index, read, from), text, fields);
            },
            None => {},
        }
    }
}

/// Whether a record of `log` at or after the offset `from` gives `key` a
/// value.
pub open spec fn gives_value(log: Seq<u8>, from: int, key: Seq<char>) -> bool
    decreases log.len() - from,
    via gives_value_advances
{
    if from < 0 || from >= log.len() {
        false
    } else {
        match record_at(log, from) {
            Some(fields) => (fields.0 == key && fields.1 is Some) || gives_value(
                log,
                line_end(log, from) + 1,
                key,
            ),
            None => false,
        }
    }
}

#[via_fn]
proof fn gives_value_advances(log: Seq<u8>, from: int, key: Seq<char>) {
    if 0 <= from < log.len() {
        lemma_line_end_is_first(log, from);
    }
}

/// Replay binds no key that the index did not hold and that no record
/// gives a value.
pub proof fn lemma_replay_binds_given(
    log: Seq<u8>,
    from: int,
    index: Map<Seq<char>, usize>,
    key: Seq<char>,
)
    requires
        0 <= from,
        !index.contains_key(key),
        !gives_value(log, from, key),
        replay(log, from, index) is Some,
    ensures
        !replay(log, from, index).unwrap().contains_key(key),
    decreases log.len() - from,
{
    if from < log.len() {
        lemma_line_end_is_first(log, from);
        let fields = record_at(log, from).unwrap();
        lemma_replay_binds_given(log, line_end(log, from) + 1, apply(index, fields, from), key);
    }
}

/// An index that fits a log fits the log grown by one record, with that
/// record applied at the offset where it was appended.
pub proof fn lemma_fits_appended(
    log: Seq<u8>,
    index: Map<Seq<char>, usize>,
    text: Seq<u8>,
    fields: (Seq<char>, Option<Seq<char>>),
)
    requires
        index_fits(log, index),
        is_record_of(text, fields),
        log.len() <= usize::MAX,
    ensures
        index_fits(log + text + seq![NEWLINE], apply(index, fields, log.len() as int)),
{
    let grown = log + text + seq![NEWLINE];
    let next = apply(index, fields, log.len() as int);
    lemma_record_appended(log, text, fields);
    assert(grown =~= log + (text + seq![NEWLINE]));
    assert forall|key: Seq<char>| #[trigger] next.contains_key(key) implies points_at_value(
        grown,
        next,
        key,
    ) by {
        if fields.1 is Some && key == fields.0 {
        } else {
            assert(index.contains_key(key));
            assert(points_at_value(log, index, key));
            lemma_record_kept(log, text + seq![NEWLINE], index[key] as int);
        }
    }
}

/// The position of the first record boundary of `log` at or after `from`.
pub fn find_line_end(log: &Vec<u8>, from: usize) -> (end: usize)
    requires
        from <= log.len(),
    ensures
        end == line_end(log@, from as int),
        from <= end <= log.len(),
{
    let mut end: usize = from;
    while end < log.len() && log[end] != NEWLINE
        invariant
            from <= end <= log.len(),
            forall|i: int| from <= i < end ==> log@[i] != NEWLINE,
        decreases log.len() - end,
    {
        end += 1;
    }
    proof {
        lemma_line_end_found(log@, from as int, end as int);
    }
    end
}

/// Reads the record that starts at `offset`: the command, and the offset of
/// the boundary that ends the record.
pub fn read_at(log: &Vec<u8>, offset: usize) -> (record: Option<(Command, usize)>)
    ensures
        match record_at(log@, offset as int) {
            Some(fields) => record matches Some((command, end)) && command.fields() == fields
                && end == line_end(log@, offset as int) && offset <= end < log.len(),
            None => record is None,
        },
{
    if offset >= log.len() {
        return None;
    }
    let end = find_line_end(log, offset);
    if end >= log.len() {
        return None;
    }
    match decode(slice_subrange(log.as_slice(), offset, end)) {
        Some(command) => Some((command, end)),
        None => None,
    }
}

/// Applies one record, found at `offset`, to the index.
pub fn apply_command(index: &mut StringHashMap<usize>, command: Command, offset: usize)
    ensures
        final(index)@ == apply(old(index)@, command.fields(), offset as int),
{
    match command {
        Command::Put { key, value: _ } => {
            index.insert(key, offset);
        },
        Command::Remove { key } => {
            index.remove(key.as_str());
        },
    }
}

/// Rebuilds the index of a log from nothing: scans the log from its first
/// byte and applies each record at the offset where it starts. `None` where
/// the log is not a run of records.
pub fn replay_log(log: &Vec<u8>) -> (index: Option<StringHashMap<usize>>)
    ensures
        match replay(log@, 0, Map::empty()) {
            Some(m) => index matches Some(found) && found@ == m && index_fits(log@, m),
            None => index is None,
        },
{
    let mut index: StringHashMap<usize> = StringHashMap::new();
    let mut cursor: usize = 0;
    while cursor < log.len()
        invariant
            cursor <= log.len(),
            replay(log@, 0, Map::empty()) == replay(log@, cursor as int, index@),
            index_fits(log@, index@),
        decreases log.len() - cursor,
    {
        match read_at(log, cursor) {
            Some((command, end)) => {
                proof {
                    let fields = command.fields();
                    let next = apply(index@, fields, cursor as int);
                    assert forall|key: Seq<char>| #[trigger]
                        next.contains_key(key) implies points_at_value(log@, next, key) by {
                        if fields.1 is Some && key == fields.0 {
                        } else {
                            assert(index@.contains_key(key));
                        }
                    }
                }
                apply_command(&mut index, command, cursor);
                cursor = end + 1;
            },
            None => {
                return None;
            },
        }
    }
    Some(index)
}

} // verus!
