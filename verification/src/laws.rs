use crate::codec::record_text;
use crate::log::{
    gives_value, lemma_fits_appended, lemma_record_appended, lemma_replay_appended,
    lemma_replay_binds_given, lemma_replay_grown,
};
use crate::store::{Operation, StoreState};
use vstd::prelude::*;

verus! {

/// A lookup of a key that was just set finds the value it was set to, and
/// replays nothing.
pub proof fn law_set_then_get(store: StoreState, key: Seq<char>, value: Seq<char>)
    requires
        store.wf(),
        record_text((key, Some(value))) is Some,
    ensures
        store.after_set(key, value).recovered() == Some(store.after_set(key, value)),
        store.after_set(key, value).value(key) == Some(value),
{
    let text = record_text((key, Some(value))).unwrap();
    let next = store.after_set(key, value);
    lemma_record_appended(store.log, text, (key, Some(value)));
    assert(next.index.contains_key(key));
    assert(next.index.dom().contains(key));
}

/// Of two sets of one key, a lookup finds the value of the second.
pub proof fn law_last_set_wins(store: StoreState, key: Seq<char>, first: Seq<char>, second: Seq<char>)
    requires
        store.wf(),
        record_text((key, Some(first))) is Some,
        record_text((key, Some(second))) is Some,
        store.after_set(key, first).log.len() <= usize::MAX,
    ensures
        store.after_set(key, first).after_set(key, second).recovered() == Some(
            store.after_set(key, first).after_set(key, second),
        ),
        store.after_set(key, first).after_set(key, second).value(key) == Some(second),
{
    let text = record_text((key, Some(first))).unwrap();
    lemma_fits_appended(store.log, store.index, text, (key, Some(first)));
    law_set_then_get(store.after_set(key, first), key, second);
}

/// A lookup finds no value for a key that the index does not hold and, where
/// the log is replayed for the lookup, that no record of the log gives a
/// value.
pub proof fn law_unset_key_has_no_value(store: StoreState, key: Seq<char>)
    requires
        !store.index.contains_key(key),
        !gives_value(store.log, 0, key),
    ensures
        store.recovered() matches Some(found) ==> found.value(key) is None,
{
    if store.index.is_empty() && store.recovered() is Some {
        lemma_replay_binds_given(store.log, 0, Map::empty(), key);
    }
}

/// After a key was set and then removed, the removal has been recorded, and
/// a lookup that can be made finds no value for the key.
pub proof fn law_set_then_remove(store: StoreState, key: Seq<char>, value: Seq<char>)
    requires
        store.wf(),
        record_text((key, Some(value))) is Some,
        record_text((key, None)) is Some,
        store.after_set(key, value).log.len() <= usize::MAX,
    ensures
        store.after_set(key, value).after_remove(key) == store.after_set(key, value).appended(
            (key, None),
            record_text((key, None)).unwrap(),
        ),
        store.after_set(key, value).after_remove(key).recovered() matches Some(found)
            ==> found.value(key) is None,
{
    let set = store.after_set(key, value);
    let gone = set.after_remove(key);
    law_set_then_get(store, key, value);
    assert(set.index.contains_key(key));
    if gone.index.is_empty() {
        lemma_replay_grown(set.log, 0, Map::empty(), record_text((key, None)).unwrap(), (key, None));
    }
}

/// Removing a key that the index, replayed if it was empty, does not hold
/// leaves the log as it was.
pub proof fn law_remove_of_absent_key(store: StoreState, key: Seq<char>)
    requires
        store.recovered() matches Some(found) && !found.index.contains_key(key),
    ensures
        store.after_remove(key).log == store.log,
        store.after_remove(key) == store.after_get(),
{
}

/// A store whose index is what replaying its log gives can be closed and
/// opened again: a store opened over its log, once it has replayed the log
/// for a lookup, is the store that was closed.
pub proof fn law_reopened_store(store: StoreState)
    requires
        store.in_step(),
    ensures
        StoreState::opened(store.log).recovered() == Some(store),
        store.recovered() == Some(store),
        forall|key: Seq<char>|
            StoreState::opened(store.log).recovered().unwrap().value(key) == store.value(key),
{
    assert(Map::<Seq<char>, usize>::empty().dom() =~= Set::empty());
    if store.index.is_empty() {
        assert(store.index =~= Map::empty());
    }
}

/// A store that was opened over an empty log is in step with it.
pub proof fn law_empty_store_in_step()
    ensures
        StoreState::opened(Seq::empty()).in_step(),
        StoreState::opened(Seq::empty()).wf(),
{
}

/// A replay for a lookup brings the index in step with the log.
pub proof fn law_replay_brings_in_step(store: StoreState)
    requires
        store.index.is_empty(),
        store.recovered() is Some,
    ensures
        store.recovered().unwrap().in_step(),
        store.after_get().in_step(),
{
}

/// An index that is in step with the log stays so through a set, a lookup
/// and a removal.
pub proof fn law_in_step_kept(store: StoreState, key: Seq<char>, value: Seq<char>)
    requires
        store.in_step(),
    ensures
        store.after_get() == store,
        store.after_set(key, value).in_step(),
        store.after_remove(key).in_step(),
{
    law_reopened_store(store);
    match record_text((key, Some(value))) {
        Some(text) => {
            lemma_replay_appended(store.log, 0, Map::empty(), text, (key, Some(value)));
        },
        None => {},
    }
    match record_text((key, None)) {
        Some(text) => {
            lemma_replay_appended(store.log, 0, Map::empty(), text, (key, None));
        },
        None => {},
    }
}

/// Recovery: a store that is in step with its log stays so through any run
/// of calls, and a store opened afterwards over the log that the run left,
/// once it has replayed the log for a lookup, is the store that the run
/// left: every key leads to the same value in both.
pub proof fn law_recovery(store: StoreState, operations: Seq<Operation>)
    requires
        store.in_step(),
    ensures
        store.after_all(operations).in_step(),
        StoreState::opened(store.after_all(operations).log).recovered() == Some(
            store.after_all(operations),
        ),
    decreases operations.len(),
{
    if operations.len() > 0 {
        let before = store.after_all(operations.drop_last());
        law_recovery(store, operations.drop_last());
        match operations.last() {
            Operation::Put { key, value } => law_in_step_kept(before, key, value),
            Operation::Get { key } => law_in_step_kept(before, key, key),
            Operation::Remove { key } => law_in_step_kept(before, key, key),
        }
    }
    law_reopened_store(store.after_all(operations));
}

/// Through any run of calls the log only grows: what it held before the run
/// is where it was after it.
pub proof fn law_log_grows_through_run(store: StoreState, operations: Seq<Operation>)
    ensures
        store.log.is_prefix_of(store.after_all(operations).log),
        store.log.len() <= store.after_all(operations).log.len(),
    decreases operations.len(),
{
    if operations.len() > 0 {
        law_log_grows_through_run(store, operations.drop_last());
    }
}

/// The log never shrinks and no byte of it changes: what it held before a
/// set, a lookup or a removal is where it was afterwards.
pub proof fn law_log_only_grows(store: StoreState, key: Seq<char>, value: Seq<char>)
    ensures
        store.log.is_prefix_of(store.after_set(key, value).log),
        store.log.is_prefix_of(store.after_remove(key).log),
        store.after_get().log == store.log,
{
}

} // verus!
