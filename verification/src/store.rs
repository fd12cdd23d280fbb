use crate::codec::{encode, record_text, text_view, NEWLINE};
use crate::command::Command;
use crate::error::KvError;
use crate::log::{
    apply, apply_command, index_fits, lemma_fits_appended, read_at, record_at, replay, replay_log,
};
use vstd::hash_map::StringHashMap;
use vstd::prelude::*;

verus! {

/// What a store is made of: the bytes of its log, and its index from each
/// live key to the offset of a record.
pub struct StoreState {
    pub log: Seq<u8>,
    pub index: Map<Seq<char>, usize>,
}

impl StoreState {
    /// Every key of the index is bound to the offset of a record of the log
    /// that gives that key a value.
    pub open spec fn wf(self) -> bool {
        &&& self.log.len() <= usize::MAX
        &&& index_fits(self.log, self.index)
    }

    /// The index is what replaying the whole log gives.
    pub open spec fn in_step(self) -> bool {
        replay(self.log, 0, Map::empty()) == Some(self.index)
    }

    /// A store over `log` whose index is still empty.
    pub open spec fn opened(log: Seq<u8>) -> StoreState {
        StoreState { log, index: Map::empty() }
    }

    /// The store as a lookup finds it: with an empty index the log is
    /// replayed first, else the store is taken as it is. `None` where the
    /// log has to be replayed and is not a run of records.
    pub open spec fn recovered(self) -> Option<StoreState> {
        if self.index.is_empty() {
            match replay(self.log, 0, Map::empty()) {
                Some(index) => Some(StoreState { log: self.log, index }),
                None => None,
            }
        } else {
            Some(self)
        }
    }

    /// The value that the index leads to for `key`: that of the record at
    /// the offset the key is bound to, and none for a key that is not bound.
    pub open spec fn value(self, key: Seq<char>) -> Option<Seq<char>> {
        if self.index.contains_key(key) {
            match record_at(self.log, self.index[key] as int) {
                Some(fields) => fields.1,
                None => None,
            }
        } else {
            None
        }
    }

    /// The store after the record `text` of a command with these fields has
    /// been appended and applied.
    pub open spec fn appended(self, fields: (Seq<char>, Option<Seq<char>>), text: Seq<u8>) -> StoreState {
        StoreState {
            log: self.log + text + seq![NEWLINE],
            index: apply(self.index, fields, self.log.len() as int),
        }
    }

    /// The store after `key` has been set to `value`: unchanged where the
    /// command has no record.
    pub open spec fn after_set(self, key: Seq<char>, value: Seq<char>) -> StoreState {
        match record_text((key, Some(value))) {
            Some(text) => self.appended((key, Some(value)), text),
            None => self,
        }
    }

    /// The store after a lookup: recovered where that can be done, else
    /// unchanged.
    pub open spec fn after_get(self) -> StoreState {
        match self.recovered() {
            Some(found) => found,
            None => self,
        }
    }

    /// The store after the removal of `key` was asked for: recovered where
    /// that can be done, and with the removal appended and applied where
    /// the recovered index holds the key and the command has a record.
    pub open spec fn after_remove(self, key: Seq<char>) -> StoreState {
        match self.recovered() {
            Some(found) => match record_text((key, None)) {
                Some(text) => if found.index.contains_key(key) {
                    found.appended((key, None), text)
                } else {
                    found
                },
                None => found,
            },
            None => self,
        }
    }
}

/// One call on a store, as the laws of the store speak of it.
pub enum Operation {
    /// A set of `key` to `value`.
    Put { key: Seq<char>, value: Seq<char> },
    /// A lookup of `key`.
    Get { key: Seq<char> },
    /// A removal of `key`.
    Remove { key: Seq<char> },
}

impl StoreState {
    /// The store after one call.
    pub open spec fn after(self, operation: Operation) -> StoreState {
        match operation {
            Operation::Put { key, value } => self.after_set(key, value),
            Operation::Get { key } => self.after_get(),
            Operation::Remove { key } => self.after_remove(key),
        }
    }

    /// The store after a run of calls, made in order.
    pub open spec fn after_all(self, operations: Seq<Operation>) -> StoreState
        decreases operations.len(),
    {
        if operations.len() == 0 {
            self
        } else {
            self.after_all(operations.drop_last()).after(operations.last())
        }
    }
}

/// The storage engine: the log, and the index into it.
pub struct KvStore {
    log: Vec<u8>,
    log_pointer: StringHashMap<usize>,
}

impl View for KvStore {
    type V = StoreState;

    closed spec fn view(&self) -> StoreState {
        StoreState { log: self.log@, index: self.log_pointer@ }
    }
}

impl KvStore {
    /// Opens the store over what the log file at `path` holds. `contents` is
    /// `None` where the file could not be opened or created. The index
    /// starts empty, and nothing is replayed yet.
    pub fn open(path: String, contents: Option<Vec<u8>>) -> (res: Result<KvStore, KvError>)
        ensures
            match contents {
                Some(bytes) => res matches Ok(store) && store@ == StoreState::opened(bytes@)
                    && store@.wf(),
                None => res matches Err(KvError::FileOpenError { path: p }) && p@ == path@,
            },
    {
        match contents {
            Some(log) => {
                assert(log@.len() == log.len());
                Ok(KvStore { log, log_pointer: StringHashMap::new() })
            },
            None => Err(KvError::FileOpenError { path }),
        }
    }

    /// The bytes of the log.
    pub fn log(&self) -> (bytes: &Vec<u8>)
        ensures
            bytes@ == self@.log,
    {
        &self.log
    }

    /// Appends the record of `command` to the log and applies it to the
    /// index, at the offset where the record starts. Where the command has
    /// no record, nothing changes and the result is `false`.
    fn write(&mut self, command: Command) -> (written: bool)
        requires
            old(self)@.wf(),
        ensures
            final(self)@.wf(),
            match record_text(command.fields()) {
                Some(text) => written && final(self)@ == old(self)@.appended(
                    command.fields(),
                    text,
                ),
                None => !written && final(self)@ == old(self)@,
            },
    {
        match encode(&command) {
            Some(text) => {
                let offset = self.log.len();
                let mut text = text;
                let ghost record = text@;
                proof {
                    lemma_fits_appended(
                        self.log@,
                        self.log_pointer@,
                        text@,
                        command.fields(),
                    );
                }
                self.log.append(&mut text);
                self.log.push(NEWLINE);
                apply_command(&mut self.log_pointer, command, offset);
                proof {
                    assert(self.log@ =~= old(self).log@ + record + seq![NEWLINE]);
                    assert(self.log@.len() == self.log.len());
                }
                true
            },
            None => false,
        }
    }

    /// Rebuilds the index from the log where the index is empty.
    pub fn initialize_if_not(&mut self) -> (res: Result<(), KvError>)
        requires
            old(self)@.wf(),
        ensures
            final(self)@.wf(),
            final(self)@ == old(self)@.after_get(),
            match old(self)@.recovered() {
                Some(_) => res is Ok,
                None => res matches Err(KvError::LogCorrupted),
            },
    {
        if self.log_pointer.is_empty() {
            match replay_log(&self.log) {
                Some(index) => {
                    self.log_pointer = index;
                    Ok(())
                },
                None => Err(KvError::LogCorrupted),
            }
        } else {
            Ok(())
        }
    }

    /// Reads the value of the record at `offset`; `None` where no record
    /// that sets a value starts there.
    fn read(&self, offset: usize) -> (value: Option<String>)
        ensures
            text_view(value) == match record_at(self@.log, offset as int) {
                Some(fields) => fields.1,
                None => None,
            },
    {
        match read_at(&self.log, offset) {
            Some((Command::Put { key: _, value }, _)) => Some(value),
            Some((Command::Remove { key: _ }, _)) => None,
            None => None,
        }
    }

    /// Sets `key` to `value`: appends the record and binds the key to the
    /// record's offset, whatever the key was bound to. The log is not
    /// replayed first. Fails with `WriteError`, and changes nothing, where
    /// the command has no record.
    pub fn set(&mut self, key: String, value: String) -> (res: Result<(), KvError>)
        requires
            old(self)@.wf(),
        ensures
            final(self)@.wf(),
            final(self)@ == old(self)@.after_set(key@, value@),
            old(self)@.log.is_prefix_of(final(self)@.log),
            match record_text((key@, Some(value@))) {
                Some(_) => res is Ok,
                None => res matches Err(KvError::WriteError),
            },
    {
        if self.write(Command::Put { key, value }) {
            Ok(())
        } else {
            Err(KvError::WriteError)
        }
    }

    /// Looks `key` up, after the log has been replayed if the index was
    /// empty. A key that the index does not hold has no value; that is no
    /// error. Fails with `LogCorrupted` where the log had to be replayed
    /// and could not be.
    pub fn get(&mut self, key: String) -> (res: Result<Option<String>, KvError>)
        requires
            old(self)@.wf(),
        ensures
            final(self)@.wf(),
            final(self)@ == old(self)@.after_get(),
            old(self)@.log == final(self)@.log,
            match old(self)@.recovered() {
                Some(found) => {
                    &&& res matches Ok(value)
                    &&& text_view(value) == found.value(key@)
                    &&& value is Some <==> found.index.contains_key(key@)
                },
                None => res matches Err(KvError::LogCorrupted),
            },
    {
        match self.initialize_if_not() {
            Ok(()) => {},
            Err(e) => {
                return Err(e);
            },
        }
        let offset = match self.log_pointer.get(key.as_str()) {
            Some(offset) => *offset,
            None => {
                return Ok(None);
            },
        };
        Ok(self.read(offset))
    }

    /// Removes `key`, after the log has been replayed if the index was
    /// empty. Where the index holds the key, appends the record of the
    /// removal and unbinds the key. Where it does not, fails with
    /// `KeyNotExists` and appends nothing.
    pub fn remove(&mut self, key: String) -> (res: Result<(), KvError>)
        requires
            old(self)@.wf(),
        ensures
            final(self)@.wf(),
            final(self)@ == old(self)@.after_remove(key@),
            old(self)@.log.is_prefix_of(final(self)@.log),
            match old(self)@.recovered() {
                Some(found) => if !found.index.contains_key(key@) {
                    &&& res matches Err(KvError::KeyNotExists { key: k })
                    &&& k@ == key@
                    &&& final(self)@.log == old(self)@.log
                } else if record_text((key@, None)) is None {
                    res matches Err(KvError::WriteError)
                } else {
                    res is Ok
                },
                None => res matches Err(KvError::LogCorrupted),
            },
    {
        match self.initialize_if_not() {
            Ok(()) => {},
            Err(e) => {
                return Err(e);
            },
        }
        if !self.log_pointer.contains_key(key.as_str()) {
            return Err(KvError::KeyNotExists { key });
        }
        if self.write(Command::Remove { key }) {
            Ok(())
        } else {
            Err(KvError::WriteError)
        }
    }
}

} // verus!
