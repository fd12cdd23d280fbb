use vstd::prelude::*;

verus! {

/// One mutation of the store, as the log records it.
#[derive(Debug)]
pub enum Command {
    /// Binds `key` to `value`.
    Put { key: String, value: String },
    /// Unbinds `key`.
    Remove { key: String },
}

impl Command {
    /// A command as its fields: the key, and the value where it sets one.
    pub open spec fn fields(&self) -> (Seq<char>, Option<Seq<char>>) {
        match self {
            Command::Put { key, value } => (key@, Some(value@)),
            Command::Remove { key } => (key@, None),
        }
    }

    /// Whether two commands have the same fields.
    pub fn same_as(&self, other: &Command) -> (same: bool)
        ensures
            same == (self.fields() == other.fields()),
    {
        match self {
            Command::Put { key, value } => match other {
                Command::Put { key: k, value: v } => *key == *k && *value == *v,
                Command::Remove { .. } => false,
            },
            Command::Remove { key } => match other {
                Command::Put { .. } => false,
                Command::Remove { key: k } => *key == *k,
            },
        }
    }
}

} // verus!
