use vstd::prelude::*;

verus! {

/// What an operation of the store can fail with.
#[derive(Debug)]
pub enum KvError {
    /// A removal named a key that the index does not hold.
    KeyNotExists { key: String },
    /// The log file at `path` could not be opened or created.
    FileOpenError { path: String },
    /// A record could not be appended to the log.
    WriteError,
    /// The log holds bytes that are no record: log and index cannot be
    /// brought together, and the store must not be used further.
    LogCorrupted,
}

impl KvError {
    /// The message that goes with the error.
    pub fn message(&self) -> (text: String)
        ensures
            self is WriteError ==> text@ == "failed to write"@,
            self is LogCorrupted ==> text@ == "log is corrupted"@,
            self matches KvError::KeyNotExists { key } ==> text@ == "key["@ + key@
                + "] is not exists"@,
            self matches KvError::FileOpenError { path } ==> text@ == "open file["@ + path@
                + "] failed"@,
    {
        match self {
            KvError::KeyNotExists { key } => {
                let mut text = "key[".to_string();
                text.append(key.as_str());
                text.append("] is not exists");
                text
            },
            KvError::FileOpenError { path } => {
                let mut text = "open file[".to_string();
                text.append(path.as_str());
                text.append("] failed");
                text
            },
            KvError::WriteError => "failed to write".to_string(),
            KvError::LogCorrupted => "log is corrupted".to_string(),
        }
    }
}

} // verus!
