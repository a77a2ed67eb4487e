use vstd::prelude::*;

verus! {

/// The failure kinds a registry operation can report.
#[derive(Clone, Copy, PartialEq, Eq, Structural, Debug)]
pub enum TaskError {
    /// A lookup by name missed, or the file to load does not exist.
    NotFound,
    /// The file to save to already exists; nothing is overwritten.
    AlreadyExists,
    /// Opening, reading or writing the file failed.
    IoError,
    /// The task sequence could not be serialized.
    SerializationError,
    /// The file's content is not a well-formed task array.
    DeserializationError,
}

impl TaskError {
    /// The display text of this error kind.
    pub open spec fn label(self) -> Seq<char> {
        match self {
            TaskError::NotFound => "not found"@,
            TaskError::AlreadyExists => "already exists"@,
            TaskError::IoError => "I/O error"@,
            TaskError::SerializationError => "serialization error"@,
            TaskError::DeserializationError => "deserialization error"@,
        }
    }

    /// Display text, e.g. for a console front end.
    pub fn message(&self) -> (r: String)
        ensures
            r@ == self.label(),
    {
        match self {
            TaskError::NotFound => "not found".to_owned(),
            TaskError::AlreadyExists => "already exists".to_owned(),
            TaskError::IoError => "I/O error".to_owned(),
            TaskError::SerializationError => "serialization error".to_owned(),
            TaskError::DeserializationError => "deserialization error".to_owned(),
        }
    }
}

} // verus!
