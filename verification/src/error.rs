use vstd::prelude::*;

verus! {

/// The two ways a store operation can fail.
///
/// `StoreIOError` stands for any underlying filesystem failure (missing file
/// or directory, permission denied, and so on), deliberately not distinguished
/// further. `MissingHeader` means the file was read but its contents hold no
/// parseable front-matter header, which is a data-format problem rather than
/// an I/O problem, so callers can branch on the kind.
#[derive(Clone, Copy, Debug, PartialEq, Eq, Structural)]
pub enum StoreError {
    StoreIOError,
    MissingHeader,
}

impl StoreError {
    /// A short human-readable description of the failure kind.
    pub fn message(&self) -> (r: &'static str)
        ensures
            *self == StoreError::StoreIOError ==> r@ == "filesystem operation failed"@,
            *self == StoreError::MissingHeader ==> r@ == "post file has no front-matter header"@,
    {
        match self {
            StoreError::StoreIOError => "filesystem operation failed",
            StoreError::MissingHeader => "post file has no front-matter header",
        }
    }
}

} // verus!
