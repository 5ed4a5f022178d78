//! Choosing the document to transform among the files that were found.
use vstd::prelude::*;

verus! {

/// Why no document can be chosen.
#[derive(Clone, Copy, Debug, PartialEq, Eq, Structural)]
pub enum OriginalError {
    /// No file was found.
    Missing,
    /// More than one file was found.
    MoreThanOne,
}

/// The one file that was found; an error where there is none, or more than one.
pub fn select_original(files: &Vec<String>) -> (original: Result<String, OriginalError>)
    ensures
        match original {
            Ok(name) => files.len() == 1 && name@ == files@[0]@,
            Err(OriginalError::Missing) => files.len() == 0,
            Err(OriginalError::MoreThanOne) => files.len() > 1,
        },
{
    if files.len() == 0 {
        Err(OriginalError::Missing)
    } else if files.len() == 1 {
        Ok(files[0].clone())
    } else {
        Err(OriginalError::MoreThanOne)
    }
}

} // verus!
