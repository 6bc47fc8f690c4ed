//! Where in the source a statement stands.

use vstd::prelude::*;

verus! {

/// A position in a source file.
#[derive(Debug, PartialEq, Eq, PartialOrd, Ord, Default)]
pub struct SourceRef {
    pub file: Option<String>,
    pub line: usize,
    pub col: usize,
}

impl SourceRef {
    /// A position of which nothing is known.
    pub fn unknown() -> (source: SourceRef)
        ensures
            source == (SourceRef { file: None, line: 0, col: 0 }),
    {
        SourceRef { file: None, line: 0, col: 0 }
    }

}

impl Clone for SourceRef {
    fn clone(&self) -> (copy: Self)
        ensures
            copy == *self,
    {
        SourceRef {
            file: match &self.file {
                Some(name) => Some(name.clone()),
                None => None,
            },
            line: self.line,
            col: self.col,
        }
    }
}

} // verus!
