//! Where the content of a running text comes from.

use crate::error::SourceError;
use vstd::prelude::*;

verus! {

/// A source of content. Some sources give one content for ever; others are asked again at
/// every tick of the clock whether their content has changed.
pub trait TextSource {
    /// The content as it is now.
    fn get(&mut self) -> Result<String, SourceError>;

    /// The new content, where it has changed since it was last handed out.
    fn get_if_changed(&mut self) -> Option<Result<String, SourceError>>;
}

impl TextSource for String {
    /// A string is its own content.
    fn get(&mut self) -> (r: Result<String, SourceError>)
        ensures
            r is Ok,
            r->Ok_0@ == old(self)@,
            final(self)@ == old(self)@,
    {
        Ok(self.clone())
    }

    /// A string never changes.
    fn get_if_changed(&mut self) -> (r: Option<Result<String, SourceError>>)
        ensures
            r is None,
            final(self)@ == old(self)@,
    {
        None
    }
}

} // verus!
