use crate::text::text_of;
use vstd::prelude::*;
use vstd::string::*;

verus! {

/// The one place to come back to. Marking a place forgets the one before;
/// asking for the place leaves it marked.
pub struct BackBookmark {
    slot: Option<String>,
}

impl View for BackBookmark {
    type V = Option<Seq<char>>;

    closed spec fn view(&self) -> Option<Seq<char>> {
        text_of(self.slot)
    }
}

impl BackBookmark {
    /// A bookmark with no place marked.
    pub fn new() -> (r: Self)
        ensures
            r@ is None,
    {
        BackBookmark { slot: None }
    }

    /// A bookmark with the given place marked, or none.
    pub fn restore(place: Option<String>) -> (r: Self)
        ensures
            r@ == text_of(place),
    {
        BackBookmark { slot: place }
    }

    /// Marks `path`, whatever was marked before.
    pub fn set(&mut self, path: String)
        ensures
            final(self)@ == Some(path@),
    {
        self.slot = Some(path);
    }

    /// The marked place, if there is one.
    pub fn get(&self) -> (r: Option<String>)
        ensures
            text_of(r) == self@,
    {
        match &self.slot {
            Some(path) => Some(path.clone()),
            None => None,
        }
    }
}

} // verus!
