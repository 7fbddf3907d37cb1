//! The identifier of a crawled resource.

use vstd::prelude::*;

verus! {

/// The kind of page a file holds.
#[derive(Clone, Copy, Debug, PartialEq, Eq, Structural)]
pub enum PageType {
    Album,
    Artist,
    Chart,
    AlbumSearchResult,
}

/// The name of a crawled file. Two names are the same when their
/// characters are, case included; the text is also the form in which a
/// name is stored.
#[derive(Debug)]
pub struct FileName(pub String);

impl View for FileName {
    type V = Seq<char>;

    open spec fn view(&self) -> Seq<char> {
        self.0@
    }
}

impl DeepView for FileName {
    type V = Seq<char>;

    open spec fn deep_view(&self) -> Seq<char> {
        self.0@
    }
}

impl Clone for FileName {
    fn clone(&self) -> (copy: Self)
        ensures
            copy == *self,
    {
        FileName(self.0.clone())
    }
}

impl FileName {
    /// The name with the given text.
    pub fn new(name: String) -> (file_name: Self)
        ensures
            file_name@ == name@,
    {
        FileName(name)
    }

    /// The name's text.
    pub fn as_str(&self) -> (text: &str)
        ensures
            text@ == self@,
    {
        self.0.as_str()
    }

    /// The name's text, as stored.
    pub fn to_string(&self) -> (text: String)
        ensures
            text@ == self@,
    {
        self.0.clone()
    }

    /// Whether two names are the same.
    pub fn same_as(&self, other: &FileName) -> (same: bool)
        ensures
            same == (self@ == other@),
    {
        self.0 == other.0
    }
}

} // verus!
