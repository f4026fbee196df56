//! Command templates.

use vstd::prelude::*;

use crate::text;

verus! {

/// A command as a component declares it: the words of its argument vector, some of which stand
/// for paths of the toolchain that runs it.
#[derive(Debug, PartialEq, Eq, Hash)]
pub struct Executable {
    pub words: Vec<String>,
}

impl DeepView for Executable {
    type V = Seq<Seq<char>>;

    open spec fn deep_view(&self) -> Seq<Seq<char>> {
        self.words.deep_view()
    }
}

impl Clone for Executable {
    fn clone(&self) -> (r: Self)
        ensures
            r.deep_view() == self.deep_view(),
    {
        Executable { words: text::copy_all(&self.words) }
    }
}

impl Executable {
    /// Runs the component's own executable, with nothing added.
    pub fn default_call_format() -> (r: Self)
        ensures
            r.deep_view() == seq!["%installed-executable"@],
    {
        let mut words: Vec<String> = Vec::new();
        words.push("%installed-executable".to_owned());
        assert(words.deep_view() =~= seq!["%installed-executable"@]);
        Executable { words }
    }
}

} // verus!
