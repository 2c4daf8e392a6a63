//! Where an input comes from.

use vstd::prelude::*;
use vstd::string::*;

verus! {

/// The name that stands for the standard input.
pub open spec fn stdin_name() -> Seq<char> {
    seq!['-']
}

/// An input by its kind: the standard input, or a file at a path.
#[derive(Debug, PartialEq, Eq)]
pub enum Source {
    Stdin,
    File(String),
}

impl Source {
    /// The name that selects this source.
    pub open spec fn name(self) -> Seq<char> {
        match self {
            Source::Stdin => stdin_name(),
            Source::File(path) => path@,
        }
    }

    /// Tells which source `name` selects: the standard input for `-`, the file
    /// of that path for every other name.
    pub fn from_name(name: &str) -> (source: Source)
        ensures
            source is Stdin <==> name@ == stdin_name(),
            source.name() == name@,
    {
        if is_stdin_name(name) {
            Source::Stdin
        } else {
            Source::File(name.to_owned())
        }
    }
}

/// Decides whether `name` is the name of the standard input.
pub fn is_stdin_name(name: &str) -> (r: bool)
    ensures
        r == (name@ == stdin_name()),
{
    if name.unicode_len() == 1 {
        let c = name.get_char(0);
        assert(c == '-' ==> name@ =~= stdin_name());
        c == '-'
    } else {
        false
    }
}

} // verus!
