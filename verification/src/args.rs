//! Which inputs to count, and which counts to show.

use crate::source::stdin_name;
use vstd::prelude::*;
use vstd::string::*;

verus! {

/// What was asked for on the command line, as it was typed: the inputs named,
/// and one selector for each count.
#[derive(Debug)]
pub struct RawArgs {
    pub files: Vec<String>,
    pub lines: bool,
    pub words: bool,
    pub bytes: bool,
    pub chars: bool,
}

/// A selection of inputs and counts, as a mathematical value.
pub struct Selection {
    pub files: Seq<Seq<char>>,
    pub lines: bool,
    pub words: bool,
    pub bytes: bool,
    pub chars: bool,
}

impl View for RawArgs {
    type V = Selection;

    open spec fn view(&self) -> Selection {
        Selection {
            files: self.files.deep_view(),
            lines: self.lines,
            words: self.words,
            bytes: self.bytes,
            chars: self.chars,
        }
    }
}

/// True when `asked` selects no count at all.
pub open spec fn selects_nothing(asked: Selection) -> bool {
    !asked.lines && !asked.words && !asked.bytes && !asked.chars
}

/// True when `asked` selects both the bytes and the characters, which exclude
/// each other.
pub open spec fn selects_both_sizes(asked: Selection) -> bool {
    asked.bytes && asked.chars
}

/// What a request comes to once the defaults are filled in: with no input
/// named, the standard input; with no count selected, the lines, the words
/// and the bytes, and never the characters.
pub open spec fn resolve(asked: Selection) -> Selection {
    Selection {
        files: if asked.files.len() == 0 {
            seq![stdin_name()]
        } else {
            asked.files
        },
        lines: asked.lines || selects_nothing(asked),
        words: asked.words || selects_nothing(asked),
        bytes: asked.bytes || selects_nothing(asked),
        chars: asked.chars,
    }
}

/// True when `chosen` can be acted on: it names an input, selects a count,
/// and does not select both the bytes and the characters.
pub open spec fn is_resolved(chosen: Selection) -> bool {
    &&& chosen.files.len() > 0
    &&& !selects_nothing(chosen)
    &&& !selects_both_sizes(chosen)
}

/// The inputs to count and the counts to show, with the defaults filled in.
#[derive(Debug)]
pub struct Args {
    files: Vec<String>,
    lines: bool,
    words: bool,
    bytes: bool,
    chars: bool,
}

impl View for Args {
    type V = Selection;

    closed spec fn view(&self) -> Selection {
        Selection {
            files: self.files.deep_view(),
            lines: self.lines,
            words: self.words,
            bytes: self.bytes,
            chars: self.chars,
        }
    }
}

/// Why a request cannot be acted on.
#[derive(Debug, Clone, Copy, PartialEq, Eq, Structural)]
pub enum ArgsError {
    /// Both the bytes and the characters were selected.
    BytesWithChars,
}

impl Args {
    /// The names of the inputs, in the order given.
    pub fn files(&self) -> (files: &Vec<String>)
        ensures
            files.deep_view() == self@.files,
    {
        &self.files
    }

    /// Whether the lines are shown.
    pub fn lines(&self) -> (shown: bool)
        ensures
            shown == self@.lines,
    {
        self.lines
    }

    /// Whether the words are shown.
    pub fn words(&self) -> (shown: bool)
        ensures
            shown == self@.words,
    {
        self.words
    }

    /// Whether the bytes are shown.
    pub fn bytes(&self) -> (shown: bool)
        ensures
            shown == self@.bytes,
    {
        self.bytes
    }

    /// Whether the characters are shown.
    pub fn chars(&self) -> (shown: bool)
        ensures
            shown == self@.chars,
    {
        self.chars
    }
}

/// Turns what was typed into what is acted on.
///
/// A request for both the bytes and the characters is refused. Every other
/// request is resolved: with no input named, the standard input is counted;
/// with no count selected, the lines, the words and the bytes are shown.
pub fn get_args(raw: RawArgs) -> (r: Result<Args, ArgsError>)
    ensures
        r is Err <==> selects_both_sizes(raw@),
        r matches Ok(args) ==> args@ == resolve(raw@) && is_resolved(args@),
        r matches Err(e) ==> e == ArgsError::BytesWithChars,
{
    if raw.bytes && raw.chars {
        return Err(ArgsError::BytesWithChars);
    }
    let none = !raw.lines && !raw.words && !raw.bytes && !raw.chars;
    let ghost asked = raw@;
    let mut files = raw.files;
    if files.len() == 0 {
        files.push("-".to_owned());
        proof {
            reveal_strlit("-");
            assert("-"@ =~= stdin_name());
            assert(files.deep_view() =~= seq![stdin_name()]);
        }
    }
    Ok(
        Args {
            files,
            lines: raw.lines || none,
            words: raw.words || none,
            bytes: raw.bytes || none,
            chars: raw.chars,
        },
    )
}

/// Resolving a request that is resolved already changes nothing.
pub proof fn lemma_resolve_idempotent(asked: Selection)
    requires
        !selects_both_sizes(asked),
    ensures
        is_resolved(resolve(asked)),
        resolve(resolve(asked)) == resolve(asked),
{
}

} // verus!
