//! The classified form of a single token (or of a single character of a
//! flag cluster).

use vstd::prelude::*;

verus! {

/// One classified argument. A positional token, an option token and a
/// variable token each yield one entry; a flag cluster yields one `Flag`
/// entry per character after the leading `-`.
#[derive(Debug, PartialEq)]
pub enum Argument {
    /// A bare token, e.g. `file.txt`; carries the whole token.
    Positional(String),
    /// One character of a flag cluster, e.g. the `o` of `-o` or of `-ov`.
    Flag(char),
    /// A long switch without a value, e.g. `--quiet`; carries the name
    /// after the `--` prefix.
    Option(String),
    /// A long switch with a value, e.g. `--level=3`; carries the name and
    /// the value around the first `=` after the `--` prefix.
    Variable { name: String, value: String },
}

/// The mathematical shape of an [`Argument`]: the same four cases over
/// character sequences.
pub enum ArgView {
    Positional(Seq<char>),
    Flag(char),
    Option(Seq<char>),
    Variable(Seq<char>, Seq<char>),
}

impl View for Argument {
    type V = ArgView;

    open spec fn view(&self) -> ArgView {
        match self {
            Argument::Positional(s) => ArgView::Positional(s@),
            Argument::Flag(c) => ArgView::Flag(*c),
            Argument::Option(name) => ArgView::Option(name@),
            Argument::Variable { name, value } => ArgView::Variable(name@, value@),
        }
    }
}

impl DeepView for Argument {
    type V = ArgView;

    open spec fn deep_view(&self) -> ArgView {
        self.view()
    }
}

} // verus!
