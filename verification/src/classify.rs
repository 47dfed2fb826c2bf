//! The classification pass: one linear walk over the token sequence that
//! files every token under exactly one of the four categories.

use vstd::prelude::*;
use vstd::string::StrSliceExecFns;
use vstd::string::StringExecFns;

use crate::argument::Argument;
use crate::argument::ArgView;
use crate::token::classify_token;
use crate::token::TokenClass;
use crate::token::token_is_flag;
use crate::token::token_is_option;
use crate::token::token_is_positional;
use crate::token::token_is_variable;
use crate::token::var_name;
use crate::token::var_value;
use crate::variables::VariableMap;

verus! {

/// The flag entry made from the character of cluster `t` that follows
/// position `i` of the remainder.
pub open spec fn flag_view_at(t: Seq<char>, i: int) -> ArgView {
    ArgView::Flag(t[i + 1])
}

/// The flag entries contributed by the first `j` characters of a flag
/// cluster `t`: one `Flag` entry per character after the leading `-`.
pub open spec fn flag_views_upto(t: Seq<char>, j: int) -> Seq<ArgView> {
    Seq::new((j - 1) as nat, |i: int| flag_view_at(t, i))
}

/// The flat classification record of one token: one entry for a
/// positional, an option or a variable, and one entry per character of a
/// flag cluster's remainder.
pub open spec fn token_args(t: Seq<char>) -> Seq<ArgView> {
    if token_is_positional(t) {
        seq![ArgView::Positional(t)]
    } else if token_is_flag(t) {
        flag_views_upto(t, t.len() as int)
    } else if token_is_option(t) {
        seq![ArgView::Option(t.skip(2))]
    } else {
        seq![ArgView::Variable(var_name(t), var_value(t))]
    }
}

/// The flat classification record of a token sequence, in encounter order.
pub open spec fn spec_arguments(toks: Seq<Seq<char>>) -> Seq<ArgView>
    decreases toks.len(),
{
    if toks.len() == 0 {
        Seq::empty()
    } else {
        spec_arguments(toks.drop_last()) + token_args(toks.last())
    }
}

/// The positional values of a token sequence, in encounter order.
pub open spec fn spec_positionals(toks: Seq<Seq<char>>) -> Seq<Seq<char>>
    decreases toks.len(),
{
    if toks.len() == 0 {
        Seq::empty()
    } else {
        spec_positionals(toks.drop_last()) + (if token_is_positional(toks.last()) {
            seq![toks.last()]
        } else {
            Seq::empty()
        })
    }
}

/// The flag characters of a token sequence, in encounter order; a cluster
/// `-abc` contributes each of its characters in turn.
pub open spec fn spec_flags(toks: Seq<Seq<char>>) -> Seq<char>
    decreases toks.len(),
{
    if toks.len() == 0 {
        Seq::empty()
    } else {
        spec_flags(toks.drop_last()) + (if token_is_flag(toks.last()) {
            toks.last().skip(1)
        } else {
            Seq::empty()
        })
    }
}

/// The option names of a token sequence, in encounter order.
pub open spec fn spec_options(toks: Seq<Seq<char>>) -> Seq<Seq<char>>
    decreases toks.len(),
{
    if toks.len() == 0 {
        Seq::empty()
    } else {
        spec_options(toks.drop_last()) + (if token_is_option(toks.last()) {
            seq![toks.last().skip(2)]
        } else {
            Seq::empty()
        })
    }
}

/// The variable bindings of a token sequence: a later binding of a name
/// overwrites an earlier one (last write wins).
pub open spec fn spec_variables(toks: Seq<Seq<char>>) -> Map<Seq<char>, Seq<char>>
    decreases toks.len(),
{
    if toks.len() == 0 {
        Map::empty()
    } else {
        let m = spec_variables(toks.drop_last());
        if token_is_variable(toks.last()) {
            m.insert(var_name(toks.last()), var_value(toks.last()))
        } else {
            m
        }
    }
}

/// How many variable tokens a sequence holds, overwritten bindings
/// included.
pub open spec fn spec_variable_count(toks: Seq<Seq<char>>) -> nat
    decreases toks.len(),
{
    if toks.len() == 0 {
        0
    } else {
        spec_variable_count(toks.drop_last()) + (if token_is_variable(toks.last()) {
            1nat
        } else {
            0nat
        })
    }
}

/// The mathematical shape of a [`ParsedArguments`]: each collection as a
/// sequence or map over character sequences.
#[verifier::ext_equal]
pub struct ParsedView {
    pub arguments: Seq<ArgView>,
    pub positionals: Seq<Seq<char>>,
    pub flags: Seq<char>,
    pub options: Seq<Seq<char>>,
    pub variables: Map<Seq<char>, Seq<char>>,
}

/// What classifying a token sequence yields: the flat record and the four
/// grouped views.
pub open spec fn spec_classify(toks: Seq<Seq<char>>) -> ParsedView {
    ParsedView {
        arguments: spec_arguments(toks),
        positionals: spec_positionals(toks),
        flags: spec_flags(toks),
        options: spec_options(toks),
        variables: spec_variables(toks),
    }
}

/// The result of classifying a token sequence: the flat ordered record
/// `arguments` and the grouped views `positionals`, `flags`, `options` and
/// `variables`.
#[derive(Debug)]
pub struct ParsedArguments {
    pub arguments: Vec<Argument>,
    pub positionals: Vec<String>,
    pub flags: Vec<char>,
    pub options: Vec<String>,
    pub variables: VariableMap,
}

impl View for ParsedArguments {
    type V = ParsedView;

    open spec fn view(&self) -> ParsedView {
        ParsedView {
            arguments: self.arguments.deep_view(),
            positionals: self.positionals.deep_view(),
            flags: self.flags@,
            options: self.options.deep_view(),
            variables: self.variables@,
        }
    }
}

impl ParsedArguments {
    /// The `variables` collection keeps its keys unique.
    pub open spec fn wf(&self) -> bool {
        self.variables.wf()
    }
}

/// Classifies every token of `args`: a token not starting with `-` is
/// positional; one starting with a single `-` is a flag cluster, each
/// remaining character a flag of its own; one starting with `--` is an
/// option when it has no `=`, and otherwise a variable split at the first
/// `=` after the prefix. The result records the full classification in
/// order, and groups each category.
pub fn parse_arguments(args: Vec<String>) -> (r: ParsedArguments)
    ensures
        r.wf(),
        r@ == spec_classify(args.deep_view()),
{
    let ghost toks = args.deep_view();
    let mut arguments: Vec<Argument> = Vec::new();
    let mut positionals: Vec<String> = Vec::new();
    let mut flags: Vec<char> = Vec::new();
    let mut options: Vec<String> = Vec::new();
    let mut variables: VariableMap = VariableMap::new();

    let mut i: usize = 0;
    while i < args.len()
        invariant
            i <= args.len(),
            toks == args.deep_view(),
            toks.len() == args.len(),
            variables.wf(),
            arguments.deep_view() == spec_arguments(toks.take(i as int)),
            positionals.deep_view() == spec_positionals(toks.take(i as int)),
            flags@ == spec_flags(toks.take(i as int)),
            options.deep_view() == spec_options(toks.take(i as int)),
            variables@ == spec_variables(toks.take(i as int)),
        decreases args.len() - i,
    {
        proof {
            assert(toks.take(i + 1).drop_last() =~= toks.take(i as int));
            assert(toks.take(i + 1).last() == toks[i as int]);
            assert(args[i as int]@ == toks[i as int]);
        }
        let item = &args[i];
        let n = item.as_str().unicode_len();
        match classify_token(item.as_str()) {
            TokenClass::Positional => {
                // A bare token: positional.
                positionals.push(item.clone());
                arguments.push(Argument::Positional(item.clone()));
                proof {
                    assert(arguments.deep_view() =~= spec_arguments(toks.take(i + 1)));
                    assert(positionals.deep_view() =~= spec_positionals(toks.take(i + 1)));
                }
            },
            TokenClass::Flag => {
                // A single leading `-`: every remaining character is a flag.
                let ghost arguments_snap = arguments.deep_view();
                let ghost flags_snap = flags@;
                let ghost tv = toks[i as int];
                proof {
                    assert(flags@ =~= flags_snap + tv.subrange(1, 1));
                    assert(arguments.deep_view() =~= arguments_snap + flag_views_upto(tv, 1));
                }
                let mut j: usize = 1;
                while j < n
                    invariant
                        1 <= j <= n,
                        n == tv.len(),
                        item@ == tv,
                        flags@ == flags_snap + tv.subrange(1, j as int),
                        arguments.deep_view() == arguments_snap + flag_views_upto(tv, j as int),
                    decreases n - j,
                {
                    let ghost arguments_prev = arguments.deep_view();
                    let c = item.as_str().get_char(j);
                    flags.push(c);
                    arguments.push(Argument::Flag(c));
                    proof {
                        assert(flags@ =~= flags_snap + tv.subrange(1, j + 1));
                        assert(arguments.deep_view() =~= arguments_prev.push(ArgView::Flag(c)));
                        assert(arguments.deep_view() =~= arguments_snap + flag_views_upto(
                            tv,
                            j + 1,
                        ));
                    }
                    j += 1;
                }
                proof {
                    assert(token_is_flag(tv));
                    assert(tv.subrange(1, n as int) =~= tv.skip(1));
                }
            },
            TokenClass::Option => {
                // A `--` prefix without `=`: the remainder is the option name.
                let name = String::from_str(item.as_str().substring_char(2, n));
                options.push(name.clone());
                arguments.push(Argument::Option(name));
                proof {
                    assert(token_is_option(toks[i as int]));
                    assert(toks[i as int].subrange(2, n as int) =~= toks[i as int].skip(2));
                    assert(arguments.deep_view() =~= spec_arguments(toks.take(i + 1)));
                    assert(options.deep_view() =~= spec_options(toks.take(i + 1)));
                }
            },
            TokenClass::Variable { eq } => {
                // A `--` prefix with `=`: name and value split at the first `=`.
                let name = String::from_str(item.as_str().substring_char(2, eq));
                let value = String::from_str(item.as_str().substring_char(eq + 1, n));
                variables.insert(name.clone(), value.clone());
                arguments.push(Argument::Variable { name, value });
                proof {
                    assert(token_is_variable(toks[i as int]));
                    assert(arguments.deep_view() =~= spec_arguments(toks.take(i + 1)));
                    assert(variables@ =~= spec_variables(toks.take(i + 1)));
                }
            },
        }
        proof {
            assert(arguments.deep_view() =~= spec_arguments(toks.take(i + 1)));
            assert(positionals.deep_view() =~= spec_positionals(toks.take(i + 1)));
            assert(flags@ =~= spec_flags(toks.take(i + 1)));
            assert(options.deep_view() =~= spec_options(toks.take(i + 1)));
            assert(variables@ =~= spec_variables(toks.take(i + 1)));
        }
        i += 1;
    }
    proof {
        assert(toks.take(args.len() as int) =~= toks);
    }
    let r = ParsedArguments { arguments, positionals, flags, options, variables };
    proof {
        assert(r@ =~= spec_classify(toks));
    }
    r
}

/// The tokens joined back into one line, with a single space between
/// consecutive tokens.
pub open spec fn spec_join_spaces(toks: Seq<Seq<char>>) -> Seq<char>
    decreases toks.len(),
{
    if toks.len() == 0 {
        Seq::empty()
    } else if toks.len() == 1 {
        toks[0]
    } else {
        spec_join_spaces(toks.drop_last()) + seq![' '] + toks.last()
    }
}

/// The raw invocation line: the tokens of `args` joined with single
/// spaces.
pub fn get_raw_args_string(args: &Vec<String>) -> (r: String)
    ensures
        r@ == spec_join_spaces(args.deep_view()),
{
    proof {
        reveal_strlit(" ");
    }
    let ghost toks = args.deep_view();
    let mut out = String::new();
    let mut i: usize = 0;
    while i < args.len()
        invariant
            i <= args.len(),
            toks == args.deep_view(),
            toks.len() == args.len(),
            out@ == spec_join_spaces(toks.take(i as int)),
            " "@ == seq![' '],
        decreases args.len() - i,
    {
        proof {
            assert(toks.take(i + 1).drop_last() =~= toks.take(i as int));
            assert(toks.take(i + 1).last() == toks[i as int]);
            assert(args[i as int]@ == toks[i as int]);
        }
        if i > 0 {
            out.append(" ");
        }
        out.append(args[i].as_str());
        proof {
            if i == 0 {
                assert(toks.take(1).len() == 1);
                assert(out@ =~= spec_join_spaces(toks.take(1)));
            } else {
                assert(out@ =~= spec_join_spaces(toks.take(i + 1)));
            }
        }
        i += 1;
    }
    proof {
        assert(toks.take(args.len() as int) =~= toks);
    }
    out
}

} // verus!
