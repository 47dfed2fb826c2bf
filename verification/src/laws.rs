//! The general laws of the classification, stated and proved over the
//! same specification functions that the contract of `parse_arguments`
//! uses.

use vstd::prelude::*;

use crate::classify::spec_arguments;
use crate::classify::spec_flags;
use crate::classify::spec_options;
use crate::classify::spec_positionals;
use crate::classify::spec_variable_count;
use crate::classify::spec_variables;
use crate::classify::token_args;
use crate::token::token_is_flag;
use crate::token::token_is_option;
use crate::token::token_is_positional;
use crate::token::token_is_variable;
use crate::token::var_name;
use crate::token::var_value;

verus! {

/// Every token falls under exactly one of the four categories: the
/// predicates together cover all tokens, and no two of them hold at once.
pub proof fn lemma_token_has_one_category(t: Seq<char>)
    ensures
        token_is_positional(t) || token_is_flag(t) || token_is_option(t) || token_is_variable(t),
        token_is_positional(t) ==> !token_is_flag(t) && !token_is_option(t) && !token_is_variable(
            t,
        ),
        token_is_flag(t) ==> !token_is_positional(t) && !token_is_option(t) && !token_is_variable(
            t,
        ),
        token_is_option(t) ==> !token_is_positional(t) && !token_is_flag(t) && !token_is_variable(
            t,
        ),
        token_is_variable(t) ==> !token_is_positional(t) && !token_is_flag(t) && !token_is_option(
            t,
        ),
{
}

/// Exhaustive partition: every token lands in exactly one category, so
/// the flat record is exactly as long as the four category counts
/// together — flag clusters counted per character, and variable bindings
/// counted per token, overwritten ones included.
pub proof fn lemma_exhaustive_partition(toks: Seq<Seq<char>>)
    ensures
        spec_arguments(toks).len() == spec_positionals(toks).len() + spec_flags(toks).len()
            + spec_options(toks).len() + spec_variable_count(toks),
    decreases toks.len(),
{
    if toks.len() > 0 {
        lemma_exhaustive_partition(toks.drop_last());
        let t = toks.last();
        lemma_token_has_one_category(t);
        if token_is_flag(t) {
            assert(token_args(t).len() == t.len() - 1);
            assert(t.skip(1).len() == t.len() - 1);
        }
    }
}

/// Order preservation: classifying a concatenation of token sequences
/// yields the concatenation of their classifications. Each output
/// sequence therefore lists its entries in input encounter order.
pub proof fn lemma_classification_appends(a: Seq<Seq<char>>, b: Seq<Seq<char>>)
    ensures
        spec_arguments(a + b) == spec_arguments(a) + spec_arguments(b),
        spec_positionals(a + b) == spec_positionals(a) + spec_positionals(b),
        spec_flags(a + b) == spec_flags(a) + spec_flags(b),
        spec_options(a + b) == spec_options(a) + spec_options(b),
    decreases b.len(),
{
    if b.len() == 0 {
        assert(a + b =~= a);
        assert(spec_arguments(a) + spec_arguments(b) =~= spec_arguments(a));
        assert(spec_positionals(a) + spec_positionals(b) =~= spec_positionals(a));
        assert(spec_flags(a) + spec_flags(b) =~= spec_flags(a));
        assert(spec_options(a) + spec_options(b) =~= spec_options(a));
    } else {
        lemma_classification_appends(a, b.drop_last());
        assert((a + b).drop_last() =~= a + b.drop_last());
        assert((a + b).last() == b.last());
        assert(spec_arguments(a + b) =~= spec_arguments(a) + spec_arguments(b));
        assert(spec_positionals(a + b) =~= spec_positionals(a) + spec_positionals(b));
        assert(spec_flags(a + b) =~= spec_flags(a) + spec_flags(b));
        assert(spec_options(a + b) =~= spec_options(a) + spec_options(b));
    }
}

/// Last write wins: when position `j` holds the last variable token that
/// binds its name, the final mapping binds that name to the value of that
/// token — any earlier binding of the same name is overwritten.
pub proof fn lemma_last_write_wins(toks: Seq<Seq<char>>, j: int)
    requires
        0 <= j < toks.len(),
        token_is_variable(toks[j]),
        forall|k: int|
            j < k < toks.len() && token_is_variable(#[trigger] toks[k]) ==> var_name(toks[k])
                != var_name(toks[j]),
    ensures
        spec_variables(toks).contains_key(var_name(toks[j])),
        spec_variables(toks)[var_name(toks[j])] == var_value(toks[j]),
    decreases toks.len(),
{
    if j == toks.len() - 1 {
    } else {
        assert(forall|k: int| 0 <= k < toks.len() - 1 ==> toks.drop_last()[k] == toks[k]);
        lemma_last_write_wins(toks.drop_last(), j);
    }
}

/// The final mapping binds exactly the names that some variable token of
/// the input binds.
pub proof fn lemma_variables_domain(toks: Seq<Seq<char>>, n: Seq<char>)
    ensures
        spec_variables(toks).contains_key(n) <==> exists|k: int|
            0 <= k < toks.len() && token_is_variable(#[trigger] toks[k]) && var_name(toks[k]) == n,
    decreases toks.len(),
{
    if toks.len() > 0 {
        lemma_variables_domain(toks.drop_last(), n);
        assert(forall|k: int| 0 <= k < toks.len() - 1 ==> toks.drop_last()[k] == toks[k]);
        if spec_variables(toks).contains_key(n) {
            if token_is_variable(toks.last()) && var_name(toks.last()) == n {
                assert(token_is_variable(toks[toks.len() - 1]));
            } else {
                let k = choose|k: int|
                    0 <= k < toks.len() - 1 && token_is_variable(#[trigger] toks.drop_last()[k])
                        && var_name(toks.drop_last()[k]) == n;
                assert(token_is_variable(toks[k]) && var_name(toks[k]) == n);
            }
        }
        if exists|k: int|
            0 <= k < toks.len() && token_is_variable(#[trigger] toks[k]) && var_name(toks[k])
                == n {
            let k = choose|k: int|
                0 <= k < toks.len() && token_is_variable(#[trigger] toks[k]) && var_name(toks[k])
                    == n;
            if k < toks.len() - 1 {
                assert(token_is_variable(toks.drop_last()[k]) && var_name(toks.drop_last()[k])
                    == n);
            }
        }
    }
}

/// Every entry of the positionals output is itself positional-shaped.
pub proof fn lemma_positionals_all_positional(toks: Seq<Seq<char>>)
    ensures
        forall|k: int|
            0 <= k < spec_positionals(toks).len() ==> token_is_positional(
                #[trigger] spec_positionals(toks)[k],
            ),
    decreases toks.len(),
{
    if toks.len() > 0 {
        lemma_positionals_all_positional(toks.drop_last());
        let p = spec_positionals(toks);
        let q = spec_positionals(toks.drop_last());
        assert forall|k: int| 0 <= k < p.len() implies token_is_positional(p[k]) by {
            if k < q.len() {
                assert(p[k] == q[k]);
            } else {
                assert(token_is_positional(toks.last()));
                assert(p[k] == toks.last());
            }
        }
    }
}

/// A sequence of positional-shaped tokens classifies to itself: its
/// positionals output is the sequence unchanged.
pub proof fn lemma_positional_fixpoint(toks: Seq<Seq<char>>)
    requires
        forall|k: int| 0 <= k < toks.len() ==> token_is_positional(#[trigger] toks[k]),
    ensures
        spec_positionals(toks) == toks,
    decreases toks.len(),
{
    if toks.len() > 0 {
        assert(forall|k: int| 0 <= k < toks.len() - 1 ==> toks.drop_last()[k] == toks[k]);
        lemma_positional_fixpoint(toks.drop_last());
        assert(spec_positionals(toks) =~= toks.drop_last() + seq![toks.last()]);
        assert(toks.drop_last() + seq![toks.last()] =~= toks);
    }
}

/// Idempotence of re-classification: classifying the positionals output
/// again yields the same sequence back unchanged.
pub proof fn lemma_positionals_idempotent(toks: Seq<Seq<char>>)
    ensures
        spec_positionals(spec_positionals(toks)) == spec_positionals(toks),
{
    lemma_positionals_all_positional(toks);
    lemma_positional_fixpoint(spec_positionals(toks));
}

} // verus!
