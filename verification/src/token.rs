//! Token-level classification: the per-token predicates that decide which
//! category a single token belongs to, and the split point of a
//! `--name=value` token.

use vstd::prelude::*;
use vstd::string::StrSliceExecFns;

verus! {

/// The token begins with at least one `-`.
pub open spec fn starts_dash(s: Seq<char>) -> bool {
    s.len() >= 1 && s[0] == '-'
}

/// The token begins with `--`.
pub open spec fn starts_double_dash(s: Seq<char>) -> bool {
    s.len() >= 2 && s[0] == '-' && s[1] == '-'
}

/// The token contains an `=` character anywhere.
pub open spec fn has_eq(s: Seq<char>) -> bool {
    exists|i: int| 0 <= i < s.len() && s[i] == '='
}

/// A positional token: one that does not start with `-` (this includes the
/// empty token).
pub open spec fn token_is_positional(s: Seq<char>) -> bool {
    !starts_dash(s)
}

/// A flag cluster: starts with exactly one leading `-`.
pub open spec fn token_is_flag(s: Seq<char>) -> bool {
    starts_dash(s) && !starts_double_dash(s)
}

/// A long option: starts with `--` and carries no `=`.
pub open spec fn token_is_option(s: Seq<char>) -> bool {
    starts_double_dash(s) && !has_eq(s)
}

/// A variable: starts with `--` and carries an `=`.
pub open spec fn token_is_variable(s: Seq<char>) -> bool {
    starts_double_dash(s) && has_eq(s)
}

/// Index of the first `=` in `s`; meaningful only when `has_eq(s)` holds.
pub open spec fn first_eq_index(s: Seq<char>) -> int
    decreases s.len(),
{
    if s.len() == 0 {
        0
    } else if s[0] == '=' {
        0
    } else {
        1 + first_eq_index(s.skip(1))
    }
}

/// The name of a variable token: the characters between the `--` prefix and
/// the first `=`.
pub open spec fn var_name(s: Seq<char>) -> Seq<char> {
    s.subrange(2, first_eq_index(s))
}

/// The value of a variable token: the characters after the first `=`.
pub open spec fn var_value(s: Seq<char>) -> Seq<char> {
    s.subrange(first_eq_index(s) + 1, s.len() as int)
}

/// `first_eq_index` returns exactly the position of the first `=`: if `s[i]`
/// is an `=` and no earlier character is, then `first_eq_index(s) == i`.
pub proof fn lemma_first_eq_at(s: Seq<char>, i: int)
    requires
        0 <= i < s.len(),
        s[i] == '=',
        forall|j: int| 0 <= j < i ==> s[j] != '=',
    ensures
        has_eq(s),
        first_eq_index(s) == i,
    decreases s.len(),
{
    if i == 0 {
    } else {
        assert(s[0] != '=');
        assert(s.skip(1)[i - 1] == s[i]);
        assert(forall|j: int| 0 <= j < i - 1 ==> s.skip(1)[j] == s[j + 1]);
        lemma_first_eq_at(s.skip(1), i - 1);
    }
}

/// A variable token always has a valid split point: its first `=` lies
/// strictly inside the token, at or after the `--` prefix. The defensive
/// drop of a variable-shaped token without an `=` to split on can
/// therefore never fire — the variable predicate and the split never
/// disagree.
pub proof fn lemma_variable_split_in_range(s: Seq<char>)
    requires
        token_is_variable(s),
    ensures
        2 <= first_eq_index(s) < s.len(),
        s[first_eq_index(s)] == '=',
{
    let i = choose|i: int| 0 <= i < s.len() && s[i] == '=';
    lemma_first_eq_exists(s, i);
}

/// Helper: from any witness of an `=`, the first `=` is a valid split point.
proof fn lemma_first_eq_exists(s: Seq<char>, i: int)
    requires
        0 <= i < s.len(),
        s[i] == '=',
        starts_double_dash(s),
    ensures
        2 <= first_eq_index(s) < s.len(),
        s[first_eq_index(s)] == '=',
    decreases i,
{
    if forall|j: int| 0 <= j < i ==> s[j] != '=' {
        lemma_first_eq_at(s, i);
        assert(s[0] == '-' && s[1] == '-');
    } else {
        let j = choose|j: int| 0 <= j < i && s[j] == '=';
        lemma_first_eq_exists(s, j);
    }
}

/// The category a token falls under, decided by one ordered match; the
/// four cases are mutually exclusive and cover every token. A variable
/// carries the position of its first `=`, the point it splits at.
pub enum TokenClass {
    Positional,
    Flag,
    Option,
    Variable { eq: usize },
}

/// Decides the category of one token: not starting with `-` is
/// positional; a single leading `-` is a flag cluster; a `--` prefix is an
/// option without `=` and a variable with one.
pub fn classify_token(t: &str) -> (r: TokenClass)
    ensures
        match r {
            TokenClass::Positional => token_is_positional(t@),
            TokenClass::Flag => token_is_flag(t@),
            TokenClass::Option => token_is_option(t@),
            TokenClass::Variable { eq } => {
                &&& token_is_variable(t@)
                &&& eq as int == first_eq_index(t@)
                &&& 2 <= eq < t@.len()
            },
        },
{
    let n = t.unicode_len();
    if n == 0 || t.get_char(0) != '-' {
        TokenClass::Positional
    } else if n == 1 || t.get_char(1) != '-' {
        TokenClass::Flag
    } else {
        match first_eq_position(t) {
            None => TokenClass::Option,
            Some(eq) => {
                proof {
                    assert(t@[0] == '-' && t@[1] == '-');
                    assert(eq >= 2);
                }
                TokenClass::Variable { eq }
            },
        }
    }
}

/// A token is positional when it does not start with `-`.
pub fn is_positional(t: &str) -> (r: bool)
    ensures
        r == token_is_positional(t@),
{
    let n = t.unicode_len();
    n == 0 || t.get_char(0) != '-'
}

/// A token is a flag cluster when it starts with exactly one leading `-`.
pub fn is_flag(t: &str) -> (r: bool)
    ensures
        r == token_is_flag(t@),
{
    let n = t.unicode_len();
    n >= 1 && t.get_char(0) == '-' && (n == 1 || t.get_char(1) != '-')
}

/// Position of the first `=` in the token, if any.
pub fn first_eq_position(t: &str) -> (r: Option<usize>)
    ensures
        match r {
            Some(i) => {
                &&& has_eq(t@)
                &&& i < t@.len()
                &&& i as int == first_eq_index(t@)
                &&& t@[i as int] == '='
            },
            None => !has_eq(t@),
        },
{
    let n = t.unicode_len();
    let mut j: usize = 0;
    while j < n
        invariant
            j <= n,
            n == t@.len(),
            forall|k: int| 0 <= k < j ==> t@[k] != '=',
        decreases n - j,
    {
        if t.get_char(j) == '=' {
            proof {
                lemma_first_eq_at(t@, j as int);
            }
            return Some(j);
        }
        j += 1;
    }
    None
}

/// A token is a long option when it starts with `--` and has no `=`.
pub fn is_option(t: &str) -> (r: bool)
    ensures
        r == token_is_option(t@),
{
    let n = t.unicode_len();
    if n >= 2 && t.get_char(0) == '-' && t.get_char(1) == '-' {
        match first_eq_position(t) {
            Some(_) => false,
            None => true,
        }
    } else {
        false
    }
}

/// A token is a variable when it starts with `--` and has an `=`.
pub fn is_variable(t: &str) -> (r: bool)
    ensures
        r == token_is_variable(t@),
{
    let n = t.unicode_len();
    if n >= 2 && t.get_char(0) == '-' && t.get_char(1) == '-' {
        match first_eq_position(t) {
            Some(_) => true,
            None => false,
        }
    } else {
        false
    }
}

} // verus!
