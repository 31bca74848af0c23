//! Laws of the tokenizer, the pattern relation and the version order: the
//! round trip from tokens back to the source string, the alternation of token
//! kinds, the equivalence laws of the pattern relation, and the total-order
//! laws of the comparison.

use core::cmp::Ordering;
use vstd::prelude::*;

use crate::order::{spec_cmp_digits, spec_cmp_text, spec_cmp_token, spec_cmp_version, spec_reverse, strip_zeros};
use crate::version::{flatten_tokens, is_digit, lemma_tokenize_run, spec_same_pattern, spec_tokenize, Token};

verus! {

/// Well-formedness of a token sequence: every token is non-empty, every
/// character of a token has the token's digit-ness, and adjacent tokens
/// differ in kind.
pub open spec fn wf_tokens(tokens: Seq<Token>) -> bool {
    &&& forall|i: int| 0 <= i < tokens.len() ==> (#[trigger] tokens[i]).1.len() > 0
    &&& forall|i: int, k: int|
        0 <= i < tokens.len() && 0 <= k < tokens[i].1.len() ==> is_digit(
            #[trigger] tokens[i].1[k],
        ) == tokens[i].0
    &&& forall|i: int| 0 < i < tokens.len() ==> (#[trigger] tokens[i]).0 != tokens[i - 1].0
}

/// Concatenating the text of all tokens produced by tokenizing a string
/// yields exactly that string.
pub proof fn lemma_tokenize_round_trip(s: Seq<char>)
    ensures
        flatten_tokens(spec_tokenize(s)) == s,
    decreases s.len(),
{
    if s.len() == 0 {
        assert(flatten_tokens(spec_tokenize(s)) =~= s);
    } else {
        lemma_tokenize_round_trip(s.drop_first());
        let d = is_digit(s[0]);
        let rest = spec_tokenize(s.drop_first());
        let tokens = spec_tokenize(s);
        if rest.len() > 0 && rest[0].0 == d {
            assert(tokens.drop_first() =~= rest.drop_first());
            assert(tokens[0] == (d, seq![s[0]] + rest[0].1));
            assert(flatten_tokens(rest) == rest[0].1 + flatten_tokens(rest.drop_first()));
            assert(flatten_tokens(tokens) == tokens[0].1 + flatten_tokens(tokens.drop_first()));
            assert(flatten_tokens(tokens) =~= seq![s[0]] + (rest[0].1 + flatten_tokens(
                rest.drop_first(),
            )));
            assert(flatten_tokens(tokens) =~= seq![s[0]] + s.drop_first());
            assert(seq![s[0]] + s.drop_first() =~= s);
        } else {
            assert(tokens.drop_first() =~= rest);
            assert(flatten_tokens(tokens) =~= s);
        }
    }
}

/// Tokenizing yields a well-formed token sequence; in particular no two
/// adjacent tokens have the same kind.
pub proof fn lemma_tokenize_wf(s: Seq<char>)
    ensures
        wf_tokens(spec_tokenize(s)),
    decreases s.len(),
{
    if s.len() > 0 {
        lemma_tokenize_wf(s.drop_first());
        let d = is_digit(s[0]);
        let rest = spec_tokenize(s.drop_first());
        let tokens = spec_tokenize(s);
        if rest.len() > 0 && rest[0].0 == d {
            assert(tokens[0].1 =~= seq![s[0]] + rest[0].1);
            assert(forall|i: int| 0 < i < tokens.len() ==> #[trigger] tokens[i] == rest[i]);
            assert(forall|k: int| 0 <= k < tokens[0].1.len() ==> is_digit(
                #[trigger] tokens[0].1[k],
            ) == tokens[0].0);
        } else {
            assert(tokens[0].1 =~= seq![s[0]]);
            assert(forall|i: int| 0 < i < tokens.len() ==> #[trigger] tokens[i] == rest[i - 1]);
        }
    }
}

/// A well-formed token sequence is the tokenization of the string it
/// flattens to: the well-formedness invariants characterize the tokenizer's
/// output completely.
pub proof fn lemma_tokenize_unique(tokens: Seq<Token>)
    requires
        wf_tokens(tokens),
    ensures
        tokens == spec_tokenize(flatten_tokens(tokens)),
    decreases tokens.len(),
{
    let s = flatten_tokens(tokens);
    if tokens.len() == 0 {
        assert(tokens =~= spec_tokenize(s));
    } else {
        let t0 = tokens[0];
        let d = t0.0;
        let m = t0.1.len() as int;
        let rest = tokens.drop_first();
        let rest_flat = flatten_tokens(rest);
        assert(s == t0.1 + rest_flat);
        assert(is_digit(s[0]) == d);
        assert forall|k: int| 0 <= k < m implies is_digit(#[trigger] s[k]) == is_digit(s[0]) by {
            assert(s[k] == t0.1[k]);
        }
        if m < s.len() {
            let t1 = tokens[1];
            assert(rest[0] == t1);
            assert(rest_flat == t1.1 + flatten_tokens(rest.drop_first()));
            assert(t1.1.len() > 0);
            assert(s[m] == rest_flat[0]);
            assert(rest_flat[0] == t1.1[0]);
            assert(is_digit(s[m]) == t1.0);
            assert(t1.0 != d);
        }
        lemma_tokenize_run(s, m);
        assert(wf_tokens(rest)) by {
            assert(forall|i: int| 0 <= i < rest.len() ==> #[trigger] rest[i] == tokens[i + 1]);
        }
        lemma_tokenize_unique(rest);
        assert(s.subrange(0, m) =~= t0.1);
        assert(s.subrange(m, s.len() as int) =~= rest_flat);
        assert(tokens =~= seq![(d, s.subrange(0, m))] + spec_tokenize(
            s.subrange(m, s.len() as int),
        ));
    }
}

/// The pattern relation is reflexive: every string matches its own pattern.
pub proof fn lemma_same_pattern_reflexive(s: Seq<char>)
    ensures
        spec_same_pattern(spec_tokenize(s), spec_tokenize(s)),
{
}

/// The pattern relation is symmetric.
pub proof fn lemma_same_pattern_symmetric(a: Seq<Token>, b: Seq<Token>)
    ensures
        spec_same_pattern(a, b) == spec_same_pattern(b, a),
{
}

/// The pattern relation is transitive.
pub proof fn lemma_same_pattern_transitive(a: Seq<Token>, b: Seq<Token>, c: Seq<Token>)
    requires
        spec_same_pattern(a, b),
        spec_same_pattern(b, c),
    ensures
        spec_same_pattern(a, c),
{
    assert forall|i: int| 0 <= i < a.len() implies {
        &&& (#[trigger] a[i]).0 == (#[trigger] c[i]).0
        &&& (!a[i].0 ==> a[i].1 == c[i].1)
    } by {
        assert(a[i].0 == b[i].0);
        assert(b[i].0 == c[i].0);
    }
}

proof fn lemma_cmp_text_refl(a: Seq<char>)
    ensures
        spec_cmp_text(a, a) == Ordering::Equal,
    decreases a.len(),
{
    if a.len() > 0 {
        lemma_cmp_text_refl(a.drop_first());
    }
}

proof fn lemma_cmp_text_antisym(a: Seq<char>, b: Seq<char>)
    ensures
        spec_cmp_text(b, a) == spec_reverse(spec_cmp_text(a, b)),
    decreases a.len(),
{
    if a.len() > 0 && b.len() > 0 && a[0] as u32 == b[0] as u32 {
        lemma_cmp_text_antisym(a.drop_first(), b.drop_first());
    }
}

proof fn lemma_cmp_text_equal(a: Seq<char>, b: Seq<char>)
    requires
        spec_cmp_text(a, b) == Ordering::Equal,
    ensures
        a == b,
    decreases a.len(),
{
    if a.len() > 0 {
        lemma_cmp_text_equal(a.drop_first(), b.drop_first());
        let ua = a[0] as u32;
        let ub = b[0] as u32;
        assert(ua == ub);
        vstd::utf8::char_u32_cast(a[0], ua);
        vstd::utf8::char_u32_cast(b[0], ub);
        assert(a[0] == b[0]);
        assert(a =~= seq![a[0]] + a.drop_first());
        assert(b =~= seq![b[0]] + b.drop_first());
        assert(a =~= b);
    } else {
        assert(a =~= b);
    }
}

proof fn lemma_cmp_text_trans(a: Seq<char>, b: Seq<char>, c: Seq<char>)
    requires
        spec_cmp_text(a, b) != Ordering::Greater,
        spec_cmp_text(b, c) != Ordering::Greater,
    ensures
        spec_cmp_text(a, c) != Ordering::Greater,
        spec_cmp_text(a, b) == Ordering::Less || spec_cmp_text(b, c) == Ordering::Less
            ==> spec_cmp_text(a, c) == Ordering::Less,
    decreases a.len() + b.len() + c.len(),
{
    if a.len() > 0 && b.len() > 0 && c.len() > 0 && a[0] as u32 == b[0] as u32 && b[0] as u32
        == c[0] as u32 {
        lemma_cmp_text_trans(a.drop_first(), b.drop_first(), c.drop_first());
    }
}

proof fn lemma_cmp_digits_antisym(a: Seq<char>, b: Seq<char>)
    ensures
        spec_cmp_digits(b, a) == spec_reverse(spec_cmp_digits(a, b)),
{
    lemma_cmp_text_antisym(strip_zeros(a), strip_zeros(b));
}

proof fn lemma_cmp_digits_equal(a: Seq<char>, b: Seq<char>)
    requires
        spec_cmp_digits(a, b) == Ordering::Equal,
    ensures
        strip_zeros(a) == strip_zeros(b),
{
    lemma_cmp_text_equal(strip_zeros(a), strip_zeros(b));
}

proof fn lemma_cmp_digits_trans(a: Seq<char>, b: Seq<char>, c: Seq<char>)
    requires
        spec_cmp_digits(a, b) != Ordering::Greater,
        spec_cmp_digits(b, c) != Ordering::Greater,
    ensures
        spec_cmp_digits(a, c) != Ordering::Greater,
        spec_cmp_digits(a, b) == Ordering::Less || spec_cmp_digits(b, c) == Ordering::Less
            ==> spec_cmp_digits(a, c) == Ordering::Less,
{
    let sa = strip_zeros(a);
    let sb = strip_zeros(b);
    let sc = strip_zeros(c);
    if sa.len() == sb.len() && sb.len() == sc.len() {
        lemma_cmp_text_trans(sa, sb, sc);
    }
}

proof fn lemma_cmp_token_refl(t: Token)
    ensures
        spec_cmp_token(t, t) == Ordering::Equal,
{
    if t.0 {
        lemma_cmp_text_refl(strip_zeros(t.1));
    } else {
        lemma_cmp_text_refl(t.1);
    }
}

proof fn lemma_cmp_token_antisym(a: Token, b: Token)
    ensures
        spec_cmp_token(b, a) == spec_reverse(spec_cmp_token(a, b)),
{
    if a.0 && b.0 {
        lemma_cmp_digits_antisym(a.1, b.1);
    } else if !a.0 && !b.0 {
        lemma_cmp_text_antisym(a.1, b.1);
    }
}

proof fn lemma_cmp_token_trans(a: Token, b: Token, c: Token)
    requires
        spec_cmp_token(a, b) != Ordering::Greater,
        spec_cmp_token(b, c) != Ordering::Greater,
    ensures
        spec_cmp_token(a, c) != Ordering::Greater,
        spec_cmp_token(a, b) == Ordering::Less || spec_cmp_token(b, c) == Ordering::Less
            ==> spec_cmp_token(a, c) == Ordering::Less,
{
    if a.0 && b.0 && c.0 {
        lemma_cmp_digits_trans(a.1, b.1, c.1);
    } else if !a.0 && !b.0 && !c.0 {
        lemma_cmp_text_trans(a.1, b.1, c.1);
    }
}

/// Tokens that compare equal are interchangeable on either side of a token
/// comparison.
proof fn lemma_cmp_token_equal_congruent(a: Token, b: Token, r: Token)
    requires
        spec_cmp_token(a, b) == Ordering::Equal,
    ensures
        spec_cmp_token(a, r) == spec_cmp_token(b, r),
        spec_cmp_token(r, a) == spec_cmp_token(r, b),
{
    if a.0 && b.0 {
        lemma_cmp_digits_equal(a.1, b.1);
    } else if !a.0 && !b.0 {
        lemma_cmp_text_equal(a.1, b.1);
    }
}

/// The version comparison is reflexive: every token sequence compares equal
/// to itself.
pub proof fn lemma_compare_reflexive(a: Seq<Token>)
    ensures
        spec_cmp_version(a, a) == Ordering::Equal,
    decreases a.len(),
{
    if a.len() > 0 {
        lemma_cmp_token_refl(a[0]);
        lemma_compare_reflexive(a.drop_first());
    }
}

/// The version comparison is antisymmetric: swapping the operands reverses
/// the result.
pub proof fn lemma_compare_antisymmetric(a: Seq<Token>, b: Seq<Token>)
    ensures
        spec_cmp_version(b, a) == spec_reverse(spec_cmp_version(a, b)),
    decreases a.len(),
{
    if a.len() > 0 && b.len() > 0 {
        lemma_cmp_token_antisym(a[0], b[0]);
        if spec_cmp_token(a[0], b[0]) == Ordering::Equal {
            lemma_compare_antisymmetric(a.drop_first(), b.drop_first());
        }
    }
}

/// The version comparison is transitive, strictly so as soon as one of the
/// two comparisons is strict.
pub proof fn lemma_compare_transitive(a: Seq<Token>, b: Seq<Token>, c: Seq<Token>)
    requires
        spec_cmp_version(a, b) != Ordering::Greater,
        spec_cmp_version(b, c) != Ordering::Greater,
    ensures
        spec_cmp_version(a, c) != Ordering::Greater,
        spec_cmp_version(a, b) == Ordering::Less || spec_cmp_version(b, c) == Ordering::Less
            ==> spec_cmp_version(a, c) == Ordering::Less,
    decreases a.len() + b.len() + c.len(),
{
    if a.len() > 0 && b.len() > 0 && c.len() > 0 {
        let ab = spec_cmp_token(a[0], b[0]);
        let bc = spec_cmp_token(b[0], c[0]);
        if ab == Ordering::Equal && bc == Ordering::Equal {
            lemma_cmp_token_equal_congruent(a[0], b[0], c[0]);
            lemma_compare_transitive(a.drop_first(), b.drop_first(), c.drop_first());
        } else if ab == Ordering::Equal {
            lemma_cmp_token_equal_congruent(a[0], b[0], c[0]);
        } else if bc == Ordering::Equal {
            lemma_cmp_token_equal_congruent(b[0], c[0], a[0]);
        } else {
            lemma_cmp_token_trans(a[0], b[0], c[0]);
        }
    }
}

} // verus!
