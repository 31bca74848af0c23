//! The total order over version token sequences: lexicographic over parts,
//! with digit runs compared numerically (leading zeros insignificant) and
//! digit runs ordered strictly below non-digit runs.

use core::cmp::Ordering;
use vstd::prelude::*;

use crate::version::{DigitStr, Token, Version, VersionPart};

verus! {

/// The reverse of an ordering.
pub open spec fn spec_reverse(o: Ordering) -> Ordering {
    match o {
        Ordering::Less => Ordering::Greater,
        Ordering::Equal => Ordering::Equal,
        Ordering::Greater => Ordering::Less,
    }
}

/// Lexicographic comparison of character sequences by code point; a strict
/// prefix is less than the longer sequence.
pub open spec fn spec_cmp_text(a: Seq<char>, b: Seq<char>) -> Ordering
    decreases a.len(),
{
    if a.len() == 0 && b.len() == 0 {
        Ordering::Equal
    } else if a.len() == 0 {
        Ordering::Less
    } else if b.len() == 0 {
        Ordering::Greater
    } else if (a[0] as u32) < (b[0] as u32) {
        Ordering::Less
    } else if (a[0] as u32) > (b[0] as u32) {
        Ordering::Greater
    } else {
        spec_cmp_text(a.drop_first(), b.drop_first())
    }
}

/// A digit run with its leading zeros removed.
pub open spec fn strip_zeros(s: Seq<char>) -> Seq<char>
    decreases s.len(),
{
    if s.len() > 0 && s[0] == '0' {
        strip_zeros(s.drop_first())
    } else {
        s
    }
}

/// Numeric comparison of digit runs: leading zeros are insignificant, a
/// longer stripped run is larger, and equal-length stripped runs compare
/// lexicographically.
pub open spec fn spec_cmp_digits(a: Seq<char>, b: Seq<char>) -> Ordering {
    let sa = strip_zeros(a);
    let sb = strip_zeros(b);
    if sa.len() < sb.len() {
        Ordering::Less
    } else if sa.len() > sb.len() {
        Ordering::Greater
    } else {
        spec_cmp_text(sa, sb)
    }
}

/// Comparison of single tokens: two digit runs compare numerically, two
/// non-digit runs textually, and a digit run is less than a non-digit run
/// regardless of content.
pub open spec fn spec_cmp_token(a: Token, b: Token) -> Ordering {
    if a.0 && b.0 {
        spec_cmp_digits(a.1, b.1)
    } else if !a.0 && !b.0 {
        spec_cmp_text(a.1, b.1)
    } else if a.0 {
        Ordering::Less
    } else {
        Ordering::Greater
    }
}

/// Lexicographic comparison of token sequences, part by part; a strict prefix
/// is less than the longer sequence.
pub open spec fn spec_cmp_version(a: Seq<Token>, b: Seq<Token>) -> Ordering
    decreases a.len(),
{
    if a.len() == 0 && b.len() == 0 {
        Ordering::Equal
    } else if a.len() == 0 {
        Ordering::Less
    } else if b.len() == 0 {
        Ordering::Greater
    } else {
        match spec_cmp_token(a[0], b[0]) {
            Ordering::Equal => spec_cmp_version(a.drop_first(), b.drop_first()),
            Ordering::Less => Ordering::Less,
            Ordering::Greater => Ordering::Greater,
        }
    }
}

/// Dropping equal first characters leaves a lexicographic comparison
/// unchanged.
proof fn lemma_cmp_text_step(a: Seq<char>, b: Seq<char>)
    requires
        a.len() > 0,
        b.len() > 0,
        a[0] == b[0],
    ensures
        spec_cmp_text(a, b) == spec_cmp_text(a.drop_first(), b.drop_first()),
{
}

/// Lexicographic comparison of the suffixes of two strings, starting at the
/// given character positions.
fn cmp_text_from(a: &str, from_a: usize, b: &str, from_b: usize) -> (r: Ordering)
    requires
        from_a <= a@.len(),
        from_b <= b@.len(),
    ensures
        r == spec_cmp_text(a@.skip(from_a as int), b@.skip(from_b as int)),
{
    let la = a.unicode_len();
    let lb = b.unicode_len();
    let mut p = from_a;
    let mut q = from_b;
    while p < la && q < lb
        invariant
            la == a@.len(),
            lb == b@.len(),
            p <= la,
            q <= lb,
            spec_cmp_text(a@.skip(p as int), b@.skip(q as int)) == spec_cmp_text(
                a@.skip(from_a as int),
                b@.skip(from_b as int),
            ),
        decreases la - p,
    {
        let ca = a.get_char(p);
        let cb = b.get_char(q);
        proof {
            assert(a@.skip(p as int)[0] == ca);
            assert(b@.skip(q as int)[0] == cb);
        }
        if (ca as u32) < (cb as u32) {
            return Ordering::Less;
        }
        if (ca as u32) > (cb as u32) {
            return Ordering::Greater;
        }
        proof {
            lemma_cmp_text_step(a@.skip(p as int), b@.skip(q as int));
            assert(a@.skip(p as int).drop_first() =~= a@.skip(p + 1));
            assert(b@.skip(q as int).drop_first() =~= b@.skip(q + 1));
        }
        p += 1;
        q += 1;
    }
    if p < la {
        Ordering::Greater
    } else if q < lb {
        Ordering::Less
    } else {
        Ordering::Equal
    }
}

/// Removing exactly the leading zeros of a digit run is what `strip_zeros`
/// does.
proof fn lemma_strip_zeros_skip(s: Seq<char>, z: int)
    requires
        0 <= z <= s.len(),
        forall|k: int| 0 <= k < z ==> #[trigger] s[k] == '0',
        z == s.len() || s[z] != '0',
    ensures
        strip_zeros(s) == s.skip(z),
    decreases z,
{
    if z == 0 {
        assert(s.skip(0) =~= s);
    } else {
        lemma_strip_zeros_skip(s.drop_first(), z - 1);
        assert(s.drop_first().skip(z - 1) =~= s.skip(z));
    }
}

/// The position right after the leading zeros of a string.
fn find_stripped_start(s: &str) -> (z: usize)
    ensures
        z <= s@.len(),
        strip_zeros(s@) == s@.skip(z as int),
{
    let len = s.unicode_len();
    let mut z: usize = 0;
    while z < len && s.get_char(z) == '0'
        invariant
            len == s@.len(),
            z <= len,
            forall|k: int| 0 <= k < z ==> #[trigger] s@[k] == '0',
        decreases len - z,
    {
        z += 1;
    }
    proof {
        lemma_strip_zeros_skip(s@, z as int);
    }
    z
}

impl DigitStr {
    /// Compares two digit runs numerically.
    pub fn cmp(&self, other: &DigitStr) -> (r: Ordering)
        ensures
            r == spec_cmp_digits(self@, other@),
    {
        let a = self.as_str();
        let b = other.as_str();
        let za = find_stripped_start(a);
        let zb = find_stripped_start(b);
        let stripped_a = a.unicode_len() - za;
        let stripped_b = b.unicode_len() - zb;
        if stripped_a < stripped_b {
            Ordering::Less
        } else if stripped_a > stripped_b {
            Ordering::Greater
        } else {
            cmp_text_from(a, za, b, zb)
        }
    }
}

impl VersionPart {
    /// Compares two parts: digit runs numerically, non-digit runs textually,
    /// and a digit run below a non-digit run.
    pub fn cmp(&self, other: &VersionPart) -> (r: Ordering)
        ensures
            r == spec_cmp_token(self.token(), other.token()),
    {
        match (self, other) {
            (VersionPart::Num(a), VersionPart::Num(b)) => a.cmp(b),
            (VersionPart::Str(a), VersionPart::Str(b)) => {
                proof {
                    assert(a@.skip(0) =~= a@);
                    assert(b@.skip(0) =~= b@);
                }
                cmp_text_from(a.as_str(), 0, b.as_str(), 0)
            },
            (VersionPart::Num(_), VersionPart::Str(_)) => Ordering::Less,
            (VersionPart::Str(_), VersionPart::Num(_)) => Ordering::Greater,
        }
    }
}

impl Version {
    /// Compares two version sequences part by part.
    pub fn cmp(&self, other: &Version) -> (r: Ordering)
        ensures
            r == spec_cmp_version(self@, other@),
    {
        let a = self.parts();
        let b = other.parts();
        let la = a.len();
        let lb = b.len();
        let mut i: usize = 0;
        proof {
            assert(self@.skip(0) =~= self@);
            assert(other@.skip(0) =~= other@);
        }
        while i < la && i < lb
            invariant
                la == self@.len(),
                lb == other@.len(),
                a@.map_values(|p: VersionPart| p.token()) == self@,
                b@.map_values(|p: VersionPart| p.token()) == other@,
                i <= la,
                i <= lb,
                spec_cmp_version(self@.skip(i as int), other@.skip(i as int)) == spec_cmp_version(
                    self@,
                    other@,
                ),
            decreases la - i,
        {
            proof {
                assert(self@.skip(i as int)[0] == self@[i as int]);
                assert(other@.skip(i as int)[0] == other@[i as int]);
                assert(self@[i as int] == a@[i as int].token());
                assert(other@[i as int] == b@[i as int].token());
            }
            match a[i].cmp(&b[i]) {
                Ordering::Equal => {
                    proof {
                        assert(self@.skip(i as int).drop_first() =~= self@.skip(i + 1));
                        assert(other@.skip(i as int).drop_first() =~= other@.skip(i + 1));
                    }
                },
                Ordering::Less => {
                    return Ordering::Less;
                },
                Ordering::Greater => {
                    return Ordering::Greater;
                },
            }
            i += 1;
        }
        proof {
            if i == la {
                assert(self@.skip(i as int) =~= Seq::<Token>::empty());
            }
            if i == lb {
                assert(other@.skip(i as int) =~= Seq::<Token>::empty());
            }
        }
        if i < lb {
            Ordering::Less
        } else if i < la {
            Ordering::Greater
        } else {
            Ordering::Equal
        }
    }
}

} // verus!
