//! Version tokenization: splitting a string into alternating runs of ASCII
//! digit and non-digit characters, and deciding whether two strings share the
//! same formatting pattern.

use vstd::prelude::*;

verus! {

/// Whether a character is an ASCII digit (`0` through `9`, code points 48-57).
pub open spec fn is_digit(c: char) -> bool {
    48 <= c as u32 && c as u32 <= 57
}

/// A token of a version string: its kind (`true` for a digit run) and its text.
pub type Token = (bool, Seq<char>);

/// The token sequence of a string: maximal runs of characters of equal
/// digit-ness, in order, each tagged with whether it is a digit run.
///
/// Defined by folding from the right: the first character either joins the
/// first token of the tail's tokenization (same digit-ness) or starts a new
/// token of its own.
pub open spec fn spec_tokenize(s: Seq<char>) -> Seq<Token>
    decreases s.len(),
{
    if s.len() == 0 {
        Seq::empty()
    } else {
        let d = is_digit(s[0]);
        let rest = spec_tokenize(s.drop_first());
        if rest.len() > 0 && rest[0].0 == d {
            seq![(d, seq![s[0]] + rest[0].1)] + rest.drop_first()
        } else {
            seq![(d, seq![s[0]])] + rest
        }
    }
}

/// The concatenation of the text of all tokens.
pub open spec fn flatten_tokens(tokens: Seq<Token>) -> Seq<char>
    decreases tokens.len(),
{
    if tokens.len() == 0 {
        Seq::empty()
    } else {
        tokens[0].1 + flatten_tokens(tokens.drop_first())
    }
}

/// The first token of a non-empty string's tokenization starts with the
/// string's first character and carries its digit-ness.
pub proof fn lemma_tokenize_first(s: Seq<char>)
    requires
        s.len() > 0,
    ensures
        spec_tokenize(s).len() > 0,
        spec_tokenize(s)[0].0 == is_digit(s[0]),
        spec_tokenize(s)[0].1.len() > 0,
        spec_tokenize(s)[0].1[0] == s[0],
    decreases s.len(),
{
    if s.len() > 1 {
        lemma_tokenize_first(s.drop_first());
    }
}

/// Splitting a string right after a maximal leading run splits its
/// tokenization: the run becomes the first token, and the remainder
/// tokenizes on its own.
pub proof fn lemma_tokenize_run(s: Seq<char>, m: int)
    requires
        0 < m <= s.len(),
        forall|k: int| 0 <= k < m ==> is_digit(#[trigger] s[k]) == is_digit(s[0]),
        m == s.len() || is_digit(s[m]) != is_digit(s[0]),
    ensures
        spec_tokenize(s) == seq![(is_digit(s[0]), s.subrange(0, m))]
            + spec_tokenize(s.subrange(m, s.len() as int)),
    decreases m,
{
    let d = is_digit(s[0]);
    let rest = spec_tokenize(s.drop_first());
    if m == 1 {
        if s.len() == 1 {
            assert(s.subrange(0, 1) =~= seq![s[0]]);
            assert(s.subrange(1, 1) =~= Seq::<char>::empty());
        } else {
            lemma_tokenize_first(s.drop_first());
            assert(s.drop_first()[0] == s[1]);
            assert(rest[0].0 != d);
            assert(s.subrange(0, 1) =~= seq![s[0]]);
            assert(s.drop_first() =~= s.subrange(1, s.len() as int));
            assert(spec_tokenize(s) =~= seq![(d, s.subrange(0, 1))]
                + spec_tokenize(s.subrange(1, s.len() as int)));
        }
    } else {
        let t = s.drop_first();
        assert(forall|k: int| 0 <= k < m - 1 ==> is_digit(#[trigger] t[k]) == is_digit(t[0]));
        lemma_tokenize_run(t, m - 1);
        assert(rest == seq![(d, t.subrange(0, m - 1))]
            + spec_tokenize(t.subrange(m - 1, t.len() as int)));
        assert(rest.len() > 0 && rest[0].0 == d);
        assert(seq![s[0]] + t.subrange(0, m - 1) =~= s.subrange(0, m));
        assert(rest.drop_first() =~= spec_tokenize(t.subrange(m - 1, t.len() as int)));
        assert(t.subrange(m - 1, t.len() as int) =~= s.subrange(m, s.len() as int));
        assert(spec_tokenize(s) =~= seq![(d, s.subrange(0, m))]
            + spec_tokenize(s.subrange(m, s.len() as int)));
    }
}

/// A string of ASCII digits that is compared numerically rather than
/// lexicographically.
#[derive(Debug, PartialEq, Eq)]
pub struct DigitStr(String);

impl View for DigitStr {
    type V = Seq<char>;

    closed spec fn view(&self) -> Seq<char> {
        self.0@
    }
}

impl DigitStr {
    /// Wraps a string consisting only of ASCII digits.
    pub fn new(text: &str) -> (d: DigitStr)
        requires
            forall|i: int| 0 <= i < text@.len() ==> is_digit(text@[i]),
        ensures
            d@ == text@,
    {
        DigitStr(text.to_owned())
    }

    /// The digits as a string slice.
    pub fn as_str(&self) -> (r: &str)
        ensures
            r@ == self@,
    {
        self.0.as_str()
    }
}

/// A single part in a [`Version`] string: a digit run or a non-digit run.
#[derive(Debug, PartialEq, Eq)]
pub enum VersionPart {
    Num(DigitStr),
    Str(String),
}

impl VersionPart {
    /// Whether this part is a digit run.
    pub open spec fn is_num(&self) -> bool {
        match self {
            VersionPart::Num(_) => true,
            VersionPart::Str(_) => false,
        }
    }

    /// The characters of this part.
    pub open spec fn text(&self) -> Seq<char> {
        match self {
            VersionPart::Num(d) => d@,
            VersionPart::Str(s) => s@,
        }
    }

    /// The token this part stands for.
    pub open spec fn token(&self) -> Token {
        (self.is_num(), self.text())
    }

    /// The text of this part as a string slice.
    pub fn as_str(&self) -> (r: &str)
        ensures
            r@ == self.text(),
    {
        match self {
            VersionPart::Num(d) => d.as_str(),
            VersionPart::Str(s) => s.as_str(),
        }
    }
}

/// Whether two token sequences follow the same formatting pattern: same count
/// and order of kinds, and textually identical non-digit tokens.
pub open spec fn spec_same_pattern(a: Seq<Token>, b: Seq<Token>) -> bool {
    &&& a.len() == b.len()
    &&& forall|i: int|
        0 <= i < a.len() ==> {
            &&& (#[trigger] a[i]).0 == (#[trigger] b[i]).0
            &&& (!a[i].0 ==> a[i].1 == b[i].1)
        }
}

/// A sequence of alternating digit and non-digit string parts, as produced by
/// [`Version::from`]. Its view is the token sequence `spec_tokenize` yields
/// for the source string.
#[derive(Debug, PartialEq, Eq)]
pub struct Version(Vec<VersionPart>);

impl View for Version {
    type V = Seq<Token>;

    closed spec fn view(&self) -> Seq<Token> {
        self.0@.map_values(|p: VersionPart| p.token())
    }
}

fn digit_char(c: char) -> (r: bool)
    ensures
        r == is_digit(c),
{
    let u = c as u32;
    48 <= u && u <= 57
}

impl Version {
    /// Chunks an arbitrary string into a version sequence: the maximal runs
    /// of characters of equal digit-ness, in order.
    pub fn from(text: &str) -> (v: Version)
        ensures
            v@ == spec_tokenize(text@),
    {
        let ghost s = text@;
        let len = text.unicode_len();
        let mut parts: Vec<VersionPart> = Vec::new();
        let mut i: usize = 0;
        proof {
            assert(s.subrange(0, len as int) =~= s);
            assert(parts@.map_values(|p: VersionPart| p.token()) =~= Seq::<Token>::empty());
        }
        while i < len
            invariant
                len == s.len(),
                s == text@,
                i <= len,
                spec_tokenize(s) =~= parts@.map_values(|p: VersionPart| p.token())
                    + spec_tokenize(s.subrange(i as int, len as int)),
            decreases len - i,
        {
            let c = text.get_char(i);
            let d = digit_char(c);
            let mut j = i + 1;
            while j < len && digit_char(text.get_char(j)) == d
                invariant
                    len == s.len(),
                    s == text@,
                    i < j <= len,
                    d == is_digit(s[i as int]),
                    forall|k: int| i <= k < j ==> is_digit(#[trigger] s[k]) == d,
                decreases len - j,
            {
                j += 1;
            }
            let run = text.substring_char(i, j);
            let part = if d {
                VersionPart::Num(DigitStr(run.to_owned()))
            } else {
                VersionPart::Str(run.to_owned())
            };
            let ghost old_parts = parts@;
            parts.push(part);
            proof {
                let t = s.subrange(i as int, len as int);
                assert(t[0] == s[i as int]);
                assert(forall|k: int| 0 <= k < j - i ==> is_digit(#[trigger] t[k]) == is_digit(t[0]));
                assert((j - i) as int == t.len() || is_digit(t[j - i]) != is_digit(t[0]));
                lemma_tokenize_run(t, j - i);
                assert(t.subrange(0, j - i) =~= s.subrange(i as int, j as int));
                assert(t.subrange(j - i, t.len() as int) =~= s.subrange(j as int, len as int));
                assert(part.token() == (d, s.subrange(i as int, j as int)));
                assert(parts@.map_values(|p: VersionPart| p.token())
                    =~= old_parts.map_values(|p: VersionPart| p.token()) + seq![part.token()]);
            }
            i = j;
        }
        proof {
            assert(s.subrange(len as int, len as int) =~= Seq::<char>::empty());
        }
        Version(parts)
    }

    /// The parts of this version, in order.
    pub fn parts(&self) -> (r: &Vec<VersionPart>)
        ensures
            r@.map_values(|p: VersionPart| p.token()) == self@,
    {
        &self.0
    }

    /// Determines whether two version sequences follow the same formatting
    /// pattern: the order and count of digit and non-digit parts matches, and
    /// the non-digit parts are textually equal.
    pub fn is_same_pattern(&self, other: &Self) -> (r: bool)
        ensures
            r == spec_same_pattern(self@, other@),
    {
        let n = self.0.len();
        if n != other.0.len() {
            return false;
        }
        let mut i: usize = 0;
        while i < n
            invariant
                n == self.0.len(),
                n == other.0.len(),
                i <= n,
                forall|k: int|
                    0 <= k < i ==> {
                        &&& (#[trigger] self@[k]).0 == (#[trigger] other@[k]).0
                        &&& (!self@[k].0 ==> self@[k].1 == other@[k].1)
                    },
            decreases n - i,
        {
            proof {
                assert(self@[i as int] == self.0@[i as int].token());
                assert(other@[i as int] == other.0@[i as int].token());
            }
            match (&self.0[i], &other.0[i]) {
                (VersionPart::Num(_), VersionPart::Num(_)) => {},
                (VersionPart::Str(a), VersionPart::Str(b)) => {
                    if !(*a == *b) {
                        assert(self@[i as int].1 != other@[i as int].1);
                        return false;
                    }
                },
                _ => {
                    assert(self@[i as int].0 != other@[i as int].0);
                    return false;
                },
            }
            i += 1;
        }
        true
    }

    /// The source string this version was chunked from: the concatenation of
    /// the text of all parts.
    pub fn to_text(&self) -> (r: String)
        ensures
            r@ == flatten_tokens(self@),
    {
        let mut out = String::new();
        let n = self.0.len();
        let mut i: usize = 0;
        proof {
            assert(self@.skip(0) =~= self@);
            assert(out@ + flatten_tokens(self@) =~= flatten_tokens(self@));
        }
        while i < n
            invariant
                n == self.0.len(),
                i <= n,
                out@ + flatten_tokens(self@.skip(i as int)) =~= flatten_tokens(self@),
            decreases n - i,
        {
            proof {
                assert(self@.skip(i as int).drop_first() =~= self@.skip(i + 1));
                assert(self@.skip(i as int)[0] == self@[i as int]);
                assert(self@[i as int] == self.0@[i as int].token());
            }
            let ghost old_out = out@;
            out.append(self.0[i].as_str());
            proof {
                assert(out@ + flatten_tokens(self@.skip(i + 1))
                    =~= old_out + flatten_tokens(self@.skip(i as int)));
            }
            i += 1;
        }
        proof {
            assert(self@.skip(n as int) =~= Seq::<Token>::empty());
            assert(out@ + flatten_tokens(Seq::<Token>::empty()) =~= out@);
        }
        out
    }
}

} // verus!
