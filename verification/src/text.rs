//! Text helpers: decimal numbers, whitespace trimming, grapheme clusters and
//! joining strings.
use vstd::prelude::*;

verus! {

pub open spec fn digit_char(d: nat) -> char {
    (('0' as u32) + d) as char
}

/// The decimal digits of `n`, most significant first.
pub open spec fn digits(n: nat) -> Seq<char>
    decreases n,
{
    if n < 10 {
        seq![digit_char(n)]
    } else {
        digits(n / 10).push(digit_char(n % 10))
    }
}

/// `n` written in decimal, with a leading `-` when negative.
pub open spec fn decimal(n: int) -> Seq<char> {
    if n < 0 {
        seq!['-'] + digits((-n) as nat)
    } else {
        digits(n as nat)
    }
}

/// What `to_string` gives for an integer: its decimal form, as the
/// documentation of `Display` for integers shows.
#[verifier::external_body]
pub(crate) fn int_to_string(n: i128) -> (r: String)
    ensures
        r@ == decimal(n as int),
{
    n.to_string()
}

/// The characters that Unicode gives the White_Space property, which is
/// what `char::is_whitespace` and `str::trim` go by.
pub open spec fn is_white_space(c: char) -> bool {
    let u = c as u32;
    (0x09 <= u <= 0x0d) || u == 0x20 || u == 0x85 || u == 0xa0 || u == 0x1680 || (0x2000 <= u
        <= 0x200a) || u == 0x2028 || u == 0x2029 || u == 0x202f || u == 0x205f || u == 0x3000
}

pub open spec fn trim_start(s: Seq<char>) -> Seq<char>
    decreases s.len(),
{
    if s.len() > 0 && is_white_space(s[0]) {
        trim_start(s.subrange(1, s.len() as int))
    } else {
        s
    }
}

pub open spec fn trim_end(s: Seq<char>) -> Seq<char>
    decreases s.len(),
{
    if s.len() > 0 && is_white_space(s.last()) {
        trim_end(s.drop_last())
    } else {
        s
    }
}

/// `s` without leading and trailing white space.
pub open spec fn trim(s: Seq<char>) -> Seq<char> {
    trim_end(trim_start(s))
}

/// `str::trim`: the slice of `s` without leading and trailing white space.
#[verifier::external_body]
pub(crate) fn trim_str(s: &str) -> (r: &str)
    ensures
        r@ == trim(s@),
{
    s.trim()
}

/// The extended grapheme clusters of `s`, in order, as the
/// `unicode-segmentation` crate divides it (Unicode UAX #29).
pub uninterp spec fn spec_graphemes(s: Seq<char>) -> Seq<Seq<char>>;

/// The clusters that `UnicodeSegmentation::graphemes(s, true)` yields. Of them
/// it is stated that, put together, they give `s` back and that none is
/// empty; where one cluster ends and the next begins is left to the name.
#[verifier::external_body]
pub(crate) fn graphemes(s: &str) -> (r: Vec<String>)
    ensures
        r@.map_values(|g: String| g@) == spec_graphemes(s@),
        r@.map_values(|g: String| g@).flatten() == s@,
        forall|i: int| 0 <= i < r@.len() ==> (#[trigger] r@[i])@.len() > 0,
{
    unicode_segmentation::UnicodeSegmentation::graphemes(s, true).map(|g| g.to_owned()).collect()
}

/// `a` followed by `b`.
pub fn concat(a: &str, b: &str) -> (r: String)
    ensures
        r@ == a@ + b@,
{
    let mut s = a.to_owned();
    s.append(b);
    s
}

/// Empty strings split into no clusters; others into at least one.
pub proof fn lemma_clusters_empty(g: Seq<Seq<char>>, s: Seq<char>)
    requires
        g.flatten() == s,
        forall|i: int| 0 <= i < g.len() ==> (#[trigger] g[i]).len() > 0,
    ensures
        (g.len() == 0) == (s.len() == 0),
{
    if g.len() == 0 {
        assert(g.flatten() =~= Seq::<char>::empty());
    } else {
        g.lemma_flatten_and_flatten_alt_are_equivalent();
        assert(g.flatten() == g[0] + g.subrange(1, g.len() as int).flatten()) by {
            reveal_with_fuel(Seq::flatten, 2);
            assert(g.drop_first() =~= g.subrange(1, g.len() as int));
        }
    }
}

/// A split into non-empty clusters has exactly one cluster exactly where
/// its first cluster is the whole text.
pub proof fn lemma_single_cluster(g: Seq<Seq<char>>, s: Seq<char>)
    requires
        g.flatten() == s,
        g.len() > 0,
        forall|i: int| 0 <= i < g.len() ==> (#[trigger] g[i]).len() > 0,
    ensures
        (g.len() == 1) == (g[0] == s),
{
    let rest = g.drop_first();
    g.lemma_flatten_and_flatten_alt_are_equivalent();
    assert(g.flatten() == g[0] + rest.flatten()) by {
        reveal_with_fuel(Seq::flatten, 2);
    }
    assert forall|i: int| 0 <= i < rest.len() implies (#[trigger] rest[i]).len() > 0 by {
        assert(rest[i] == g[i + 1]);
    }
    lemma_clusters_empty(rest, rest.flatten());
    if g.len() != 1 {
        assert((g[0] + rest.flatten()).len() > g[0].len());
    } else {
        assert(rest.flatten() =~= Seq::<char>::empty());
        assert(g[0] + rest.flatten() =~= g[0]);
    }
}

} // verus!
