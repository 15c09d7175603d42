//! The CBOR items (RFC 8949) that the board's wire format is made of:
//! unsigned and negative integers, byte and text strings, arrays, maps,
//! booleans and null. The writer writes definite lengths and integer
//! arguments in their shortest form; the reader accepts any width, and, as
//! `ciborium` does, indefinite lengths, tags (passed over) and `undefined`
//! (read as null).
use vstd::prelude::*;
use vstd::utf8::*;

verus! {

broadcast use vstd::utf8::encode_utf8_decode_utf8, vstd::utf8::encode_utf8_valid_utf8;

/// Nesting limit of the reader, as deep as `ciborium`'s default recursion limit.
pub const MAX_DEPTH: usize = 256;

/// An executable CBOR item.
pub enum CborValue {
    Unsigned(u64),
    /// The integer `-1 - n`.
    Negative(u64),
    Bytes(Vec<u8>),
    Text(String),
    Array(Vec<CborValue>),
    Dict(Vec<(CborValue, CborValue)>),
    Bool(bool),
    Null,
}

/// The mathematical CBOR item.
pub enum CborTerm {
    Unsigned(u64),
    Negative(u64),
    Bytes(Seq<u8>),
    Text(Seq<char>),
    Array(Seq<CborTerm>),
    Dict(Seq<(CborTerm, CborTerm)>),
    Bool(bool),
    Null,
}

pub open spec fn term_of(v: CborValue) -> CborTerm
    decreases v,
{
    match v {
        CborValue::Unsigned(n) => CborTerm::Unsigned(n),
        CborValue::Negative(n) => CborTerm::Negative(n),
        CborValue::Bytes(b) => CborTerm::Bytes(b@),
        CborValue::Text(s) => CborTerm::Text(s@),
        CborValue::Array(items) => CborTerm::Array(terms_of(items@)),
        CborValue::Dict(pairs) => CborTerm::Dict(pair_terms_of(pairs@)),
        CborValue::Bool(b) => CborTerm::Bool(b),
        CborValue::Null => CborTerm::Null,
    }
}

pub open spec fn terms_of(s: Seq<CborValue>) -> Seq<CborTerm>
    decreases s,
{
    if s.len() == 0 {
        Seq::empty()
    } else {
        seq![term_of(s[0])] + terms_of(s.subrange(1, s.len() as int))
    }
}

pub open spec fn pair_terms_of(s: Seq<(CborValue, CborValue)>) -> Seq<(CborTerm, CborTerm)>
    decreases s,
{
    if s.len() == 0 {
        Seq::empty()
    } else {
        seq![(term_of(s[0].0), term_of(s[0].1))] + pair_terms_of(s.subrange(1, s.len() as int))
    }
}

impl View for CborValue {
    type V = CborTerm;

    open spec fn view(&self) -> CborTerm {
        term_of(*self)
    }
}

// ---------------------------------------------------------------------------
// Encoding
// ---------------------------------------------------------------------------

/// The `k` low bytes of `n`, most significant first.
pub open spec fn be_bytes(n: nat, k: nat) -> Seq<u8>
    decreases k,
{
    if k == 0 {
        Seq::empty()
    } else {
        be_bytes(n / 256, (k - 1) as nat).push((n % 256) as u8)
    }
}

/// The number that the big-endian bytes `b` spell.
pub open spec fn be_value(b: Seq<u8>) -> nat
    decreases b.len(),
{
    if b.len() == 0 {
        0
    } else {
        be_value(b.drop_last()) * 256 + b.last() as nat
    }
}

/// The initial byte and argument bytes of an item of major type `major`
/// with argument `arg`, in the shortest form.
pub open spec fn head(major: u8, arg: u64) -> Seq<u8> {
    if arg < 24 {
        seq![(major * 32 + arg) as u8]
    } else if arg <= 0xff {
        seq![(major * 32 + 24) as u8] + be_bytes(arg as nat, 1)
    } else if arg <= 0xffff {
        seq![(major * 32 + 25) as u8] + be_bytes(arg as nat, 2)
    } else if arg <= 0xffff_ffff {
        seq![(major * 32 + 26) as u8] + be_bytes(arg as nat, 4)
    } else {
        seq![(major * 32 + 27) as u8] + be_bytes(arg as nat, 8)
    }
}

pub open spec fn encode_term(t: CborTerm) -> Seq<u8>
    decreases t,
{
    match t {
        CborTerm::Unsigned(n) => head(0, n),
        CborTerm::Negative(n) => head(1, n),
        CborTerm::Bytes(b) => head(2, b.len() as u64) + b,
        CborTerm::Text(s) => head(3, encode_utf8(s).len() as u64) + encode_utf8(s),
        CborTerm::Array(items) => head(4, items.len() as u64) + encode_terms(items),
        CborTerm::Dict(pairs) => head(5, pairs.len() as u64) + encode_pairs(pairs),
        CborTerm::Bool(b) => if b { seq![0xf5u8] } else { seq![0xf4u8] },
        CborTerm::Null => seq![0xf6u8],
    }
}

pub open spec fn encode_terms(s: Seq<CborTerm>) -> Seq<u8>
    decreases s,
{
    if s.len() == 0 {
        Seq::empty()
    } else {
        encode_term(s[0]) + encode_terms(s.subrange(1, s.len() as int))
    }
}

pub open spec fn encode_pairs(s: Seq<(CborTerm, CborTerm)>) -> Seq<u8>
    decreases s,
{
    if s.len() == 0 {
        Seq::empty()
    } else {
        encode_term(s[0].0) + encode_term(s[0].1) + encode_pairs(s.subrange(1, s.len() as int))
    }
}

/// Every length in the term fits an argument, and it nests at most `depth` deep.
pub open spec fn well_formed(t: CborTerm, depth: nat) -> bool
    decreases t,
{
    match t {
        CborTerm::Bytes(b) => b.len() <= u64::MAX,
        CborTerm::Text(s) => encode_utf8(s).len() <= u64::MAX,
        CborTerm::Array(items) => depth > 0 && items.len() <= u64::MAX && all_well_formed(
            items,
            (depth - 1) as nat,
        ),
        CborTerm::Dict(pairs) => depth > 0 && pairs.len() <= u64::MAX && all_pairs_well_formed(
            pairs,
            (depth - 1) as nat,
        ),
        _ => true,
    }
}

pub open spec fn all_well_formed(s: Seq<CborTerm>, depth: nat) -> bool
    decreases s,
{
    if s.len() == 0 {
        true
    } else {
        well_formed(s[0], depth) && all_well_formed(s.subrange(1, s.len() as int), depth)
    }
}

pub open spec fn all_pairs_well_formed(s: Seq<(CborTerm, CborTerm)>, depth: nat) -> bool
    decreases s,
{
    if s.len() == 0 {
        true
    } else {
        well_formed(s[0].0, depth) && well_formed(s[0].1, depth) && all_pairs_well_formed(
            s.subrange(1, s.len() as int),
            depth,
        )
    }
}

// ---------------------------------------------------------------------------
// Decoding
// ---------------------------------------------------------------------------

/// The major type and argument of the item at `pos`, and where its content starts.
pub open spec fn parse_head(b: Seq<u8>, pos: int) -> Option<(u8, u64, int)> {
    if pos < 0 || pos >= b.len() {
        None
    } else {
        let major = b[pos] / 32;
        let info = b[pos] % 32;
        if info < 24 {
            Some((major, info as u64, pos + 1))
        } else if info == 24 && pos + 2 <= b.len() {
            Some((major, be_value(b.subrange(pos + 1, pos + 2)) as u64, pos + 2))
        } else if info == 25 && pos + 3 <= b.len() {
            Some((major, be_value(b.subrange(pos + 1, pos + 3)) as u64, pos + 3))
        } else if info == 26 && pos + 5 <= b.len() {
            Some((major, be_value(b.subrange(pos + 1, pos + 5)) as u64, pos + 5))
        } else if info == 27 && pos + 9 <= b.len() {
            Some((major, be_value(b.subrange(pos + 1, pos + 9)) as u64, pos + 9))
        } else {
            None
        }
    }
}

/// The pieces of an indefinite-length byte string (major type 2) or text
/// string (major type 3) from `pos` up to its break: definite strings of
/// that type, or indefinite ones of that type nested in turn; and where
/// the break ends. Each piece is kept apart.
pub open spec fn parse_chunks(b: Seq<u8>, pos: int, major: u8) -> Option<(Seq<Seq<u8>>, int)>
    decreases b.len() - pos,
{
    if pos < 0 || pos >= b.len() {
        None
    } else if b[pos] == 0xff {
        Some((Seq::empty(), pos + 1))
    } else if b[pos] == major * 32 + 31 {
        match parse_chunks(b, pos + 1, major) {
            Some((inner, q)) => if q <= pos || q > b.len() {
                None
            } else {
                match parse_chunks(b, q, major) {
                    Some((rest, r)) => Some((inner + rest, r)),
                    None => None,
                }
            },
            None => None,
        }
    } else {
        match parse_head(b, pos) {
            Some((m, arg, p)) => if m == major && p + arg <= b.len() {
                match parse_chunks(b, p + arg, major) {
                    Some((rest, r)) => Some((seq![b.subrange(p, p + arg)] + rest, r)),
                    None => None,
                }
            } else {
                None
            },
            None => None,
        }
    }
}

/// Whether every piece is valid UTF-8.
pub open spec fn chunks_valid_utf8(c: Seq<Seq<u8>>) -> bool {
    forall|i: int| 0 <= i < c.len() ==> valid_utf8(#[trigger] c[i])
}

/// The bytes of the pieces, one after the other.
pub open spec fn chunks_bytes(c: Seq<Seq<u8>>) -> Seq<u8>
    decreases c.len(),
{
    if c.len() == 0 {
        Seq::empty()
    } else {
        chunks_bytes(c.drop_last()) + c.last()
    }
}

/// The characters of the pieces, one after the other.
pub open spec fn chunks_text(c: Seq<Seq<u8>>) -> Seq<char>
    decreases c.len(),
{
    if c.len() == 0 {
        Seq::empty()
    } else {
        chunks_text(c.drop_last()) + decode_utf8(c.last())
    }
}

/// The item that starts at `pos`, nesting at most `depth` deep, and where it
/// ends. Tags are passed over, so a tagged item reads as the item; the
/// simple value `undefined` reads as null; byte strings, text strings,
/// arrays and maps may have indefinite length.
pub open spec fn parse_term(b: Seq<u8>, pos: int, depth: nat) -> Option<(CborTerm, int)>
    decreases depth, 0nat, b.len() - pos,
{
    match parse_head(b, pos) {
        None => {
            if pos < 0 || pos >= b.len() {
                None
            } else if b[pos] == 0x5f {
                match parse_chunks(b, pos + 1, 2) {
                    Some((c, q)) => Some((CborTerm::Bytes(chunks_bytes(c)), q)),
                    None => None,
                }
            } else if b[pos] == 0x7f {
                match parse_chunks(b, pos + 1, 3) {
                    Some((c, q)) => if chunks_valid_utf8(c) {
                        Some((CborTerm::Text(chunks_text(c)), q))
                    } else {
                        None
                    },
                    None => None,
                }
            } else if b[pos] == 0x9f {
                if depth == 0 {
                    None
                } else {
                    match parse_items_to_break(b, pos + 1, (depth - 1) as nat) {
                        Some((items, q)) => Some((CborTerm::Array(items), q)),
                        None => None,
                    }
                }
            } else if b[pos] == 0xbf {
                if depth == 0 {
                    None
                } else {
                    match parse_pairs_to_break(b, pos + 1, (depth - 1) as nat) {
                        Some((pairs, q)) => Some((CborTerm::Dict(pairs), q)),
                        None => None,
                    }
                }
            } else {
                None
            }
        },
        Some((major, arg, p)) => {
            if major == 0 {
                Some((CborTerm::Unsigned(arg), p))
            } else if major == 1 {
                Some((CborTerm::Negative(arg), p))
            } else if major == 2 {
                if p + arg <= b.len() {
                    Some((CborTerm::Bytes(b.subrange(p, p + arg)), p + arg))
                } else {
                    None
                }
            } else if major == 3 {
                if p + arg <= b.len() && valid_utf8(b.subrange(p, p + arg)) {
                    Some((CborTerm::Text(decode_utf8(b.subrange(p, p + arg))), p + arg))
                } else {
                    None
                }
            } else if major == 4 {
                if depth == 0 {
                    None
                } else {
                    match parse_terms(b, p, arg as nat, (depth - 1) as nat) {
                        Some((items, q)) => Some((CborTerm::Array(items), q)),
                        None => None,
                    }
                }
            } else if major == 5 {
                if depth == 0 {
                    None
                } else {
                    match parse_pairs(b, p, arg as nat, (depth - 1) as nat) {
                        Some((pairs, q)) => Some((CborTerm::Dict(pairs), q)),
                        None => None,
                    }
                }
            } else if major == 6 {
                if p <= pos || p > b.len() {
                    None
                } else {
                    parse_term(b, p, depth)
                }
            } else if major == 7 && b[pos] == 0xf4 {
                Some((CborTerm::Bool(false), p))
            } else if major == 7 && b[pos] == 0xf5 {
                Some((CborTerm::Bool(true), p))
            } else if major == 7 && (b[pos] == 0xf6 || b[pos] == 0xf7) {
                Some((CborTerm::Null, p))
            } else {
                None
            }
        },
    }
}

/// The items from `pos` up to a break, and where the break ends.
pub open spec fn parse_items_to_break(b: Seq<u8>, pos: int, depth: nat) -> Option<(Seq<CborTerm>, int)>
    decreases depth, 1nat, b.len() - pos,
{
    if pos < 0 || pos >= b.len() {
        None
    } else if b[pos] == 0xff {
        Some((Seq::empty(), pos + 1))
    } else {
        match parse_term(b, pos, depth) {
            None => None,
            Some((t, p)) => if p <= pos || p > b.len() {
                None
            } else {
                match parse_items_to_break(b, p, depth) {
                    None => None,
                    Some((rest, q)) => Some((seq![t] + rest, q)),
                }
            },
        }
    }
}

/// The key/value pairs from `pos` up to a break, and where the break ends.
pub open spec fn parse_pairs_to_break(b: Seq<u8>, pos: int, depth: nat) -> Option<
    (Seq<(CborTerm, CborTerm)>, int),
>
    decreases depth, 1nat, b.len() - pos,
{
    if pos < 0 || pos >= b.len() {
        None
    } else if b[pos] == 0xff {
        Some((Seq::empty(), pos + 1))
    } else {
        match parse_term(b, pos, depth) {
            None => None,
            Some((k, p)) => match parse_term(b, p, depth) {
                None => None,
                Some((v, p2)) => if p2 <= pos || p2 > b.len() {
                    None
                } else {
                    match parse_pairs_to_break(b, p2, depth) {
                        None => None,
                        Some((rest, q)) => Some((seq![(k, v)] + rest, q)),
                    }
                },
            },
        }
    }
}

/// `count` consecutive items from `pos`.
pub open spec fn parse_terms(b: Seq<u8>, pos: int, count: nat, depth: nat) -> Option<
    (Seq<CborTerm>, int),
>
    decreases depth, 1nat, count,
{
    if count == 0 {
        Some((Seq::empty(), pos))
    } else {
        match parse_term(b, pos, depth) {
            None => None,
            Some((t, p)) => match parse_terms(b, p, (count - 1) as nat, depth) {
                None => None,
                Some((rest, q)) => Some((seq![t] + rest, q)),
            },
        }
    }
}

/// `count` consecutive key/value pairs from `pos`.
pub open spec fn parse_pairs(b: Seq<u8>, pos: int, count: nat, depth: nat) -> Option<
    (Seq<(CborTerm, CborTerm)>, int),
>
    decreases depth, 1nat, count,
{
    if count == 0 {
        Some((Seq::empty(), pos))
    } else {
        match parse_term(b, pos, depth) {
            None => None,
            Some((k, p)) => match parse_term(b, p, depth) {
                None => None,
                Some((v, p2)) => match parse_pairs(b, p2, (count - 1) as nat, depth) {
                    None => None,
                    Some((rest, q)) => Some((seq![(k, v)] + rest, q)),
                },
            },
        }
    }
}

/// The item at the start of `b`; bytes after it are ignored.
pub open spec fn decode_bytes(b: Seq<u8>) -> Option<CborTerm> {
    match parse_term(b, 0, MAX_DEPTH as nat) {
        Some((t, _)) => Some(t),
        None => None,
    }
}

// ---------------------------------------------------------------------------
// Proofs: the reader gives back what the writer wrote
// ---------------------------------------------------------------------------

pub open spec fn pow256(k: nat) -> nat
    decreases k,
{
    if k == 0 {
        1
    } else {
        256 * pow256((k - 1) as nat)
    }
}

proof fn lemma_be_bytes_len(n: nat, k: nat)
    ensures
        be_bytes(n, k).len() == k,
    decreases k,
{
    if k > 0 {
        lemma_be_bytes_len(n / 256, (k - 1) as nat);
    }
}

proof fn lemma_be_roundtrip(n: nat, k: nat)
    requires
        n < pow256(k),
    ensures
        be_value(be_bytes(n, k)) == n,
    decreases k,
{
    if k > 0 {
        let p = pow256((k - 1) as nat);
        assert(n / 256 < p) by (nonlinear_arith)
            requires
                n < 256 * p,
        ;
        lemma_be_roundtrip(n / 256, (k - 1) as nat);
        let b = be_bytes(n, k);
        assert(b.drop_last() =~= be_bytes(n / 256, (k - 1) as nat));
        assert(n == (n / 256) * 256 + n % 256) by (nonlinear_arith);
    }
}

proof fn lemma_be_value_bound(b: Seq<u8>)
    ensures
        be_value(b) < pow256(b.len()),
    decreases b.len(),
{
    if b.len() > 0 {
        lemma_be_value_bound(b.drop_last());
        let v = be_value(b.drop_last());
        let p = pow256(b.drop_last().len());
        assert(v * 256 + b.last() < 256 * p) by (nonlinear_arith)
            requires
                v < p,
                b.last() < 256,
        ;
    }
}

proof fn lemma_pow256_values()
    ensures
        pow256(1) == 0x100,
        pow256(2) == 0x1_0000,
        pow256(4) == 0x1_0000_0000,
        pow256(8) == 0x1_0000_0000_0000_0000,
{
    reveal_with_fuel(pow256, 9);
}

proof fn lemma_parse_head(b: Seq<u8>, pos: int, major: u8, arg: u64)
    requires
        major < 8,
        0 <= pos,
        pos + head(major, arg).len() <= b.len(),
        b.subrange(pos, pos + head(major, arg).len()) == head(major, arg),
    ensures
        parse_head(b, pos) == Some((major, arg, pos + head(major, arg).len())),
        b[pos] == head(major, arg)[0],
{
    let h = head(major, arg);
    assert(b[pos] == h[0]) by {
        assert(b.subrange(pos, pos + h.len())[0] == b[pos]);
    }
    lemma_pow256_values();
    let k: nat = if arg < 24 {
        0
    } else if arg <= 0xff {
        1
    } else if arg <= 0xffff {
        2
    } else if arg <= 0xffff_ffff {
        4
    } else {
        8
    };
    lemma_be_bytes_len(arg as nat, k);
    if k > 0 {
        lemma_be_roundtrip(arg as nat, k);
        assert(b.subrange(pos + 1, pos + 1 + k) =~= be_bytes(arg as nat, k)) by {
            assert forall|i: int| 0 <= i < k implies b.subrange(pos + 1, pos + 1 + k)[i] == be_bytes(
                arg as nat,
                k,
            )[i] by {
                assert(b.subrange(pos, pos + h.len())[i + 1] == h[i + 1]);
            }
        }
    }
}

pub proof fn lemma_terms_of_len(s: Seq<CborValue>)
    ensures
        terms_of(s).len() == s.len(),
        forall|i: int| 0 <= i < s.len() ==> #[trigger] terms_of(s)[i] == term_of(s[i]),
    decreases s.len(),
{
    if s.len() > 0 {
        lemma_terms_of_len(s.subrange(1, s.len() as int));
        assert forall|i: int| 0 <= i < s.len() implies #[trigger] terms_of(s)[i] == term_of(s[i]) by {
            if i > 0 {
                assert(s.subrange(1, s.len() as int)[i - 1] == s[i]);
            }
        }
    }
}

pub proof fn lemma_pair_terms_of_len(s: Seq<(CborValue, CborValue)>)
    ensures
        pair_terms_of(s).len() == s.len(),
        forall|i: int|
            0 <= i < s.len() ==> #[trigger] pair_terms_of(s)[i] == (term_of(s[i].0), term_of(s[i].1)),
    decreases s.len(),
{
    if s.len() > 0 {
        lemma_pair_terms_of_len(s.subrange(1, s.len() as int));
        assert forall|i: int| 0 <= i < s.len() implies #[trigger] pair_terms_of(s)[i] == (
            term_of(s[i].0),
            term_of(s[i].1),
        ) by {
            if i > 0 {
                assert(s.subrange(1, s.len() as int)[i - 1] == s[i]);
            }
        }
    }
}

/// `terms_of` is the item-by-item view.
pub proof fn lemma_terms_of_is_map(s: Seq<CborValue>)
    ensures
        terms_of(s) == s.map_values(|v: CborValue| term_of(v)),
{
    lemma_terms_of_len(s);
    assert(terms_of(s) =~= s.map_values(|v: CborValue| term_of(v)));
}

/// `pair_terms_of` is the pair-by-pair view.
pub proof fn lemma_pair_terms_of_is_map(s: Seq<(CborValue, CborValue)>)
    ensures
        pair_terms_of(s) == s.map_values(|p: (CborValue, CborValue)| (term_of(p.0), term_of(p.1))),
{
    lemma_pair_terms_of_len(s);
    assert(pair_terms_of(s) =~= s.map_values(
        |p: (CborValue, CborValue)| (term_of(p.0), term_of(p.1)),
    ));
}

proof fn lemma_encode_terms_push(s: Seq<CborTerm>, t: CborTerm)
    ensures
        encode_terms(s.push(t)) == encode_terms(s) + encode_term(t),
    decreases s.len(),
{
    if s.len() == 0 {
        assert(s.push(t).subrange(1, 1) =~= Seq::<CborTerm>::empty());
        assert(encode_terms(Seq::<CborTerm>::empty()) =~= Seq::<u8>::empty());
        assert(s.push(t)[0] == t);
        assert(encode_terms(s.push(t)) =~= encode_term(t));
    } else {
        let tail = s.subrange(1, s.len() as int);
        lemma_encode_terms_push(tail, t);
        assert(s.push(t).subrange(1, s.len() + 1 as int) =~= tail.push(t));
        assert(s.push(t)[0] == s[0]);
        assert(encode_terms(s.push(t)) =~= encode_term(s[0]) + (encode_terms(tail) + encode_term(t)));
    }
}

proof fn lemma_encode_pairs_push(s: Seq<(CborTerm, CborTerm)>, p: (CborTerm, CborTerm))
    ensures
        encode_pairs(s.push(p)) == encode_pairs(s) + encode_term(p.0) + encode_term(p.1),
    decreases s.len(),
{
    if s.len() == 0 {
        assert(s.push(p).subrange(1, 1) =~= Seq::<(CborTerm, CborTerm)>::empty());
        assert(encode_pairs(Seq::<(CborTerm, CborTerm)>::empty()) =~= Seq::<u8>::empty());
        assert(s.push(p)[0] == p);
        assert(encode_pairs(s.push(p)) =~= encode_term(p.0) + encode_term(p.1));
    } else {
        let tail = s.subrange(1, s.len() as int);
        lemma_encode_pairs_push(tail, p);
        assert(s.push(p).subrange(1, s.len() + 1 as int) =~= tail.push(p));
        assert(s.push(p)[0] == s[0]);
        assert(encode_pairs(s.push(p)) =~= encode_term(s[0].0) + encode_term(s[0].1) + (
        encode_pairs(tail) + encode_term(p.0) + encode_term(p.1)));
    }
}

/// Reading an item back from bytes that hold its encoding at `pos`.
#[verifier::rlimit(50)]
pub proof fn lemma_parse_encoded(b: Seq<u8>, pos: int, t: CborTerm, depth: nat)
    requires
        well_formed(t, depth),
        0 <= pos,
        pos + encode_term(t).len() <= b.len(),
        b.subrange(pos, pos + encode_term(t).len()) == encode_term(t),
    ensures
        parse_term(b, pos, depth) == Some((t, pos + encode_term(t).len())),
    decreases depth, 0nat, 0nat,
{
    let e = encode_term(t);
    let major: u8 = match t {
        CborTerm::Unsigned(_) => 0,
        CborTerm::Negative(_) => 1,
        CborTerm::Bytes(_) => 2,
        CborTerm::Text(_) => 3,
        CborTerm::Array(_) => 4,
        CborTerm::Dict(_) => 5,
        _ => 7,
    };
    match t {
        CborTerm::Bool(_) => {
            assert(b[pos] == b.subrange(pos, pos + e.len())[0]);
        },
        CborTerm::Null => {
            assert(b[pos] == b.subrange(pos, pos + e.len())[0]);
        },
        _ => {
            let arg: u64 = match t {
                CborTerm::Unsigned(n) => n,
                CborTerm::Negative(n) => n,
                CborTerm::Bytes(x) => x.len() as u64,
                CborTerm::Text(s) => encode_utf8(s).len() as u64,
                CborTerm::Array(items) => items.len() as u64,
                CborTerm::Dict(pairs) => pairs.len() as u64,
                _ => 0,
            };
            let h = head(major, arg);
            let rest = e.subrange(h.len() as int, e.len() as int);
            assert(e =~= h + rest);
            assert(b.subrange(pos, pos + h.len()) =~= h) by {
                assert forall|i: int| 0 <= i < h.len() implies b.subrange(pos, pos + h.len())[i]
                    == h[i] by {
                    assert(b.subrange(pos, pos + e.len())[i] == e[i]);
                }
            }
            lemma_parse_head(b, pos, major, arg);
            let p = pos + h.len();
            assert(b.subrange(p, p + rest.len()) =~= rest) by {
                assert forall|i: int| 0 <= i < rest.len() implies b.subrange(p, p + rest.len())[i]
                    == rest[i] by {
                    assert(b.subrange(pos, pos + e.len())[h.len() + i] == e[h.len() + i]);
                }
            }
            match t {
                CborTerm::Bytes(x) => {
                    assert(rest =~= x);
                },
                CborTerm::Text(s) => {
                    assert(rest =~= encode_utf8(s));
                },
                CborTerm::Array(items) => {
                    assert(rest =~= encode_terms(items));
                    lemma_parse_encoded_terms(b, p, items, (depth - 1) as nat);
                },
                CborTerm::Dict(pairs) => {
                    assert(rest =~= encode_pairs(pairs));
                    lemma_parse_encoded_pairs(b, p, pairs, (depth - 1) as nat);
                },
                _ => {},
            }
        },
    }
}

proof fn lemma_parse_encoded_terms(b: Seq<u8>, pos: int, items: Seq<CborTerm>, depth: nat)
    requires
        all_well_formed(items, depth),
        0 <= pos,
        pos + encode_terms(items).len() <= b.len(),
        b.subrange(pos, pos + encode_terms(items).len()) == encode_terms(items),
    ensures
        parse_terms(b, pos, items.len(), depth) == Some((items, pos + encode_terms(items).len())),
    decreases depth, 1nat, items.len(),
{
    if items.len() > 0 {
        let tail = items.subrange(1, items.len() as int);
        let e0 = encode_term(items[0]);
        let er = encode_terms(tail);
        assert(encode_terms(items) == e0 + er);
        assert(b.subrange(pos, pos + e0.len()) =~= e0) by {
            assert forall|i: int| 0 <= i < e0.len() implies b.subrange(pos, pos + e0.len())[i]
                == e0[i] by {
                assert(b.subrange(pos, pos + encode_terms(items).len())[i] == encode_terms(
                    items,
                )[i]);
            }
        }
        lemma_parse_encoded(b, pos, items[0], depth);
        let p = pos + e0.len();
        assert(b.subrange(p, p + er.len()) =~= er) by {
            assert forall|i: int| 0 <= i < er.len() implies b.subrange(p, p + er.len())[i]
                == er[i] by {
                assert(b.subrange(pos, pos + encode_terms(items).len())[e0.len() + i]
                    == encode_terms(items)[e0.len() + i]);
            }
        }
        lemma_parse_encoded_terms(b, p, tail, depth);
        assert(seq![items[0]] + tail =~= items);
    }
}

proof fn lemma_parse_encoded_pairs(
    b: Seq<u8>,
    pos: int,
    pairs: Seq<(CborTerm, CborTerm)>,
    depth: nat,
)
    requires
        all_pairs_well_formed(pairs, depth),
        0 <= pos,
        pos + encode_pairs(pairs).len() <= b.len(),
        b.subrange(pos, pos + encode_pairs(pairs).len()) == encode_pairs(pairs),
    ensures
        parse_pairs(b, pos, pairs.len(), depth) == Some((pairs, pos + encode_pairs(pairs).len())),
    decreases depth, 1nat, pairs.len(),
{
    if pairs.len() > 0 {
        let tail = pairs.subrange(1, pairs.len() as int);
        let ek = encode_term(pairs[0].0);
        let ev = encode_term(pairs[0].1);
        let er = encode_pairs(tail);
        let all = encode_pairs(pairs);
        assert(all == ek + ev + er);
        assert(b.subrange(pos, pos + ek.len()) =~= ek) by {
            assert forall|i: int| 0 <= i < ek.len() implies b.subrange(pos, pos + ek.len())[i]
                == ek[i] by {
                assert(b.subrange(pos, pos + all.len())[i] == all[i]);
            }
        }
        lemma_parse_encoded(b, pos, pairs[0].0, depth);
        let p = pos + ek.len();
        assert(b.subrange(p, p + ev.len()) =~= ev) by {
            assert forall|i: int| 0 <= i < ev.len() implies b.subrange(p, p + ev.len())[i]
                == ev[i] by {
                assert(b.subrange(pos, pos + all.len())[ek.len() + i] == all[ek.len() + i]);
            }
        }
        lemma_parse_encoded(b, p, pairs[0].1, depth);
        let p2 = p + ev.len();
        assert(b.subrange(p2, p2 + er.len()) =~= er) by {
            assert forall|i: int| 0 <= i < er.len() implies b.subrange(p2, p2 + er.len())[i]
                == er[i] by {
                assert(b.subrange(pos, pos + all.len())[ek.len() + ev.len() + i] == all[ek.len()
                    + ev.len() + i]);
            }
        }
        lemma_parse_encoded_pairs(b, p2, tail, depth);
        assert(seq![pairs[0]] + tail =~= pairs);
    }
}

pub proof fn lemma_all_pairs_well_formed(p: Seq<(CborTerm, CborTerm)>, depth: nat)
    requires
        forall|i: int|
            0 <= i < p.len() ==> well_formed(#[trigger] p[i].0, depth) && well_formed(p[i].1, depth),
    ensures
        all_pairs_well_formed(p, depth),
    decreases p.len(),
{
    if p.len() > 0 {
        let tail = p.subrange(1, p.len() as int);
        assert forall|i: int| 0 <= i < tail.len() implies well_formed(#[trigger] tail[i].0, depth)
            && well_formed(tail[i].1, depth) by {
            assert(tail[i] == p[i + 1]);
        }
        lemma_all_pairs_well_formed(tail, depth);
        assert(well_formed(p[0].0, depth));
    }
}

/// Law: decoding an encoding gives the item back, whatever follows it.
pub proof fn lemma_decode_encode(t: CborTerm, rest: Seq<u8>)
    requires
        well_formed(t, MAX_DEPTH as nat),
    ensures
        decode_bytes(encode_term(t) + rest) == Some(t),
{
    let b = encode_term(t) + rest;
    assert(b.subrange(0, encode_term(t).len() as int) =~= encode_term(t));
    lemma_parse_encoded(b, 0, t, MAX_DEPTH as nat);
}

// ---------------------------------------------------------------------------
// Executable writer and reader
// ---------------------------------------------------------------------------

/// The string that `String::from_utf8` makes of `bytes`: `Some` exactly when
/// they are valid UTF-8 (as std documents), holding the characters they spell.
#[verifier::external_body]
fn string_from_utf8(bytes: Vec<u8>) -> (r: Option<String>)
    ensures
        r is Some <==> valid_utf8(bytes@),
        r matches Some(s) ==> s@ == decode_utf8(bytes@),
{
    String::from_utf8(bytes).ok()
}

fn push_be(out: &mut Vec<u8>, n: u64, k: usize)
    ensures
        final(out)@ == old(out)@ + be_bytes(n as nat, k as nat),
    decreases k,
{
    if k > 0 {
        push_be(out, n / 256, k - 1);
        out.push((n % 256) as u8);
        assert(final(out)@ =~= old(out)@ + be_bytes(n as nat, k as nat));
    } else {
        assert(final(out)@ =~= old(out)@ + be_bytes(n as nat, k as nat));
    }
}

fn write_head(out: &mut Vec<u8>, major: u8, arg: u64)
    requires
        major < 8,
    ensures
        final(out)@ == old(out)@ + head(major, arg),
{
    let ghost start = out@;
    if arg < 24 {
        out.push(major * 32 + arg as u8);
    } else if arg <= 0xff {
        out.push(major * 32 + 24);
        push_be(out, arg, 1);
    } else if arg <= 0xffff {
        out.push(major * 32 + 25);
        push_be(out, arg, 2);
    } else if arg <= 0xffff_ffff {
        out.push(major * 32 + 26);
        push_be(out, arg, 4);
    } else {
        out.push(major * 32 + 27);
        push_be(out, arg, 8);
    }
    assert(out@ =~= start + head(major, arg));
}

fn push_all(out: &mut Vec<u8>, bytes: &[u8])
    ensures
        final(out)@ == old(out)@ + bytes@,
{
    let ghost start = out@;
    let mut i: usize = 0;
    while i < bytes.len()
        invariant
            i <= bytes.len(),
            out@ == start + bytes@.subrange(0, i as int),
        decreases bytes.len() - i,
    {
        out.push(bytes[i]);
        i = i + 1;
        assert(out@ =~= start + bytes@.subrange(0, i as int));
    }
    assert(bytes@.subrange(0, i as int) =~= bytes@);
}

fn encode_into(v: &CborValue, out: &mut Vec<u8>)
    ensures
        final(out)@ == old(out)@ + encode_term(v@),
    decreases v,
{
    let ghost start = out@;
    match v {
        CborValue::Unsigned(n) => write_head(out, 0, *n),
        CborValue::Negative(n) => write_head(out, 1, *n),
        CborValue::Bytes(b) => {
            write_head(out, 2, b.len() as u64);
            push_all(out, b.as_slice());
            assert(out@ =~= start + encode_term(v@));
        },
        CborValue::Text(s) => {
            let bytes = s.as_str().as_bytes();
            write_head(out, 3, bytes.len() as u64);
            push_all(out, bytes);
            assert(out@ =~= start + encode_term(v@));
        },
        CborValue::Array(items) => {
            write_head(out, 4, items.len() as u64);
            let ghost h = out@;
            proof {
                lemma_terms_of_len(items@);
            }
            let mut i: usize = 0;
            while i < items.len()
                invariant
                    i <= items.len(),
                    *v == CborValue::Array(*items),
                    terms_of(items@).len() == items@.len(),
                    forall|j: int| 0 <= j < items@.len() ==> #[trigger] terms_of(items@)[j] == term_of(items@[j]),
                    out@ == h + encode_terms(terms_of(items@).subrange(0, i as int)),
                decreases items.len() - i,
            {
                proof {
                    assert(decreases_to!(*v => (*v)->Array_0));
                    assert((*v)->Array_0 == *items);
                    assert(decreases_to!(*items => items@));
                    assert(decreases_to!(items@ => items@[i as int]));
                }
                encode_into(&items[i], out);
                proof {
                    let ts = terms_of(items@);
                    lemma_encode_terms_push(ts.subrange(0, i as int), ts[i as int]);
                    assert(ts.subrange(0, i as int).push(ts[i as int]) =~= ts.subrange(0, i + 1));
                }
                i = i + 1;
            }
            assert(terms_of(items@).subrange(0, i as int) =~= terms_of(items@));
            assert(out@ =~= start + encode_term(v@));
        },
        CborValue::Dict(pairs) => {
            write_head(out, 5, pairs.len() as u64);
            let ghost h = out@;
            proof {
                lemma_pair_terms_of_len(pairs@);
            }
            let mut i: usize = 0;
            while i < pairs.len()
                invariant
                    i <= pairs.len(),
                    *v == CborValue::Dict(*pairs),
                    pair_terms_of(pairs@).len() == pairs@.len(),
                    forall|j: int|
                        0 <= j < pairs@.len() ==> #[trigger] pair_terms_of(pairs@)[j] == (
                            term_of(pairs@[j].0),
                            term_of(pairs@[j].1),
                        ),
                    out@ == h + encode_pairs(pair_terms_of(pairs@).subrange(0, i as int)),
                decreases pairs.len() - i,
            {
                proof {
                    assert(decreases_to!(*v => (*v)->Dict_0));
                    assert((*v)->Dict_0 == *pairs);
                    assert(decreases_to!(*pairs => pairs@));
                    assert(decreases_to!(pairs@ => pairs@[i as int]));
                    assert(decreases_to!(pairs@[i as int] => pairs@[i as int].0));
                    assert(decreases_to!(pairs@[i as int] => pairs@[i as int].1));
                }
                encode_into(&pairs[i].0, out);
                encode_into(&pairs[i].1, out);
                proof {
                    let ts = pair_terms_of(pairs@);
                    lemma_encode_pairs_push(ts.subrange(0, i as int), ts[i as int]);
                    assert(ts.subrange(0, i as int).push(ts[i as int]) =~= ts.subrange(0, i + 1));
                }
                i = i + 1;
            }
            assert(pair_terms_of(pairs@).subrange(0, i as int) =~= pair_terms_of(pairs@));
            assert(out@ =~= start + encode_term(v@));
        },
        CborValue::Bool(b) => {
            if *b {
                out.push(0xf5);
            } else {
                out.push(0xf4);
            }
            assert(out@ =~= start + encode_term(v@));
        },
        CborValue::Null => {
            out.push(0xf6);
            assert(out@ =~= start + encode_term(v@));
        },
    }
}

/// The CBOR encoding of `v`.
pub fn encode(v: &CborValue) -> (r: Vec<u8>)
    ensures
        r@ == encode_term(v@),
{
    let mut out: Vec<u8> = Vec::new();
    encode_into(v, &mut out);
    assert(out@ =~= encode_term(v@));
    out
}

fn read_be(b: &[u8], start: usize, k: usize) -> (r: u64)
    requires
        k <= 8,
        start + k <= b@.len(),
    ensures
        r as nat == be_value(b@.subrange(start as int, start + k)),
{
    let mut v: u64 = 0;
    let mut i: usize = 0;
    while i < k
        invariant
            k <= 8,
            start + k <= b.len(),
            i <= k,
            v as nat == be_value(b@.subrange(start as int, start + i)),
        decreases k - i,
    {
        proof {
            lemma_be_value_bound(b@.subrange(start as int, start + i));
            lemma_pow256_values();
            lemma_pow256_mono(i as nat, 7);
        }
        let ghost sub = b@.subrange(start as int, start + i + 1);
        assert(sub.drop_last() =~= b@.subrange(start as int, start + i));
        v = v * 256 + b[start + i] as u64;
        i = i + 1;
    }
    v
}

proof fn lemma_pow256_mono(a: nat, b: nat)
    requires
        a <= b,
    ensures
        pow256(a) <= pow256(b),
    decreases b,
{
    if a < b {
        lemma_pow256_mono(a, (b - 1) as nat);
    }
}

fn decode_head(b: &[u8], pos: usize) -> (r: Option<(u8, u64, usize)>)
    ensures
        r matches Some((m, a, p)) ==> parse_head(b@, pos as int) == Some((m, a, p as int)),
        r is None ==> parse_head(b@, pos as int) is None,
{
    if pos >= b.len() {
        return None;
    }
    let first = b[pos];
    let major = first / 32;
    let info = first % 32;
    let k: usize = if info < 24 {
        return Some((major, info as u64, pos + 1));
    } else if info == 24 {
        1
    } else if info == 25 {
        2
    } else if info == 26 {
        4
    } else if info == 27 {
        8
    } else {
        return None;
    };
    if k > b.len() - pos - 1 {
        return None;
    }
    let arg = read_be(b, pos + 1, k);
    proof {
        lemma_be_value_bound(b@.subrange(pos + 1, pos + 1 + k));
        lemma_pow256_values();
        lemma_pow256_mono(k as nat, 8);
    }
    Some((major, arg, pos + 1 + k))
}

fn copy_range(b: &[u8], from: usize, to: usize) -> (r: Vec<u8>)
    requires
        from <= to <= b@.len(),
    ensures
        r@ == b@.subrange(from as int, to as int),
{
    let mut out: Vec<u8> = Vec::new();
    let mut i = from;
    while i < to
        invariant
            from <= i <= to <= b@.len(),
            out@ == b@.subrange(from as int, i as int),
        decreases to - i,
    {
        out.push(b[i]);
        i = i + 1;
        assert(out@ =~= b@.subrange(from as int, i as int));
    }
    out
}

fn decode_term(b: &[u8], pos: usize, depth: usize) -> (r: Option<(CborValue, usize)>)
    ensures
        r matches Some((v, q)) ==> parse_term(b@, pos as int, depth as nat) == Some((v@, q as int)),
        r is None ==> parse_term(b@, pos as int, depth as nat) is None,
    decreases depth, 0nat, b@.len() - pos, 1nat,
{
    let (major, arg, p) = match decode_head(b, pos) {
        None => return decode_indefinite(b, pos, depth),
        Some(h) => h,
    };
    assert(pos < p <= b@.len()) by {
        assert(parse_head(b@, pos as int) == Some((major, arg, p as int)));
    }
    if major == 0 {
        Some((CborValue::Unsigned(arg), p))
    } else if major == 1 {
        Some((CborValue::Negative(arg), p))
    } else if major == 2 || major == 3 {
        if arg > (b.len() - p) as u64 {
            return None;
        }
        let end = p + arg as usize;
        let bytes = copy_range(b, p, end);
        if major == 2 {
            Some((CborValue::Bytes(bytes), end))
        } else {
            match string_from_utf8(bytes) {
                Some(s) => Some((CborValue::Text(s), end)),
                None => None,
            }
        }
    } else if major == 4 {
        if depth == 0 {
            return None;
        }
        match decode_terms(b, p, arg, depth - 1) {
            Some((items, q)) => {
                let v = CborValue::Array(items);
                proof {
                    assert(v@ == CborTerm::Array(terms_of(items@)));
                }
                Some((v, q))
            },
            None => None,
        }
    } else if major == 5 {
        if depth == 0 {
            return None;
        }
        match decode_pairs(b, p, arg, depth - 1) {
            Some((pairs, q)) => {
                let v = CborValue::Dict(pairs);
                proof {
                    assert(v@ == CborTerm::Dict(pair_terms_of(pairs@)));
                }
                Some((v, q))
            },
            None => None,
        }
    } else if major == 6 {
        decode_term(b, p, depth)
    } else if b[pos] == 0xf4 {
        Some((CborValue::Bool(false), p))
    } else if b[pos] == 0xf5 {
        Some((CborValue::Bool(true), p))
    } else if b[pos] == 0xf6 || b[pos] == 0xf7 {
        Some((CborValue::Null, p))
    } else {
        None
    }
}

/// The view of each piece.
pub open spec fn chunk_views(c: Seq<Vec<u8>>) -> Seq<Seq<u8>> {
    c.map_values(|v: Vec<u8>| v@)
}

fn decode_chunks(b: &[u8], pos: usize, major: u8) -> (r: Option<(Vec<Vec<u8>>, usize)>)
    requires
        major == 2 || major == 3,
    ensures
        r matches Some((c, q)) ==> parse_chunks(b@, pos as int, major) == Some((chunk_views(c@), q as int)),
        r is None ==> parse_chunks(b@, pos as int, major) is None,
    decreases b@.len() - pos,
{
    if pos >= b.len() {
        return None;
    }
    if b[pos] == 0xff {
        let c: Vec<Vec<u8>> = Vec::new();
        assert(chunk_views(c@) =~= Seq::<Seq<u8>>::empty());
        return Some((c, pos + 1));
    }
    if b[pos] == major * 32 + 31 {
        match decode_chunks(b, pos + 1, major) {
            None => None,
            Some((inner, q)) => {
                if q <= pos || q > b.len() {
                    return None;
                }
                match decode_chunks(b, q, major) {
                    None => None,
                    Some((rest, r)) => {
                        let ghost iv = chunk_views(inner@);
                        let ghost rv = chunk_views(rest@);
                        let mut all = inner;
                        let mut rest = rest;
                        all.append(&mut rest);
                        assert(chunk_views(all@) =~= iv + rv);
                        Some((all, r))
                    },
                }
            },
        }
    } else {
        match decode_head(b, pos) {
            None => None,
            Some((m, arg, p)) => {
                assert(pos < p <= b@.len()) by {
                    assert(parse_head(b@, pos as int) == Some((m, arg, p as int)));
                }
                if m != major || arg > (b.len() - p) as u64 {
                    return None;
                }
                let end = p + arg as usize;
                match decode_chunks(b, end, major) {
                    None => None,
                    Some((rest, r)) => {
                        let piece = copy_range(b, p, end);
                        let ghost rv = chunk_views(rest@);
                        let mut all: Vec<Vec<u8>> = Vec::new();
                        all.push(piece);
                        let mut rest = rest;
                        all.append(&mut rest);
                        assert(chunk_views(all@) =~= seq![b@.subrange(p as int, end as int)] + rv);
                        Some((all, r))
                    },
                }
            },
        }
    }
}

fn join_chunks(c: &Vec<Vec<u8>>) -> (r: Vec<u8>)
    ensures
        r@ == chunks_bytes(chunk_views(c@)),
{
    let ghost cv = chunk_views(c@);
    let mut out: Vec<u8> = Vec::new();
    let mut i: usize = 0;
    assert(cv.subrange(0, 0) =~= Seq::<Seq<u8>>::empty());
    while i < c.len()
        invariant
            i <= c@.len(),
            cv == chunk_views(c@),
            out@ == chunks_bytes(cv.subrange(0, i as int)),
        decreases c.len() - i,
    {
        let ghost next = cv.subrange(0, i + 1);
        assert(next.drop_last() =~= cv.subrange(0, i as int));
        assert(next.last() == c@[i as int]@);
        let piece = c[i].as_slice();
        let ghost before = out@;
        let mut j: usize = 0;
        while j < piece.len()
            invariant
                j <= piece@.len(),
                out@ == before + piece@.subrange(0, j as int),
            decreases piece.len() - j,
        {
            out.push(piece[j]);
            j = j + 1;
            assert(out@ =~= before + piece@.subrange(0, j as int));
        }
        assert(piece@.subrange(0, j as int) =~= piece@);
        i = i + 1;
    }
    assert(cv.subrange(0, i as int) =~= cv);
    out
}

fn join_text_chunks(c: &Vec<Vec<u8>>) -> (r: Option<String>)
    ensures
        r is Some <==> chunks_valid_utf8(chunk_views(c@)),
        r matches Some(s) ==> s@ == chunks_text(chunk_views(c@)),
{
    let ghost cv = chunk_views(c@);
    let mut out = String::new();
    let mut i: usize = 0;
    assert(cv.subrange(0, 0) =~= Seq::<Seq<u8>>::empty());
    while i < c.len()
        invariant
            i <= c@.len(),
            cv == chunk_views(c@),
            out@ == chunks_text(cv.subrange(0, i as int)),
            forall|j: int| 0 <= j < i ==> valid_utf8(#[trigger] cv[j]),
        decreases c.len() - i,
    {
        let ghost next = cv.subrange(0, i + 1);
        assert(next.drop_last() =~= cv.subrange(0, i as int));
        assert(next.last() == cv[i as int]);
        assert(cv[i as int] == c@[i as int]@);
        let piece = copy_range(c[i].as_slice(), 0, c[i].len());
        assert(piece@ =~= cv[i as int]);
        match string_from_utf8(piece) {
            None => {
                assert(!valid_utf8(cv[i as int]));
                return None;
            },
            Some(t) => {
                out = crate::text::concat(out.as_str(), t.as_str());
            },
        }
        i = i + 1;
    }
    assert(cv.subrange(0, i as int) =~= cv);
    Some(out)
}

fn decode_indefinite(b: &[u8], pos: usize, depth: usize) -> (r: Option<(CborValue, usize)>)
    requires
        parse_head(b@, pos as int) is None,
    ensures
        r matches Some((v, q)) ==> parse_term(b@, pos as int, depth as nat) == Some((v@, q as int)),
        r is None ==> parse_term(b@, pos as int, depth as nat) is None,
    decreases depth, 0nat, b@.len() - pos, 0nat,
{
    if pos >= b.len() {
        return None;
    }
    let first = b[pos];
    if first == 0x5f || first == 0x7f {
        let major: u8 = if first == 0x5f {
            2
        } else {
            3
        };
        match decode_chunks(b, pos + 1, major) {
            None => None,
            Some((c, q)) => {
                if major == 2 {
                    Some((CborValue::Bytes(join_chunks(&c)), q))
                } else {
                    match join_text_chunks(&c) {
                        Some(t) => Some((CborValue::Text(t), q)),
                        None => None,
                    }
                }
            },
        }
    } else if first == 0x9f {
        if depth == 0 {
            return None;
        }
        match decode_items_to_break(b, pos + 1, depth - 1) {
            Some((items, q)) => {
                let v = CborValue::Array(items);
                proof {
                    assert(v@ == CborTerm::Array(terms_of(items@)));
                }
                Some((v, q))
            },
            None => None,
        }
    } else if first == 0xbf {
        if depth == 0 {
            return None;
        }
        match decode_pairs_to_break(b, pos + 1, depth - 1) {
            Some((pairs, q)) => {
                let v = CborValue::Dict(pairs);
                proof {
                    assert(v@ == CborTerm::Dict(pair_terms_of(pairs@)));
                }
                Some((v, q))
            },
            None => None,
        }
    } else {
        None
    }
}

fn decode_items_to_break(b: &[u8], pos: usize, depth: usize) -> (r: Option<(Vec<CborValue>, usize)>)
    ensures
        r matches Some((vs, q)) ==> parse_items_to_break(b@, pos as int, depth as nat) == Some(
            (terms_of(vs@), q as int),
        ),
        r is None ==> parse_items_to_break(b@, pos as int, depth as nat) is None,
    decreases depth, 1nat, b@.len() - pos, 0nat,
{
    if pos >= b.len() {
        return None;
    }
    if b[pos] == 0xff {
        let vs: Vec<CborValue> = Vec::new();
        assert(terms_of(vs@) =~= Seq::<CborTerm>::empty());
        return Some((vs, pos + 1));
    }
    match decode_term(b, pos, depth) {
        None => None,
        Some((v, p)) => {
            if p <= pos || p > b.len() {
                return None;
            }
            match decode_items_to_break(b, p, depth) {
                None => None,
                Some((rest, q)) => {
                    let mut vs: Vec<CborValue> = Vec::new();
                    vs.push(v);
                    let mut rest = rest;
                    let ghost r0 = rest@;
                    vs.append(&mut rest);
                    proof {
                        assert(vs@.subrange(1, vs@.len() as int) =~= r0);
                        lemma_terms_of_is_map(vs@);
                        lemma_terms_of_is_map(r0);
                        assert(terms_of(vs@) =~= seq![v@] + terms_of(r0));
                    }
                    Some((vs, q))
                },
            }
        },
    }
}

fn decode_pairs_to_break(b: &[u8], pos: usize, depth: usize) -> (r: Option<
    (Vec<(CborValue, CborValue)>, usize),
>)
    ensures
        r matches Some((ps, q)) ==> parse_pairs_to_break(b@, pos as int, depth as nat) == Some(
            (pair_terms_of(ps@), q as int),
        ),
        r is None ==> parse_pairs_to_break(b@, pos as int, depth as nat) is None,
    decreases depth, 1nat, b@.len() - pos, 0nat,
{
    if pos >= b.len() {
        return None;
    }
    if b[pos] == 0xff {
        let ps: Vec<(CborValue, CborValue)> = Vec::new();
        assert(pair_terms_of(ps@) =~= Seq::<(CborTerm, CborTerm)>::empty());
        return Some((ps, pos + 1));
    }
    match decode_term(b, pos, depth) {
        None => None,
        Some((k, p)) => match decode_term(b, p, depth) {
            None => None,
            Some((v, p2)) => {
                if p2 <= pos || p2 > b.len() {
                    return None;
                }
                match decode_pairs_to_break(b, p2, depth) {
                    None => None,
                    Some((rest, q)) => {
                        let mut ps: Vec<(CborValue, CborValue)> = Vec::new();
                        ps.push((k, v));
                        let mut rest = rest;
                        let ghost r0 = rest@;
                        ps.append(&mut rest);
                        proof {
                            assert(ps@.subrange(1, ps@.len() as int) =~= r0);
                            lemma_pair_terms_of_is_map(ps@);
                            lemma_pair_terms_of_is_map(r0);
                            assert(pair_terms_of(ps@) =~= seq![(k@, v@)] + pair_terms_of(r0));
                        }
                        Some((ps, q))
                    },
                }
            },
        },
    }
}

fn decode_terms(b: &[u8], pos: usize, count: u64, depth: usize) -> (r: Option<(Vec<CborValue>, usize)>)
    ensures
        r matches Some((vs, q)) ==> parse_terms(b@, pos as int, count as nat, depth as nat) == Some(
            (terms_of(vs@), q as int),
        ),
        r is None ==> parse_terms(b@, pos as int, count as nat, depth as nat) is None,
    decreases depth, 1nat, count, 0nat,
{
    if count == 0 {
        let vs: Vec<CborValue> = Vec::new();
        assert(terms_of(vs@) =~= Seq::<CborTerm>::empty());
        return Some((vs, pos));
    }
    match decode_term(b, pos, depth) {
        None => None,
        Some((v, p)) => match decode_terms(b, p, count - 1, depth) {
            None => None,
            Some((rest, q)) => {
                let mut vs: Vec<CborValue> = Vec::new();
                vs.push(v);
                let mut rest = rest;
                let ghost r0 = rest@;
                vs.append(&mut rest);
                proof {
                    assert(vs@.subrange(1, vs@.len() as int) =~= r0);
                }
                Some((vs, q))
            },
        },
    }
}

fn decode_pairs(b: &[u8], pos: usize, count: u64, depth: usize) -> (r: Option<
    (Vec<(CborValue, CborValue)>, usize),
>)
    ensures
        r matches Some((ps, q)) ==> parse_pairs(b@, pos as int, count as nat, depth as nat) == Some(
            (pair_terms_of(ps@), q as int),
        ),
        r is None ==> parse_pairs(b@, pos as int, count as nat, depth as nat) is None,
    decreases depth, 1nat, count, 0nat,
{
    if count == 0 {
        let ps: Vec<(CborValue, CborValue)> = Vec::new();
        assert(pair_terms_of(ps@) =~= Seq::<(CborTerm, CborTerm)>::empty());
        return Some((ps, pos));
    }
    match decode_term(b, pos, depth) {
        None => None,
        Some((k, p)) => match decode_term(b, p, depth) {
            None => None,
            Some((v, p2)) => match decode_pairs(b, p2, count - 1, depth) {
                None => None,
                Some((rest, q)) => {
                    let mut ps: Vec<(CborValue, CborValue)> = Vec::new();
                    ps.push((k, v));
                    let mut rest = rest;
                    let ghost r0 = rest@;
                    ps.append(&mut rest);
                    proof {
                        assert(ps@.subrange(1, ps@.len() as int) =~= r0);
                    }
                    Some((ps, q))
                },
            },
        },
    }
}

/// The item at the start of `bytes`, or `None` where they do not begin with one.
pub fn decode(bytes: &[u8]) -> (r: Option<CborValue>)
    ensures
        r matches Some(v) ==> decode_bytes(bytes@) == Some(v@),
        r is None ==> decode_bytes(bytes@) is None,
{
    match decode_term(bytes, 0, MAX_DEPTH) {
        Some((v, _)) => Some(v),
        None => None,
    }
}

} // verus!
