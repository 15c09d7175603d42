//! How records and their fields are laid out on the wire: a record is a CBOR
//! map from field names (text) to field values. Integers are CBOR integers,
//! byte vectors are arrays of small integers, a missing optional value is
//! null. When a record is read, fields it does not know are skipped, a field
//! it knows may appear once, and an optional field may be left out.
use vstd::prelude::*;
use vstd::utf8::*;

use crate::cbor::{
    lemma_pair_terms_of_is_map, lemma_terms_of_is_map, pair_terms_of, term_of, terms_of,
    all_well_formed, well_formed, CborTerm, CborValue,
};

verus! {

broadcast use vstd::utf8::encode_utf8_decode_utf8, vstd::utf8::encode_utf8_valid_utf8;

/// What a map holds under one field name.
pub enum Lookup {
    Missing,
    Found(CborTerm),
    Repeated,
}

/// The entry of the map `pairs` whose key is the text `name`.
pub open spec fn lookup(pairs: Seq<(CborTerm, CborTerm)>, name: Seq<char>) -> Lookup
    decreases pairs.len(),
{
    if pairs.len() == 0 {
        Lookup::Missing
    } else {
        let before = lookup(pairs.drop_last(), name);
        if pairs.last().0 == CborTerm::Text(name) {
            match before {
                Lookup::Missing => Lookup::Found(pairs.last().1),
                _ => Lookup::Repeated,
            }
        } else {
            before
        }
    }
}

// --- integers -------------------------------------------------------------

pub open spec fn i64_term(x: i64) -> CborTerm {
    if x >= 0 {
        CborTerm::Unsigned(x as u64)
    } else {
        CborTerm::Negative((-1 - x) as u64)
    }
}

pub open spec fn read_i64(t: CborTerm) -> Option<i64> {
    match t {
        CborTerm::Unsigned(n) => if n <= i64::MAX {
            Some(n as i64)
        } else {
            None
        },
        CborTerm::Negative(n) => if n <= i64::MAX {
            Some((-1 - n) as i64)
        } else {
            None
        },
        _ => None,
    }
}

pub open spec fn read_u64(t: CborTerm) -> Option<u64> {
    match t {
        CborTerm::Unsigned(n) => Some(n),
        _ => None,
    }
}

pub open spec fn read_u32(t: CborTerm) -> Option<u32> {
    match t {
        CborTerm::Unsigned(n) => if n <= u32::MAX {
            Some(n as u32)
        } else {
            None
        },
        _ => None,
    }
}

pub open spec fn read_u8(t: CborTerm) -> Option<u8> {
    match t {
        CborTerm::Unsigned(n) => if n <= u8::MAX {
            Some(n as u8)
        } else {
            None
        },
        _ => None,
    }
}

// --- text -----------------------------------------------------------------

pub open spec fn read_text(t: CborTerm) -> Option<Seq<char>> {
    match t {
        CborTerm::Text(s) => Some(s),
        _ => None,
    }
}

pub open spec fn opt_text_term(x: Option<Seq<char>>) -> CborTerm {
    match x {
        Some(s) => CborTerm::Text(s),
        None => CborTerm::Null,
    }
}

pub open spec fn read_opt_text(t: CborTerm) -> Option<Option<Seq<char>>> {
    match t {
        CborTerm::Null => Some(None),
        CborTerm::Text(s) => Some(Some(s)),
        _ => None,
    }
}

pub open spec fn opt_i64_term(x: Option<i64>) -> CborTerm {
    match x {
        Some(v) => i64_term(v),
        None => CborTerm::Null,
    }
}

pub open spec fn read_opt_i64(t: CborTerm) -> Option<Option<i64>> {
    match t {
        CborTerm::Null => Some(None),
        _ => match read_i64(t) {
            Some(v) => Some(Some(v)),
            None => None,
        },
    }
}

// --- byte vectors -------------------------------------------------------------

pub open spec fn byte_terms(b: Seq<u8>) -> Seq<CborTerm> {
    b.map_values(|x: u8| CborTerm::Unsigned(x as u64))
}

pub open spec fn bytes_term(b: Seq<u8>) -> CborTerm {
    CborTerm::Array(byte_terms(b))
}

pub open spec fn all_bytes(items: Seq<CborTerm>) -> bool {
    forall|i: int| 0 <= i < items.len() ==> (#[trigger] read_u8(items[i])) is Some
}

/// The bytes of a byte-vector field: an array of small integers, as the
/// writer writes it, or a byte string, which `ciborium` reads as the same.
pub open spec fn read_bytes(t: CborTerm) -> Option<Seq<u8>> {
    match t {
        CborTerm::Bytes(b) => Some(b),
        CborTerm::Array(items) => if all_bytes(items) {
            Some(items.map_values(|x: CborTerm| read_u8(x)->0))
        } else {
            None
        },
        _ => None,
    }
}

// --- record fields -------------------------------------------------------------

pub open spec fn field_text(p: Seq<(CborTerm, CborTerm)>, name: Seq<char>) -> Option<Seq<char>> {
    match lookup(p, name) {
        Lookup::Found(v) => read_text(v),
        _ => None,
    }
}

pub open spec fn field_u32(p: Seq<(CborTerm, CborTerm)>, name: Seq<char>) -> Option<u32> {
    match lookup(p, name) {
        Lookup::Found(v) => read_u32(v),
        _ => None,
    }
}

pub open spec fn field_u64(p: Seq<(CborTerm, CborTerm)>, name: Seq<char>) -> Option<u64> {
    match lookup(p, name) {
        Lookup::Found(v) => read_u64(v),
        _ => None,
    }
}

pub open spec fn field_i64(p: Seq<(CborTerm, CborTerm)>, name: Seq<char>) -> Option<i64> {
    match lookup(p, name) {
        Lookup::Found(v) => read_i64(v),
        _ => None,
    }
}

pub open spec fn field_bytes(p: Seq<(CborTerm, CborTerm)>, name: Seq<char>) -> Option<Seq<u8>> {
    match lookup(p, name) {
        Lookup::Found(v) => read_bytes(v),
        _ => None,
    }
}

pub open spec fn field_opt_text(p: Seq<(CborTerm, CborTerm)>, name: Seq<char>) -> Option<
    Option<Seq<char>>,
> {
    match lookup(p, name) {
        Lookup::Missing => Some(None),
        Lookup::Found(v) => read_opt_text(v),
        Lookup::Repeated => None,
    }
}

pub open spec fn field_opt_i64(p: Seq<(CborTerm, CborTerm)>, name: Seq<char>) -> Option<
    Option<i64>,
> {
    match lookup(p, name) {
        Lookup::Missing => Some(None),
        Lookup::Found(v) => read_opt_i64(v),
        Lookup::Repeated => None,
    }
}

pub open spec fn text_fits(s: Seq<char>) -> bool {
    encode_utf8(s).len() <= u64::MAX
}

/// Every string fits: its UTF-8 bytes are a slice, whose length is a
/// `usize`.
pub(crate) fn string_fits(s: &str)
    ensures
        text_fits(s@),
{
    let bytes = s.as_bytes();
    let _n = bytes.len();
}

/// Every optional string fits.
pub(crate) fn opt_string_fits(s: &Option<String>)
    ensures
        opt_text_fits(opt_view(*s)),
{
    match s {
        Some(t) => string_fits(t.as_str()),
        None => {},
    }
}

pub open spec fn opt_text_fits(s: Option<Seq<char>>) -> bool {
    match s {
        Some(x) => text_fits(x),
        None => true,
    }
}

// --- proofs -------------------------------------------------------------------

pub proof fn lemma_read_i64(x: i64)
    ensures
        read_i64(i64_term(x)) == Some(x),
        read_opt_i64(i64_term(x)) == Some(Some(x)),
        well_formed(i64_term(x), 1),
{
}

pub proof fn lemma_read_bytes(b: Seq<u8>, depth: nat)
    ensures
        read_bytes(bytes_term(b)) == Some(b),
        b.len() <= u64::MAX && depth >= 1 ==> well_formed(bytes_term(b), depth),
{
    let items = byte_terms(b);
    assert forall|i: int| 0 <= i < items.len() implies (#[trigger] read_u8(items[i])) is Some by {}
    assert(items.map_values(|x: CborTerm| read_u8(x)->0) =~= b);
    if depth >= 1 {
        lemma_all_unsigned_well_formed(items, (depth - 1) as nat);
    }
}

proof fn lemma_all_unsigned_well_formed(items: Seq<CborTerm>, depth: nat)
    requires
        forall|i: int| 0 <= i < items.len() ==> (#[trigger] items[i]) is Unsigned,
    ensures
        all_well_formed(items, depth),
    decreases items.len(),
{
    if items.len() > 0 {
        let tail = items.subrange(1, items.len() as int);
        assert forall|i: int| 0 <= i < tail.len() implies (#[trigger] tail[i]) is Unsigned by {
            assert(tail[i] == items[i + 1]);
        }
        lemma_all_unsigned_well_formed(tail, depth);
        assert(items[0] is Unsigned);
        assert(well_formed(items[0], depth));
    }
}

// --- executable helpers ----------------------------------------------------------

/// An executable field lookup result.
pub enum Field<'a> {
    Missing,
    Found(&'a CborValue),
    Repeated,
}

pub open spec fn field_view(f: Field) -> Lookup {
    match f {
        Field::Missing => Lookup::Missing,
        Field::Found(v) => Lookup::Found(v@),
        Field::Repeated => Lookup::Repeated,
    }
}

/// Whether two strings hold the same characters.
pub fn str_eq(a: &str, b: &str) -> (r: bool)
    ensures
        r == (a@ == b@),
{
    let x = a.as_bytes();
    let y = b.as_bytes();
    if x.len() != y.len() {
        proof {
            if a@ == b@ {
                assert(x@ == y@);
            }
        }
        return false;
    }
    let mut i: usize = 0;
    while i < x.len()
        invariant
            x@ == encode_utf8(a@),
            y@ == encode_utf8(b@),
            x.len() == y.len(),
            i <= x.len(),
            forall|j: int| 0 <= j < i ==> x@[j] == y@[j],
        decreases x.len() - i,
    {
        if x[i] != y[i] {
            proof {
                if a@ == b@ {
                    assert(x@ == y@);
                }
            }
            return false;
        }
        i = i + 1;
    }
    proof {
        assert(x@ =~= y@);
        assert(decode_utf8(encode_utf8(a@)) == a@);
        assert(decode_utf8(encode_utf8(b@)) == b@);
    }
    true
}

/// The entry of the map `pairs` under the text key `name`.
pub fn find_field<'a>(pairs: &'a Vec<(CborValue, CborValue)>, name: &str) -> (r: Field<'a>)
    ensures
        field_view(r) == lookup(pair_terms_of(pairs@), name@),
{
    proof {
        lemma_pair_terms_of_is_map(pairs@);
    }
    let ghost ps = pair_terms_of(pairs@);
    let mut result: Field<'a> = Field::Missing;
    let mut i: usize = 0;
    while i < pairs.len()
        invariant
            i <= pairs@.len(),
            ps == pair_terms_of(pairs@),
            ps == pairs@.map_values(|p: (CborValue, CborValue)| (term_of(p.0), term_of(p.1))),
            field_view(result) == lookup(ps.subrange(0, i as int), name@),
        decreases pairs.len() - i,
    {
        let is_key = match &pairs[i].0 {
            CborValue::Text(k) => str_eq(k.as_str(), name),
            _ => false,
        };
        proof {
            let pre = ps.subrange(0, i + 1);
            assert(pre.drop_last() =~= ps.subrange(0, i as int));
            assert(pre.last() == ps[i as int]);
            assert(is_key == (ps[i as int].0 == CborTerm::Text(name@)));
        }
        if is_key {
            result = match result {
                Field::Missing => Field::Found(&pairs[i].1),
                _ => Field::Repeated,
            };
        }
        i = i + 1;
    }
    assert(ps.subrange(0, i as int) =~= ps);
    result
}

pub fn int_value(x: i64) -> (r: CborValue)
    ensures
        r@ == i64_term(x),
{
    if x >= 0 {
        CborValue::Unsigned(x as u64)
    } else {
        CborValue::Negative((-1 - x) as u64)
    }
}

pub fn read_i64_value(v: &CborValue) -> (r: Option<i64>)
    ensures
        r == read_i64(v@),
{
    match v {
        CborValue::Unsigned(n) => if *n <= i64::MAX as u64 {
            Some(*n as i64)
        } else {
            None
        },
        CborValue::Negative(n) => if *n <= i64::MAX as u64 {
            Some(-1 - (*n as i64))
        } else {
            None
        },
        _ => None,
    }
}

pub fn text_value(s: &str) -> (r: CborValue)
    ensures
        r@ == CborTerm::Text(s@),
{
    CborValue::Text(s.to_owned())
}

pub fn opt_text_value(s: &Option<String>) -> (r: CborValue)
    ensures
        r@ == opt_text_term(opt_view(*s)),
{
    match s {
        Some(x) => CborValue::Text(x.clone()),
        None => CborValue::Null,
    }
}

pub open spec fn opt_view(s: Option<String>) -> Option<Seq<char>> {
    match s {
        Some(x) => Some(x@),
        None => None,
    }
}

pub fn bytes_value(b: &[u8]) -> (r: CborValue)
    ensures
        r@ == bytes_term(b@),
{
    let mut items: Vec<CborValue> = Vec::new();
    let mut i: usize = 0;
    while i < b.len()
        invariant
            i <= b@.len(),
            items@.len() == i,
            terms_of(items@) == byte_terms(b@.subrange(0, i as int)),
        decreases b.len() - i,
    {
        let ghost before = items@;
        items.push(CborValue::Unsigned(b[i] as u64));
        proof {
            lemma_terms_of_is_map(items@);
            lemma_terms_of_is_map(before);
            assert forall|j: int| 0 <= j < i + 1 implies #[trigger] terms_of(items@)[j]
                == byte_terms(b@.subrange(0, i + 1))[j] by {
                if j < i {
                    assert(items@[j] == before[j]);
                    assert(terms_of(before)[j] == byte_terms(b@.subrange(0, i as int))[j]);
                }
            }
            assert(terms_of(items@) =~= byte_terms(b@.subrange(0, i + 1)));
        }
        i = i + 1;
    }
    assert(b@.subrange(0, i as int) =~= b@);
    CborValue::Array(items)
}

pub fn read_text_value(v: &CborValue) -> (r: Option<String>)
    ensures
        opt_view(r) == read_text(v@),
{
    match v {
        CborValue::Text(s) => Some(s.clone()),
        _ => None,
    }
}

pub fn read_opt_text_value(v: &CborValue) -> (r: Option<Option<String>>)
    ensures
        match r {
            Some(x) => read_opt_text(v@) == Some(opt_view(x)),
            None => read_opt_text(v@) is None,
        },
{
    match v {
        CborValue::Null => Some(None),
        CborValue::Text(s) => Some(Some(s.clone())),
        _ => None,
    }
}

pub fn read_u32_value(v: &CborValue) -> (r: Option<u32>)
    ensures
        r == read_u32(v@),
{
    match v {
        CborValue::Unsigned(n) => if *n <= u32::MAX as u64 {
            Some(*n as u32)
        } else {
            None
        },
        _ => None,
    }
}

pub fn read_u64_value(v: &CborValue) -> (r: Option<u64>)
    ensures
        r == read_u64(v@),
{
    match v {
        CborValue::Unsigned(n) => Some(*n),
        _ => None,
    }
}

pub fn read_bytes_value(v: &CborValue) -> (r: Option<Vec<u8>>)
    ensures
        match r {
            Some(b) => read_bytes(v@) == Some(b@),
            None => read_bytes(v@) is None,
        },
{
    match v {
        CborValue::Array(items) => {
            proof {
                lemma_terms_of_is_map(items@);
            }
            let ghost ts = terms_of(items@);
            let mut out: Vec<u8> = Vec::new();
            let mut i: usize = 0;
            while i < items.len()
                invariant
                    i <= items@.len(),
                    *v == CborValue::Array(*items),
                    ts == terms_of(items@),
                    ts == items@.map_values(|x: CborValue| term_of(x)),
                    out@.len() == i,
                    forall|j: int| 0 <= j < i ==> (#[trigger] read_u8(ts[j])) == Some(out@[j]),
                decreases items.len() - i,
            {
                match &items[i] {
                    CborValue::Unsigned(n) => {
                        if *n <= 255 {
                            out.push(*n as u8);
                        } else {
                            proof {
                                assert(read_u8(ts[i as int]) is None);
                            }
                            return None;
                        }
                    },
                    _ => {
                        proof {
                            assert(read_u8(ts[i as int]) is None);
                        }
                        return None;
                    },
                }
                i = i + 1;
            }
            proof {
                assert(all_bytes(ts));
                assert(ts.map_values(|x: CborTerm| read_u8(x)->0) =~= out@);
            }
            Some(out)
        },
        CborValue::Bytes(b) => Some(copy_bytes(b.as_slice())),
        _ => None,
    }
}

/// The text field `name` of a record.
pub fn get_text(pairs: &Vec<(CborValue, CborValue)>, name: &str) -> (r: Option<String>)
    ensures
        opt_view(r) == field_text(pair_terms_of(pairs@), name@),
{
    match find_field(pairs, name) {
        Field::Found(v) => read_text_value(v),
        _ => None,
    }
}

/// The optional text field `name` of a record.
pub fn get_opt_text(pairs: &Vec<(CborValue, CborValue)>, name: &str) -> (r: Option<Option<String>>)
    ensures
        match r {
            Some(x) => field_opt_text(pair_terms_of(pairs@), name@) == Some(opt_view(x)),
            None => field_opt_text(pair_terms_of(pairs@), name@) is None,
        },
{
    match find_field(pairs, name) {
        Field::Missing => Some(None),
        Field::Found(v) => read_opt_text_value(v),
        Field::Repeated => None,
    }
}

/// The `u32` field `name` of a record.
pub fn get_u32(pairs: &Vec<(CborValue, CborValue)>, name: &str) -> (r: Option<u32>)
    ensures
        r == field_u32(pair_terms_of(pairs@), name@),
{
    match find_field(pairs, name) {
        Field::Found(v) => read_u32_value(v),
        _ => None,
    }
}

/// The `u64` field `name` of a record.
pub fn get_u64(pairs: &Vec<(CborValue, CborValue)>, name: &str) -> (r: Option<u64>)
    ensures
        r == field_u64(pair_terms_of(pairs@), name@),
{
    match find_field(pairs, name) {
        Field::Found(v) => read_u64_value(v),
        _ => None,
    }
}

/// The `i64` field `name` of a record.
pub fn get_i64(pairs: &Vec<(CborValue, CborValue)>, name: &str) -> (r: Option<i64>)
    ensures
        r == field_i64(pair_terms_of(pairs@), name@),
{
    match find_field(pairs, name) {
        Field::Found(v) => read_i64_value(v),
        _ => None,
    }
}

/// The optional `i64` field `name` of a record.
pub fn get_opt_i64(pairs: &Vec<(CborValue, CborValue)>, name: &str) -> (r: Option<Option<i64>>)
    ensures
        r == field_opt_i64(pair_terms_of(pairs@), name@),
{
    match find_field(pairs, name) {
        Field::Missing => Some(None),
        Field::Found(v) => match v {
            CborValue::Null => Some(None),
            _ => match read_i64_value(v) {
                Some(x) => Some(Some(x)),
                None => None,
            },
        },
        Field::Repeated => None,
    }
}

/// The byte-vector field `name` of a record.
pub fn get_bytes(pairs: &Vec<(CborValue, CborValue)>, name: &str) -> (r: Option<Vec<u8>>)
    ensures
        match r {
            Some(b) => field_bytes(pair_terms_of(pairs@), name@) == Some(b@),
            None => field_bytes(pair_terms_of(pairs@), name@) is None,
        },
{
    match find_field(pairs, name) {
        Field::Found(v) => read_bytes_value(v),
        _ => None,
    }
}

pub proof fn lemma_lookup_absent(p: Seq<(CborTerm, CborTerm)>, name: Seq<char>)
    requires
        forall|j: int| 0 <= j < p.len() ==> (#[trigger] p[j]).0 != CborTerm::Text(name),
    ensures
        lookup(p, name) == Lookup::Missing,
    decreases p.len(),
{
    if p.len() > 0 {
        lemma_lookup_absent(p.drop_last(), name);
        assert(p.last() == p[p.len() - 1]);
    }
}

pub proof fn lemma_lookup_unique(p: Seq<(CborTerm, CborTerm)>, name: Seq<char>, i: int)
    requires
        0 <= i < p.len(),
        p[i].0 == CborTerm::Text(name),
        forall|j: int| 0 <= j < p.len() && j != i ==> (#[trigger] p[j]).0 != CborTerm::Text(name),
    ensures
        lookup(p, name) == Lookup::Found(p[i].1),
    decreases p.len(),
{
    let init = p.drop_last();
    if i == p.len() - 1 {
        assert forall|j: int| 0 <= j < init.len() implies (#[trigger] init[j]).0 != CborTerm::Text(
            name,
        ) by {
            assert(init[j] == p[j]);
        }
        lemma_lookup_absent(init, name);
    } else {
        assert forall|j: int| 0 <= j < init.len() && j != i implies (#[trigger] init[j]).0
            != CborTerm::Text(name) by {
            assert(init[j] == p[j]);
        }
        assert(init[i] == p[i]);
        lemma_lookup_unique(init, name, i);
        assert(p.last() == p[p.len() - 1]);
    }
}

/// UTF-8 spends at most four bytes on a character.
pub proof fn lemma_utf8_len_bound(s: Seq<char>)
    ensures
        encode_utf8(s).len() <= 4 * s.len(),
    decreases s.len(),
{
    if s.len() > 0 {
        lemma_utf8_len_bound(s.drop_first());
    }
}

/// A short text is always small enough to encode.
pub proof fn lemma_short_text_fits(s: Seq<char>)
    requires
        s.len() <= 1000,
    ensures
        text_fits(s),
        well_formed(CborTerm::Text(s), 0),
{
    lemma_utf8_len_bound(s);
}

/// A copy of the bytes `b`.
pub fn copy_bytes(b: &[u8]) -> (r: Vec<u8>)
    ensures
        r@ == b@,
{
    let mut out: Vec<u8> = Vec::new();
    let mut i: usize = 0;
    while i < b.len()
        invariant
            i <= b@.len(),
            out@ == b@.subrange(0, i as int),
        decreases b.len() - i,
    {
        out.push(b[i]);
        i = i + 1;
        assert(out@ =~= b@.subrange(0, i as int));
    }
    assert(b@.subrange(0, i as int) =~= b@);
    out
}

/// A record: a map from the given field names to the given values.
pub open spec fn record(fields: Seq<(Seq<char>, CborTerm)>) -> CborTerm {
    CborTerm::Dict(fields.map_values(|f: (Seq<char>, CborTerm)| (CborTerm::Text(f.0), f.1)))
}

} // verus!
