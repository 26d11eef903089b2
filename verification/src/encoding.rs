//! A prefix-free byte encoding of texts, numbers and lists.
//!
//! No encoding of a value is the beginning of the encoding of another, so
//! encodings can be written one behind the other and still tell the values
//! apart: each `lemma_..._prefix` says so for one kind of value.

use vstd::bytes::*;
use vstd::prelude::*;
use vstd::utf8::*;

verus! {

/// A text: its UTF-8 bytes and a byte that UTF-8 never holds.
pub open spec fn text_bytes(s: Seq<char>) -> Seq<u8> {
    encode_utf8(s).push(0xff)
}

/// A number: its two's complement in eight bytes, the low byte first.
pub open spec fn number_bytes(n: i64) -> Seq<u8> {
    spec_u64_to_le_bytes(n as u64)
}

/// A count: four bytes, the low byte first.
pub open spec fn count_bytes(n: nat) -> Seq<u8> {
    spec_u32_to_le_bytes(n as u32)
}

/// A flag: one byte.
pub open spec fn flag_bytes(flag: bool) -> Seq<u8> {
    if flag {
        seq![1u8]
    } else {
        seq![0u8]
    }
}

/// A text or none: one byte that says which, then the text.
pub open spec fn option_bytes(text: Option<Seq<char>>) -> Seq<u8> {
    match text {
        Some(s) => seq![1u8] + text_bytes(s),
        None => seq![0u8],
    }
}

/// The members of a list, one behind the other.
pub open spec fn joined(list: Seq<Seq<u8>>) -> Seq<u8>
    decreases list.len(),
{
    if list.len() == 0 {
        Seq::empty()
    } else {
        joined(list.drop_last()) + list.last()
    }
}

// ---------------------------------------------------------------------
// Writing
// ---------------------------------------------------------------------

/// Appends one byte.
pub fn push_marker(bytes: &mut Vec<u8>, marker: u8)
    ensures
        final(bytes)@ == old(bytes)@ + seq![marker],
{
    bytes.push(marker);
    assert(bytes@ =~= old(bytes)@ + seq![marker]);
}

/// Appends a text.
pub fn push_text(bytes: &mut Vec<u8>, s: &str)
    ensures
        final(bytes)@ == old(bytes)@ + text_bytes(s@),
{
    bytes.extend_from_slice(s.as_bytes());
    bytes.push(0xff);
    assert(bytes@ =~= old(bytes)@ + text_bytes(s@));
}

/// Appends a number.
pub fn push_number(bytes: &mut Vec<u8>, n: i64)
    ensures
        final(bytes)@ == old(bytes)@ + number_bytes(n),
{
    let mut piece = u64_to_le_bytes(n as u64);
    bytes.append(&mut piece);
}

/// Appends a count.
pub fn push_count(bytes: &mut Vec<u8>, n: usize)
    ensures
        final(bytes)@ == old(bytes)@ + count_bytes(n as nat),
{
    let mut piece = u32_to_le_bytes(n as u32);
    bytes.append(&mut piece);
}

/// Appends a flag.
pub fn push_flag(bytes: &mut Vec<u8>, flag: bool)
    ensures
        final(bytes)@ == old(bytes)@ + flag_bytes(flag),
{
    push_marker(
        bytes,
        if flag {
            1
        } else {
            0
        },
    );
}

// ---------------------------------------------------------------------
// No encoding begins another
// ---------------------------------------------------------------------

/// Equal concatenations with equally long first parts have equal parts.
proof fn lemma_same_cut(a: Seq<u8>, r: Seq<u8>, b: Seq<u8>, s: Seq<u8>)
    requires
        a + r == b + s,
        a.len() == b.len(),
    ensures
        a == b,
        r == s,
{
    assert(a =~= (a + r).take(a.len() as int));
    assert(b =~= (b + s).take(b.len() as int));
    assert(r =~= (a + r).skip(a.len() as int));
    assert(s =~= (b + s).skip(b.len() as int));
}

/// No byte of an encoded character is `0xff`.
proof fn lemma_scalar_bytes(scalar: u32)
    ensures
        forall|i: int|
            0 <= i < encode_scalar(scalar).len() ==> #[trigger] encode_scalar(scalar)[i] != 0xff,
{
    assert((scalar & 0x7F) as u8 != 0xff) by (bit_vector);
    assert(0xC0 | ((scalar >> 6) & 0x1F) as u8 != 0xff) by (bit_vector);
    assert(0xE0 | ((scalar >> 12) & 0x0F) as u8 != 0xff) by (bit_vector);
    assert(0xF0 | ((scalar >> 18) & 0x7) as u8 != 0xff) by (bit_vector);
    assert(0x80 | (scalar & 0x3F) as u8 != 0xff) by (bit_vector);
    assert(0x80 | ((scalar >> 6) & 0x3F) as u8 != 0xff) by (bit_vector);
    assert(0x80 | ((scalar >> 12) & 0x3F) as u8 != 0xff) by (bit_vector);
}

/// No byte of an encoded text is `0xff`.
proof fn lemma_utf8_bytes(s: Seq<char>)
    ensures
        forall|i: int| 0 <= i < encode_utf8(s).len() ==> #[trigger] encode_utf8(s)[i] != 0xff,
    decreases s.len(),
{
    if s.len() > 0 {
        let first = encode_scalar(s[0] as u32);
        let rest = encode_utf8(s.drop_first());
        lemma_scalar_bytes(s[0] as u32);
        lemma_utf8_bytes(s.drop_first());
        assert forall|i: int| 0 <= i < encode_utf8(s).len() implies #[trigger] encode_utf8(s)[i]
            != 0xff by {
            if i < first.len() {
                assert(encode_utf8(s)[i] == first[i]);
            } else {
                assert(encode_utf8(s)[i] == rest[i - first.len()]);
            }
        }
    }
}

pub proof fn lemma_text_prefix(a: Seq<char>, r: Seq<u8>, b: Seq<char>, s: Seq<u8>)
    requires
        text_bytes(a) + r == text_bytes(b) + s,
    ensures
        a == b,
        r == s,
{
    let x = encode_utf8(a);
    let y = encode_utf8(b);
    let whole = text_bytes(a) + r;
    lemma_utf8_bytes(a);
    lemma_utf8_bytes(b);
    assert(whole[x.len() as int] == 0xff);
    assert((text_bytes(b) + s)[y.len() as int] == 0xff);
    if x.len() < y.len() {
        assert((text_bytes(b) + s)[x.len() as int] == y[x.len() as int]);
    }
    if y.len() < x.len() {
        assert(whole[y.len() as int] == x[y.len() as int]);
    }
    lemma_same_cut(text_bytes(a), r, text_bytes(b), s);
    assert(x =~= text_bytes(a).drop_last());
    assert(y =~= text_bytes(b).drop_last());
    encode_utf8_decode_utf8(a);
    encode_utf8_decode_utf8(b);
}

pub proof fn lemma_number_prefix(a: i64, r: Seq<u8>, b: i64, s: Seq<u8>)
    requires
        number_bytes(a) + r == number_bytes(b) + s,
    ensures
        a == b,
        r == s,
{
    lemma_auto_spec_u64_to_from_le_bytes();
    lemma_same_cut(number_bytes(a), r, number_bytes(b), s);
    assert(a as u64 == b as u64);
    assert(a == b) by (bit_vector)
        requires
            a as u64 == b as u64,
    ;
}

pub proof fn lemma_count_prefix(a: nat, r: Seq<u8>, b: nat, s: Seq<u8>)
    requires
        count_bytes(a) + r == count_bytes(b) + s,
        a <= u32::MAX,
        b <= u32::MAX,
    ensures
        a == b,
        r == s,
{
    lemma_auto_spec_u32_to_from_le_bytes();
    lemma_same_cut(count_bytes(a), r, count_bytes(b), s);
    assert(a as u32 == b as u32);
}

pub proof fn lemma_marker_prefix(a: u8, r: Seq<u8>, b: u8, s: Seq<u8>)
    requires
        seq![a] + r == seq![b] + s,
    ensures
        a == b,
        r == s,
{
    lemma_same_cut(seq![a], r, seq![b], s);
    assert(seq![a][0] == seq![b][0]);
}

pub proof fn lemma_flag_prefix(a: bool, r: Seq<u8>, b: bool, s: Seq<u8>)
    requires
        flag_bytes(a) + r == flag_bytes(b) + s,
    ensures
        a == b,
        r == s,
{
    lemma_same_cut(flag_bytes(a), r, flag_bytes(b), s);
    assert(flag_bytes(a)[0] == flag_bytes(b)[0]);
}

pub proof fn lemma_option_prefix(
    a: Option<Seq<char>>,
    r: Seq<u8>,
    b: Option<Seq<char>>,
    s: Seq<u8>,
)
    requires
        option_bytes(a) + r == option_bytes(b) + s,
    ensures
        a == b,
        r == s,
{
    let (x, mark_a) = match a {
        Some(t) => (text_bytes(t), 1u8),
        None => (Seq::empty(), 0u8),
    };
    let (y, mark_b) = match b {
        Some(t) => (text_bytes(t), 1u8),
        None => (Seq::empty(), 0u8),
    };
    assert(option_bytes(a) + r =~= seq![mark_a] + (x + r));
    assert(option_bytes(b) + s =~= seq![mark_b] + (y + s));
    lemma_marker_prefix(mark_a, x + r, mark_b, y + s);
    if a is Some {
        lemma_text_prefix(a->0, r, b->0, s);
    } else {
        assert(x + r =~= r);
        assert(y + s =~= s);
    }
}

/// Encodings that begin no other, written one behind the other equally
/// often, begin no other list of them either.
pub proof fn lemma_joined_prefix(
    a: Seq<Seq<u8>>,
    r: Seq<u8>,
    b: Seq<Seq<u8>>,
    s: Seq<u8>,
)
    requires
        a.len() == b.len(),
        joined(a) + r == joined(b) + s,
        forall|i: int, j: int, t: Seq<u8>, u: Seq<u8>|
            0 <= i < a.len() && 0 <= j < b.len() && #[trigger] (a[i] + t) == #[trigger] (b[j] + u)
                ==> a[i] == b[j] && t == u,
    ensures
        a == b,
        r == s,
    decreases a.len(),
{
    if a.len() > 0 {
        assert(joined(a) + r =~= joined(a.drop_last()) + (a.last() + r));
        assert(joined(b) + s =~= joined(b.drop_last()) + (b.last() + s));
        assert forall|i: int, j: int, t: Seq<u8>, u: Seq<u8>|
            0 <= i < a.drop_last().len() && 0 <= j < b.drop_last().len() && #[trigger] (
            a.drop_last()[i] + t) == #[trigger] (b.drop_last()[j] + u) implies a.drop_last()[i]
            == b.drop_last()[j] && t == u by {
            assert(a[i] + t == b[j] + u);
        }
        lemma_joined_prefix(a.drop_last(), a.last() + r, b.drop_last(), b.last() + s);
        assert(a[a.len() - 1] + r == b[b.len() - 1] + s);
        assert(a =~= a.drop_last().push(a.last()));
        assert(b =~= b.drop_last().push(b.last()));
    } else {
        assert(joined(a) + r =~= r);
        assert(joined(b) + s =~= s);
        assert(a =~= b);
    }
}

} // verus!
