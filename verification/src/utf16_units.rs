//! The UTF-16 units of a UTF-8 text never outnumber its bytes: a character
//! of one to three bytes is one unit, one of four bytes is two.
use vstd::prelude::*;
use vstd::utf8::*;
use crate::position::utf16_width;

verus! {

/// The UTF-16 units of the first `n` bytes.
pub open spec fn units_upto(bytes: Seq<u8>, n: nat) -> nat
    decreases n,
{
    if n == 0 || n > bytes.len() {
        0
    } else {
        units_upto(bytes, (n - 1) as nat) + utf16_width(bytes[n - 1])
    }
}

/// The UTF-16 units of all the bytes.
pub open spec fn units(bytes: Seq<u8>) -> nat {
    units_upto(bytes, bytes.len())
}

/// More bytes never have fewer units.
pub proof fn lemma_units_monotone(bytes: Seq<u8>, m: nat, n: nat)
    requires
        m <= n <= bytes.len(),
    ensures
        units_upto(bytes, m) <= units_upto(bytes, n),
    decreases n,
{
    if m < n {
        lemma_units_monotone(bytes, m, (n - 1) as nat);
    }
}

proof fn lemma_units_prefix(a: Seq<u8>, b: Seq<u8>, n: nat)
    requires
        n <= a.len(),
        n <= b.len(),
        forall|k: int| 0 <= k < n ==> a[k] == b[k],
    ensures
        units_upto(a, n) == units_upto(b, n),
    decreases n,
{
    if n > 0 {
        lemma_units_prefix(a, b, (n - 1) as nat);
    }
}

proof fn lemma_units_concat(a: Seq<u8>, b: Seq<u8>)
    ensures
        units(a + b) == units(a) + units(b),
    decreases b.len(),
{
    if b.len() == 0 {
        assert(a + b =~= a);
    } else {
        let b0 = b.drop_last();
        lemma_units_concat(a, b0);
        let ab = a + b;
        lemma_units_prefix(ab, a + b0, (ab.len() - 1) as nat);
        lemma_units_prefix(b, b0, (b.len() - 1) as nat);
        assert(ab[ab.len() - 1] == b[b.len() - 1]);
    }
}

proof fn lemma_scalar_units(v: u32)
    requires
        is_scalar(v),
    ensures
        units(encode_scalar(v)) <= encode_scalar(v).len(),
{
    let e = encode_scalar(v);
    if has_width_1_encoding(v) {
        let b0 = leading_byte_width_1(v);
        assert(b0 <= 0x7f) by (bit_vector)
            requires
                b0 == (v & 0x7F) as u8,
        ;
        assert(units_upto(e, 0) == 0);
    } else if has_width_2_encoding(v) {
        let b0 = leading_byte_width_2(v);
        let b1 = last_continuation_byte(v);
        assert(0xc0 <= b0 <= 0xdf) by (bit_vector)
            requires
                b0 == 0xC0 | ((v >> 6) & 0x1F) as u8,
        ;
        assert(0x80 <= b1 <= 0xbf) by (bit_vector)
            requires
                b1 == 0x80 | (v & 0x3F) as u8,
        ;
        assert(e == seq![b0, b1]);
        assert(utf16_width(e[0]) == 1);
        assert(utf16_width(e[1]) == 0);
        assert(units_upto(e, 0) == 0);
        assert(units_upto(e, 1) == 1);
    } else if has_width_3_encoding(v) {
        let b0 = leading_byte_width_3(v);
        let b1 = second_last_continuation_byte(v);
        let b2 = last_continuation_byte(v);
        assert(0xe0 <= b0 <= 0xef) by (bit_vector)
            requires
                b0 == 0xE0 | ((v >> 12) & 0x0F) as u8,
        ;
        assert(0x80 <= b1 <= 0xbf) by (bit_vector)
            requires
                b1 == 0x80 | ((v >> 6) & 0x3F) as u8,
        ;
        assert(0x80 <= b2 <= 0xbf) by (bit_vector)
            requires
                b2 == 0x80 | (v & 0x3F) as u8,
        ;
        assert(e == seq![b0, b1, b2]);
        assert(utf16_width(e[0]) == 1);
        assert(utf16_width(e[1]) == 0);
        assert(utf16_width(e[2]) == 0);
        assert(units_upto(e, 0) == 0);
        assert(units_upto(e, 1) == 1);
        assert(units_upto(e, 2) == 1);
    } else {
        let b1 = third_last_continuation_byte(v);
        let b2 = second_last_continuation_byte(v);
        let b3 = last_continuation_byte(v);
        assert(0x80 <= b1 <= 0xbf) by (bit_vector)
            requires
                b1 == 0x80 | ((v >> 12) & 0x3F) as u8,
        ;
        assert(0x80 <= b2 <= 0xbf) by (bit_vector)
            requires
                b2 == 0x80 | ((v >> 6) & 0x3F) as u8,
        ;
        assert(0x80 <= b3 <= 0xbf) by (bit_vector)
            requires
                b3 == 0x80 | (v & 0x3F) as u8,
        ;
        assert(e.len() == 4);
        assert(e[1] == b1 && e[2] == b2 && e[3] == b3);
        assert(units_upto(e, 0) == 0);
        assert(utf16_width(e[0]) <= 2);
        assert(units_upto(e, 1) <= 2);
        assert(units_upto(e, 2) <= 2);
        assert(units_upto(e, 3) <= 2);
    }
}

/// A UTF-8 text has no more UTF-16 units than bytes.
pub proof fn lemma_text_units(cs: Seq<char>)
    ensures
        units(encode_utf8(cs)) <= encode_utf8(cs).len(),
    decreases cs.len(),
{
    if cs.len() > 0 {
        lemma_text_units(cs.drop_first());
        char_is_scalar(cs[0]);
        lemma_scalar_units(cs[0] as u32);
        lemma_units_concat(encode_scalar(cs[0] as u32), encode_utf8(cs.drop_first()));
    }
}

} // verus!
