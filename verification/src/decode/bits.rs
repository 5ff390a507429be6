//! Bit-level decoding of an arbitrary run of bits.

use vstd::arithmetic::power2::{lemma2_to64, lemma_pow2_adds, lemma_pow2_pos, pow2};
use vstd::bits::{lemma_u64_shl_is_mul, lemma_u8_shr_is_div};
use vstd::prelude::*;

use crate::text::{
    dec_digits, digit, digit_char, push_char, push_dec, push_signed_dec, signed_dec, signed_of,
};
use crate::decode::types::{DecodedValue, Endian};

verus! {

/// Whether bit number `k` of the stream (eight bits per byte) lies inside `bytes`.
pub open spec fn bit_present(bytes: Seq<u8>, k: int) -> bool {
    0 <= k && k / 8 < bytes.len()
}

/// Bit number `k` of the stream: bits are numbered from the most significant
/// bit of the first byte.
pub open spec fn bit_of(bytes: Seq<u8>, k: int) -> nat {
    ((bytes[k / 8] as int / pow2((7 - k % 8) as nat) as int) % 2) as nat
}

/// The selected bits `off .. off + n` read most significant first; bits past the
/// end of `bytes` are skipped.
pub open spec fn bits_be(bytes: Seq<u8>, off: int, n: nat) -> nat
    decreases n,
{
    if n == 0 {
        0
    } else if bit_present(bytes, off + n - 1) {
        bits_be(bytes, off, (n - 1) as nat) * 2 + bit_of(bytes, off + n - 1)
    } else {
        bits_be(bytes, off, (n - 1) as nat)
    }
}

/// The selected bits `off .. off + n` with bit `i` of the run weighing `2^i`;
/// bits past the end of `bytes` count as zero.
pub open spec fn bits_le(bytes: Seq<u8>, off: int, n: nat) -> nat
    decreases n,
{
    if n == 0 {
        0
    } else if bit_present(bytes, off + n - 1) {
        bits_le(bytes, off, (n - 1) as nat) + bit_of(bytes, off + n - 1) * pow2((n - 1) as nat)
    } else {
        bits_le(bytes, off, (n - 1) as nat)
    }
}

/// The unsigned value of the first `n` selected bits in byte order `e`.
pub open spec fn bits_value(bytes: Seq<u8>, off: int, n: nat, e: Endian) -> nat {
    match e {
        Endian::Big => bits_be(bytes, off, n),
        Endian::Little => bits_le(bytes, off, n),
    }
}

/// The `Bits` text for the first `n` positions of a run of `len` bits: each
/// present bit as `0`/`1`, a space after every eighth position before the end.
pub open spec fn bits_text(bytes: Seq<u8>, off: int, len: nat, n: nat) -> Seq<char>
    decreases n,
{
    if n == 0 {
        Seq::empty()
    } else {
        let i = n - 1;
        let prev = bits_text(bytes, off, len, i as nat);
        if bit_present(bytes, off + i) {
            let d = prev.push(digit_char(bit_of(bytes, off + i) as int));
            if (i + 1) % 8 == 0 && i + 1 < len {
                d.push(' ')
            } else {
                d
            }
        } else {
            prev
        }
    }
}

/// The smaller of two naturals.
pub open spec fn min_nat(a: nat, b: nat) -> nat {
    if a < b {
        a
    } else {
        b
    }
}

/// Whether `v` holds exactly the given `(label, value)` pairs, without ranges or colours.
pub open spec fn plain_entries(v: Seq<DecodedValue>, want: Seq<(Seq<char>, Seq<char>)>) -> bool {
    &&& v.len() == want.len()
    &&& forall|i: int|
        0 <= i < v.len() ==> {
            &&& #[trigger] v[i].label@ == want[i].0
            &&& v[i].value@ == want[i].1
            &&& v[i].range is None
            &&& v[i].color_index is None
        }
}

/// The entries `decode_bits` produces for a non-empty run.
pub open spec fn decode_bits_spec(bytes: Seq<u8>, off: nat, len: nat, e: Endian) -> Seq<
    (Seq<char>, Seq<char>),
> {
    let eb = min_nat(len, 64);
    let value = bits_value(bytes, off as int, eb, e);
    let head = seq![
        ("Bits"@, bits_text(bytes, off as int, len, eb)),
        ("Value (uint)"@, dec_digits(value)),
    ];
    let signed = if eb <= 63 {
        seq![("Value (int)"@, signed_dec(signed_of(value, eb)))]
    } else {
        Seq::empty()
    };
    head + signed + seq![
        (""@, ""@),
        ("Bit offset"@, dec_digits(off)),
        ("Bit length"@, dec_digits(len)),
    ]
}

proof fn lemma_pow2_le_63(j: nat)
    requires
        j <= 63,
    ensures
        pow2(j) <= 0x8000_0000_0000_0000,
        pow2(j) > 0,
{
    vstd::arithmetic::power2::lemma2_to64_rest();
    lemma_pow2_pos(j);
    if j < 63 {
        vstd::arithmetic::power2::lemma_pow2_strictly_increases(j, 63);
    }
}

proof fn lemma_be_bound(bytes: Seq<u8>, off: int, n: nat)
    ensures
        bits_be(bytes, off, n) < pow2(n),
    decreases n,
{
    lemma_pow2_pos(n);
    if n > 0 {
        lemma_be_bound(bytes, off, (n - 1) as nat);
        lemma_pow2_adds((n - 1) as nat, 1);
        lemma2_to64();
    }
}

proof fn lemma_le_bound(bytes: Seq<u8>, off: int, n: nat)
    ensures
        bits_le(bytes, off, n) < pow2(n),
    decreases n,
{
    lemma_pow2_pos(n);
    if n > 0 {
        lemma_le_bound(bytes, off, (n - 1) as nat);
        lemma_pow2_adds((n - 1) as nat, 1);
        lemma2_to64();
        assert(bit_of(bytes, off + n - 1) <= 1);
        assert(bit_of(bytes, off + n - 1) * pow2((n - 1) as nat) <= pow2((n - 1) as nat)) by (
        nonlinear_arith)
            requires
                bit_of(bytes, off + n - 1) <= 1,
        ;
    }
}

/// Reads bit number `k` of the stream.
fn read_bit(bytes: &[u8], k: usize) -> (b: u64)
    requires
        bit_present(bytes@, k as int),
    ensures
        b == bit_of(bytes@, k as int),
        b <= 1,
{
    let byte = bytes[k / 8];
    let sh: u8 = (7 - k % 8) as u8;
    let shifted = byte >> sh;
    let b = shifted & 1;
    proof {
        lemma_u8_shr_is_div(byte, sh);
        assert(shifted & 1 == shifted % 2) by (bit_vector);
    }
    b as u64
}

/// Decodes the bit run `bit_offset .. bit_offset + bit_len` of `bytes`.
///
/// The entries are the bits as text, the unsigned value of the first (at most)
/// 64 bits, their two's complement value when there are at most 63 of them, a
/// spacer, and the offset and length. An empty input or an empty run gives no entries.
pub fn decode_bits(bytes: &[u8], bit_offset: usize, bit_len: usize, endian: Endian) -> (r: Vec<
    DecodedValue,
>)
    requires
        bytes@.len() > 0 && bit_len > 0 ==> bit_offset + min_nat(bit_len as nat, 64) - 1 <= usize::MAX,
    ensures
        bytes@.len() == 0 || bit_len == 0 ==> r@.len() == 0,
        bytes@.len() > 0 && bit_len > 0 ==> plain_entries(
            r@,
            decode_bits_spec(bytes@, bit_offset as nat, bit_len as nat, endian),
        ),
{
    let mut results: Vec<DecodedValue> = Vec::new();
    if bytes.len() == 0 || bit_len == 0 {
        return results;
    }
    let eb: usize = if bit_len < 64 {
        bit_len
    } else {
        64
    };
    proof {
        lemma2_to64();
    }
    // The selected bits as text.
    let mut bits_str = String::new();
    let mut i: usize = 0;
    while i < eb
        invariant
            i <= eb,
            eb == min_nat(bit_len as nat, 64),
            bit_offset + eb - 1 <= usize::MAX,
            bits_str@ == bits_text(bytes@, bit_offset as int, bit_len as nat, i as nat),
        decreases eb - i,
    {
        let abs_bit = bit_offset + i;
        if abs_bit / 8 < bytes.len() {
            let bit = read_bit(bytes, abs_bit);
            push_char(&mut bits_str, digit(bit as u8));
            if (i + 1) % 8 == 0 && i + 1 < bit_len {
                push_char(&mut bits_str, ' ');
            }
        }
        i = i + 1;
    }
    // The value of the selected bits.
    let mut value: u64 = 0;
    let mut j: usize = 0;
    while j < eb
        invariant
            j <= eb <= 64,
            eb == min_nat(bit_len as nat, 64),
            bit_offset + eb - 1 <= usize::MAX,
            value == bits_value(bytes@, bit_offset as int, j as nat, endian),
        decreases eb - j,
    {
        let abs_bit = bit_offset + j;
        proof {
            lemma_be_bound(bytes@, bit_offset as int, j as nat);
            lemma_le_bound(bytes@, bit_offset as int, j as nat);
        }
        if abs_bit / 8 < bytes.len() {
            let bit = read_bit(bytes, abs_bit);
            match endian {
                Endian::Big => {
                    let ghost v = value;
                    proof {
                        lemma_pow2_le_63(j as nat);
                        assert(v < 0x8000_0000_0000_0000 && bit <= 1 ==> (v << 1u64) | bit == v * 2
                            + bit) by (bit_vector);
                    }
                    value = (value << 1u64) | bit;
                },
                Endian::Little => {
                    let ghost v = value;
                    let sh: u64 = j as u64;
                    proof {
                        lemma_pow2_le_63(j as nat);
                        assert(bit * pow2(j as nat) <= pow2(j as nat)) by (nonlinear_arith)
                            requires
                                bit <= 1,
                        ;
                        lemma_u64_shl_is_mul(1, sh);
                        lemma_u64_shl_is_mul(bit, sh);
                        assert(v < (1u64 << sh) && sh < 64 && bit <= 1 ==> v | (bit << sh) == v + (
                        bit << sh)) by (bit_vector);
                    }
                    value = value | (bit << sh);
                },
            }
        }
        j = j + 1;
    }
    results.push(DecodedValue::new(String::from_str("Bits"), bits_str));
    let mut uint_text = String::new();
    push_dec(&mut uint_text, value);
    results.push(DecodedValue::new(String::from_str("Value (uint)"), uint_text));
    if eb <= 63 {
        proof {
            lemma_be_bound(bytes@, bit_offset as int, eb as nat);
            lemma_le_bound(bytes@, bit_offset as int, eb as nat);
            lemma_pow2_le_63(eb as nat);
            lemma_pow2_le_63((eb - 1) as nat);
            lemma_pow2_adds((eb - 1) as nat, 1);
            lemma2_to64();
        }
        let sign_bit: u64 = 1u64 << ((eb - 1) as u64);
        let full: u64 = 1u64 << (eb as u64);
        proof {
            lemma_u64_shl_is_mul(1, (eb - 1) as u64);
            lemma_u64_shl_is_mul(1, eb as u64);
        }
        let signed: i64 = if value >= sign_bit {
            (value as i128 - full as i128) as i64
        } else {
            value as i64
        };
        let mut int_text = String::new();
        push_signed_dec(&mut int_text, signed);
        results.push(DecodedValue::new(String::from_str("Value (int)"), int_text));
    }
    results.push(DecodedValue::new(String::new(), String::new()));
    let mut off_text = String::new();
    push_dec(&mut off_text, bit_offset as u64);
    results.push(DecodedValue::new(String::from_str("Bit offset"), off_text));
    let mut len_text = String::new();
    push_dec(&mut len_text, bit_len as u64);
    results.push(DecodedValue::new(String::from_str("Bit length"), len_text));
    proof {
        reveal_strlit("");
        let want = decode_bits_spec(bytes@, bit_offset as nat, bit_len as nat, endian);
        assert(results@.len() == want.len());
        assert(results@[0].label@ == want[0].0);
        assert(results@[0].value@ == want[0].1);
        assert(results@[1].value@ == want[1].1);
        let k: int = if eb <= 63 { 3 } else { 2 };
        assert(results@[k].label@ == want[k].0);
        assert(results@[k + 1].value@ == want[k + 1].1);
        assert(results@[k + 2].value@ == want[k + 2].1);
        assert forall|i: int| 0 <= i < results@.len() implies {
            &&& #[trigger] results@[i].label@ == want[i].0
            &&& results@[i].value@ == want[i].1
            &&& results@[i].range is None
            &&& results@[i].color_index is None
        } by {}
        assert(plain_entries(results@, want));
    }
    results
}

} // verus!
