//! Byte statistics: value counts, null and printable counts, distinct values.
//!
//! The Shannon entropy that the viewer shows beside these counts is computed
//! from `counts` outside this library, in floating point.

use vstd::prelude::*;

use crate::text::{dec_digits, push_dec};

verus! {

/// How many times `v` occurs in `s`.
pub open spec fn count_of(s: Seq<u8>, v: u8) -> nat
    decreases s.len(),
{
    if s.len() == 0 {
        0
    } else {
        count_of(s.drop_last(), v) + if s.last() == v {
            1nat
        } else {
            0nat
        }
    }
}

/// How many bytes of `s` are printable ASCII (`0x20..=0x7E`).
pub open spec fn printable_count_of(s: Seq<u8>) -> nat
    decreases s.len(),
{
    if s.len() == 0 {
        0
    } else {
        printable_count_of(s.drop_last()) + if 0x20 <= s.last() <= 0x7e {
            1nat
        } else {
            0nat
        }
    }
}

/// How many of the byte values `0 .. k` occur in `s`.
pub open spec fn distinct_below(s: Seq<u8>, k: nat) -> nat
    decreases k,
{
    if k == 0 {
        0
    } else {
        distinct_below(s, (k - 1) as nat) + if s.contains((k - 1) as u8) {
            1nat
        } else {
            0nat
        }
    }
}

/// Integer statistics of a byte sequence.
pub struct ByteStats {
    /// Occurrences of each byte value, indexed by the value (256 entries).
    pub counts: Vec<usize>,
    /// Number of `0x00` bytes.
    pub null_count: usize,
    /// Number of printable ASCII bytes (`0x20..=0x7E`).
    pub printable_count: usize,
    /// Number of distinct byte values present.
    pub unique_count: usize,
    /// Number of bytes analysed.
    pub total: usize,
}

/// Whether `st` holds the statistics of `s`.
pub open spec fn stats_of(st: ByteStats, s: Seq<u8>) -> bool {
    &&& st.counts@.len() == 256
    &&& forall|v: int| 0 <= v < 256 ==> #[trigger] st.counts@[v] == count_of(s, v as u8)
    &&& st.null_count == count_of(s, 0)
    &&& st.printable_count == printable_count_of(s)
    &&& st.unique_count == distinct_below(s, 256)
    &&& st.total == s.len()
}

proof fn lemma_count_le_len(s: Seq<u8>, v: u8)
    ensures
        count_of(s, v) <= s.len(),
    decreases s.len(),
{
    if s.len() > 0 {
        lemma_count_le_len(s.drop_last(), v);
    }
}

proof fn lemma_printable_le_len(s: Seq<u8>)
    ensures
        printable_count_of(s) <= s.len(),
    decreases s.len(),
{
    if s.len() > 0 {
        lemma_printable_le_len(s.drop_last());
    }
}

proof fn lemma_count_pos_iff_contains(s: Seq<u8>, v: u8)
    ensures
        count_of(s, v) > 0 <==> s.contains(v),
    decreases s.len(),
{
    if s.len() > 0 {
        lemma_count_pos_iff_contains(s.drop_last(), v);
        if s.drop_last().contains(v) {
            let i = choose|i: int| 0 <= i < s.drop_last().len() && s.drop_last()[i] == v;
            assert(s[i] == v);
        }
        if s.contains(v) && s.last() != v {
            let i = choose|i: int| 0 <= i < s.len() && s[i] == v;
            assert(s.drop_last()[i] == v);
        }
    }
}

proof fn lemma_distinct_le(s: Seq<u8>, k: nat)
    ensures
        distinct_below(s, k) <= k,
    decreases k,
{
    if k > 0 {
        lemma_distinct_le(s, (k - 1) as nat);
    }
}

/// Computes the statistics of `bytes`.
pub fn byte_stats(bytes: &[u8]) -> (st: ByteStats)
    ensures
        stats_of(st, bytes@),
{
    let mut counts: Vec<usize> = vec![0usize; 256];
    let mut null_count: usize = 0;
    let mut printable_count: usize = 0;
    let mut i: usize = 0;
    while i < bytes.len()
        invariant
            i <= bytes@.len(),
            counts@.len() == 256,
            forall|v: int| 0 <= v < 256 ==> #[trigger] counts@[v] == count_of(bytes@.take(i as int), v as u8),
            null_count == count_of(bytes@.take(i as int), 0),
            printable_count == printable_count_of(bytes@.take(i as int)),
        decreases bytes.len() - i,
    {
        let b = bytes[i];
        let ghost prev = bytes@.take(i as int);
        let ghost next = bytes@.take(i + 1);
        proof {
            assert(next.drop_last() =~= prev);
            assert(next.last() == b);
            lemma_count_le_len(prev, b);
            lemma_count_le_len(prev, 0);
            lemma_printable_le_len(prev);
        }
        let c = counts[b as usize];
        counts.set(b as usize, c + 1);
        if b == 0 {
            null_count = null_count + 1;
        }
        if b >= 0x20 && b <= 0x7e {
            printable_count = printable_count + 1;
        }
        proof {
            assert forall|v: int| 0 <= v < 256 implies #[trigger] counts@[v] == count_of(next, v as u8) by {
                assert(count_of(next, v as u8) == count_of(prev, v as u8) + if b == v as u8 { 1nat } else { 0nat });
            }
        }
        i = i + 1;
    }
    proof {
        assert(bytes@.take(i as int) =~= bytes@);
    }
    let mut unique_count: usize = 0;
    let mut v: usize = 0;
    while v < 256
        invariant
            v <= 256,
            counts@.len() == 256,
            forall|w: int| 0 <= w < 256 ==> #[trigger] counts@[w] == count_of(bytes@, w as u8),
            unique_count == distinct_below(bytes@, v as nat),
        decreases 256 - v,
    {
        proof {
            lemma_count_pos_iff_contains(bytes@, v as u8);
            lemma_distinct_le(bytes@, v as nat);
        }
        if counts[v] > 0 {
            unique_count = unique_count + 1;
        }
        v = v + 1;
    }
    ByteStats { counts, null_count, printable_count, unique_count, total: bytes.len() }
}

impl ByteStats {
    /// `"{unique}/256 distinct byte values"`.
    pub fn unique_display(&self) -> (s: String)
        ensures
            s@ == dec_digits(self.unique_count as nat) + "/256 distinct byte values"@,
    {
        let mut s = String::new();
        push_dec(&mut s, self.unique_count as u64);
        s.append("/256 distinct byte values");
        s
    }
}

} // verus!
