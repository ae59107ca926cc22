use crate::segment::{Segment, SegmentMode};
use vstd::arithmetic::power2::{lemma2_to64, lemma_pow2_pos, lemma_pow2_unfold, pow2};
use vstd::prelude::*;

verus! {

/// The QR kanji value that `table` gives the code point of `c`, if any: the
/// table is indexed by code point and holds -1 where there is none.
pub open spec fn kanji_value(table: Seq<i16>, c: char) -> Option<int> {
    if (c as u32) < table.len() && table[c as u32 as int] != -1 {
        Some(table[c as u32 as int] as int)
    } else {
        None
    }
}

/// Bit `i` of the 13-bit big-endian form of `v`.
pub open spec fn bit13(v: int, i: int) -> bool {
    (v / pow2((12 - i) as nat) as int) % 2 == 1
}

/// The data bits of a kanji segment for `s`: 13 bits per character.
pub open spec fn kanji_bits(table: Seq<i16>, s: Seq<char>) -> Seq<bool>
    decreases s.len(),
{
    if s.len() == 0 {
        seq![]
    } else {
        kanji_bits(table, s.drop_last()) + Seq::new(
            13,
            |i: int|
                bit13(
                    match kanji_value(table, s.last()) {
                        Some(v) => v,
                        None => 0,
                    },
                    i,
                ),
        )
    }
}

/// Whether `c` has a QR kanji value in `table`.
pub fn is_kanji(table: &[i16], c: char) -> (r: bool)
    ensures
        r == kanji_value(table@, c) is Some,
{
    let i = c as u32 as usize;
    i < table.len() && table[i] != -1
}

/// A kanji mode segment for `code_points`, each character packed as its
/// 13-bit value from `table`.
pub fn make_kanji(table: &[i16], code_points: &[char]) -> (r: Segment)
    requires
        forall|i: int| 0 <= i < code_points@.len() ==> #[trigger] kanji_value(table@, code_points@[i]) is Some,
        forall|i: int| 0 <= i < table@.len() ==> -1 <= #[trigger] table@[i] < 8192,
    ensures
        r.mode == SegmentMode::Kanji,
        r.num_chars == code_points@.len(),
        r.data@ == kanji_bits(table@, code_points@),
{
    let ghost cps = code_points@;
    let mut data: Vec<bool> = Vec::new();
    let mut k: usize = 0;
    while k < code_points.len()
        invariant
            k <= cps.len(),
            cps == code_points@,
            data@ == kanji_bits(table@, cps.subrange(0, k as int)),
            forall|i: int| 0 <= i < cps.len() ==> #[trigger] kanji_value(table@, cps[i]) is Some,
            forall|i: int| 0 <= i < table@.len() ==> -1 <= #[trigger] table@[i] < 8192,
        decreases cps.len() - k,
    {
        let c = code_points[k];
        let v = table[c as u32 as usize] as u32;
        assert(kanji_value(table@, cps[k as int]) is Some);
        let ghost before = data@;
        let mut p: u32 = 4096;
        let mut j: usize = 0;
        proof {
            lemma2_to64();
        }
        while j < 13
            invariant
                j <= 13,
                j < 13 ==> p as int == pow2((12 - j) as nat),
                j < 13 ==> p > 0,
                data@.len() == before.len() + j,
                data@.subrange(0, before.len() as int) == before,
                forall|i: int| 0 <= i < j ==> data@[before.len() + i] == bit13(v as int, i),
            decreases 13 - j,
        {
            data.push((v / p) % 2 == 1);
            proof {
                if j < 12 {
                    lemma_pow2_unfold((12 - j) as nat);
                    lemma_pow2_pos((11 - j) as nat);
                }
                assert(data@.subrange(0, before.len() as int) =~= before);
            }
            p = p / 2;
            j += 1;
        }
        proof {
            let s = cps.subrange(0, k + 1);
            assert(s.drop_last() =~= cps.subrange(0, k as int));
            assert(s.last() == c);
            assert(v as int == kanji_value(table@, c)->0);
            let bits = Seq::new(13, |i: int| bit13(v as int, i));
            assert(data@ =~= before + bits);
            assert(data@ =~= kanji_bits(table@, s));
        }
        k += 1;
    }
    assert(cps.subrange(0, cps.len() as int) =~= cps);
    Segment { mode: SegmentMode::Kanji, num_chars: code_points.len(), data }
}

} // verus!
