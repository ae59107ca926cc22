use crate::segment::{is_alnum, is_digit, make_segment, seg_spec, segs_view, utf8_len, utf8_total, SegSpec, Segment, SegmentMode};
use crate::capacity::{data_codewords, ecc_index, get_num_data_codewords, lemma_capacity};
use crate::EccLevel;
use vstd::arithmetic::power2::{lemma2_to64, pow2};
use vstd::prelude::*;

verus! {

/// The modes the optimizer chooses among, by index: byte, alphanumeric,
/// numeric. Ties between equal costs go to the smaller index.
pub open spec fn mode_of_index(m: int) -> SegmentMode {
    if m == 0 {
        SegmentMode::Byte
    } else if m == 1 {
        SegmentMode::Alphanumeric
    } else {
        SegmentMode::Numeric
    }
}

/// A legal QR code version number.
pub open spec fn valid_version(ver: int) -> bool {
    1 <= ver <= 40
}

/// Width of the character count field of `mode` at version `ver`.
pub open spec fn ccbits(mode: SegmentMode, ver: int) -> int {
    let tier = (ver + 7) / 17;
    match mode {
        SegmentMode::Numeric => if tier == 0 {
            10
        } else if tier == 1 {
            12
        } else {
            14
        },
        SegmentMode::Alphanumeric => if tier == 0 {
            9
        } else if tier == 1 {
            11
        } else {
            13
        },
        SegmentMode::Byte => if tier == 0 {
            8
        } else {
            16
        },
        SegmentMode::Kanji => if tier == 0 {
            8
        } else if tier == 1 {
            10
        } else {
            12
        },
    }
}

/// Cost of a segment header of `mode` at version `ver`, in sixths of a bit.
pub open spec fn head_cost(mode: SegmentMode, ver: int) -> int {
    (4 + ccbits(mode, ver)) * 6
}

/// Header costs of the three modes, by index.
pub open spec fn heads(ver: int) -> Seq<int> {
    seq![
        head_cost(SegmentMode::Byte, ver),
        head_cost(SegmentMode::Alphanumeric, ver),
        head_cost(SegmentMode::Numeric, ver),
    ]
}

/// Rounds a cost in sixths of a bit up to a whole bit.
pub open spec fn ceil6(x: int) -> int {
    (x + 5) / 6 * 6
}

/// For each mode, the least cost found so far of the prefix ending in a
/// segment of that mode, and the mode in which the last character went.
pub struct DpRow {
    pub costs: Seq<int>,
    pub froms: Seq<Option<int>>,
}

/// The row after extending each mode that can take `c` by one character.
pub open spec fn extended(prev: Seq<int>, c: char) -> DpRow {
    DpRow {
        costs: seq![
            prev[0] + utf8_len(c) * 48,
            if is_alnum(c) { prev[1] + 33 } else { 0 },
            if is_digit(c) { prev[2] + 20 } else { 0 },
        ],
        froms: seq![
            Some(0int),
            if is_alnum(c) { Some(1int) } else { None },
            if is_digit(c) { Some(2int) } else { None },
        ],
    }
}

/// Considers ending the segment of mode `k` and starting one of mode `j`.
pub open spec fn relax(r: DpRow, hs: Seq<int>, j: int, k: int) -> DpRow {
    let nc = ceil6(r.costs[k]) + hs[j];
    if r.froms[k] is Some && (r.froms[j] is None || nc < r.costs[j]) {
        DpRow { costs: r.costs.update(j, nc), froms: r.froms.update(j, Some(k)) }
    } else {
        r
    }
}

pub open spec fn relax_row(r: DpRow, hs: Seq<int>, j: int, k: int) -> DpRow
    decreases 3 - k,
{
    if k >= 3 {
        r
    } else {
        relax_row(relax(r, hs, j, k), hs, j, k + 1)
    }
}

pub open spec fn relax_all(r: DpRow, hs: Seq<int>, j: int) -> DpRow
    decreases 3 - j,
{
    if j >= 3 {
        r
    } else {
        relax_all(relax_row(r, hs, j, 0), hs, j + 1)
    }
}

/// The row after the character `c`, from the costs before it.
pub open spec fn dp_step(prev: Seq<int>, c: char, hs: Seq<int>) -> DpRow {
    relax_all(extended(prev, c), hs, 0)
}

/// The costs after the first `i` characters.
pub open spec fn costs_before(cps: Seq<char>, hs: Seq<int>, i: int) -> Seq<int>
    decreases i,
{
    if i <= 0 {
        hs
    } else {
        dp_step(costs_before(cps, hs, i - 1), cps[i - 1], hs).costs
    }
}

/// The back pointers recorded at character `i`.
pub open spec fn froms_at(cps: Seq<char>, hs: Seq<int>, i: int) -> Seq<Option<int>> {
    dp_step(costs_before(cps, hs, i), cps[i], hs).froms
}

/// The index of the least cost among indices `i..3` and `best`, the earliest on a tie.
pub open spec fn argmin_from(costs: Seq<int>, i: int, best: int) -> int
    decreases 3 - i,
{
    if i >= 3 {
        best
    } else if costs[i] < costs[best] {
        argmin_from(costs, i + 1, i)
    } else {
        argmin_from(costs, i + 1, best)
    }
}

/// The mode index that the backward trace gives character `i`; at the end of
/// the text, the cheapest final mode.
pub open spec fn trace(cps: Seq<char>, hs: Seq<int>, i: int) -> int
    decreases cps.len() - i,
{
    if i >= cps.len() {
        argmin_from(costs_before(cps, hs, cps.len() as int), 1, 0)
    } else {
        match froms_at(cps, hs, i)[trace(cps, hs, i + 1)] {
            Some(m) => m,
            None => 0,
        }
    }
}

/// The mode the optimizer gives to character `i` of `cps` at version `ver`.
pub open spec fn char_mode(cps: Seq<char>, ver: int, i: int) -> SegmentMode {
    mode_of_index(trace(cps, heads(ver), i))
}

/// Width of the character count field of `mode` at version `ver`.
pub fn num_char_count_bits(mode: SegmentMode, ver: u8) -> (r: u8)
    requires
        valid_version(ver as int),
    ensures
        r as int == ccbits(mode, ver as int),
{
    let tier: u8 = (ver + 7) / 17;
    match mode {
        SegmentMode::Numeric => if tier == 0 {
            10
        } else if tier == 1 {
            12
        } else {
            14
        },
        SegmentMode::Alphanumeric => if tier == 0 {
            9
        } else if tier == 1 {
            11
        } else {
            13
        },
        SegmentMode::Byte => if tier == 0 {
            8
        } else {
            16
        },
        SegmentMode::Kanji => if tier == 0 {
            8
        } else if tier == 1 {
            10
        } else {
            12
        },
    }
}

pub open spec fn ints(v: Seq<u128>) -> Seq<int> {
    v.map_values(|x: u128| x as int)
}

pub open spec fn opts(v: Seq<Option<usize>>) -> Seq<Option<int>> {
    v.map_values(
        |o: Option<usize>|
            match o {
                Some(m) => Some(m as int),
                None => None,
            },
    )
}

pub open spec fn row_of(costs: Seq<u128>, froms: Seq<Option<usize>>) -> DpRow {
    DpRow { costs: ints(costs), froms: opts(froms) }
}

pub open spec fn bounded(v: Seq<u128>, b: int) -> bool {
    v.len() == 3 && forall|m: int| 0 <= m < 3 ==> v[m] <= b
}

proof fn lemma_ceil6(x: int)
    requires
        x >= 0,
    ensures
        x <= ceil6(x) <= x + 5,
{
}

/// Whether mode index `k` can take the character `c`.
pub open spec fn takes(k: int, c: char) -> bool {
    k == 0 || (k == 1 && is_alnum(c)) || (k == 2 && is_digit(c))
}

/// Every back pointer of `froms` names a mode that can take `c`.
pub open spec fn froms_ok(froms: Seq<Option<int>>, c: char) -> bool {
    froms.len() == 3 && forall|m: int|
        0 <= m < 3 && #[trigger] froms[m] is Some ==> takes(froms[m]->0, c)
}

/// A step of the forward pass never records a mode that cannot take the
/// character: a segment of a mode is only ever continued from a state that
/// the character itself extended.
pub proof fn lemma_step_froms(prev: Seq<int>, c: char, hs: Seq<int>)
    requires
        prev.len() == 3,
        hs.len() == 3,
        forall|m: int| 0 <= m < 3 ==> hs[m] >= 0,
    ensures
        froms_ok(dp_step(prev, c, hs).froms, c),
        dp_step(prev, c, hs).costs.len() == 3,
{
    reveal_with_fuel(relax_row, 4);
    reveal_with_fuel(relax_all, 4);
    assert forall|x: int| #[trigger] ceil6(x) >= x by {}
    let e = extended(prev, c);
    let r00 = relax(e, hs, 0, 0);
    let r01 = relax(r00, hs, 0, 1);
    let r02 = relax(r01, hs, 0, 2);
    let r10 = relax(r02, hs, 1, 0);
    let r11 = relax(r10, hs, 1, 1);
    let r12 = relax(r11, hs, 1, 2);
    let r20 = relax(r12, hs, 2, 0);
    let r21 = relax(r20, hs, 2, 1);
    let r22 = relax(r21, hs, 2, 2);
    assert(relax_all(e, hs, 0) == r22);
    assert(froms_ok(r02.froms, c));
    assert(r11 == r10);
    assert(froms_ok(r12.froms, c));
    assert(r22 == r21);
    assert(froms_ok(r21.froms, c));
}

/// Header costs of the three modes at version `ver`, by index.
fn head_costs(ver: u8) -> (r: Vec<u128>)
    requires
        valid_version(ver as int),
    ensures
        ints(r@) =~= heads(ver as int),
        bounded(r@, 120),
{
    let b = (4 + num_char_count_bits(SegmentMode::Byte, ver) as u128) * 6;
    let a = (4 + num_char_count_bits(SegmentMode::Alphanumeric, ver) as u128) * 6;
    let n = (4 + num_char_count_bits(SegmentMode::Numeric, ver) as u128) * 6;
    vec![b, a, n]
}

/// Ends the segment of mode `k` and starts one of mode `j` where that is cheaper.
fn relax_exec(costs: &mut Vec<u128>, froms: &mut Vec<Option<usize>>, hs: &Vec<u128>, j: usize, k: usize, b: Ghost<int>)
    requires
        j < 3,
        k < 3,
        bounded(old(costs)@, b@),
        b@ <= 1_000_000_000_000_000_000_000_000_000_000,
        old(froms)@.len() == 3,
        bounded(hs@, 120),
    ensures
        row_of(final(costs)@, final(froms)@) == relax(row_of(old(costs)@, old(froms)@), ints(hs@), j as int, k as int),
        bounded(final(costs)@, b@ + 125),
        final(froms)@.len() == 3,
{
    let ghost r = row_of(costs@, froms@);
    let nc = (costs[k] + 5) / 6 * 6 + hs[j];
    proof {
        lemma_ceil6(costs@[k as int] as int);
    }
    if froms[k].is_some() && (froms[j].is_none() || nc < costs[j]) {
        costs.set(j, nc);
        froms.set(j, Some(k));
        proof {
            let e = relax(r, ints(hs@), j as int, k as int);
            assert(ints(costs@) =~= e.costs);
            assert(opts(froms@) =~= e.froms);
        }
    }
}

/// The costs and back pointers after the character `c`, from the costs before it.
#[verifier::spinoff_prover]
fn dp_step_exec(prev: &Vec<u128>, c: char, hs: &Vec<u128>, b: Ghost<int>) -> (r: (Vec<u128>, Vec<Option<usize>>))
    requires
        bounded(prev@, b@),
        b@ <= 1_000_000_000_000_000_000_000_000,
        bounded(hs@, 120),
    ensures
        row_of(r.0@, r.1@) == dp_step(ints(prev@), c, ints(hs@)),
        bounded(r.0@, b@ + 192 + 9 * 125),
        r.1@.len() == 3,
{
    let ghost p = ints(prev@);
    let cu = c as u32;
    let len: u128 = if cu < 0x80 {
        1
    } else if cu < 0x800 {
        2
    } else if cu < 0x10000 {
        3
    } else {
        4
    };
    let alnum = ('0' <= c && c <= '9') || ('A' <= c && c <= 'Z') || c == ' ' || c == '$' || c == '%'
        || c == '*' || c == '+' || c == '-' || c == '.' || c == '/' || c == ':';
    let digit = '0' <= c && c <= '9';
    let mut costs: Vec<u128> = vec![
        prev[0] + len * 48,
        if alnum { prev[1] + 33 } else { 0 },
        if digit { prev[2] + 20 } else { 0 },
    ];
    let mut froms: Vec<Option<usize>> = vec![
        Some(0),
        if alnum { Some(1) } else { None },
        if digit { Some(2) } else { None },
    ];
    let ghost e = extended(p, c);
    assert(row_of(costs@, froms@).costs =~= e.costs);
    assert(row_of(costs@, froms@).froms =~= e.froms);
    let ghost target = relax_all(e, ints(hs@), 0);
    let mut j: usize = 0;
    while j < 3
        invariant
            j <= 3,
            relax_all(row_of(costs@, froms@), ints(hs@), j as int) == target,
            bounded(costs@, b@ + 192 + 375 * (j as int)),
            froms@.len() == 3,
            bounded(hs@, 120),
            b@ <= 1_000_000_000_000_000_000_000_000,
        decreases 3 - j,
    {
        let ghost start = row_of(costs@, froms@);
        let mut k: usize = 0;
        while k < 3
            invariant
                j < 3,
                k <= 3,
                relax_row(row_of(costs@, froms@), ints(hs@), j as int, k as int) == relax_row(start, ints(hs@), j as int, 0),
                relax_all(start, ints(hs@), j as int) == target,
                bounded(costs@, b@ + 192 + 375 * (j as int) + 125 * (k as int)),
                froms@.len() == 3,
                bounded(hs@, 120),
                b@ <= 1_000_000_000_000_000_000_000_000,
            decreases 3 - k,
        {
            let ghost bk: int = b@ + 192 + 375 * (j as int) + 125 * (k as int);
            relax_exec(&mut costs, &mut froms, hs, j, k, Ghost(bk));
            k += 1;
        }
        assert(bounded(costs@, b@ + 192 + 375 * (j as int) + 375));
        j += 1;
    }
    (costs, froms)
}

fn mode_of_index_exec(m: usize) -> (r: SegmentMode)
    ensures
        r == mode_of_index(m as int),
{
    if m == 0 {
        SegmentMode::Byte
    } else if m == 1 {
        SegmentMode::Alphanumeric
    } else {
        SegmentMode::Numeric
    }
}

/// The optimal mode of each character of `code_points` at version `ver`:
/// a forward pass keeps, for each mode, the least cost of the prefix that
/// ends in a segment of that mode, and a backward trace follows the recorded
/// choices from the cheapest final mode.
#[verifier::spinoff_prover]
pub fn compute_character_modes(code_points: &[char], ver: u8) -> (r: Vec<SegmentMode>)
    requires
        valid_version(ver as int),
    ensures
        r@.len() == code_points@.len(),
        forall|i: int| 0 <= i < r@.len() ==> r@[i] == char_mode(code_points@, ver as int, i),
{
    let ghost cps = code_points@;
    let ghost h = heads(ver as int);
    let hs = head_costs(ver);
    let n = code_points.len();
    let mut char_modes: Vec<Vec<Option<usize>>> = Vec::new();
    let mut prev = head_costs(ver);
    // Each character adds at most 192 for its byte extension and 125 for each
    // of the nine relaxations: 1317 in all.
    let mut i: usize = 0;
    while i < n
        invariant
            i <= n,
            n == cps.len(),
            cps == code_points@,
            ints(hs@) == h,
            h == heads(ver as int),
            bounded(hs@, 120),
            ints(prev@) == costs_before(cps, h, i as int),
            bounded(prev@, 120 + 1317 * (i as int)),
            char_modes@.len() == i,
            forall|t: int| 0 <= t < i ==> opts(#[trigger] char_modes@[t]@) == froms_at(cps, h, t),
            forall|t: int| 0 <= t < i ==> (#[trigger] char_modes@[t])@.len() == 3,
            forall|t: int| 0 <= t < i ==> froms_ok(#[trigger] froms_at(cps, h, t), cps[t]),
        decreases n - i,
    {
        let (cur, froms) = dp_step_exec(&prev, code_points[i], &hs, Ghost(120 + 1317 * (i as int)));
        proof {
            assert(costs_before(cps, h, i + 1) == dp_step(costs_before(cps, h, i as int), cps[i as int], h).costs);
            lemma_step_froms(costs_before(cps, h, i as int), cps[i as int], h);
        }
        char_modes.push(froms);
        prev = cur;
        i += 1;
    }
    let mut best: usize = 0;
    let mut j: usize = 1;
    while j < 3
        invariant
            1 <= j <= 3,
            best < j,
            bounded(prev@, 120 + 1317 * (n as int)),
            h == heads(ver as int),
            ints(prev@) == costs_before(cps, h, n as int),
            n == cps.len(),
            argmin_from(ints(prev@), j as int, best as int) == argmin_from(ints(prev@), 1, 0),
        decreases 3 - j,
    {
        if prev[j] < prev[best] {
            best = j;
        }
        j += 1;
    }
    let mut result: Vec<SegmentMode> = Vec::new();
    let mut t: usize = 0;
    while t < n
        invariant
            t <= n,
            result@.len() == t,
            best < 3,
            h == heads(ver as int),
            n == cps.len(),
            best as int == trace(cps, h, n as int),
        decreases n - t,
    {
        result.push(SegmentMode::Byte);
        t += 1;
    }
    let mut cur: usize = best;
    let mut i: usize = n;
    while i > 0
        invariant
            i <= n,
            n == cps.len(),
            cps == code_points@,
            result@.len() == n,
            cur < 3,
            h == heads(ver as int),
            cur as int == trace(cps, h, i as int),
            char_modes@.len() == n,
            forall|t: int| 0 <= t < n ==> opts(#[trigger] char_modes@[t]@) == froms_at(cps, h, t),
            forall|t: int| 0 <= t < n ==> (#[trigger] char_modes@[t])@.len() == 3,
            forall|t: int| 0 <= t < n ==> froms_ok(#[trigger] froms_at(cps, h, t), cps[t]),
            forall|t: int| i <= t < n ==> result@[t] == char_mode(cps, ver as int, t),
        decreases i,
    {
        i -= 1;
        let ghost f = froms_at(cps, h, i as int);
        assert(opts(char_modes@[i as int]@)[cur as int] == f[cur as int]);
        cur = match char_modes[i][cur] {
            Some(m) => m,
            None => 0,
        };
        assert(cur as int == trace(cps, h, i as int));
        let md = mode_of_index_exec(cur);
        result.set(i, md);
    }
    result
}

/// Whether a character may be given `mode`: a digit for numeric mode, one of
/// the 45 alphanumeric characters for alphanumeric mode, any for byte mode.
pub open spec fn encodable(mode: SegmentMode, c: char) -> bool {
    match mode {
        SegmentMode::Numeric => is_digit(c),
        SegmentMode::Alphanumeric => is_alnum(c),
        SegmentMode::Byte => true,
        SegmentMode::Kanji => false,
    }
}

/// The end of the run of equal modes that starts at `s`.
pub open spec fn run_end(modes: Seq<SegmentMode>, s: int) -> int
    decreases modes.len() - s,
{
    if s + 1 >= modes.len() {
        modes.len() as int
    } else if modes[s + 1] != modes[s] {
        s + 1
    } else {
        run_end(modes, s + 1)
    }
}

/// One segment per maximal run of equal modes, from position `s` on.
pub open spec fn split_from(cps: Seq<char>, modes: Seq<SegmentMode>, s: int) -> Seq<SegSpec>
    decreases cps.len() - s,
{
    if s < 0 || s >= cps.len() {
        seq![]
    } else {
        let e = run_end(modes, s);
        if e <= s || e > cps.len() {
            seq![]
        } else {
            seq![seg_spec(modes[s], cps.subrange(s, e))] + split_from(cps, modes, e)
        }
    }
}

/// The end of a run is the first position past `s` whose mode differs.
proof fn lemma_run_end(modes: Seq<SegmentMode>, s: int, i: int)
    requires
        0 <= s < i <= modes.len(),
        forall|t: int| s <= t < i ==> modes[t] == modes[s],
        i == modes.len() || modes[i] != modes[s],
    ensures
        run_end(modes, s) == i,
    decreases i - s,
{
    if s + 1 < i {
        lemma_run_end(modes, s + 1, i);
    }
}

/// The segments for `code_points`, one per maximal run of characters of
/// equal mode, in order.
pub fn split_into_segments(code_points: &[char], char_modes: &[SegmentMode]) -> (r: Vec<Segment>)
    requires
        char_modes@.len() == code_points@.len(),
        forall|i: int| 0 <= i < code_points@.len() ==> encodable(#[trigger] char_modes@[i], code_points@[i]),
    ensures
        segs_view(r@) == split_from(code_points@, char_modes@, 0),
{
    let ghost cps = code_points@;
    let ghost modes = char_modes@;
    let n = code_points.len();
    let mut result: Vec<Segment> = Vec::new();
    let mut start: usize = 0;
    while start < n
        invariant
            start <= n,
            n == cps.len(),
            cps == code_points@,
            modes == char_modes@,
            modes.len() == n,
            forall|i: int| 0 <= i < n ==> encodable(#[trigger] modes[i], cps[i]),
            segs_view(result@) + split_from(cps, modes, start as int) == split_from(cps, modes, 0),
        decreases n - start,
    {
        let mode = char_modes[start];
        let mut i: usize = start + 1;
        while i < n && char_modes[i] == mode
            invariant
                start < i <= n,
                n == modes.len(),
                modes == char_modes@,
                mode == modes[start as int],
                forall|t: int| start <= t < i ==> modes[t] == mode,
            decreases n - i,
        {
            i += 1;
        }
        proof {
            lemma_run_end(modes, start as int, i as int);
        }
        let run = &code_points[start..i];
        proof {
            assert forall|t: int| 0 <= t < run@.len() implies #[trigger] encodable(mode, run@[t]) by {
                assert(run@[t] == cps[start + t]);
                assert(modes[start + t] == mode);
            }
            assert(encodable(mode, run@[0]));
            assert forall|t: int| 0 <= t < run@.len() implies (mode == SegmentMode::Numeric ==> is_digit(#[trigger] run@[t]))
                && (mode == SegmentMode::Alphanumeric ==> is_alnum(run@[t])) by {
                assert(encodable(mode, run@[t]));
            }
        }
        let seg = make_segment(mode, run);
        proof {
            let rest = split_from(cps, modes, i as int);
            assert(split_from(cps, modes, start as int) == seq![seg_spec(mode, cps.subrange(start as int, i as int))] + rest);
            assert(segs_view(result@.push(seg)) =~= segs_view(result@).push(seg@));
            assert(segs_view(result@).push(seg@) + rest =~= segs_view(result@) + (seq![seg@] + rest));
        }
        result.push(seg);
        start = i;
    }
    result
}

/// Whether the character count of `s` fits its field at version `ver`.
pub open spec fn seg_fits(s: SegSpec, ver: int) -> bool {
    s.num_chars < pow2(ccbits(s.mode, ver) as nat)
}

/// Bits that `s` takes at version `ver`: mode indicator, count field, data.
pub open spec fn seg_bits(s: SegSpec, ver: int) -> int {
    4 + ccbits(s.mode, ver) + s.data.len()
}

pub open spec fn bits_sum(segs: Seq<SegSpec>, ver: int) -> int
    decreases segs.len(),
{
    if segs.len() == 0 {
        0
    } else {
        bits_sum(segs.drop_last(), ver) + seg_bits(segs.last(), ver)
    }
}

/// Bits that `segs` take at version `ver`; none where a count does not fit
/// its field or the sum exceeds `usize::MAX`.
pub open spec fn total_bits(segs: Seq<SegSpec>, ver: int) -> Option<int> {
    if (forall|i: int| 0 <= i < segs.len() ==> seg_fits(#[trigger] segs[i], ver)) && bits_sum(segs, ver)
        <= usize::MAX {
        Some(bits_sum(segs, ver))
    } else {
        None
    }
}

proof fn lemma_bits_sum_grows(segs: Seq<SegSpec>, ver: int, i: int)
    requires
        0 <= i <= segs.len(),
    ensures
        bits_sum(segs.subrange(0, i), ver) <= bits_sum(segs, ver),
    decreases segs.len() - i,
{
    if i < segs.len() {
        lemma_bits_sum_grows(segs, ver, i + 1);
        assert(segs.subrange(0, i + 1).drop_last() =~= segs.subrange(0, i));
    } else {
        assert(segs.subrange(0, i) =~= segs);
    }
}

/// 2 to the power `cc`, for the widths a count field can have.
fn count_limit(cc: u8) -> (r: usize)
    requires
        8 <= cc <= 16,
    ensures
        r as int == pow2(cc as nat),
{
    proof {
        lemma2_to64();
    }
    match cc {
        8 => 256,
        9 => 512,
        10 => 1024,
        11 => 2048,
        12 => 4096,
        13 => 8192,
        14 => 16384,
        15 => 32768,
        _ => 65536,
    }
}

/// The number of bits that `segs` take at version `ver`, or none where a
/// segment has more characters than its count field holds or the sum
/// exceeds `usize::MAX`.
pub fn get_total_bits(segs: &[Segment], ver: u8) -> (r: Option<usize>)
    requires
        valid_version(ver as int),
    ensures
        match r {
            Some(x) => total_bits(segs_view(segs@), ver as int) == Some(x as int),
            None => total_bits(segs_view(segs@), ver as int) is None,
        },
{
    let ghost sv = segs_view(segs@);
    let mut result: usize = 0;
    let mut i: usize = 0;
    while i < segs.len()
        invariant
            i <= segs@.len(),
            sv == segs_view(segs@),
            valid_version(ver as int),
            result as int == bits_sum(sv.subrange(0, i as int), ver as int),
            forall|t: int| 0 <= t < i ==> seg_fits(#[trigger] sv[t], ver as int),
        decreases segs@.len() - i,
    {
        let seg = &segs[i];
        let ccbits = num_char_count_bits(seg.mode, ver);
        let limit = count_limit(ccbits);
        assert(sv.subrange(0, i + 1).drop_last() =~= sv.subrange(0, i as int));
        if seg.num_chars >= limit {
            assert(!seg_fits(sv[i as int], ver as int));
            return None;
        }
        let add = 4 + ccbits as usize;
        if seg.data.len() > usize::MAX - add {
            proof {
                lemma_bits_sum_grows(sv, ver as int, i + 1);
            }
            return None;
        }
        match result.checked_add(add + seg.data.len()) {
            Some(x) => {
                result = x;
            },
            None => {
                proof {
                    lemma_bits_sum_grows(sv, ver as int, i + 1);
                }
                return None;
            },
        }
        i += 1;
    }
    assert(sv.subrange(0, i as int) =~= sv);
    Some(result)
}

/// The modes the optimizer gives to the characters of `cps` at version `ver`.
pub open spec fn char_modes(cps: Seq<char>, ver: int) -> Seq<SegmentMode> {
    Seq::new(cps.len(), |i: int| char_mode(cps, ver, i))
}

/// The optimal segments for `cps` at version `ver`.
pub open spec fn segs_at(cps: Seq<char>, ver: int) -> Seq<SegSpec> {
    split_from(cps, char_modes(cps, ver), 0)
}

proof fn lemma_costs_len(cps: Seq<char>, hs: Seq<int>, i: int)
    requires
        hs.len() == 3,
        forall|m: int| 0 <= m < 3 ==> hs[m] >= 0,
    ensures
        costs_before(cps, hs, i).len() == 3,
    decreases i,
{
    if i > 0 {
        lemma_costs_len(cps, hs, i - 1);
        lemma_step_froms(costs_before(cps, hs, i - 1), cps[i - 1], hs);
    }
}

proof fn lemma_argmin_range(costs: Seq<int>, i: int, best: int)
    requires
        0 <= best < 3,
        best < i,
    ensures
        0 <= argmin_from(costs, i, best) < 3,
    decreases 3 - i,
{
    if i < 3 {
        if costs[i] < costs[best] {
            lemma_argmin_range(costs, i + 1, i);
        } else {
            lemma_argmin_range(costs, i + 1, best);
        }
    }
}

/// The backward trace only gives a character a mode that can encode it.
pub proof fn lemma_trace_encodable(cps: Seq<char>, hs: Seq<int>, i: int)
    requires
        0 <= i <= cps.len(),
        hs.len() == 3,
        forall|m: int| 0 <= m < 3 ==> hs[m] >= 0,
    ensures
        0 <= trace(cps, hs, i) < 3,
        i < cps.len() ==> takes(trace(cps, hs, i), cps[i]),
    decreases cps.len() - i,
{
    if i >= cps.len() {
        lemma_argmin_range(costs_before(cps, hs, cps.len() as int), 1, 0);
    } else {
        lemma_trace_encodable(cps, hs, i + 1);
        lemma_costs_len(cps, hs, i);
        lemma_step_froms(costs_before(cps, hs, i), cps[i], hs);
        let f = froms_at(cps, hs, i);
        assert(froms_ok(f, cps[i]));
        let s = trace(cps, hs, i + 1);
        if f[s] is Some {
            assert(takes(f[s]->0, cps[i]));
        }
    }
}

proof fn lemma_char_modes_encodable(cps: Seq<char>, ver: int)
    requires
        valid_version(ver),
    ensures
        forall|i: int| 0 <= i < cps.len() ==> encodable(#[trigger] char_modes(cps, ver)[i], cps[i]),
{
    assert forall|i: int| 0 <= i < cps.len() implies encodable(#[trigger] char_modes(cps, ver)[i], cps[i]) by {
        lemma_trace_encodable(cps, heads(ver), i);
    }
}

/// The optimal segments for `code_points` at version `ver`.
pub fn make_segments_optimally_at_version(code_points: &[char], ver: u8) -> (r: Vec<Segment>)
    requires
        valid_version(ver as int),
    ensures
        segs_view(r@) == segs_at(code_points@, ver as int),
{
    let modes = compute_character_modes(code_points, ver);
    proof {
        lemma_char_modes_encodable(code_points@, ver as int);
        assert(modes@ =~= char_modes(code_points@, ver as int));
    }
    split_into_segments(code_points, modes.as_slice())
}

/// Whether `segs` fit a symbol of version `ver` at level `ecl`.
pub open spec fn fits(segs: Seq<SegSpec>, ver: int, ecl: EccLevel) -> bool {
    &&& total_bits(segs, ver) is Some
    &&& total_bits(segs, ver)->0 <= data_codewords(ver, ecl) * 8
}

/// The segments optimal at the first version from `ver` to `max_version`
/// whose symbol holds them, if there is one.
pub open spec fn search_from(cps: Seq<char>, ecl: EccLevel, ver: int, max_version: int) -> Option<
    Seq<SegSpec>,
>
    decreases max_version + 1 - ver,
{
    if ver > max_version {
        None
    } else if fits(segs_at(cps, ver), ver, ecl) {
        Some(segs_at(cps, ver))
    } else {
        search_from(cps, ecl, ver + 1, max_version)
    }
}

/// Versions in one tier of count field widths get the same segments.
proof fn lemma_same_tier(cps: Seq<char>, v1: int, v2: int)
    requires
        (v1 + 7) / 17 == (v2 + 7) / 17,
    ensures
        segs_at(cps, v1) == segs_at(cps, v2),
{
    assert(heads(v1) =~= heads(v2));
    assert(char_modes(cps, v1) =~= char_modes(cps, v2));
}

/// The segments for `code_points` at the first version from `min_version` to
/// `max_version` whose symbol at level `ecl` holds them, or none if no version
/// does. The segmentation is computed again only where the count field widths
/// change: at `min_version` and at versions 10 and 27.
pub fn make_segments_optimally(code_points: &[char], ecl: EccLevel, min_version: u8, max_version: u8) -> (r: Option<Vec<Segment>>)
    requires
        valid_version(min_version as int),
        valid_version(max_version as int),
    ensures
        match r {
            Some(segs) => search_from(code_points@, ecl, min_version as int, max_version as int) == Some(segs_view(segs@)),
            None => search_from(code_points@, ecl, min_version as int, max_version as int) is None,
        },
{
    let ghost cps = code_points@;
    let mut segs: Vec<Segment> = Vec::new();
    let mut version: u8 = min_version;
    while version <= max_version
        invariant
            valid_version(min_version as int),
            valid_version(max_version as int),
            min_version <= version <= 41,
            cps == code_points@,
            version > min_version ==> segs_view(segs@) == segs_at(cps, version - 1),
            search_from(cps, ecl, version as int, max_version as int) == search_from(cps, ecl, min_version as int, max_version as int),
        decreases max_version + 1 - version,
    {
        if version == min_version || version == 10 || version == 27 {
            segs = make_segments_optimally_at_version(code_points, version);
        } else {
            proof {
                lemma_same_tier(cps, version - 1, version as int);
            }
        }
        let capacity_bits = get_num_data_codewords(version, ecl) * 8;
        let used_bits = get_total_bits(segs.as_slice(), version);
        match used_bits {
            Some(used) => {
                if used <= capacity_bits {
                    return Some(segs);
                }
            },
            None => {},
        }
        version += 1;
    }
    None
}

/// Whatever segment list the search accepts fits, at some version in the
/// searched range, in the data capacity of that version at the given level:
/// its total bits are defined and at most the capacity in bits.
pub proof fn lemma_result_fits(cps: Seq<char>, ecl: EccLevel, ver: int, max_version: int)
    requires
        search_from(cps, ecl, ver, max_version) is Some,
    ensures
        exists|w: int|
            ver <= w <= max_version && segs_at(cps, w) == search_from(cps, ecl, ver, max_version)->0
                && fits(#[trigger] segs_at(cps, w), w, ecl),
    decreases max_version + 1 - ver,
{
    if fits(segs_at(cps, ver), ver, ecl) {
        assert(ver <= ver <= max_version && fits(segs_at(cps, ver), ver, ecl));
    } else {
        lemma_result_fits(cps, ecl, ver + 1, max_version);
    }
}

/// An empty text gets an empty segment list, accepted at the first version
/// of the range.
pub proof fn lemma_empty_text(ecl: EccLevel, min_version: int, max_version: int)
    requires
        valid_version(min_version),
        min_version <= max_version,
    ensures
        search_from(Seq::<char>::empty(), ecl, min_version, max_version) == Some(Seq::<SegSpec>::empty()),
        segs_at(Seq::<char>::empty(), min_version) == Seq::<SegSpec>::empty(),
{
    let cps = Seq::<char>::empty();
    assert(segs_at(cps, min_version) =~= Seq::<SegSpec>::empty());
    assert(bits_sum(Seq::<SegSpec>::empty(), min_version) == 0);
    lemma_capacity(min_version, ecc_index(ecl));
    assert(fits(segs_at(cps, min_version), min_version, ecl));
}

/// The header costs at any version: numeric costs six more than
/// alphanumeric, and byte at most twelve less than numeric.
proof fn lemma_heads_shape(ver: int)
    requires
        valid_version(ver),
    ensures
        heads(ver).len() == 3,
        heads(ver)[2] == heads(ver)[1] + 6,
        heads(ver)[0] >= heads(ver)[2] - 12,
        forall|m: int| 0 <= m < 3 ==> heads(ver)[m] >= 72,
{
}

/// On a digit, numeric mode keeps extending its own segment and stays the
/// strictly cheapest, provided it was already cheaper by these margins.
proof fn lemma_digit_step(prev: Seq<int>, c: char, hs: Seq<int>)
    requires
        is_digit(c),
        prev.len() == 3,
        hs.len() == 3,
        hs[2] == hs[1] + 6,
        hs[0] >= hs[2] - 12,
        forall|m: int| 0 <= m < 3 ==> hs[m] >= 72,
        prev[0] > prev[2] - 28,
        prev[1] > prev[2] - 13,
    ensures
        dp_step(prev, c, hs).costs.len() == 3,
        dp_step(prev, c, hs).costs[2] == prev[2] + 20,
        dp_step(prev, c, hs).costs[0] > dp_step(prev, c, hs).costs[2],
        dp_step(prev, c, hs).costs[1] > dp_step(prev, c, hs).costs[2],
        dp_step(prev, c, hs).froms[2] == Some(2int),
{
    reveal_with_fuel(relax_row, 4);
    reveal_with_fuel(relax_all, 4);
    assert forall|x: int| #[trigger] ceil6(x) >= x by {}
    let e = extended(prev, c);
    let r00 = relax(e, hs, 0, 0);
    let r01 = relax(r00, hs, 0, 1);
    let r02 = relax(r01, hs, 0, 2);
    let r10 = relax(r02, hs, 1, 0);
    let r11 = relax(r10, hs, 1, 1);
    let r12 = relax(r11, hs, 1, 2);
    let r20 = relax(r12, hs, 2, 0);
    let r21 = relax(r20, hs, 2, 1);
    let r22 = relax(r21, hs, 2, 2);
    assert(relax_all(e, hs, 0) == r22);
    assert(r02.costs[2] == prev[2] + 20);
    assert(r02.costs[0] > prev[2] + 20);
    assert(r12.costs[1] > prev[2] + 20);
    assert(r20 == r12);
    assert(r21 == r20);
    assert(r22 == r21);
}

/// After a prefix of digits, numeric mode is strictly the cheapest and the
/// last digit was recorded as extending a numeric segment.
proof fn lemma_digits_costs(cps: Seq<char>, hs: Seq<int>, i: int)
    requires
        0 <= i <= cps.len(),
        forall|t: int| 0 <= t < cps.len() ==> is_digit(#[trigger] cps[t]),
        hs.len() == 3,
        hs[2] == hs[1] + 6,
        hs[0] >= hs[2] - 12,
        forall|m: int| 0 <= m < 3 ==> hs[m] >= 72,
    ensures
        costs_before(cps, hs, i).len() == 3,
        costs_before(cps, hs, i)[0] > costs_before(cps, hs, i)[2] - 28,
        costs_before(cps, hs, i)[1] > costs_before(cps, hs, i)[2] - 13,
        i > 0 ==> costs_before(cps, hs, i)[0] > costs_before(cps, hs, i)[2],
        i > 0 ==> costs_before(cps, hs, i)[1] > costs_before(cps, hs, i)[2],
        i < cps.len() ==> froms_at(cps, hs, i)[2] == Some(2int),
    decreases i,
{
    if i > 0 {
        lemma_digits_costs(cps, hs, i - 1);
        lemma_digit_step(costs_before(cps, hs, i - 1), cps[i - 1], hs);
    }
    if i < cps.len() {
        lemma_digit_step(costs_before(cps, hs, i), cps[i], hs);
    }
}

proof fn lemma_digits_trace(cps: Seq<char>, hs: Seq<int>, i: int)
    requires
        0 <= i <= cps.len(),
        cps.len() > 0,
        forall|t: int| 0 <= t < cps.len() ==> is_digit(#[trigger] cps[t]),
        hs.len() == 3,
        hs[2] == hs[1] + 6,
        hs[0] >= hs[2] - 12,
        forall|m: int| 0 <= m < 3 ==> hs[m] >= 72,
    ensures
        trace(cps, hs, i) == 2,
    decreases cps.len() - i,
{
    lemma_digits_costs(cps, hs, i);
    if i < cps.len() {
        lemma_digits_trace(cps, hs, i + 1);
    } else {
        reveal_with_fuel(argmin_from, 3);
    }
}

/// A nonempty text of ASCII digits is one numeric segment at every version:
/// the optimizer never switches mode inside it.
pub proof fn lemma_digits_one_numeric_segment(cps: Seq<char>, ver: int)
    requires
        valid_version(ver),
        cps.len() > 0,
        forall|t: int| 0 <= t < cps.len() ==> is_digit(#[trigger] cps[t]),
    ensures
        forall|i: int| 0 <= i < cps.len() ==> char_mode(cps, ver, i) == SegmentMode::Numeric,
        segs_at(cps, ver) == seq![seg_spec(SegmentMode::Numeric, cps)],
{
    lemma_heads_shape(ver);
    let hs = heads(ver);
    assert forall|i: int| 0 <= i < cps.len() implies char_mode(cps, ver, i) == SegmentMode::Numeric by {
        lemma_digits_trace(cps, hs, i);
    }
    let modes = char_modes(cps, ver);
    lemma_run_end(modes, 0, cps.len() as int);
    assert(cps.subrange(0, cps.len() as int) =~= cps);
    assert(split_from(cps, modes, cps.len() as int) =~= Seq::<SegSpec>::empty());
    assert(segs_at(cps, ver) =~= seq![seg_spec(SegmentMode::Numeric, cps)]);
}

/// The margins between the costs that keep byte mode out of an
/// alphanumeric text.
pub open spec fn alnum_margins(p: Seq<int>, hs: Seq<int>) -> bool {
    &&& p.len() == 3
    &&& p[1] <= p[0] + 6
    &&& p[1] <= p[2] + 107
    &&& p[2] <= p[0] + 28 + hs[2]
    &&& p[2] <= p[1] + 5 + hs[2]
}

pub open spec fn not_byte(f: Option<int>) -> bool {
    f == Some(1int) || f == Some(2int)
}

proof fn lemma_ceil6_step(x: int, y: int)
    requires
        x <= y - 6,
    ensures
        ceil6(x) < ceil6(y),
        x <= ceil6(x) <= x + 5,
        y <= ceil6(y) <= y + 5,
{
}

/// The relaxations of one step, from a row where byte and alphanumeric mode
/// were extended, and numeric mode too when `digit` holds.
#[verifier::spinoff_prover]
#[verifier::rlimit(100)]
proof fn lemma_alnum_relax(prev: Seq<int>, e: DpRow, hs: Seq<int>, digit: bool)
    requires
        hs.len() == 3,
        hs[2] == hs[1] + 6,
        hs[1] <= hs[0] + 6,
        forall|m: int| 0 <= m < 3 ==> 72 <= #[trigger] hs[m] <= 120,
        hs[2] <= 108,
        alnum_margins(prev, hs),
        e.costs.len() == 3,
        e.froms.len() == 3,
        e.costs[0] == prev[0] + 48,
        e.costs[1] == prev[1] + 33,
        e.froms[0] == Some(0int),
        e.froms[1] == Some(1int),
        digit ==> e.costs[2] == prev[2] + 20 && e.froms[2] == Some(2int),
        !digit ==> e.froms[2] is None,
    ensures
        alnum_margins(relax_all(e, hs, 0).costs, hs),
        relax_all(e, hs, 0).costs[1] < relax_all(e, hs, 0).costs[0] || relax_all(e, hs, 0).costs[2]
            < relax_all(e, hs, 0).costs[0],
        not_byte(relax_all(e, hs, 0).froms[1]),
        not_byte(relax_all(e, hs, 0).froms[2]),
{
    reveal_with_fuel(relax_row, 4);
    reveal_with_fuel(relax_all, 4);
    let (h0, h1, h2) = (hs[0], hs[1], hs[2]);
    let (e0, e1, e2) = (e.costs[0], e.costs[1], e.costs[2]);
    lemma_ceil6_step(e0, e0 + 6);
    lemma_ceil6_step(e1, e1 + 6);
    lemma_ceil6_step(e2, e2 + 6);
    let r02 = relax(relax(relax(e, hs, 0, 0), hs, 0, 1), hs, 0, 2);
    let c0 = r02.costs[0];
    lemma_ceil6_step(c0, c0 + 6);
    assert(relax(e, hs, 0, 0) == e);
    assert(r02.froms[1] == e.froms[1] && r02.froms[2] == e.froms[2]);
    assert(c0 == e0 || c0 == ceil6(e1) + h0 || (digit && c0 == ceil6(e2) + h0));
    let r12 = relax(relax(relax(r02, hs, 1, 0), hs, 1, 1), hs, 1, 2);
    assert(relax(r02, hs, 1, 0) == r02);
    let c1 = r12.costs[1];
    assert(not_byte(r12.froms[1]));
    assert(r12.costs[0] == c0);
    assert(c1 <= c0 + 6);
    assert(c1 < c0 || (digit && e2 < c0));
    lemma_ceil6_step(c1, c1 + 6);
    if !digit {
        lemma_ceil6_step(c1, c0);
    }
    let r22 = relax(relax(relax(r12, hs, 2, 0), hs, 2, 1), hs, 2, 2);
    assert(relax_all(e, hs, 0) == r22);
    assert(not_byte(r22.froms[2]));
    assert(r22.costs[0] == c0 && r22.costs[1] == c1);
    assert(digit ==> c1 <= ceil6(e2) + h1);
    assert(r22.costs[2] <= ceil6(c0) + h2);
    assert(r22.costs[2] <= ceil6(c1) + h2);
    assert(r22.costs[2] == e2 || r22.costs[2] == ceil6(c0) + h2 || r22.costs[2] == ceil6(c1) + h2);
}

/// On a character of the alphanumeric set, the margins hold again, byte
/// mode is strictly dearer than one of the other two, and neither the
/// alphanumeric nor the numeric state goes back to a byte segment.
proof fn lemma_alnum_step(prev: Seq<int>, c: char, hs: Seq<int>)
    requires
        is_alnum(c),
        hs.len() == 3,
        hs[2] == hs[1] + 6,
        hs[1] <= hs[0] + 6,
        forall|m: int| 0 <= m < 3 ==> 72 <= #[trigger] hs[m] <= 120,
        hs[2] <= 108,
        alnum_margins(prev, hs),
    ensures
        alnum_margins(dp_step(prev, c, hs).costs, hs),
        dp_step(prev, c, hs).costs[1] < dp_step(prev, c, hs).costs[0] || dp_step(prev, c, hs).costs[2]
            < dp_step(prev, c, hs).costs[0],
        not_byte(dp_step(prev, c, hs).froms[1]),
        not_byte(dp_step(prev, c, hs).froms[2]),
{
    assert(utf8_len(c) == 1);
    lemma_alnum_relax(prev, extended(prev, c), hs, is_digit(c));
}

/// After any prefix of an alphanumeric text the margins hold; after a
/// nonempty one byte mode is strictly dearer than one of the others.
proof fn lemma_alnum_costs(cps: Seq<char>, hs: Seq<int>, i: int)
    requires
        0 <= i <= cps.len(),
        forall|t: int| 0 <= t < cps.len() ==> is_alnum(#[trigger] cps[t]),
        hs.len() == 3,
        hs[2] == hs[1] + 6,
        hs[1] <= hs[0] + 6,
        forall|m: int| 0 <= m < 3 ==> 72 <= #[trigger] hs[m] <= 120,
        hs[2] <= 108,
    ensures
        alnum_margins(costs_before(cps, hs, i), hs),
        i > 0 ==> costs_before(cps, hs, i)[1] < costs_before(cps, hs, i)[0] || costs_before(cps, hs, i)[2]
            < costs_before(cps, hs, i)[0],
        i < cps.len() ==> not_byte(froms_at(cps, hs, i)[1]) && not_byte(froms_at(cps, hs, i)[2]),
    decreases i,
{
    if i > 0 {
        lemma_alnum_costs(cps, hs, i - 1);
        lemma_alnum_step(costs_before(cps, hs, i - 1), cps[i - 1], hs);
    }
    if i < cps.len() {
        lemma_alnum_step(costs_before(cps, hs, i), cps[i], hs);
    }
}

proof fn lemma_alnum_trace(cps: Seq<char>, hs: Seq<int>, i: int)
    requires
        0 <= i <= cps.len(),
        cps.len() > 0,
        forall|t: int| 0 <= t < cps.len() ==> is_alnum(#[trigger] cps[t]),
        hs.len() == 3,
        hs[2] == hs[1] + 6,
        hs[1] <= hs[0] + 6,
        forall|m: int| 0 <= m < 3 ==> 72 <= #[trigger] hs[m] <= 120,
        hs[2] <= 108,
    ensures
        trace(cps, hs, i) == 1 || trace(cps, hs, i) == 2,
    decreases cps.len() - i,
{
    lemma_alnum_costs(cps, hs, i);
    if i < cps.len() {
        lemma_alnum_trace(cps, hs, i + 1);
    } else {
        reveal_with_fuel(argmin_from, 3);
    }
}

/// In a text made only of the 45 alphanumeric characters the optimizer gives
/// no character byte mode, at any version.
pub proof fn lemma_alnum_never_byte(cps: Seq<char>, ver: int)
    requires
        valid_version(ver),
        forall|t: int| 0 <= t < cps.len() ==> is_alnum(#[trigger] cps[t]),
    ensures
        forall|i: int| 0 <= i < cps.len() ==> char_mode(cps, ver, i) != SegmentMode::Byte,
{
    let hs = heads(ver);
    assert(hs[1] <= hs[0] + 6);
    assert forall|i: int| 0 <= i < cps.len() implies char_mode(cps, ver, i) != SegmentMode::Byte by {
        lemma_alnum_trace(cps, hs, i);
    }
}

/// Whatever the search returns for a nonempty text of ASCII digits is one
/// numeric segment spanning the whole text.
pub proof fn lemma_digits_result(cps: Seq<char>, ecl: EccLevel, ver: int, max_version: int)
    requires
        valid_version(ver),
        valid_version(max_version),
        cps.len() > 0,
        forall|t: int| 0 <= t < cps.len() ==> is_digit(#[trigger] cps[t]),
        search_from(cps, ecl, ver, max_version) is Some,
    ensures
        search_from(cps, ecl, ver, max_version)->0 == seq![seg_spec(SegmentMode::Numeric, cps)],
{
    lemma_result_fits(cps, ecl, ver, max_version);
    let w = choose|w: int|
        ver <= w <= max_version && segs_at(cps, w) == search_from(cps, ecl, ver, max_version)->0
            && fits(#[trigger] segs_at(cps, w), w, ecl);
    lemma_digits_one_numeric_segment(cps, w);
}

/// A segment list is accepted at a version only while every count fits its
/// field: a segment whose count reaches 2 to the field width leaves the total
/// undefined, so the search goes on to a larger version or fails; no text is
/// cut to fit. One less than that limit still fits.
pub proof fn lemma_count_field(segs: Seq<SegSpec>, ver: int, k: int)
    requires
        0 <= k < segs.len(),
    ensures
        segs[k].num_chars >= pow2(ccbits(segs[k].mode, ver) as nat) ==> total_bits(segs, ver) is None,
        segs[k].num_chars == pow2(ccbits(segs[k].mode, ver) as nat) - 1 ==> seg_fits(segs[k], ver),
{
}

/// Cost, in sixths of a bit, of giving character `c` one more place in a
/// segment of mode index `m`.
pub open spec fn ext_cost(m: int, c: char) -> int {
    if m == 0 {
        utf8_len(c) * 48
    } else if m == 1 {
        33
    } else {
        20
    }
}

/// Cost of encoding the first `i` characters of `cps` with the mode indices
/// `a`: a header for each run, rounded up to a whole bit before each new run,
/// and each character's own cost.
pub open spec fn path_cost(cps: Seq<char>, hs: Seq<int>, a: Seq<int>, i: int) -> int
    decreases i,
{
    if i <= 1 {
        hs[a[0]] + ext_cost(a[0], cps[0])
    } else if a[i - 1] == a[i - 2] {
        path_cost(cps, hs, a, i - 1) + ext_cost(a[i - 1], cps[i - 1])
    } else {
        ceil6(path_cost(cps, hs, a, i - 1)) + hs[a[i - 1]] + ext_cost(a[i - 1], cps[i - 1])
    }
}

/// Every mode of `a` can take its character.
pub open spec fn valid_assignment(cps: Seq<char>, a: Seq<int>) -> bool {
    &&& a.len() == cps.len()
    &&& forall|i: int| 0 <= i < a.len() ==> 0 <= #[trigger] a[i] < 3 && takes(a[i], cps[i])
}

proof fn lemma_ceil6_mono(x: int, y: int)
    requires
        x <= y,
    ensures
        ceil6(x) <= ceil6(y),
        x <= ceil6(x),
{
}

/// After a step, a state that the character extends costs at most its
/// extension, and no state costs more than starting it after any other.
#[verifier::spinoff_prover]
#[verifier::rlimit(100)]
proof fn lemma_step_closure(e: DpRow, hs: Seq<int>)
    requires
        hs.len() == 3,
        forall|m: int| 0 <= m < 3 ==> #[trigger] hs[m] >= 0,
        e.costs.len() == 3,
        e.froms.len() == 3,
        e.froms[0] is Some,
    ensures
        forall|m: int| 0 <= m < 3 && e.froms[m] is Some ==> #[trigger] relax_all(e, hs, 0).costs[m] <= e.costs[m],
        forall|j: int, k: int|
            0 <= j < 3 && 0 <= k < 3 ==> #[trigger] relax_all(e, hs, 0).costs[j] <= ceil6(
                #[trigger] relax_all(e, hs, 0).costs[k],
            ) + hs[j],
{
    reveal_with_fuel(relax_row, 4);
    reveal_with_fuel(relax_all, 4);
    let r02 = relax(relax(relax(e, hs, 0, 0), hs, 0, 1), hs, 0, 2);
    let r12 = relax(relax(relax(r02, hs, 1, 0), hs, 1, 1), hs, 1, 2);
    let r22 = relax(relax(relax(r12, hs, 2, 0), hs, 2, 1), hs, 2, 2);
    assert(relax_all(e, hs, 0) == r22);
    let (a0, a1, a2) = (r02.costs[0], r02.costs[1], r02.costs[2]);
    let (b1, b2) = (r12.costs[1], r12.costs[2]);
    let c2 = r22.costs[2];
    assert(r12.costs[0] == a0 && r22.costs[0] == a0 && r22.costs[1] == b1);
    lemma_ceil6_mono(a0, a0);
    lemma_ceil6_mono(b1, b1);
    lemma_ceil6_mono(c2, c2);
    assert(r02.froms[0] is Some);
    assert(r12.froms[1] is Some);
    assert(r22.froms[2] is Some);
    assert(b1 <= ceil6(a0) + hs[1]);
    assert(c2 <= ceil6(a0) + hs[2]);
    assert(c2 <= ceil6(b1) + hs[2]);
    if b1 < a1 {
        lemma_ceil6_mono(b1, a1);
    }
    if r02.froms[1] is Some && r12.froms[2] is Some && b2 <= a2 {
        lemma_ceil6_mono(b2, a2);
    }
    if c2 < b2 {
        lemma_ceil6_mono(c2, b2);
    }
    if c2 < a2 {
        lemma_ceil6_mono(c2, a2);
    }
}

proof fn lemma_costs_below_paths(cps: Seq<char>, hs: Seq<int>, a: Seq<int>, i: int)
    requires
        1 <= i <= cps.len(),
        valid_assignment(cps, a),
        hs.len() == 3,
        forall|m: int| 0 <= m < 3 ==> #[trigger] hs[m] >= 0,
    ensures
        costs_before(cps, hs, i)[a[i - 1]] <= path_cost(cps, hs, a, i),
        forall|j: int, k: int|
            0 <= j < 3 && 0 <= k < 3 ==> #[trigger] costs_before(cps, hs, i)[j] <= ceil6(
                #[trigger] costs_before(cps, hs, i)[k],
            ) + hs[j],
    decreases i,
{
    let p = costs_before(cps, hs, i - 1);
    let c = cps[i - 1];
    let m = a[i - 1];
    lemma_costs_len(cps, hs, i - 1);
    let e = extended(p, c);
    lemma_step_closure(e, hs);
    assert(costs_before(cps, hs, i) == relax_all(e, hs, 0).costs);
    assert(takes(m, c) && 0 <= m < 3);
    assert(e.froms[m] is Some);
    assert(e.costs[m] == p[m] + ext_cost(m, c));
    if i >= 2 {
        lemma_costs_below_paths(cps, hs, a, i - 1);
        let k = a[i - 2];
        assert(0 <= k < 3);
        if m != k {
            lemma_ceil6_mono(p[k], path_cost(cps, hs, a, i - 1));
            assert(p[m] <= ceil6(p[k]) + hs[m]);
        }
    }
}

/// The cost the optimizer reaches: the least final cost of the forward pass,
/// at the mode where the backward trace starts.
pub open spec fn least_cost(cps: Seq<char>, ver: int) -> int {
    costs_before(cps, heads(ver), cps.len() as int)[trace(cps, heads(ver), cps.len() as int)]
}

/// The forward pass is a lower bound: no assignment of modes that can take
/// their characters costs less than the least final cost that the optimizer
/// traces back from.
pub proof fn lemma_least_cost_is_lower_bound(cps: Seq<char>, ver: int, a: Seq<int>)
    requires
        valid_version(ver),
        cps.len() > 0,
        valid_assignment(cps, a),
    ensures
        least_cost(cps, ver) <= path_cost(cps, heads(ver), a, cps.len() as int),
{
    let hs = heads(ver);
    let n = cps.len() as int;
    lemma_heads_shape(ver);
    lemma_costs_below_paths(cps, hs, a, n);
    lemma_costs_len(cps, hs, n);
    let c = costs_before(cps, hs, n);
    reveal_with_fuel(argmin_from, 3);
    assert(c[argmin_from(c, 1, 0)] <= c[a[n - 1]]);
}

/// After a step, each back pointer tells how its state's cost was reached:
/// by extending that state, or by starting it after the extended state the
/// pointer names.
#[verifier::spinoff_prover]
#[verifier::rlimit(100)]
proof fn lemma_step_pointers(e: DpRow, hs: Seq<int>)
    requires
        hs.len() == 3,
        forall|m: int| 0 <= m < 3 ==> #[trigger] hs[m] >= 1,
        e.costs.len() == 3,
        e.froms.len() == 3,
        e.froms[0] == Some(0int),
        e.froms[1] is None || e.froms[1] == Some(1int),
        e.froms[2] is None || e.froms[2] == Some(2int),
    ensures
        forall|j: int| 0 <= j < 3 ==> (#[trigger] relax_all(e, hs, 0).froms[j]) is Some,
        forall|j: int|
            0 <= j < 3 && #[trigger] relax_all(e, hs, 0).froms[j] == Some(j) ==> relax_all(e, hs, 0).costs[j]
                == e.costs[j],
        forall|j: int|
            0 <= j < 3 && (#[trigger] relax_all(e, hs, 0).froms[j]) is Some && relax_all(e, hs, 0).froms[j]->0
                != j ==> {
                let k = relax_all(e, hs, 0).froms[j]->0;
                &&& 0 <= k < 3
                &&& e.froms[k] == Some(k)
                &&& relax_all(e, hs, 0).costs[j] == ceil6(e.costs[k]) + hs[j]
            },
{
    reveal_with_fuel(relax_row, 4);
    reveal_with_fuel(relax_all, 4);
    let r02 = relax(relax(relax(e, hs, 0, 0), hs, 0, 1), hs, 0, 2);
    let r12 = relax(relax(relax(r02, hs, 1, 0), hs, 1, 1), hs, 1, 2);
    let r22 = relax(relax(relax(r12, hs, 2, 0), hs, 2, 1), hs, 2, 2);
    assert(relax_all(e, hs, 0) == r22);
    assert(relax(e, hs, 0, 0) == e);
    lemma_ceil6_mono(e.costs[0], e.costs[0]);
    lemma_ceil6_mono(e.costs[1], e.costs[1]);
    lemma_ceil6_mono(e.costs[2], e.costs[2]);
    lemma_ceil6_mono(r02.costs[0], r02.costs[0]);
    lemma_ceil6_mono(r12.costs[1], r12.costs[1]);
    assert(relax(r02, hs, 1, 1) == relax(r02, hs, 1, 1));
    assert(r22.costs[0] == r02.costs[0]);
    assert(r22.costs[1] == r12.costs[1]);
    let r10 = relax(r02, hs, 1, 0);
    let r20 = relax(r12, hs, 2, 0);
    let r21 = relax(r20, hs, 2, 1);
    lemma_ceil6_mono(r10.costs[1], r10.costs[1]);
    lemma_ceil6_mono(r20.costs[2], r20.costs[2]);
    lemma_ceil6_mono(r21.costs[2], r21.costs[2]);
    lemma_ceil6_mono(r12.costs[2], r12.costs[2]);
}

/// The mode indices the backward trace gives the characters of `cps`.
pub open spec fn traced_modes(cps: Seq<char>, ver: int) -> Seq<int> {
    Seq::new(cps.len(), |i: int| trace(cps, heads(ver), i))
}

proof fn lemma_trace_path(cps: Seq<char>, ver: int, i: int)
    requires
        valid_version(ver),
        1 <= i <= cps.len(),
    ensures
        path_cost(cps, heads(ver), traced_modes(cps, ver), i) == extended(
            costs_before(cps, heads(ver), i - 1),
            cps[i - 1],
        ).costs[traced_modes(cps, ver)[i - 1]],
    decreases i,
{
    let hs = heads(ver);
    let t = traced_modes(cps, ver);
    lemma_heads_shape(ver);
    lemma_trace_encodable(cps, hs, i - 1);
    lemma_costs_len(cps, hs, i - 1);
    if i >= 2 {
        lemma_trace_path(cps, ver, i - 1);
        lemma_trace_encodable(cps, hs, i - 2);
        lemma_costs_len(cps, hs, i - 2);
        let e = extended(costs_before(cps, hs, i - 2), cps[i - 2]);
        lemma_step_pointers(e, hs);
        let sv = t[i - 1];
        assert(costs_before(cps, hs, i - 1) == relax_all(e, hs, 0).costs);
        assert(froms_at(cps, hs, i - 2) == relax_all(e, hs, 0).froms);
        assert(relax_all(e, hs, 0).froms[sv] is Some);
        assert(t[i - 2] == relax_all(e, hs, 0).froms[sv]->0);
    }
}

/// The backward trace gives every character a mode that can take it, and
/// the cost of that assignment is exactly the least final cost: with
/// `lemma_least_cost_is_lower_bound`, no valid assignment costs less.
pub proof fn lemma_traced_modes_optimal(cps: Seq<char>, ver: int)
    requires
        valid_version(ver),
        cps.len() > 0,
    ensures
        valid_assignment(cps, traced_modes(cps, ver)),
        path_cost(cps, heads(ver), traced_modes(cps, ver), cps.len() as int) == least_cost(cps, ver),
{
    let hs = heads(ver);
    let n = cps.len() as int;
    let t = traced_modes(cps, ver);
    lemma_heads_shape(ver);
    assert forall|i: int| 0 <= i < t.len() implies 0 <= #[trigger] t[i] < 3 && takes(t[i], cps[i]) by {
        lemma_trace_encodable(cps, hs, i);
    }
    lemma_trace_path(cps, ver, n);
    lemma_costs_len(cps, hs, n - 1);
    lemma_costs_len(cps, hs, n);
    lemma_trace_encodable(cps, hs, n);
    let e = extended(costs_before(cps, hs, n - 1), cps[n - 1]);
    lemma_step_pointers(e, hs);
    lemma_step_closure(e, hs);
    let c = costs_before(cps, hs, n);
    assert(c == relax_all(e, hs, 0).costs);
    let f = trace(cps, hs, n);
    reveal_with_fuel(argmin_from, 3);
    assert(forall|m: int| 0 <= m < 3 ==> c[f] <= #[trigger] c[m]);
    let k = t[n - 1];
    assert(froms_at(cps, hs, n - 1) == relax_all(e, hs, 0).froms);
    assert(k == relax_all(e, hs, 0).froms[f]->0);
    if k != f {
        lemma_ceil6_mono(e.costs[k], e.costs[k]);
        assert(c[k] <= e.costs[k]);
        assert(false);
    }
}

/// What one character counts for in its segment's count field: one
/// character in numeric or alphanumeric mode, its UTF-8 bytes in byte mode.
pub open spec fn count_unit(mode: SegmentMode, c: char) -> int {
    match mode {
        SegmentMode::Numeric => 1,
        SegmentMode::Alphanumeric => 1,
        _ => utf8_len(c),
    }
}

/// The count units of the characters from position `s` on.
pub open spec fn units_from(cps: Seq<char>, modes: Seq<SegmentMode>, s: int) -> int
    decreases cps.len() - s,
{
    if s < 0 || s >= cps.len() {
        0
    } else {
        count_unit(modes[s], cps[s]) + units_from(cps, modes, s + 1)
    }
}

/// The sum of the count fields of `segs`.
pub open spec fn counts_sum(segs: Seq<SegSpec>) -> int
    decreases segs.len(),
{
    if segs.len() == 0 {
        0
    } else {
        segs[0].num_chars + counts_sum(segs.subrange(1, segs.len() as int))
    }
}

proof fn lemma_utf8_total_front(s: Seq<char>)
    requires
        s.len() > 0,
    ensures
        utf8_total(s) == utf8_len(s[0]) + utf8_total(s.subrange(1, s.len() as int)),
    decreases s.len(),
{
    if s.len() > 1 {
        lemma_utf8_total_front(s.drop_last());
        let tail = s.subrange(1, s.len() as int);
        assert(s.drop_last().subrange(1, s.len() - 1) =~= tail.drop_last());
        assert(tail.last() == s.last());
        assert(utf8_total(tail) == utf8_total(tail.drop_last()) + utf8_len(tail.last()));
        assert(s.drop_last()[0] == s[0]);
    } else {
        assert(s.drop_last() =~= Seq::<char>::empty());
        assert(s.subrange(1, s.len() as int) =~= Seq::<char>::empty());
        assert(utf8_total(Seq::<char>::empty()) == 0);
    }
}

/// The count units of a run of one mode add up to its segment's count.
proof fn lemma_run_units(cps: Seq<char>, modes: Seq<SegmentMode>, s: int, e: int)
    requires
        0 <= s <= e <= cps.len(),
        modes.len() == cps.len(),
        forall|t: int| s <= t < e ==> modes[t] == modes[s],
        modes[s] != SegmentMode::Kanji || s == e,
    ensures
        units_from(cps, modes, s) == (if s == e {
            0
        } else {
            seg_spec(modes[s], cps.subrange(s, e)).num_chars
        }) + units_from(cps, modes, e),
    decreases e - s,
{
    if s < e {
        if s + 1 < e {
            lemma_run_units(cps, modes, s + 1, e);
        }
        lemma_utf8_total_front(cps.subrange(s, e));
        assert(cps.subrange(s, e).subrange(1, e - s) =~= cps.subrange(s + 1, e));
        if s + 1 == e {
            assert(cps.subrange(s + 1, e) =~= Seq::<char>::empty());
        }
    }
}

/// The segments cover the text: their count fields add up to every
/// character's count unit, so no character is dropped or cut.
pub proof fn lemma_segments_cover(cps: Seq<char>, modes: Seq<SegmentMode>, s: int)
    requires
        0 <= s <= cps.len(),
        modes.len() == cps.len(),
        forall|i: int| 0 <= i < cps.len() ==> #[trigger] modes[i] != SegmentMode::Kanji,
    ensures
        counts_sum(split_from(cps, modes, s)) == units_from(cps, modes, s),
    decreases cps.len() - s,
{
    if s < cps.len() {
        let e = run_end(modes, s);
        lemma_run_end_facts(modes, s);
        lemma_segments_cover(cps, modes, e);
        lemma_run_units(cps, modes, s, e);
        let rest = split_from(cps, modes, e);
        let segs = seq![seg_spec(modes[s], cps.subrange(s, e))] + rest;
        assert(segs.subrange(1, segs.len() as int) =~= rest);
    }
}

proof fn lemma_run_end_facts(modes: Seq<SegmentMode>, s: int)
    requires
        0 <= s < modes.len(),
    ensures
        s < run_end(modes, s) <= modes.len(),
        forall|t: int| s <= t < run_end(modes, s) ==> modes[t] == modes[s],
    decreases modes.len() - s,
{
    if s + 1 < modes.len() && modes[s + 1] == modes[s] {
        lemma_run_end_facts(modes, s + 1);
    }
}

} // verus!
