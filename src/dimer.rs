use vstd::prelude::*;
use crate::nucleotide::{
    all_acgt, last_unknown, pairs_spec, reverse_complement_spec, strict_reverse_complement_chars,
    ThermodynamicError, is_complement, is_complement_any_case,
};
use crate::text::ascii_upper_spec;

verus! {

/// One register of two strands laid against each other: `seq2[j]` faces
/// `seq1[offset + j]`. A facing Watson-Crick pair scores -2, any other
/// facing pair +1 and counts as a mismatch.
#[derive(Debug, Clone, Copy, PartialEq, Eq, Structural)]
pub struct Alignment {
    pub offset: usize,
    pub pairs: usize,
    pub mismatches: usize,
    pub length: usize,
}

/// Score of an alignment in kcal/mol: more negative is more stable.
pub open spec fn score_of(a: Alignment) -> int {
    a.mismatches - 2 * a.pairs
}

/// Pairs and mismatches over positions `offset <= i < end` of `s1`.
pub open spec fn counts(s1: Seq<char>, s2: Seq<char>, offset: int, end: int) -> (nat, nat)
    decreases end - offset,
{
    if end <= offset {
        (0, 0)
    } else {
        let c = counts(s1, s2, offset, end - 1);
        if pairs_spec(s1[end - 1], s2[end - 1 - offset]) {
            (c.0 + 1, c.1)
        } else {
            (c.0, c.1 + 1)
        }
    }
}

pub open spec fn overlap_end(len1: int, len2: int, offset: int) -> int {
    if len1 < len2 + offset {
        len1
    } else {
        len2 + offset
    }
}

/// The alignment of `s2` against `s1` at `offset`, with the given length.
pub open spec fn alignment_spec(s1: Seq<char>, s2: Seq<char>, offset: nat, length: nat) -> Alignment {
    let c = counts(s1, s2, offset as int, overlap_end(s1.len() as int, s2.len() as int, offset as int));
    Alignment { offset: offset as usize, pairs: c.0 as usize, mismatches: c.1 as usize, length: length as usize }
}

proof fn lemma_counts_bound(s1: Seq<char>, s2: Seq<char>, offset: int, end: int)
    ensures
        end > offset ==> counts(s1, s2, offset, end).0 + counts(s1, s2, offset, end).1 == end
            - offset,
        end <= offset ==> counts(s1, s2, offset, end) == (0nat, 0nat),
    decreases end - offset,
{
    if end > offset {
        lemma_counts_bound(s1, s2, offset, end - 1);
    }
}

/// Counts the facing pairs of `s2` laid against `s1` at `offset`.
pub fn align(s1: &[char], s2: &[char], offset: usize, length: usize) -> (r: Alignment)
    ensures
        r == alignment_spec(s1@, s2@, offset as nat, length as nat),
{
    let end: usize = if s2.len() <= s1.len() && offset < s1.len() - s2.len() {
        s2.len() + offset
    } else {
        s1.len()
    };
    assert(end as int == overlap_end(s1@.len() as int, s2@.len() as int, offset as int));
    let mut pairs: usize = 0;
    let mut mismatches: usize = 0;
    let mut i: usize = offset;
    if i >= end {
        proof {
            lemma_counts_bound(s1@, s2@, offset as int, end as int);
        }
        return Alignment { offset, pairs: 0, mismatches: 0, length };
    }
    while i < end
        invariant
            offset <= i <= end <= s1@.len(),
            end <= s2@.len() + offset,
            (pairs as nat, mismatches as nat) == counts(s1@, s2@, offset as int, i as int),
            pairs + mismatches == i - offset,
        decreases end - i,
    {
        if is_complement(s1[i], s2[i - offset]) {
            pairs += 1;
        } else {
            mismatches += 1;
        }
        i += 1;
    }
    Alignment { offset, pairs, mismatches, length }
}

/// The most stable score met in a scan, starting from 0, and the offset of
/// the first alignment that lowered it.
pub open spec fn scan_best(a: Seq<Alignment>) -> (int, Option<usize>)
    decreases a.len(),
{
    if a.len() == 0 {
        (0, None)
    } else {
        let b = scan_best(a.drop_last());
        if score_of(a.last()) < b.0 {
            (score_of(a.last()), Some(a.last().offset))
        } else {
            b
        }
    }
}

/// The outcome of a dimer scan: every alignment in scan order, the most
/// stable score, where it was first met, and whether it is below -8.
pub struct DimerScan {
    pub alignments: Vec<Alignment>,
    pub max_score: i128,
    pub best_alignment_offset: Option<usize>,
    pub is_problematic: bool,
}

pub open spec fn scan_valid(r: DimerScan, a: Seq<Alignment>) -> bool {
    &&& r.alignments@ == a
    &&& r.max_score == scan_best(a).0
    &&& r.best_alignment_offset == scan_best(a).1
    &&& r.is_problematic == (scan_best(a).0 < -8)
}

/// Self alignments: the strand against itself, then against its reverse
/// complement, at offsets 1 to len - 1; each covers len - offset bases.
pub open spec fn self_alignments(s: Seq<char>) -> Seq<Alignment> {
    let n = s.len();
    let m = if n > 0 {
        (n - 1) as nat
    } else {
        0nat
    };
    let rc = reverse_complement_spec(s);
    Seq::new(m, |k: int| alignment_spec(s, s, (k + 1) as nat, (n - (k + 1)) as nat)) + Seq::new(
        m,
        |k: int| alignment_spec(s, rc, (k + 1) as nat, (n - (k + 1)) as nat),
    )
}

/// Hetero alignments: the second strand, then its reverse complement,
/// against the first at offsets 0 to len1 - 1.
pub open spec fn hetero_alignments(s1: Seq<char>, s2: Seq<char>) -> Seq<Alignment> {
    let n1 = s1.len();
    let n2 = s2.len();
    let rc = reverse_complement_spec(s2);
    Seq::new(
        n1,
        |k: int|
            alignment_spec(
                s1,
                s2,
                k as nat,
                if n1 - k < n2 {
                    (n1 - k) as nat
                } else {
                    n2
                },
            ),
    ) + Seq::new(
        n1,
        |k: int|
            alignment_spec(
                s1,
                rc,
                k as nat,
                if n1 - k < n2 {
                    (n1 - k) as nat
                } else {
                    n2
                },
            ),
    )
}

fn score(a: &Alignment) -> (r: i128)
    ensures
        r == score_of(*a),
{
    (a.mismatches as i128) - 2 * (a.pairs as i128)
}

proof fn lemma_scan_bound(a: Seq<Alignment>)
    ensures
        scan_best(a).0 <= 0,
        scan_best(a).0 >= -2 * usize::MAX,
    decreases a.len(),
{
    if a.len() > 0 {
        lemma_scan_bound(a.drop_last());
    }
}

/// Adds alignments of `other` against `s` at offsets `from..to`, keeping the scan state.
fn scan_offsets(
    s: &[char],
    other: &[char],
    from: usize,
    to: usize,
    hetero: bool,
    out: &mut Vec<Alignment>,
    best: &mut i128,
    best_offset: &mut Option<usize>,
)
    requires
        from <= to,
        to <= s@.len(),
        *old(best) == scan_best(old(out)@).0,
        *old(best_offset) == scan_best(old(out)@).1,
    ensures
        final(out)@ == old(out)@ + Seq::new(
            (to - from) as nat,
            |k: int| alignment_spec(s@, other@, (from + k) as nat, length_at(s@.len(), other@.len(), (from + k) as nat, hetero)),
        ),
        *final(best) == scan_best(final(out)@).0,
        *final(best_offset) == scan_best(final(out)@).1,
{
    let ghost start = out@;
    let mut off: usize = from;
    while off < to
        invariant
            from <= off <= to <= s@.len(),
            out@ == start + Seq::new(
                (off - from) as nat,
                |k: int| alignment_spec(s@, other@, (from + k) as nat, length_at(s@.len(), other@.len(), (from + k) as nat, hetero)),
            ),
            *best == scan_best(out@).0,
            *best_offset == scan_best(out@).1,
        decreases to - off,
    {
        let length = if hetero {
            if s.len() - off < other.len() {
                s.len() - off
            } else {
                other.len()
            }
        } else {
            s.len() - off
        };
        let a = align(s, other, off, length);
        let sc = score(&a);
        let ghost before = out@;
        out.push(a);
        proof {
            assert(out@.drop_last() == before);
            lemma_scan_bound(before);
        }
        if sc < *best {
            *best = sc;
            *best_offset = Some(off);
        }
        proof {
            assert(out@ =~= start + Seq::new(
                (off + 1 - from) as nat,
                |k: int| alignment_spec(s@, other@, (from + k) as nat, length_at(s@.len(), other@.len(), (from + k) as nat, hetero)),
            ));
        }
        off += 1;
    }
}

/// Length an alignment covers: for a self scan the rest of the strand, for a
/// hetero scan the shorter of that rest and the second strand.
pub open spec fn length_at(n1: nat, n2: nat, offset: nat, hetero: bool) -> nat {
    if hetero {
        if n1 - offset < n2 {
            (n1 - offset) as nat
        } else {
            n2
        }
    } else {
        (n1 - offset) as nat
    }
}

/// Self-dimer scan of an upper-case strand. A base other than A, C, G, T is
/// refused when the reverse complement is formed: the last such base is named.
pub fn self_dimer_scan(sequence: &[char]) -> (r: Result<DimerScan, ThermodynamicError>)
    ensures
        !all_acgt(sequence@) ==> r == Err::<DimerScan, ThermodynamicError>(
            ThermodynamicError::UnknownBase(sequence@[last_unknown(sequence@)]),
        ),
        all_acgt(sequence@) ==> (r matches Ok(d) && scan_valid(d, self_alignments(sequence@))),
{
    let mut out: Vec<Alignment> = Vec::new();
    let mut best: i128 = 0;
    let mut best_offset: Option<usize> = None;
    let n = sequence.len();
    let from: usize = if n > 0 {
        1
    } else {
        0
    };
    scan_offsets(sequence, sequence, from, n, false, &mut out, &mut best, &mut best_offset);
    let rc = match strict_reverse_complement_chars(sequence) {
        Ok(v) => v,
        Err(e) => {
            return Err(e);
        },
    };
    scan_offsets(sequence, &rc, from, n, false, &mut out, &mut best, &mut best_offset);
    proof {
        assert(out@ =~= self_alignments(sequence@));
    }
    Ok(DimerScan { alignments: out, max_score: best, best_alignment_offset: best_offset, is_problematic: best < -8 })
}

/// Hetero-dimer scan of two upper-case strands; the second must be all A,
/// C, G, T for its reverse complement.
pub fn hetero_dimer_scan(seq1: &[char], seq2: &[char]) -> (r: Result<DimerScan, ThermodynamicError>)
    ensures
        !all_acgt(seq2@) ==> r == Err::<DimerScan, ThermodynamicError>(
            ThermodynamicError::UnknownBase(seq2@[last_unknown(seq2@)]),
        ),
        all_acgt(seq2@) ==> (r matches Ok(d) && scan_valid(d, hetero_alignments(seq1@, seq2@))),
{
    let mut out: Vec<Alignment> = Vec::new();
    let mut best: i128 = 0;
    let mut best_offset: Option<usize> = None;
    scan_offsets(seq1, seq2, 0, seq1.len(), true, &mut out, &mut best, &mut best_offset);
    let rc = match strict_reverse_complement_chars(seq2) {
        Ok(v) => v,
        Err(e) => {
            return Err(e);
        },
    };
    scan_offsets(seq1, &rc, 0, seq1.len(), true, &mut out, &mut best, &mut best_offset);
    proof {
        assert(out@ =~= hetero_alignments(seq1@, seq2@));
    }
    Ok(DimerScan { alignments: out, max_score: best, best_alignment_offset: best_offset, is_problematic: best < -8 })
}

/// Length of the run of equal characters of `a` from `i` and `b` from `j`.
pub open spec fn run_len(a: Seq<char>, b: Seq<char>, i: int, j: int) -> nat
    decreases a.len() - i,
{
    if 0 <= i < a.len() && 0 <= j < b.len() && a[i] == b[j] {
        1 + run_len(a, b, i + 1, j + 1)
    } else {
        0
    }
}

fn run_at(a: &[char], b: &[char], i: usize, j: usize) -> (r: usize)
    requires
        i < a@.len(),
        j < b@.len(),
    ensures
        r == run_len(a@, b@, i as int, j as int),
{
    let n = a.len();
    let m = b.len();
    let mut k: usize = 0;
    while i + k < n && j + k < m && a[i + k] == b[j + k]
        invariant
            n == a@.len(),
            m == b@.len(),
            i + k <= n,
            j + k <= m,
            run_len(a@, b@, i as int, j as int) == k + run_len(a@, b@, (i + k) as int, (j + k) as int),
        decreases a.len() - (i + k),
    {
        k += 1;
    }
    k
}

/// The longest run of equal characters shared by `a` and `b` at any two
/// starting places (0 when they share none).
pub fn longest_shared_run(a: &[char], b: &[char]) -> (r: usize)
    ensures
        forall|i: int, j: int| 0 <= i < a@.len() && 0 <= j < b@.len() ==> #[trigger] run_len(a@, b@, i, j) <= r,
        r == 0 || exists|i: int, j: int| 0 <= i < a@.len() && 0 <= j < b@.len() && #[trigger] run_len(a@, b@, i, j) == r,
{
    let mut best: usize = 0;
    let mut i: usize = 0;
    while i < a.len()
        invariant
            i <= a@.len(),
            forall|x: int, y: int| 0 <= x < i && 0 <= y < b@.len() ==> #[trigger] run_len(a@, b@, x, y) <= best,
            best == 0 || exists|x: int, y: int| 0 <= x < a@.len() && 0 <= y < b@.len() && #[trigger] run_len(a@, b@, x, y) == best,
        decreases a.len() - i,
    {
        let mut j: usize = 0;
        while j < b.len()
            invariant
                i < a@.len(),
                j <= b@.len(),
                forall|x: int, y: int| 0 <= x < i && 0 <= y < b@.len() ==> #[trigger] run_len(a@, b@, x, y) <= best,
                forall|y: int| 0 <= y < j ==> #[trigger] run_len(a@, b@, i as int, y) <= best,
                best == 0 || exists|x: int, y: int| 0 <= x < a@.len() && 0 <= y < b@.len() && #[trigger] run_len(a@, b@, x, y) == best,
            decreases b.len() - j,
        {
            let k = run_at(a, b, i, j);
            if k > best {
                best = k;
            }
            j += 1;
        }
        i += 1;
    }
    best
}

/// Facing pairs of the primer service's alignment: `s2[i]` against
/// `s1[offset + i]` for `i < k`; complementary pairs, and non-complementary
/// equal characters.
pub open spec fn pair_counts(s1: Seq<char>, s2: Seq<char>, offset: int, k: int) -> (nat, nat)
    decreases k,
{
    if k <= 0 {
        (0, 0)
    } else {
        let c = pair_counts(s1, s2, offset, k - 1);
        let x = s1[offset + k - 1];
        let y = s2[k - 1];
        if pairs_spec(ascii_upper_spec(x), ascii_upper_spec(y)) {
            (c.0 + 1, c.1)
        } else if x == y {
            (c.0, c.1 + 1)
        } else {
            c
        }
    }
}

pub open spec fn window_len(n1: int, n2: int, offset: int) -> int {
    if n1 - offset < n2 {
        n1 - offset
    } else {
        n2
    }
}

/// Score in half kcal/mol units: -4 per complementary pair, -1 per equal pair.
pub open spec fn half_score(c: (nat, nat)) -> int {
    -4 * c.0 - c.1
}

/// The most negative score over offsets `0..hi` among alignments with at
/// least three complementary pairs, or 0.
pub open spec fn service_best(s1: Seq<char>, s2: Seq<char>, hi: int) -> int
    decreases hi,
{
    if hi <= 0 {
        0
    } else {
        let b = service_best(s1, s2, hi - 1);
        let c = pair_counts(s1, s2, hi - 1, window_len(s1.len() as int, s2.len() as int, hi - 1));
        if c.0 >= 3 && half_score(c) < b {
            half_score(c)
        } else {
            b
        }
    }
}

/// The primer service's sliding alignment score, in half kcal/mol units.
pub fn service_alignment_score(s1: &[char], s2: &[char]) -> (r: i128)
    ensures
        r == service_best(s1@, s2@, s1@.len() as int),
{
    let n1 = s1.len();
    let mut best: i128 = 0;
    let mut off: usize = 0;
    while off < n1
        invariant
            n1 == s1@.len(),
            off <= n1,
            best == service_best(s1@, s2@, off as int),
        decreases s1.len() - off,
    {
        let k = if s1.len() - off < s2.len() {
            s1.len() - off
        } else {
            s2.len()
        };
        let mut pairs: usize = 0;
        let mut same: usize = 0;
        let mut i: usize = 0;
        while i < k
            invariant
                i <= k,
                n1 == s1@.len(),
                off + k <= n1,
                k <= s2@.len(),
                (pairs as nat, same as nat) == pair_counts(s1@, s2@, off as int, i as int),
                pairs + same <= i,
            decreases k - i,
        {
            if is_complement_any_case(s1[off + i], s2[i]) {
                pairs += 1;
            } else if s1[off + i] == s2[i] {
                same += 1;
            }
            i += 1;
        }
        let sc: i128 = -4 * (pairs as i128) - (same as i128);
        if pairs >= 3 && sc < best {
            best = sc;
        }
        off += 1;
    }
    best
}

} // verus!
