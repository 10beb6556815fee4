use vstd::prelude::*;
use crate::nucleotide::{
    all_acgt, chars_equal, last_unknown, reverse_complement_spec, strict_reverse_complement_chars,
    ThermodynamicError,
};
use crate::text::slice_copy;

verus! {

/// A stem-loop: a 5' stem of `stem_length` bases at `start`, a loop of
/// `loop_size` bases, then a 3' stem whose reverse complement is the 5' stem.
#[derive(Debug, Clone, Copy, PartialEq, Eq, Structural)]
pub struct HairpinSite {
    pub start: usize,
    pub stem_length: usize,
    pub loop_size: usize,
}

/// Whether the 3' stem at this place mirrors the 5' stem; `Err` names the
/// base that stops its reverse complement.
pub open spec fn site_check(s: Seq<char>, l: int, st: int, lp: int) -> Result<bool, char> {
    let stem3 = s.subrange(st + l + lp, st + 2 * l + lp);
    if !all_acgt(stem3) {
        Err(stem3[last_unknown(stem3)])
    } else {
        Ok(s.subrange(st, st + l) == reverse_complement_spec(stem3))
    }
}

pub open spec fn site(st: int, l: int, lp: int) -> HairpinSite {
    HairpinSite { start: st as usize, stem_length: l as usize, loop_size: lp as usize }
}

/// Sites at one start and stem length, loop sizes 3 to `hi`.
pub open spec fn loop_sites(s: Seq<char>, l: int, st: int, hi: int) -> Result<Seq<HairpinSite>, char>
    decreases hi,
{
    if hi < 3 {
        Ok(Seq::empty())
    } else {
        match loop_sites(s, l, st, hi - 1) {
            Err(c) => Err(c),
            Ok(v) => match site_check(s, l, st, hi) {
                Err(c) => Err(c),
                Ok(m) => Ok(
                    if m {
                        v.push(site(st, l, hi))
                    } else {
                        v
                    },
                ),
            },
        }
    }
}

/// Largest loop tried at a start: ten, or what the strand leaves.
pub open spec fn max_loop(n: int, st: int, l: int) -> int {
    if 10 < n - st - 2 * l {
        10
    } else {
        n - st - 2 * l
    }
}

/// Sites of one stem length, starts 0 to `hi - 1`.
pub open spec fn start_sites(s: Seq<char>, l: int, hi: int) -> Result<Seq<HairpinSite>, char>
    decreases hi,
{
    if hi <= 0 {
        Ok(Seq::empty())
    } else {
        match start_sites(s, l, hi - 1) {
            Err(c) => Err(c),
            Ok(v) => match loop_sites(s, l, hi - 1, max_loop(s.len() as int, hi - 1, l)) {
                Err(c) => Err(c),
                Ok(w) => Ok(v + w),
            },
        }
    }
}

/// Sites of stem lengths 3 to `hi - 1`; a length is tried when the strand
/// holds two stems and a three-base loop.
pub open spec fn stem_sites(s: Seq<char>, hi: int) -> Result<Seq<HairpinSite>, char>
    decreases hi,
{
    if hi <= 3 {
        Ok(Seq::empty())
    } else {
        let l = hi - 1;
        match stem_sites(s, hi - 1) {
            Err(c) => Err(c),
            Ok(v) => if s.len() < 2 * l + 3 {
                Ok(v)
            } else {
                match start_sites(s, l, s.len() - (2 * l + 3) + 1) {
                    Err(c) => Err(c),
                    Ok(w) => Ok(v + w),
                }
            },
        }
    }
}

/// Every stem-loop with a stem of at least three bases and a loop of three
/// to ten, by stem length, then start, then loop size.
pub open spec fn hairpin_spec(s: Seq<char>) -> Result<Seq<HairpinSite>, char> {
    stem_sites(s, (s.len() / 2 + 1) as int)
}

proof fn lemma_loop_err(s: Seq<char>, l: int, st: int, k: int, hi: int)
    requires
        k <= hi,
        loop_sites(s, l, st, k) is Err,
    ensures
        loop_sites(s, l, st, hi) == loop_sites(s, l, st, k),
    decreases hi - k,
{
    if k < hi {
        lemma_loop_err(s, l, st, k, hi - 1);
    }
}

proof fn lemma_start_err(s: Seq<char>, l: int, k: int, hi: int)
    requires
        k <= hi,
        start_sites(s, l, k) is Err,
    ensures
        start_sites(s, l, hi) == start_sites(s, l, k),
    decreases hi - k,
{
    if k < hi {
        lemma_start_err(s, l, k, hi - 1);
    }
}

proof fn lemma_stem_err(s: Seq<char>, k: int, hi: int)
    requires
        k <= hi,
        stem_sites(s, k) is Err,
    ensures
        stem_sites(s, hi) == stem_sites(s, k),
    decreases hi - k,
{
    if k < hi {
        lemma_stem_err(s, k, hi - 1);
    }
}

fn check_site(s: &[char], l: usize, st: usize, lp: usize) -> (r: Result<bool, char>)
    requires
        st + 2 * l + lp <= s@.len(),
    ensures
        r == site_check(s@, l as int, st as int, lp as int),
{
    let n = s.len();
    assert(st + 2 * l + lp <= n);
    let stem3 = slice_copy(s, st + l + lp, st + 2 * l + lp);
    match strict_reverse_complement_chars(&stem3) {
        Err(ThermodynamicError::UnknownBase(c)) => Err(c),
        Err(_) => Err(' '),
        Ok(rc) => {
            let stem5 = slice_copy(s, st, st + l);
            Ok(chars_equal(&stem5, &rc))
        },
    }
}

fn loops_at(s: &[char], l: usize, st: usize, hi: usize, out: &mut Vec<HairpinSite>) -> (r: Result<(), char>)
    requires
        l >= 3,
        st + 2 * l + hi <= s@.len(),
    ensures
        match loop_sites(s@, l as int, st as int, hi as int) {
            Err(c) => r == Err::<(), char>(c),
            Ok(v) => r is Ok && final(out)@ == old(out)@ + v,
        },
{
    let n = s.len();
    let mut lp: usize = 3;
    proof {
        assert(old(out)@ + Seq::<HairpinSite>::empty() =~= old(out)@);
    }
    while lp <= hi
        invariant
            3 <= lp,
            l >= 3,
            n == s@.len(),
            st + 2 * l + hi <= n,
            lp <= hi + 1 || lp == 3,
            loop_sites(s@, l as int, st as int, lp - 1) matches Ok(v) && out@ == old(out)@ + v,
        decreases hi + 1 - lp,
    {
        let ghost before = out@;
        match check_site(s, l, st, lp) {
            Err(c) => {
                proof {
                    assert(loop_sites(s@, l as int, st as int, lp as int) == Err::<Seq<HairpinSite>, char>(c));
                    lemma_loop_err(s@, l as int, st as int, lp as int, hi as int);
                }
                return Err(c);
            },
            Ok(m) => {
                if m {
                    out.push(HairpinSite { start: st, stem_length: l, loop_size: lp });
                    proof {
                        let v = loop_sites(s@, l as int, st as int, lp - 1)->Ok_0;
                        assert(out@ =~= old(out)@ + v.push(site(st as int, l as int, lp as int)));
                    }
                }
            },
        }
        lp += 1;
    }
    proof {
        if hi >= 3 {
            assert(lp == hi + 1);
        }
    }
    Ok(())
}

#[verifier::rlimit(60)]
fn starts_at(s: &[char], l: usize, hi: usize, out: &mut Vec<HairpinSite>) -> (r: Result<(), char>)
    requires
        l >= 3,
        hi > 0 ==> hi - 1 + 2 * l + 3 <= s@.len(),
    ensures
        match start_sites(s@, l as int, hi as int) {
            Err(c) => r == Err::<(), char>(c),
            Ok(v) => r is Ok && final(out)@ == old(out)@ + v,
        },
{
    let mut st: usize = 0;
    proof {
        assert(old(out)@ + Seq::<HairpinSite>::empty() =~= old(out)@);
    }
    while st < hi
        invariant
            st <= hi,
            l >= 3,
            hi > 0 ==> hi - 1 + 2 * l + 3 <= s@.len(),
            start_sites(s@, l as int, st as int) matches Ok(v) && out@ == old(out)@ + v,
        decreases hi - st,
    {
        let n = s.len();
        let rest = n - st - 2 * l;
        let top = if 10 < rest {
            10
        } else {
            rest
        };
        let ghost before = out@;
        match loops_at(s, l, st, top, out) {
            Err(c) => {
                proof {
                    assert(start_sites(s@, l as int, st + 1) == Err::<Seq<HairpinSite>, char>(c));
                    lemma_start_err(s@, l as int, st + 1, hi as int);
                }
                return Err(c);
            },
            Ok(()) => {
                proof {
                    let v = start_sites(s@, l as int, st as int)->Ok_0;
                    let w = loop_sites(s@, l as int, st as int, top as int)->Ok_0;
                    assert(top as int == max_loop(s@.len() as int, st as int, l as int));
                    assert(start_sites(s@, l as int, st + 1) == Ok::<Seq<HairpinSite>, char>(v + w));
                    assert(out@ =~= old(out)@ + (v + w));
                }
            },
        }
        st += 1;
    }
    Ok(())
}

/// Stem-loop sites of an upper-case strand, in search order. A 3' stem
/// holding a base other than A, C, G, T stops the search with that base.
pub fn hairpin_sites(s: &[char]) -> (r: Result<Vec<HairpinSite>, ThermodynamicError>)
    ensures
        match hairpin_spec(s@) {
            Err(c) => r == Err::<Vec<HairpinSite>, ThermodynamicError>(
                ThermodynamicError::UnknownBase(c),
            ),
            Ok(v) => r matches Ok(x) && x@ == v,
        },
{
    let mut out: Vec<HairpinSite> = Vec::new();
    let n = s.len();
    let hi = n / 2 + 1;
    let mut l: usize = 3;
    proof {
        assert(out@ =~= Seq::<HairpinSite>::empty());
    }
    if hi <= 3 {
        return Ok(out);
    }
    while l < hi
        invariant
            3 <= l <= hi,
            hi == n / 2 + 1,
            n == s@.len(),
            stem_sites(s@, l as int) matches Ok(v) && out@ == v,
        decreases hi - l,
    {
        if n - 2 * l >= 3 {
            match starts_at(s, l, n - (2 * l + 3) + 1, &mut out) {
                Err(c) => {
                    proof {
                        assert(stem_sites(s@, l + 1) == Err::<Seq<HairpinSite>, char>(c));
                        lemma_stem_err(s@, l + 1, hi as int);
                    }
                    return Err(ThermodynamicError::UnknownBase(c));
                },
                Ok(()) => {},
            }
        }
        l += 1;
    }
    Ok(out)
}

} // verus!
