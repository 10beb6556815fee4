use vstd::prelude::*;
use crate::nucleotide::{
    is_complement_any_case, pairs_spec, reverse_complement as tolerant_rc,
    tolerant_reverse_complement_spec,
};
use crate::text::ascii_upper_spec;

verus! {

/// Why a design request is refused.
#[derive(Debug, Clone, Copy, PartialEq, Eq, Structural)]
pub enum DesignError {
    InvalidRegion,
}

/// The target region `[start, end)` must be non-empty and lie inside the sequence.
pub open spec fn region_valid(sequence_len: nat, start: nat, end: nat) -> bool {
    start < end && end <= sequence_len
}

/// Checks a target region before any candidate is generated.
pub fn check_target_region(sequence_len: usize, start: usize, end: usize) -> (r: Result<
    (),
    DesignError,
>)
    ensures
        r is Ok <==> region_valid(sequence_len as nat, start as nat, end as nat),
        r is Err ==> r == Err::<(), DesignError>(DesignError::InvalidRegion),
{
    if start >= end || end > sequence_len {
        Err(DesignError::InvalidRegion)
    } else {
        Ok(())
    }
}

/// Positions scanned for a primer of `length` bases around `anchor`: from
/// fifty before it (or 0) to fifty after it, and no further than the last
/// place where the primer still fits.
pub open spec fn window_start(anchor: nat) -> nat {
    if anchor >= 50 {
        (anchor - 50) as nat
    } else {
        0
    }
}

pub open spec fn window_end(sequence_len: nat, anchor: nat, length: nat) -> nat {
    let last = if sequence_len >= length {
        (sequence_len - length) as nat
    } else {
        0
    };
    if anchor + 50 < last {
        anchor + 50
    } else {
        last
    }
}

pub fn candidate_window(sequence_len: usize, anchor: usize, length: usize) -> (r: (usize, usize))
    requires
        anchor + 50 <= usize::MAX,
    ensures
        r.0 == window_start(anchor as nat),
        r.1 == window_end(sequence_len as nat, anchor as nat, length as nat),
{
    let first = if anchor >= 50 {
        anchor - 50
    } else {
        0
    };
    let last = if sequence_len >= length {
        sequence_len - length
    } else {
        0
    };
    let up = anchor + 50;
    (first, if up < last {
        up
    } else {
        last
    })
}

/// The span an accepted pair amplifies: from the leftmost primer start to
/// the rightmost primer end (a primer ends at its position plus its own
/// length). It is kept when its length is 100 to 3000 bases and it lies
/// within the sequence.
pub open spec fn amplicon_span(
    fwd_pos: nat,
    fwd_len: nat,
    rev_pos: nat,
    rev_len: nat,
) -> (nat, nat) {
    let s = if fwd_pos <= rev_pos {
        fwd_pos
    } else {
        rev_pos
    };
    let e = if fwd_pos + fwd_len >= rev_pos + rev_len {
        fwd_pos + fwd_len
    } else {
        rev_pos + rev_len
    };
    (s, e)
}

pub open spec fn amplicon_kept(span: (nat, nat), sequence_len: nat) -> bool {
    100 <= span.1 - span.0 <= 3000 && span.1 <= sequence_len
}

pub open spec fn span_of(p: (usize, usize)) -> (nat, nat) {
    (p.0 as nat, p.1 as nat)
}

pub fn amplicon_bounds(
    fwd_pos: usize,
    fwd_len: usize,
    rev_pos: usize,
    rev_len: usize,
    sequence_len: usize,
) -> (r: Option<(usize, usize)>)
    ensures
        r is Some <==> amplicon_kept(
            amplicon_span(fwd_pos as nat, fwd_len as nat, rev_pos as nat, rev_len as nat),
            sequence_len as nat,
        ),
        r is Some ==> span_of(r->0) == amplicon_span(
            fwd_pos as nat,
            fwd_len as nat,
            rev_pos as nat,
            rev_len as nat,
        ),
{
    let s = if fwd_pos <= rev_pos {
        fwd_pos
    } else {
        rev_pos
    };
    if fwd_len > sequence_len || fwd_pos > sequence_len - fwd_len || rev_len > sequence_len
        || rev_pos > sequence_len - rev_len {
        return None;
    }
    let fe = fwd_pos + fwd_len;
    let re = rev_pos + rev_len;
    let e = if fe >= re {
        fe
    } else {
        re
    };
    let n = e - s;
    if n < 100 || n > 3000 {
        return None;
    }
    Some((s, e))
}

/// Designs primer pairs; its numeric scoring runs outside this library.
pub struct PrimerDesignServiceImpl;

impl PrimerDesignServiceImpl {
    pub fn new() -> (r: Self) {
        PrimerDesignServiceImpl
    }

    /// Reverse complement, reading bases in either case and keeping other characters.
    pub fn reverse_complement(&self, sequence: &str) -> (r: String)
        ensures
            r@ == tolerant_reverse_complement_spec(sequence@),
    {
        tolerant_rc(sequence)
    }

    /// Whether two bases pair, ignoring ASCII case.
    pub fn is_complement(&self, base1: char, base2: char) -> (r: bool)
        ensures
            r == pairs_spec(ascii_upper_spec(base1), ascii_upper_spec(base2)),
    {
        is_complement_any_case(base1, base2)
    }
}

} // verus!
