use vstd::prelude::*;
use crate::fastq::byte_len;
use crate::genbank::{contains_chars, contains_spec};
use crate::text::{ascii_upper, ascii_upper_spec, chars_of, decimal, decimal_spec, extend_chars, string_of};

verus! {

/// Watson-Crick partner of a base; any other character is its own image.
pub open spec fn complement_spec(c: char) -> char {
    if c == 'A' {
        'T'
    } else if c == 'T' {
        'A'
    } else if c == 'G' {
        'C'
    } else if c == 'C' {
        'G'
    } else {
        c
    }
}

pub open spec fn is_acgt(c: char) -> bool {
    c == 'A' || c == 'C' || c == 'G' || c == 'T'
}

/// True when the two bases form a Watson-Crick pair.
pub open spec fn pairs_spec(b1: char, b2: char) -> bool {
    (b1 == 'A' && b2 == 'T') || (b1 == 'T' && b2 == 'A') || (b1 == 'G' && b2 == 'C') || (b1
        == 'C' && b2 == 'G')
}

/// Checks whether two bases form a Watson-Crick pair (upper case only).
pub fn is_complement(base1: char, base2: char) -> (r: bool)
    ensures
        r == pairs_spec(base1, base2),
{
    (base1 == 'A' && base2 == 'T') || (base1 == 'T' && base2 == 'A') || (base1 == 'G' && base2
        == 'C') || (base1 == 'C' && base2 == 'G')
}

/// Checks whether two bases form a Watson-Crick pair, ignoring ASCII case.
pub fn is_complement_any_case(base1: char, base2: char) -> (r: bool)
    ensures
        r == pairs_spec(ascii_upper_spec(base1), ascii_upper_spec(base2)),
{
    is_complement(ascii_upper(base1), ascii_upper(base2))
}

pub fn complement(c: char) -> (r: char)
    ensures
        r == complement_spec(c),
{
    if c == 'A' {
        'T'
    } else if c == 'T' {
        'A'
    } else if c == 'G' {
        'C'
    } else if c == 'C' {
        'G'
    } else {
        c
    }
}

/// The strand read backwards with each base replaced by its partner;
/// characters other than A, C, G, T are kept as they are.
pub open spec fn reverse_complement_spec(s: Seq<char>) -> Seq<char> {
    Seq::new(s.len(), |i: int| complement_spec(s[s.len() - 1 - i]))
}

/// One base of the case-tolerant reverse complement: a letter whose upper
/// case is A, C, G or T becomes that letter's partner; anything else stays.
pub open spec fn tolerant_complement_spec(c: char) -> char {
    let u = ascii_upper_spec(c);
    if is_acgt(u) {
        complement_spec(u)
    } else {
        c
    }
}

pub open spec fn tolerant_reverse_complement_spec(s: Seq<char>) -> Seq<char> {
    Seq::new(s.len(), |i: int| tolerant_complement_spec(s[s.len() - 1 - i]))
}

/// Reverse complement that keeps unknown characters.
pub fn reverse_complement_chars(s: &[char]) -> (r: Vec<char>)
    ensures
        r@ == reverse_complement_spec(s@),
{
    let mut r: Vec<char> = Vec::new();
    let mut k: usize = s.len();
    while k > 0
        invariant
            k <= s@.len(),
            r@.len() == s@.len() - k,
            forall|i: int| 0 <= i < r@.len() ==> r@[i] == complement_spec(s@[s@.len() - 1 - i]),
        decreases k,
    {
        k -= 1;
        r.push(complement(s[k]));
    }
    assert(r@ =~= reverse_complement_spec(s@));
    r
}

/// Reverse complement that reads bases in either case and keeps unknown characters.
pub fn tolerant_reverse_complement_chars(s: &[char]) -> (r: Vec<char>)
    ensures
        r@ == tolerant_reverse_complement_spec(s@),
{
    let mut r: Vec<char> = Vec::new();
    let mut k: usize = s.len();
    while k > 0
        invariant
            k <= s@.len(),
            r@.len() == s@.len() - k,
            forall|i: int|
                0 <= i < r@.len() ==> r@[i] == tolerant_complement_spec(s@[s@.len() - 1 - i]),
        decreases k,
    {
        k -= 1;
        let c = s[k];
        let u = ascii_upper(c);
        let d = if u == 'A' || u == 'C' || u == 'G' || u == 'T' {
            complement(u)
        } else {
            c
        };
        r.push(d);
    }
    assert(r@ =~= tolerant_reverse_complement_spec(s@));
    r
}

pub open spec fn all_acgt(s: Seq<char>) -> bool {
    forall|i: int| 0 <= i < s.len() ==> is_acgt(#[trigger] s[i])
}

/// Index of the last character that is not A, C, G or T.
pub open spec fn last_unknown(s: Seq<char>) -> int {
    choose|k: int| 0 <= k < s.len() && !is_acgt(s[k]) && forall|j: int| k < j < s.len() ==> is_acgt(s[j])
}

/// Errors of the strict thermodynamic API.
#[derive(Debug, Clone, PartialEq, Eq)]
pub enum ThermodynamicError {
    SequenceTooShort,
    UnknownDinucleotide(String),
    UnknownBase(char),
    InvalidSequence(String),
    ZeroEntropy,
}

/// Strict reverse complement: every character must be A, C, G or T. The
/// strand is read from its 3' end, so the error names the last unknown base.
pub fn strict_reverse_complement_chars(s: &[char]) -> (r: Result<Vec<char>, ThermodynamicError>)
    ensures
        all_acgt(s@) ==> (r matches Ok(v) && v@ == reverse_complement_spec(s@)),
        !all_acgt(s@) ==> r == Err::<Vec<char>, ThermodynamicError>(
            ThermodynamicError::UnknownBase(s@[last_unknown(s@)]),
        ),
{
    let mut r: Vec<char> = Vec::new();
    let mut k: usize = s.len();
    while k > 0
        invariant
            k <= s@.len(),
            r@.len() == s@.len() - k,
            forall|i: int| 0 <= i < r@.len() ==> r@[i] == complement_spec(s@[s@.len() - 1 - i]),
            forall|j: int| k <= j < s@.len() ==> is_acgt(s@[j]),
        decreases k,
    {
        k -= 1;
        let c = s[k];
        if !(c == 'A' || c == 'C' || c == 'G' || c == 'T') {
            proof {
                let kk = last_unknown(s@);
                assert(!all_acgt(s@));
                assert(0 <= kk < s@.len() && !is_acgt(s@[kk]) && forall|j: int|
                    kk < j < s@.len() ==> is_acgt(s@[j]));
                assert(kk == k as int) by {
                    if kk < k {
                        assert(is_acgt(s@[k as int]));
                    }
                }
            }
            return Err(ThermodynamicError::UnknownBase(c));
        }
        r.push(complement(c));
    }
    assert(r@ =~= reverse_complement_spec(s@));
    Ok(r)
}

/// The reverse complement of an ACGT strand, read backwards once more, is the strand.
pub proof fn lemma_reverse_complement_involution(s: Seq<char>)
    requires
        all_acgt(s),
    ensures
        reverse_complement_spec(reverse_complement_spec(s)) == s,
        tolerant_reverse_complement_spec(tolerant_reverse_complement_spec(s)) == s,
{
    let r = reverse_complement_spec(s);
    assert(reverse_complement_spec(r) =~= s) by {
        assert forall|i: int| 0 <= i < s.len() implies reverse_complement_spec(r)[i] == s[i] by {
            assert(is_acgt(s[i]));
        }
    }
    let t = tolerant_reverse_complement_spec(s);
    assert(tolerant_reverse_complement_spec(t) =~= s) by {
        assert forall|i: int| 0 <= i < s.len() implies tolerant_reverse_complement_spec(t)[i]
            == s[i] by {
            assert(is_acgt(s[i]));
            assert(is_acgt(s[s.len() - 1 - (s.len() - 1 - i)]));
        }
    }
}

/// A strand equal to its own reverse complement (a restriction-site style palindrome).
pub open spec fn is_palindrome_spec(s: Seq<char>) -> bool {
    s == reverse_complement_spec(s)
}

pub fn chars_equal(a: &[char], b: &[char]) -> (r: bool)
    ensures
        r == (a@ == b@),
{
    if a.len() != b.len() {
        return false;
    }
    let mut i: usize = 0;
    while i < a.len()
        invariant
            i <= a@.len() == b@.len(),
            forall|j: int| 0 <= j < i ==> a@[j] == b@[j],
        decreases a.len() - i,
    {
        if a[i] != b[i] {
            return false;
        }
        i += 1;
    }
    assert(a@ =~= b@);
    true
}

/// Whether the sequence equals its reverse complement.
pub fn is_palindrome(sequence: &str) -> (r: bool)
    ensures
        r == is_palindrome_spec(sequence@),
{
    let s = chars_of(sequence);
    let rc = reverse_complement_chars(&s);
    chars_equal(&s, &rc)
}

/// Reverse complement of a string, tolerant of case and of unknown characters.
pub fn reverse_complement(sequence: &str) -> (r: String)
    ensures
        r@ == tolerant_reverse_complement_spec(sequence@),
{
    let s = chars_of(sequence);
    let rc = tolerant_reverse_complement_chars(&s);
    string_of(&rc)
}

/// Strict reverse complement of a string.
pub fn strict_reverse_complement(sequence: &str) -> (r: Result<String, ThermodynamicError>)
    ensures
        all_acgt(sequence@) ==> (r matches Ok(v) && v@ == reverse_complement_spec(sequence@)),
        !all_acgt(sequence@) ==> r == Err::<String, ThermodynamicError>(
            ThermodynamicError::UnknownBase(sequence@[last_unknown(sequence@)]),
        ),
{
    let s = chars_of(sequence);
    match strict_reverse_complement_chars(&s) {
        Ok(v) => Ok(string_of(&v)),
        Err(e) => Err(e),
    }
}

/// The reverse complement of a two-base step, as the lookup keys of the
/// nearest-neighbor table use it: a text that is not two one-byte characters
/// is refused, and the 3' base is checked before the 5' base.
pub open spec fn dinucleotide_rc_spec(d: Seq<char>) -> Result<Seq<char>, ThermodynamicErrorView> {
    if byte_len(d) != 2 || d.len() != 2 {
        Err(ThermodynamicErrorView::InvalidSequence(d))
    } else if !is_acgt(d[1]) {
        Err(ThermodynamicErrorView::UnknownBase(d[1]))
    } else if !is_acgt(d[0]) {
        Err(ThermodynamicErrorView::UnknownBase(d[0]))
    } else {
        Ok(seq![complement_spec(d[1]), complement_spec(d[0])])
    }
}

/// Errors of the strict thermodynamic API, with texts as characters.
pub enum ThermodynamicErrorView {
    SequenceTooShort,
    UnknownDinucleotide(Seq<char>),
    UnknownBase(char),
    InvalidSequence(Seq<char>),
    ZeroEntropy,
}

impl View for ThermodynamicError {
    type V = ThermodynamicErrorView;

    open spec fn view(&self) -> ThermodynamicErrorView {
        match self {
            ThermodynamicError::SequenceTooShort => ThermodynamicErrorView::SequenceTooShort,
            ThermodynamicError::UnknownDinucleotide(s) => ThermodynamicErrorView::UnknownDinucleotide(s@),
            ThermodynamicError::UnknownBase(c) => ThermodynamicErrorView::UnknownBase(*c),
            ThermodynamicError::InvalidSequence(s) => ThermodynamicErrorView::InvalidSequence(s@),
            ThermodynamicError::ZeroEntropy => ThermodynamicErrorView::ZeroEntropy,
        }
    }
}

pub open spec fn string_result_view(r: Result<String, ThermodynamicError>) -> Result<
    Seq<char>,
    ThermodynamicErrorView,
> {
    match r {
        Ok(s) => Ok(s@),
        Err(e) => Err(e@),
    }
}

fn checked_complement(c: char) -> (r: Result<char, ThermodynamicError>)
    ensures
        is_acgt(c) ==> r == Ok::<char, ThermodynamicError>(complement_spec(c)),
        !is_acgt(c) ==> r == Err::<char, ThermodynamicError>(ThermodynamicError::UnknownBase(c)),
{
    if c == 'A' || c == 'C' || c == 'G' || c == 'T' {
        Ok(complement(c))
    } else {
        Err(ThermodynamicError::UnknownBase(c))
    }
}

/// Reverse complement of a two-base step.
pub fn reverse_complement_dinucleotide(dinucleotide: &str) -> (r: Result<String, ThermodynamicError>)
    ensures
        string_result_view(r) == dinucleotide_rc_spec(dinucleotide@),
{
    let d = chars_of(dinucleotide);
    let n = dinucleotide.len();
    if n != 2 || d.len() != 2 {
        return Err(ThermodynamicError::InvalidSequence(String::from_str(dinucleotide)));
    }
    let rc1 = match checked_complement(d[1]) {
        Ok(c) => c,
        Err(e) => {
            return Err(e);
        },
    };
    let rc0 = match checked_complement(d[0]) {
        Ok(c) => c,
        Err(e) => {
            return Err(e);
        },
    };
    let mut v: Vec<char> = Vec::new();
    v.push(rc1);
    v.push(rc0);
    proof {
        assert(v@ =~= seq![complement_spec(dinucleotide@[1]), complement_spec(dinucleotide@[0])]);
    }
    Ok(string_of(&v))
}

/// The two keys under which a step may stand in the nearest-neighbor table:
/// "XY/" and its reverse complement, then the reverse complement, "/" and "XY".
pub fn dinucleotide_keys(dinucleotide: &str) -> (r: Result<(String, String), ThermodynamicError>)
    ensures
        dinucleotide_rc_spec(dinucleotide@) is Err ==> (r matches Err(e)
            && dinucleotide_rc_spec(dinucleotide@) == Err::<Seq<char>, ThermodynamicErrorView>(e@)),
        dinucleotide_rc_spec(dinucleotide@) is Ok ==> (r matches Ok(k) && k.0@ == dinucleotide@
            + "/"@ + dinucleotide_rc_spec(dinucleotide@)->Ok_0 && k.1@ == dinucleotide_rc_spec(
            dinucleotide@,
        )->Ok_0 + "/"@ + dinucleotide@),
{
    let rc = match reverse_complement_dinucleotide(dinucleotide) {
        Ok(s) => s,
        Err(e) => {
            return Err(e);
        },
    };
    let d = chars_of(dinucleotide);
    let rcc = chars_of(rc.as_str());
    let slash = chars_of("/");
    let mut k1 = d.clone();
    extend_chars(&mut k1, &slash);
    extend_chars(&mut k1, &rcc);
    let mut k2 = rcc.clone();
    extend_chars(&mut k2, &slash);
    extend_chars(&mut k2, &d);
    Ok((string_of(&k1), string_of(&k2)))
}

/// Key of an asymmetric internal loop: the smaller size, 'x', the larger.
pub open spec fn asymmetric_loop_key_spec(size1: nat, size2: nat) -> Seq<char> {
    if size1 <= size2 {
        decimal_spec(size1) + "x"@ + decimal_spec(size2)
    } else {
        decimal_spec(size2) + "x"@ + decimal_spec(size1)
    }
}

pub fn asymmetric_loop_key(size1: usize, size2: usize) -> (r: String)
    ensures
        r@ == asymmetric_loop_key_spec(size1 as nat, size2 as nat),
{
    let (a, b) = if size1 <= size2 {
        (size1, size2)
    } else {
        (size2, size1)
    };
    let mut k = decimal(a);
    extend_chars(&mut k, &chars_of("x"));
    extend_chars(&mut k, &decimal(b));
    string_of(&k)
}

/// Repeats that make a primer suspect: the first of A, T, G, C found four
/// times in a row, whether AT/TA/GC/CG repeats four times, and the first of
/// A, T, G, C found six times in a row.
pub struct RepeatFindings {
    pub single: Option<char>,
    pub dinucleotide: bool,
    pub very_long: Option<char>,
}

pub open spec fn run_of(c: char, n: nat) -> Seq<char> {
    Seq::new(n, |i: int| c)
}

pub open spec fn alternating(a: char, b: char) -> Seq<char> {
    Seq::new(8, |i: int| if i % 2 == 0 { a } else { b })
}

pub open spec fn first_run(s: Seq<char>, n: nat) -> Option<char> {
    if contains_spec(s, run_of('A', n)) {
        Some('A')
    } else if contains_spec(s, run_of('T', n)) {
        Some('T')
    } else if contains_spec(s, run_of('G', n)) {
        Some('G')
    } else if contains_spec(s, run_of('C', n)) {
        Some('C')
    } else {
        None
    }
}

fn has_run(s: &[char], c: char, n: usize) -> (r: bool)
    ensures
        r == contains_spec(s@, run_of(c, n as nat)),
{
    let mut v: Vec<char> = Vec::new();
    let mut i: usize = 0;
    while i < n
        invariant
            i <= n,
            v@ == run_of(c, i as nat),
        decreases n - i,
    {
        v.push(c);
        proof {
            assert(v@ =~= run_of(c, (i + 1) as nat));
        }
        i += 1;
    }
    contains_chars(s, &v)
}

fn has_alternating(s: &[char], a: char, b: char) -> (r: bool)
    ensures
        r == contains_spec(s@, alternating(a, b)),
{
    let mut v: Vec<char> = Vec::new();
    let mut i: usize = 0;
    while i < 8
        invariant
            i <= 8,
            v@ == Seq::new(i as nat, |k: int| if k % 2 == 0 { a } else { b }),
        decreases 8 - i,
    {
        v.push(if i % 2 == 0 { a } else { b });
        proof {
            assert(v@ =~= Seq::new((i + 1) as nat, |k: int| if k % 2 == 0 { a } else { b }));
        }
        i += 1;
    }
    assert(v@ =~= alternating(a, b));
    contains_chars(s, &v)
}

fn first_run_exec(s: &[char], n: usize) -> (r: Option<char>)
    ensures
        r == first_run(s@, n as nat),
{
    if has_run(s, 'A', n) {
        Some('A')
    } else if has_run(s, 'T', n) {
        Some('T')
    } else if has_run(s, 'G', n) {
        Some('G')
    } else if has_run(s, 'C', n) {
        Some('C')
    } else {
        None
    }
}

/// Looks for the repeats that make a primer suspect in an upper-case strand.
pub fn find_repeats(s: &[char]) -> (r: RepeatFindings)
    ensures
        r.single == first_run(s@, 4),
        r.very_long == first_run(s@, 6),
        r.dinucleotide == (contains_spec(s@, alternating('A', 'T')) || contains_spec(
            s@,
            alternating('T', 'A'),
        ) || contains_spec(s@, alternating('G', 'C')) || contains_spec(s@, alternating('C', 'G'))),
{
    let single = first_run_exec(s, 4);
    let dinucleotide = has_alternating(s, 'A', 'T') || has_alternating(s, 'T', 'A')
        || has_alternating(s, 'G', 'C') || has_alternating(s, 'C', 'G');
    let very_long = first_run_exec(s, 6);
    RepeatFindings { single, dinucleotide, very_long }
}

pub open spec fn is_gc(c: char) -> bool {
    c == 'G' || c == 'C'
}

/// Number of G and C characters.
pub open spec fn gc_count_spec(s: Seq<char>) -> nat
    decreases s.len(),
{
    if s.len() == 0 {
        0
    } else {
        gc_count_spec(s.drop_last()) + if is_gc(s.last()) {
            1nat
        } else {
            0nat
        }
    }
}

pub proof fn lemma_gc_count_bound(s: Seq<char>)
    ensures
        gc_count_spec(s) <= s.len(),
    decreases s.len(),
{
    if s.len() > 0 {
        lemma_gc_count_bound(s.drop_last());
    }
}

pub fn gc_count_chars(s: &[char]) -> (r: usize)
    ensures
        r == gc_count_spec(s@),
{
    let mut n: usize = 0;
    let mut i: usize = 0;
    while i < s.len()
        invariant
            i <= s@.len(),
            n == gc_count_spec(s@.take(i as int)),
        decreases s.len() - i,
    {
        proof {
            let t = s@.take(i + 1);
            assert(t.drop_last() == s@.take(i as int));
            lemma_gc_count_bound(s@.take(i as int));
        }
        if s[i] == 'G' || s[i] == 'C' {
            n += 1;
        }
        i += 1;
    }
    proof {
        assert(s@.take(s@.len() as int) == s@);
    }
    n
}

/// Number of G and C bases in a sequence.
pub fn gc_count(sequence: &str) -> (r: usize)
    ensures
        r == gc_count_spec(sequence@),
{
    let s = chars_of(sequence);
    gc_count_chars(&s)
}

} // verus!
