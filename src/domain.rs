use vstd::prelude::*;
use crate::text::opt_view;

verus! {

/// Shape of a DNA molecule.
#[derive(Debug, Clone, Copy, PartialEq, Eq, Structural)]
pub enum Topology {
    Linear,
    Circular,
}

/// A named sequence.
#[derive(Debug, Clone)]
pub struct Sequence {
    pub id: String,
    pub name: String,
    pub sequence: String,
    pub topology: Topology,
}

pub struct SequenceView {
    pub id: Seq<char>,
    pub name: Seq<char>,
    pub sequence: Seq<char>,
    pub topology: Topology,
}

impl View for Sequence {
    type V = SequenceView;

    open spec fn view(&self) -> SequenceView {
        SequenceView {
            id: self.id@,
            name: self.name@,
            sequence: self.sequence@,
            topology: self.topology,
        }
    }
}

pub open spec fn sequence_views(v: Seq<Sequence>) -> Seq<SequenceView> {
    v.map_values(|s: Sequence| s@)
}

/// What a repository knows of a stored sequence; the file path is kept as text.
#[derive(Debug, Clone)]
pub struct SequenceMetadata {
    pub id: String,
    pub name: String,
    pub length: usize,
    pub topology: Topology,
    pub file_path: Option<String>,
}

pub struct SequenceMetadataView {
    pub id: Seq<char>,
    pub name: Seq<char>,
    pub length: usize,
    pub topology: Topology,
    pub file_path: Option<Seq<char>>,
}

impl View for SequenceMetadata {
    type V = SequenceMetadataView;

    open spec fn view(&self) -> SequenceMetadataView {
        SequenceMetadataView {
            id: self.id@,
            name: self.name@,
            length: self.length,
            topology: self.topology,
            file_path: opt_view(self.file_path),
        }
    }
}

/// Read access to stored sequences.
pub trait SequenceRepository {
    type Error;

    fn get_metadata(&self, seq_id: &str) -> Option<SequenceMetadata>;

    fn get_sequence(&self, seq_id: &str) -> Result<String, Self::Error>;

    fn get_window(&self, seq_id: &str, start: usize, end: usize) -> Result<String, Self::Error>;
}

/// A half-open interval of positions.
#[derive(Debug, Clone, Copy, PartialEq, Eq, Structural)]
pub struct Range {
    pub start: usize,
    pub end: usize,
}

impl Range {
    pub fn new(start: usize, end: usize) -> (r: Self)
        ensures
            r.start == start,
            r.end == end,
    {
        Range { start, end }
    }

    pub fn len(&self) -> (r: usize)
        requires
            self.start <= self.end,
        ensures
            r == self.end - self.start,
    {
        self.end - self.start
    }
}

/// Counts of each kind of base.
#[derive(Debug, Clone, Copy, PartialEq, Eq, Structural)]
pub struct BaseCount {
    pub a: usize,
    pub t: usize,
    pub g: usize,
    pub c: usize,
    pub n: usize,
    pub other: usize,
}

pub open spec fn base_total(b: BaseCount) -> int {
    b.a + b.t + b.g + b.c + b.n + b.other
}

impl BaseCount {
    pub fn new() -> (r: Self)
        ensures
            r.a == 0 && r.t == 0 && r.g == 0 && r.c == 0 && r.n == 0 && r.other == 0,
    {
        BaseCount { a: 0, t: 0, g: 0, c: 0, n: 0, other: 0 }
    }

    pub fn total(&self) -> (r: usize)
        requires
            base_total(*self) <= usize::MAX,
        ensures
            r == base_total(*self),
    {
        self.a + self.t + self.g + self.c + self.n + self.other
    }
}

/// Strand a primer anneals to.
#[derive(Debug, Clone, Copy, PartialEq, Eq, Structural)]
pub enum PrimerDirection {
    Forward,
    Reverse,
}

/// Pass/fail flags of a primer pair and the warnings raised on it.
#[derive(Debug, Clone)]
pub struct ValidationResults {
    pub self_dimer_check: bool,
    pub hairpin_check: bool,
    pub hetero_dimer_check: Option<bool>,
    pub warnings: Vec<String>,
}

pub struct ValidationView {
    pub self_dimer_check: bool,
    pub hairpin_check: bool,
    pub hetero_dimer_check: Option<bool>,
    pub warnings: Seq<String>,
}

impl View for ValidationResults {
    type V = ValidationView;

    open spec fn view(&self) -> ValidationView {
        ValidationView {
            self_dimer_check: self.self_dimer_check,
            hairpin_check: self.hairpin_check,
            hetero_dimer_check: self.hetero_dimer_check,
            warnings: self.warnings@,
        }
    }
}

/// A pair passes when both checks pass and nothing was warned about.
pub open spec fn validation_passes(v: ValidationView) -> bool {
    v.self_dimer_check && v.hairpin_check && v.warnings.len() == 0
}

/// The same results with one more warning.
pub open spec fn with_warning(v: ValidationView, warning: String) -> ValidationView {
    ValidationView { warnings: v.warnings.push(warning), ..v }
}

impl ValidationResults {
    pub fn new() -> (r: Self)
        ensures
            !r.self_dimer_check,
            !r.hairpin_check,
            r.hetero_dimer_check is None,
            r.warnings@.len() == 0,
    {
        ValidationResults {
            self_dimer_check: false,
            hairpin_check: false,
            hetero_dimer_check: None,
            warnings: Vec::new(),
        }
    }

    pub fn is_valid(&self) -> (r: bool)
        ensures
            r == validation_passes(self@),
    {
        self.self_dimer_check && self.hairpin_check && self.warnings.len() == 0
    }

    pub fn add_warning(&mut self, warning: String)
        ensures
            final(self)@ == with_warning(old(self)@, warning),
    {
        self.warnings.push(warning);
    }
}

/// Results are valid exactly when both checks pass and there is no warning;
/// adding any warning to results whose checks both pass makes them invalid.
pub proof fn lemma_validation_law(v: ValidationView, warning: String)
    ensures
        validation_passes(v) <==> (v.self_dimer_check && v.hairpin_check && v.warnings.len()
            == 0),
        !validation_passes(with_warning(v, warning)),
{
}

} // verus!
