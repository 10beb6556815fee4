use vstd::prelude::*;
use crate::domain::{Sequence, SequenceView, Topology, sequence_views};
use crate::fastq::byte_len;
use crate::genbank::{
    feature_views, FeatureView, GenBankFeature, GenBankParser, RecordView, genbank_spec,
};
use crate::parsers::{fasta_sequences_spec, fastq_sequences_spec};
use crate::repository::{
    FileSequenceRepository, RepositoryView, error_text, fresh_store, has_key, import_error,
    imported, key_of, lookup, repo_wf, stored, text_join, window_spec,
};
use crate::text::{chars_of, extend_chars, opt_view, string_of};

verus! {

#[derive(Debug, Clone)]
pub struct ImportResponse {
    pub seq_id: String,
}

/// A sequence found in a text, with its first fifty characters.
#[derive(Debug, Clone)]
pub struct SequenceInfo {
    pub id: String,
    pub name: String,
    pub length: usize,
    pub preview: String,
}

#[derive(Debug, Clone)]
pub struct ParsePreviewResponse {
    pub sequences: Vec<SequenceInfo>,
    pub format: String,
}

#[derive(Debug, Clone)]
pub struct SequenceMeta {
    pub id: String,
    pub name: String,
    pub length: usize,
    pub topology: Topology,
    pub file_path: Option<String>,
}

#[derive(Debug, Clone)]
pub struct GenBankFeatureInfo {
    pub feature_type: String,
    pub location: String,
    pub qualifiers: Vec<(String, String)>,
}

#[derive(Debug, Clone)]
pub struct GenBankMetadata {
    pub accession: String,
    pub version: String,
    pub definition: String,
    pub source: String,
    pub organism: String,
    pub length: usize,
    pub topology: Topology,
    pub features: Vec<GenBankFeatureInfo>,
}

#[derive(Debug, Clone)]
pub struct WindowResponse {
    pub bases: String,
}

#[derive(Debug, Clone)]
pub struct ExportResponse {
    pub text: String,
}

#[derive(Debug, Clone, Copy, PartialEq, Eq, Structural)]
pub struct BaseCountResponse {
    pub a: usize,
    pub t: usize,
    pub g: usize,
    pub c: usize,
    pub n: usize,
    pub other: usize,
}

/// Where a sequence file is and in which format it is written.
#[derive(Debug, Clone)]
pub struct ImportFromFileRequest {
    pub file_path: String,
    pub format: String,
}

pub struct SequenceInfoView {
    pub id: Seq<char>,
    pub name: Seq<char>,
    pub length: nat,
    pub preview: Seq<char>,
}

impl View for SequenceInfo {
    type V = SequenceInfoView;

    open spec fn view(&self) -> SequenceInfoView {
        SequenceInfoView {
            id: self.id@,
            name: self.name@,
            length: self.length as nat,
            preview: self.preview@,
        }
    }
}

/// What a preview shows of a sequence.
pub open spec fn info_of(s: SequenceView) -> SequenceInfoView {
    SequenceInfoView {
        id: s.id,
        name: s.name,
        length: byte_len(s.sequence),
        preview: if s.sequence.len() <= 50 {
            s.sequence
        } else {
            s.sequence.take(50)
        },
    }
}

pub open spec fn genbank_sequence(rec: RecordView) -> SequenceView {
    SequenceView {
        id: rec.accession,
        name: rec.definition,
        sequence: rec.sequence,
        topology: rec.topology,
    }
}

/// The sequences a text offers for preview or import: FASTA and FASTQ
/// entries, or the one sequence of a GenBank record. `Err` holds the
/// message of a refusal.
pub open spec fn offered(text: Seq<char>, fmt: Seq<char>) -> Result<Seq<SequenceView>, Seq<char>> {
    if fmt == "fasta"@ {
        Ok(fasta_sequences_spec(text))
    } else if fmt == "fastq"@ {
        match fastq_sequences_spec(text) {
            Some(v) => Ok(v),
            None => Err("Parse error: "@ + "Invalid FASTQ format"@),
        }
    } else if fmt == "genbank"@ {
        Ok(seq![genbank_sequence(genbank_spec(text))])
    } else {
        Err("Unsupported format: "@ + fmt)
    }
}

/// The sequences offered, when the text is accepted.
pub open spec fn offered_ok(text: Seq<char>, fmt: Seq<char>) -> Seq<SequenceView> {
    match offered(text, fmt) {
        Ok(v) => v,
        Err(_) => Seq::empty(),
    }
}

/// The message of a refusal.
pub open spec fn offered_err(text: Seq<char>, fmt: Seq<char>) -> Seq<char> {
    match offered(text, fmt) {
        Ok(_) => Seq::empty(),
        Err(m) => m,
    }
}

fn offered_sequences(repository: &FileSequenceRepository, text: &str, fmt: &str) -> (r: Result<
    Vec<Sequence>,
    String,
>)
    ensures
        offered(text@, fmt@) is Ok ==> (r matches Ok(v) && offered(text@, fmt@) == Ok::<
            Seq<SequenceView>,
            Seq<char>,
        >(sequence_views(v@))),
        offered(text@, fmt@) is Err ==> (r matches Err(m) && offered(text@, fmt@) == Err::<
            Seq<SequenceView>,
            Seq<char>,
        >(m@)),
{
    let f = String::from_str(fmt);
    if f == String::from_str("fasta") {
        match repository.parse_fasta(text) {
            Ok(v) => Ok(v),
            Err(e) => Err(e.message()),
        }
    } else if f == String::from_str("fastq") {
        match repository.parse_fastq(text) {
            Ok(v) => Ok(v),
            Err(e) => Err(e.message()),
        }
    } else if f == String::from_str("genbank") {
        let parser = GenBankParser::new();
        match parser.parse(text) {
            Ok(record) => {
                let s = parser.to_sequence(&record);
                let mut v: Vec<Sequence> = Vec::new();
                v.push(s);
                proof {
                    assert(sequence_views(v@) =~= seq![genbank_sequence(genbank_spec(text@))]);
                }
                Ok(v)
            },
            Err(e) => Err(e),
        }
    } else {
        Err(text_join("Unsupported format: ", &chars_of(fmt)))
    }
}

fn info(s: &Sequence) -> (r: SequenceInfo)
    ensures
        r@ == info_of(s@),
{
    let chars = chars_of(s.sequence.as_str());
    let n = if chars.len() <= 50 {
        chars.len()
    } else {
        50
    };
    let preview = crate::text::slice_copy(&chars, 0, n);
    proof {
        if chars@.len() <= 50 {
            assert(preview@ =~= chars@);
        }
    }
    SequenceInfo {
        id: s.id.clone(),
        name: s.name.clone(),
        length: s.sequence.as_str().len(),
        preview: string_of(&preview),
    }
}

pub open spec fn info_views(v: Seq<SequenceInfo>) -> Seq<SequenceInfoView> {
    v.map_values(|i: SequenceInfo| i@)
}

/// Reads a text and stores its first sequence.
pub fn parse_and_import(repository: &mut FileSequenceRepository, text: String, fmt: String) -> (r:
    Result<ImportResponse, String>)
    requires
        old(repository)@.next_id < usize::MAX,
    ensures
        import_error(text@, fmt@) is Some ==> (r matches Err(x) && x@ == "Parse error: "@
            + import_error(text@, fmt@)->0 && final(repository)@ == old(repository)@),
        import_error(text@, fmt@) is None ==> (r matches Ok(resp) && resp.seq_id@ == key_of(
            old(repository)@.next_id,
        ) && final(repository)@ == stored(old(repository)@, imported(text@, fmt@), None)
            && fresh_store(old(repository)@, final(repository)@, resp.seq_id@)),
        repo_wf(final(repository)@),
{
    match repository.import_from_text(text.as_str(), fmt.as_str()) {
        Ok(seq_id) => Ok(ImportResponse { seq_id }),
        Err(e) => Err(e.message()),
    }
}

/// Lists the sequences of a text without storing them.
pub fn parse_preview(repository: &FileSequenceRepository, text: String, fmt: String) -> (r: Result<
    ParsePreviewResponse,
    String,
>)
    ensures
        offered(text@, fmt@) is Err ==> (r matches Err(x) && x@ == offered_err(text@, fmt@)),
        offered(text@, fmt@) is Ok ==> (r matches Ok(resp) && resp.format@ == fmt@
            && info_views(resp.sequences@) == offered_ok(text@, fmt@).map_values(
            |s: SequenceView| info_of(s),
        )),
{
    match offered_sequences(repository, text.as_str(), fmt.as_str()) {
        Err(m) => Err(m),
        Ok(v) => {
            let mut out: Vec<SequenceInfo> = Vec::new();
            let mut i: usize = 0;
            while i < v.len()
                invariant
                    i <= v@.len(),
                    out@.len() == i,
                    forall|j: int| 0 <= j < i ==> #[trigger] out@[j]@ == info_of(v@[j]@),
                decreases v.len() - i,
            {
                let item = info(&v[i]);
                out.push(item);
                i += 1;
            }
            proof {
                assert(info_views(out@) =~= sequence_views(v@).map_values(
                    |s: SequenceView| info_of(s),
                ));
            }
            Ok(ParsePreviewResponse { sequences: out, format: fmt })
        },
    }
}

/// Reads a text and stores the sequence at `sequence_index`.
pub fn import_sequence(
    repository: &mut FileSequenceRepository,
    text: String,
    fmt: String,
    sequence_index: usize,
) -> (r: Result<ImportResponse, String>)
    requires
        old(repository)@.next_id < usize::MAX,
    ensures
        offered(text@, fmt@) is Err ==> (r matches Err(x) && x@ == offered_err(text@, fmt@)
            && final(repository)@ == old(repository)@),
        offered(text@, fmt@) is Ok && sequence_index >= offered_ok(text@, fmt@).len() ==> (r matches Err(x)
            && x@ == "Sequence index out of range"@ && final(repository)@ == old(repository)@),
        offered(text@, fmt@) is Ok && sequence_index < offered_ok(text@, fmt@).len() ==> (r matches Ok(resp)
            && resp.seq_id@ == key_of(old(repository)@.next_id) && final(repository)@ == stored(
            old(repository)@,
            offered_ok(text@, fmt@)[sequence_index as int],
            None,
        ) && fresh_store(old(repository)@, final(repository)@, resp.seq_id@)),
{
    match offered_sequences(repository, text.as_str(), fmt.as_str()) {
        Err(m) => Err(m),
        Ok(v) => {
            if sequence_index >= v.len() {
                return Err(String::from_str("Sequence index out of range"));
            }
            let s = crate::repository::copy_sequence(&v[sequence_index]);
            match repository.store_sequence(s) {
                Ok(seq_id) => Ok(ImportResponse { seq_id }),
                Err(e) => Err(e.message()),
            }
        },
    }
}

/// Stores the first sequence of a file whose text has been read, with the
/// file's path.
pub fn import_from_file(
    repository: &mut FileSequenceRepository,
    request: ImportFromFileRequest,
    content: String,
) -> (r: Result<ImportResponse, String>)
    requires
        old(repository)@.next_id < usize::MAX,
    ensures
        import_error(content@, request.format@) is Some ==> (r matches Err(x) && x@
            == "Parse error: "@ + import_error(content@, request.format@)->0 && final(repository)@
            == old(repository)@),
        import_error(content@, request.format@) is None ==> (r matches Ok(resp) && resp.seq_id@
            == key_of(old(repository)@.next_id) && final(repository)@ == stored(
            old(repository)@,
            imported(content@, request.format@),
            Some(request.file_path@),
        ) && fresh_store(old(repository)@, final(repository)@, resp.seq_id@)),
        repo_wf(final(repository)@),
{
    match repository.import_file_text(content.as_str(), request.format.as_str(), request.file_path) {
        Ok(seq_id) => Ok(ImportResponse { seq_id }),
        Err(e) => Err(e.message()),
    }
}

/// Metadata of a stored sequence.
pub fn get_meta(repository: &FileSequenceRepository, seq_id: String) -> (r: Result<
    SequenceMeta,
    String,
>)
    ensures
        !has_key(repository@.entries, seq_id@) ==> (r matches Err(x) && x@
            == "Sequence not found: "@ + seq_id@),
        has_key(repository@.entries, seq_id@) ==> (r matches Ok(m) && m.id@ == lookup(
            repository@.entries,
            seq_id@,
        ).metadata.id && m.name@ == lookup(repository@.entries, seq_id@).metadata.name
            && m.length == lookup(repository@.entries, seq_id@).metadata.length && m.topology
            == lookup(repository@.entries, seq_id@).metadata.topology && opt_view(m.file_path)
            == lookup(repository@.entries, seq_id@).metadata.file_path),
{
    match repository.get_metadata(seq_id.as_str()) {
        Some(meta) => Ok(
            SequenceMeta {
                id: meta.id,
                name: meta.name,
                length: meta.length,
                topology: meta.topology,
                file_path: meta.file_path,
            },
        ),
        None => Err(text_join("Sequence not found: ", &chars_of(seq_id.as_str()))),
    }
}

pub open spec fn feature_info_view(f: GenBankFeatureInfo) -> FeatureView {
    FeatureView {
        feature_type: f.feature_type@,
        location: f.location@,
        qualifiers: crate::genbank::pair_views(f.qualifiers@),
    }
}

/// The header fields and features of a GenBank text.
pub fn get_genbank_metadata(text: String) -> (r: Result<GenBankMetadata, String>)
    ensures
        r matches Ok(m) && m.accession@ == genbank_spec(text@).accession && m.version@
            == genbank_spec(text@).version && m.definition@ == genbank_spec(text@).definition
            && m.source@ == genbank_spec(text@).source && m.organism@ == genbank_spec(
            text@,
        ).organism && m.length == byte_len(genbank_spec(text@).sequence) && m.topology
            == genbank_spec(text@).topology && m.features@.map_values(
            |f: GenBankFeatureInfo| feature_info_view(f),
        ) == genbank_spec(text@).features,
{
    let parser = GenBankParser::new();
    let record = match parser.parse(text.as_str()) {
        Ok(rec) => rec,
        Err(e) => {
            return Err(e);
        },
    };
    let mut features: Vec<GenBankFeatureInfo> = Vec::new();
    let mut i: usize = 0;
    while i < record.features.len()
        invariant
            i <= record.features@.len(),
            features@.map_values(|f: GenBankFeatureInfo| feature_info_view(f)) == feature_views(
                record.features@,
            ).take(i as int),
        decreases record.features.len() - i,
    {
        let f = &record.features[i];
        let info = GenBankFeatureInfo {
            feature_type: f.feature_type.clone(),
            location: f.location.clone(),
            qualifiers: copy_pairs(&f.qualifiers),
        };
        let ghost before = features@;
        features.push(info);
        proof {
            assert(features@ == before.push(info));
            assert(feature_views(record.features@).take(i + 1) == feature_views(record.features@).take(i as int).push(record.features@[i as int]@));
            assert(feature_info_view(info) == record.features@[i as int]@);
            assert(features@.map_values(|f: GenBankFeatureInfo| feature_info_view(f))
                =~= feature_views(record.features@).take(i + 1));
        }
        i += 1;
    }
    proof {
        assert(feature_views(record.features@).take(record.features@.len() as int)
            =~= feature_views(record.features@));
    }
    Ok(
        GenBankMetadata {
            accession: record.accession,
            version: record.version,
            definition: record.definition,
            source: record.source,
            organism: record.organism,
            length: record.length,
            topology: record.topology,
            features,
        },
    )
}

fn copy_pairs(q: &Vec<(String, String)>) -> (r: Vec<(String, String)>)
    ensures
        crate::genbank::pair_views(r@) == crate::genbank::pair_views(q@),
{
    let mut r: Vec<(String, String)> = Vec::new();
    let mut i: usize = 0;
    while i < q.len()
        invariant
            i <= q@.len(),
            crate::genbank::pair_views(r@) == crate::genbank::pair_views(q@).take(i as int),
        decreases q.len() - i,
    {
        let p = (q[i].0.clone(), q[i].1.clone());
        let ghost before = r@;
        r.push(p);
        proof {
            assert(r@ == before.push(p));
            assert(crate::genbank::pair_views(q@).take(i + 1) == crate::genbank::pair_views(q@).take(i as int).push((q@[i as int].0@, q@[i as int].1@)));
            assert(crate::genbank::pair_views(r@) =~= crate::genbank::pair_views(q@).take(i + 1));
        }
        i += 1;
    }
    proof {
        assert(crate::genbank::pair_views(q@).take(q@.len() as int) =~= crate::genbank::pair_views(
            q@,
        ));
    }
    r
}

/// A window of a stored sequence.
pub fn get_window(repository: &FileSequenceRepository, seq_id: String, start: usize, end: usize) -> (r:
    Result<WindowResponse, String>)
    ensures
        !has_key(repository@.entries, seq_id@) ==> (r matches Err(x) && x@
            == "Sequence not found: "@ + seq_id@),
        has_key(repository@.entries, seq_id@) && start >= lookup(repository@.entries, seq_id@).sequence.len()
            ==> (r matches Err(x) && x@ == error_text(
            crate::repository::StorageError::InvalidRange(start, end),
        )),
        has_key(repository@.entries, seq_id@) && start < lookup(repository@.entries, seq_id@).sequence.len()
            ==> (r matches Ok(w) && w.bases@ == window_spec(
            lookup(repository@.entries, seq_id@).sequence,
            start as nat,
            end as nat,
        )),
{
    match repository.get_window(seq_id.as_str(), start, end) {
        Ok(bases) => Ok(WindowResponse { bases }),
        Err(e) => Err(e.message()),
    }
}

/// `n` copies of 'I', the highest common quality mark.
pub open spec fn dummy_quality(n: nat) -> Seq<char> {
    Seq::new(n, |i: int| 'I')
}

pub open spec fn fasta_text(id: Seq<char>, name: Seq<char>, s: Seq<char>) -> Seq<char> {
    ">"@ + id + " "@ + name + "\n"@ + s + "\n"@
}

pub open spec fn fastq_text(id: Seq<char>, name: Seq<char>, s: Seq<char>, q: Seq<char>) -> Seq<char> {
    "@"@ + id + " "@ + name + "\n"@ + s + "\n+\n"@ + q + "\n"@
}

pub fn repeat_quality(n: usize) -> (r: Vec<char>)
    ensures
        r@ == dummy_quality(n as nat),
{
    let mut r: Vec<char> = Vec::new();
    let mut i: usize = 0;
    while i < n
        invariant
            i <= n,
            r@ == dummy_quality(i as nat),
        decreases n - i,
    {
        r.push('I');
        proof {
            assert(r@ =~= dummy_quality((i + 1) as nat));
        }
        i += 1;
    }
    r
}

fn push_text(t: &mut Vec<char>, s: &str)
    ensures
        final(t)@ == old(t)@ + s@,
{
    let c = chars_of(s);
    extend_chars(t, &c);
}

/// A stored sequence written out as FASTA, or as FASTQ with every quality 'I'.
#[verifier::rlimit(60)]
pub fn export(repository: &FileSequenceRepository, seq_id: String, fmt: String) -> (r: Result<
    ExportResponse,
    String,
>)
    ensures
        !has_key(repository@.entries, seq_id@) ==> (r matches Err(x) && x@
            == "Sequence not found: "@ + seq_id@),
        has_key(repository@.entries, seq_id@) && fmt@ == "fasta"@ ==> (r matches Ok(e) && e.text@
            == fasta_text(
            lookup(repository@.entries, seq_id@).metadata.id,
            lookup(repository@.entries, seq_id@).metadata.name,
            lookup(repository@.entries, seq_id@).sequence,
        )),
        has_key(repository@.entries, seq_id@) && fmt@ == "fastq"@ ==> (r matches Ok(e) && e.text@
            == fastq_text(
            lookup(repository@.entries, seq_id@).metadata.id,
            lookup(repository@.entries, seq_id@).metadata.name,
            lookup(repository@.entries, seq_id@).sequence,
            dummy_quality(byte_len(lookup(repository@.entries, seq_id@).sequence)),
        )),
        has_key(repository@.entries, seq_id@) && fmt@ != "fasta"@ && fmt@ != "fastq"@ ==> (r matches Err(x)
            && x@ == "Unsupported export format: "@ + fmt@),
{
    proof {
        reveal_strlit("fasta");
        reveal_strlit("fastq");
        assert("fasta"@[4] != "fastq"@[4]);
    }
    let metadata = match repository.get_metadata(seq_id.as_str()) {
        Some(m) => m,
        None => {
            return Err(text_join("Sequence not found: ", &chars_of(seq_id.as_str())));
        },
    };
    let sequence = match repository.get_sequence(seq_id.as_str()) {
        Ok(s) => s,
        Err(e) => {
            return Err(e.message());
        },
    };
    let f = String::from_str(fmt.as_str());
    let id = chars_of(metadata.id.as_str());
    let name = chars_of(metadata.name.as_str());
    let sc = chars_of(sequence.as_str());
    let mut t: Vec<char> = Vec::new();
    if f == String::from_str("fasta") {
        push_text(&mut t, ">");
        extend_chars(&mut t, &id);
        push_text(&mut t, " ");
        extend_chars(&mut t, &name);
        push_text(&mut t, "\n");
        extend_chars(&mut t, &sc);
        push_text(&mut t, "\n");
    } else if f == String::from_str("fastq") {
        let ss = sequence.as_str();
        let q = repeat_quality(ss.len());
        assert(ss.len() == byte_len(sequence@));
        push_text(&mut t, "@");
        extend_chars(&mut t, &id);
        push_text(&mut t, " ");
        extend_chars(&mut t, &name);
        push_text(&mut t, "\n");
        extend_chars(&mut t, &sc);
        push_text(&mut t, "\n+\n");
        extend_chars(&mut t, &q);
        push_text(&mut t, "\n");
        assert(t@ =~= fastq_text(id@, name@, sc@, q@));
        assert(q@ == dummy_quality(byte_len(sequence@)));
    } else {
        return Err(text_join("Unsupported export format: ", &chars_of(fmt.as_str())));
    }
    Ok(ExportResponse { text: string_of(&t) })
}

} // verus!
