use vstd::prelude::*;
use crate::domain::Topology;
use crate::fasta::{fasta_records, fasta_refused, parse_error_text, parse_fasta, FastaRecordView};
use crate::fastq::{byte_len, fastq_records, parse_fastq, FastqRecordView, ParseErrorView};
use crate::repository::{key_of, make_key, text_join};
use crate::application::{dummy_quality, fasta_text, fastq_text};
use crate::text::{chars_of, extend_chars, opt_view, string_of};

verus! {

#[derive(Debug, Clone)]
pub struct ImportResponse {
    pub seq_id: String,
}

#[derive(Debug, Clone)]
pub struct SequenceMeta {
    pub id: String,
    pub name: String,
    pub length: usize,
    pub topology: Topology,
}

#[derive(Debug, Clone)]
pub struct WindowResponse {
    pub bases: String,
}

#[derive(Debug, Clone)]
pub struct ExportResponse {
    pub text: String,
}

struct StoredSequence {
    key: String,
    id: String,
    name: String,
    sequence: String,
    topology: Topology,
    format: String,
    quality: Option<String>,
}

pub struct StoredSequenceView {
    pub key: Seq<char>,
    pub id: Seq<char>,
    pub name: Seq<char>,
    pub sequence: Seq<char>,
    pub topology: Topology,
    pub format: Seq<char>,
    pub quality: Option<Seq<char>>,
}

pub struct CommandStoreView {
    pub entries: Seq<StoredSequenceView>,
    pub next_id: nat,
}

/// Sequences imported through the commands, kept in memory with their
/// format and, for FASTQ, their quality line.
pub struct CommandStore {
    entries: Vec<StoredSequence>,
    next_id: usize,
}

impl View for CommandStore {
    type V = CommandStoreView;

    closed spec fn view(&self) -> CommandStoreView {
        CommandStoreView {
            entries: self.entries@.map_values(
                |e: StoredSequence|
                    StoredSequenceView {
                        key: e.key@,
                        id: e.id@,
                        name: e.name@,
                        sequence: e.sequence@,
                        topology: e.topology,
                        format: e.format@,
                        quality: opt_view(e.quality),
                    },
            ),
            next_id: self.next_id as nat,
        }
    }
}

pub open spec fn has_key(e: Seq<StoredSequenceView>, key: Seq<char>) -> bool {
    exists|j: int| 0 <= j < e.len() && e[j].key == key
}

pub open spec fn lookup(e: Seq<StoredSequenceView>, key: Seq<char>) -> StoredSequenceView {
    e[choose|j: int|
        0 <= j < e.len() && e[j].key == key && forall|k: int| 0 <= k < j ==> e[k].key != key]
}

pub open spec fn parse_error_view_text(e: ParseErrorView) -> Seq<char> {
    match e {
        ParseErrorView::InvalidFormat(m) => "Invalid format: "@ + m,
        ParseErrorView::MissingField(m) => "Missing required field: "@ + m,
        ParseErrorView::LengthMismatch(m) => "Length mismatch: "@ + m,
        ParseErrorView::IoError(m) => "IO error: "@ + m,
    }
}

/// What the first record of a text gives, or why the import is refused.
pub open spec fn command_import(text: Seq<char>, fmt: Seq<char>) -> Result<
    StoredSequenceView,
    Seq<char>,
> {
    if fmt == "fasta"@ {
        if fasta_refused(text) {
            Err("Invalid format: "@ + "FASTA content must start with '>'"@)
        } else if fasta_records(text).len() == 0 {
            Err("No sequences found in FASTA content"@)
        } else {
            let r: FastaRecordView = fasta_records(text)[0];
            Ok(
                StoredSequenceView {
                    key: Seq::empty(),
                    id: r.id,
                    name: match r.description {
                        Some(d) => d,
                        None => r.id,
                    },
                    sequence: r.sequence,
                    topology: Topology::Linear,
                    format: "fasta"@,
                    quality: None,
                },
            )
        }
    } else if fmt == "fastq"@ {
        match fastq_records(text) {
            Err(e) => Err(parse_error_view_text(e)),
            Ok(v) => if v.len() == 0 {
                Err("No sequences found in FASTQ content"@)
            } else {
                let r: FastqRecordView = v[0];
                Ok(
                    StoredSequenceView {
                        key: Seq::empty(),
                        id: r.id,
                        name: match r.description {
                            Some(d) => d,
                            None => r.id,
                        },
                        sequence: r.sequence,
                        topology: Topology::Linear,
                        format: "fastq"@,
                        quality: Some(r.quality),
                    },
                )
            },
        }
    } else {
        Err("Unsupported format: "@ + fmt)
    }
}

impl CommandStore {
    /// Whether one more sequence can be given a key.
    pub fn has_room(&self) -> (r: bool)
        ensures
            r == (self@.next_id < usize::MAX),
    {
        self.next_id < usize::MAX
    }

    pub fn new() -> (r: Self)
        ensures
            r@.entries.len() == 0,
            r@.next_id == 1,
    {
        CommandStore { entries: Vec::new(), next_id: 1 }
    }

    fn find(&self, seq_id: &String) -> (r: Option<usize>)
        ensures
            r is None <==> !has_key(self@.entries, seq_id@),
            r is Some ==> r->0 < self@.entries.len() && self@.entries[r->0 as int] == lookup(
                self@.entries,
                seq_id@,
            ),
    {
        let mut j: usize = 0;
        while j < self.entries.len()
            invariant
                j <= self.entries@.len(),
                forall|k: int| 0 <= k < j ==> self@.entries[k].key != seq_id@,
            decreases self.entries.len() - j,
        {
            if self.entries[j].key == *seq_id {
                proof {
                    let e = self@.entries;
                    assert(e[j as int].key == seq_id@);
                    let c = choose|c: int|
                        0 <= c < e.len() && e[c].key == seq_id@ && forall|k: int|
                            0 <= k < c ==> e[k].key != seq_id@;
                    assert(c == j as int) by {
                        if c < j {
                        } else if c > j {
                        }
                    }
                }
                return Some(j);
            }
            j += 1;
        }
        None
    }

    fn add(&mut self, mut e: StoredSequence) -> (r: String)
        requires
            old(self)@.next_id < usize::MAX,
        ensures
            r@ == key_of(old(self)@.next_id),
            final(self)@ == (CommandStoreView {
                entries: old(self)@.entries.push(
                    StoredSequenceView {
                        key: key_of(old(self)@.next_id),
                        id: e.id@,
                        name: e.name@,
                        sequence: e.sequence@,
                        topology: e.topology,
                        format: e.format@,
                        quality: opt_view(e.quality),
                    },
                ),
                next_id: old(self)@.next_id + 1,
            }),
    {
        let key = make_key(self.next_id);
        self.next_id = self.next_id + 1;
        e.key = key.clone();
        let ghost before = self.entries@;
        self.entries.push(e);
        proof {
            assert(self.entries@ == before.push(e));
            assert(self@.entries =~= old(self)@.entries.push(
                StoredSequenceView {
                    key: key_of(old(self)@.next_id),
                    id: e.id@,
                    name: e.name@,
                    sequence: e.sequence@,
                    topology: e.topology,
                    format: e.format@,
                    quality: opt_view(e.quality),
                },
            ));
        }
        key
    }
}

/// The store after keeping one more sequence.
pub open spec fn kept(s: CommandStoreView, e: StoredSequenceView) -> CommandStoreView {
    CommandStoreView {
        entries: s.entries.push(StoredSequenceView { key: key_of(s.next_id), ..e }),
        next_id: s.next_id + 1,
    }
}

/// Reads a FASTA or FASTQ text and keeps its first record.
pub fn parse_and_import(store: &mut CommandStore, text: String, fmt: String) -> (r: Result<
    ImportResponse,
    String,
>)
    requires
        old(store)@.next_id < usize::MAX,
    ensures
        command_import(text@, fmt@) is Err ==> (r matches Err(m) && command_import(text@, fmt@)
            == Err::<StoredSequenceView, Seq<char>>(m@) && final(store)@ == old(store)@),
        command_import(text@, fmt@) is Ok ==> (r matches Ok(resp) && resp.seq_id@ == key_of(
            old(store)@.next_id,
        ) && final(store)@ == kept(
            old(store)@,
            command_import(text@, fmt@)->Ok_0,
        )),
{
    proof {
        reveal_strlit("fasta");
        reveal_strlit("fastq");
        assert("fasta"@[4] != "fastq"@[4]);
    }
    let f = String::from_str(fmt.as_str());
    if f == String::from_str("fasta") {
        let records = match parse_fasta(text.as_str()) {
            Ok(v) => v,
            Err(e) => {
                return Err(e.message());
            },
        };
        if records.len() == 0 {
            return Err(String::from_str("No sequences found in FASTA content"));
        }
        let rec = &records[0];
        let name = match &rec.description {
            Some(d) => d.clone(),
            None => rec.id.clone(),
        };
        let e = StoredSequence {
            key: String::new(),
            id: rec.id.clone(),
            name,
            sequence: rec.sequence.clone(),
            topology: Topology::Linear,
            format: String::from_str("fasta"),
            quality: None,
        };
        let seq_id = store.add(e);
        proof {
            assert(store@ == kept(old(store)@, command_import(text@, fmt@)->Ok_0));
        }
        Ok(ImportResponse { seq_id })
    } else if f == String::from_str("fastq") {
        let records = match parse_fastq(text.as_str()) {
            Ok(v) => v,
            Err(e) => {
                return Err(e.message());
            },
        };
        if records.len() == 0 {
            return Err(String::from_str("No sequences found in FASTQ content"));
        }
        let rec = &records[0];
        let name = match &rec.description {
            Some(d) => d.clone(),
            None => rec.id.clone(),
        };
        let e = StoredSequence {
            key: String::new(),
            id: rec.id.clone(),
            name,
            sequence: rec.sequence.clone(),
            topology: Topology::Linear,
            format: String::from_str("fastq"),
            quality: Some(rec.quality.clone()),
        };
        let seq_id = store.add(e);
        proof {
            assert(store@ == kept(old(store)@, command_import(text@, fmt@)->Ok_0));
        }
        Ok(ImportResponse { seq_id })
    } else {
        Err(text_join("Unsupported format: ", &chars_of(fmt.as_str())))
    }
}

/// Identity, name, length in bytes and shape of a kept sequence.
pub fn get_meta(store: &CommandStore, seq_id: String) -> (r: Result<SequenceMeta, String>)
    ensures
        !has_key(store@.entries, seq_id@) ==> (r matches Err(m) && m@ == "Sequence not found: "@
            + seq_id@),
        has_key(store@.entries, seq_id@) ==> (r matches Ok(m) && m.id@ == lookup(
            store@.entries,
            seq_id@,
        ).id && m.name@ == lookup(store@.entries, seq_id@).name && m.length == byte_len(
            lookup(store@.entries, seq_id@).sequence,
        ) && m.topology == lookup(store@.entries, seq_id@).topology),
{
    match store.find(&seq_id) {
        Some(j) => {
            let e = &store.entries[j];
            Ok(
                SequenceMeta {
                    id: e.id.clone(),
                    name: e.name.clone(),
                    length: e.sequence.as_str().len(),
                    topology: e.topology,
                },
            )
        },
        None => Err(text_join("Sequence not found: ", &chars_of(seq_id.as_str()))),
    }
}

/// The characters from `start` up to `end` (or the end) of a kept sequence.
pub fn get_window(store: &CommandStore, seq_id: String, start: usize, end: usize) -> (r: Result<
    WindowResponse,
    String,
>)
    requires
        has_key(store@.entries, seq_id@) && start < lookup(store@.entries, seq_id@).sequence.len()
            ==> start <= end,
    ensures
        !has_key(store@.entries, seq_id@) ==> (r matches Err(m) && m@ == "Sequence not found: "@
            + seq_id@),
        has_key(store@.entries, seq_id@) && start >= lookup(store@.entries, seq_id@).sequence.len()
            ==> (r matches Err(m) && m@ == "Start position exceeds sequence length"@),
        has_key(store@.entries, seq_id@) && start < lookup(store@.entries, seq_id@).sequence.len()
            ==> (r matches Ok(w) && w.bases@ == lookup(store@.entries, seq_id@).sequence.subrange(
            start as int,
            if end < lookup(store@.entries, seq_id@).sequence.len() {
                end as int
            } else {
                lookup(store@.entries, seq_id@).sequence.len() as int
            },
        )),
{
    match store.find(&seq_id) {
        Some(j) => {
            let chars = chars_of(store.entries[j].sequence.as_str());
            if start >= chars.len() {
                return Err(String::from_str("Start position exceeds sequence length"));
            }
            let e = if end < chars.len() {
                end
            } else {
                chars.len()
            };
            let part = crate::text::slice_copy(&chars, start, e);
            Ok(WindowResponse { bases: string_of(&part) })
        },
        None => Err(text_join("Sequence not found: ", &chars_of(seq_id.as_str()))),
    }
}

fn push_text(t: &mut Vec<char>, s: &str)
    ensures
        final(t)@ == old(t)@ + s@,
{
    let c = chars_of(s);
    extend_chars(t, &c);
}

/// A kept sequence written as FASTA, or as FASTQ with its own quality line
/// (all 'I' when it has none).
pub fn export(store: &CommandStore, seq_id: String, fmt: String) -> (r: Result<
    ExportResponse,
    String,
>)
    ensures
        !has_key(store@.entries, seq_id@) ==> (r matches Err(m) && m@ == "Sequence not found: "@
            + seq_id@),
        has_key(store@.entries, seq_id@) && fmt@ == "fasta"@ ==> (r matches Ok(e) && e.text@
            == fasta_text(
            lookup(store@.entries, seq_id@).id,
            lookup(store@.entries, seq_id@).name,
            lookup(store@.entries, seq_id@).sequence,
        )),
        has_key(store@.entries, seq_id@) && fmt@ == "fastq"@ ==> (r matches Ok(e) && e.text@
            == fastq_text(
            lookup(store@.entries, seq_id@).id,
            lookup(store@.entries, seq_id@).name,
            lookup(store@.entries, seq_id@).sequence,
            match lookup(store@.entries, seq_id@).quality {
                Some(q) => q,
                None => dummy_quality(byte_len(lookup(store@.entries, seq_id@).sequence)),
            },
        )),
        has_key(store@.entries, seq_id@) && fmt@ != "fasta"@ && fmt@ != "fastq"@ ==> (r matches Err(m)
            && m@ == "Unsupported export format: "@ + fmt@),
{
    proof {
        reveal_strlit("fasta");
        reveal_strlit("fastq");
        assert("fasta"@[4] != "fastq"@[4]);
    }
    let j = match store.find(&seq_id) {
        Some(j) => j,
        None => {
            return Err(text_join("Sequence not found: ", &chars_of(seq_id.as_str())));
        },
    };
    let e = &store.entries[j];
    let f = String::from_str(fmt.as_str());
    let id = chars_of(e.id.as_str());
    let name = chars_of(e.name.as_str());
    let sc = chars_of(e.sequence.as_str());
    let mut t: Vec<char> = Vec::new();
    if f == String::from_str("fasta") {
        push_text(&mut t, ">");
        extend_chars(&mut t, &id);
        push_text(&mut t, " ");
        extend_chars(&mut t, &name);
        push_text(&mut t, "\n");
        extend_chars(&mut t, &sc);
        push_text(&mut t, "\n");
    } else if f == String::from_str("fastq") {
        let q = match &e.quality {
            Some(q) => chars_of(q.as_str()),
            None => {
                let ss = e.sequence.as_str();
                let n = ss.len();
                assert(n == byte_len(e.sequence@));
                crate::application::repeat_quality(n)
            },
        };
        push_text(&mut t, "@");
        extend_chars(&mut t, &id);
        push_text(&mut t, " ");
        extend_chars(&mut t, &name);
        push_text(&mut t, "\n");
        extend_chars(&mut t, &sc);
        push_text(&mut t, "\n+\n");
        extend_chars(&mut t, &q);
        push_text(&mut t, "\n");
        assert(t@ =~= fastq_text(id@, name@, sc@, q@));
    } else {
        return Err(text_join("Unsupported export format: ", &chars_of(fmt.as_str())));
    }
    Ok(ExportResponse { text: string_of(&t) })
}

} // verus!
