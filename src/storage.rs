use vstd::prelude::*;
use crate::domain::Topology;
use crate::fasta::{fasta_records, fasta_refused, parse_fasta};
use crate::fastq::{byte_len, fastq_records, parse_fastq};
use crate::commands::parse_error_view_text;
use crate::repository::{text_join, window_spec};
use crate::text::{
    ascii_upper_all, chars_of, decimal, decimal_spec, extend_chars, lines_spec, opt_view,
    split_lines, split_once_ws, split_once_ws_spec, string_of, trim, trim_spec, views,
};

verus! {

/// Where one line of a file's sequence starts: its first base's position in
/// the sequence, its byte position in the file, and its length.
#[derive(Debug, Clone, Copy, PartialEq, Eq, Structural)]
pub struct ByteOffset {
    pub seq_position: usize,
    pub byte_position: u64,
    pub line_length: usize,
}

/// Where a stored sequence comes from: text kept in memory, or a file with
/// the index of its sequence lines.
#[derive(Debug)]
pub enum SequenceSource {
    Memory(String),
    File(String, Vec<ByteOffset>),
}

#[derive(Debug, Clone)]
pub struct SequenceMetadata {
    pub id: String,
    pub name: String,
    pub length: usize,
    pub topology: Topology,
    pub format: String,
    pub file_path: Option<String>,
    pub byte_offsets: Vec<ByteOffset>,
}

pub struct MetadataView {
    pub id: Seq<char>,
    pub name: Seq<char>,
    pub length: usize,
    pub topology: Topology,
    pub format: Seq<char>,
    pub file_path: Option<Seq<char>>,
    pub byte_offsets: Seq<ByteOffset>,
}

impl View for SequenceMetadata {
    type V = MetadataView;

    open spec fn view(&self) -> MetadataView {
        MetadataView {
            id: self.id@,
            name: self.name@,
            length: self.length,
            topology: self.topology,
            format: self.format@,
            file_path: opt_view(self.file_path),
            byte_offsets: self.byte_offsets@,
        }
    }
}

struct Stored {
    key: String,
    metadata: SequenceMetadata,
    source: SequenceSource,
    bases: String,
}

pub struct StoredEntry {
    pub key: Seq<char>,
    pub metadata: MetadataView,
    pub bases: Seq<char>,
}

pub struct StorageView {
    pub entries: Seq<StoredEntry>,
    pub next_id: nat,
}

/// Sequences kept under keys "seq_1", "seq_2", ...; a sequence read from a
/// file keeps the index of its lines.
pub struct SequenceStorage {
    entries: Vec<Stored>,
    next_id: u32,
}

impl View for SequenceStorage {
    type V = StorageView;

    closed spec fn view(&self) -> StorageView {
        StorageView {
            entries: self.entries@.map_values(
                |e: Stored| StoredEntry { key: e.key@, metadata: e.metadata@, bases: e.bases@ },
            ),
            next_id: self.next_id as nat,
        }
    }
}

pub open spec fn has_key(e: Seq<StoredEntry>, key: Seq<char>) -> bool {
    exists|j: int| 0 <= j < e.len() && e[j].key == key
}

pub open spec fn lookup(e: Seq<StoredEntry>, key: Seq<char>) -> StoredEntry {
    e[choose|j: int|
        0 <= j < e.len() && e[j].key == key && forall|k: int| 0 <= k < j ==> e[k].key != key]
}

pub open spec fn storage_key(n: nat) -> Seq<char> {
    "seq_"@ + decimal_spec(n)
}

/// The first record of a text, as stored, or why it is refused.
pub open spec fn text_import(text: Seq<char>, format: Seq<char>) -> Result<StoredEntry, Seq<char>> {
    if format == "fasta"@ {
        if fasta_refused(text) {
            Err("Invalid format: "@ + "FASTA content must start with '>'"@)
        } else if fasta_records(text).len() == 0 {
            Err("No sequences found"@)
        } else {
            let r = fasta_records(text)[0];
            Ok(memory_entry(r.id, r.description, r.sequence, format))
        }
    } else if format == "fastq"@ {
        match fastq_records(text) {
            Err(e) => Err(parse_error_view_text(e)),
            Ok(v) => if v.len() == 0 {
                Err("No sequences found"@)
            } else {
                Ok(memory_entry(v[0].id, v[0].description, v[0].sequence, format))
            },
        }
    } else {
        Err("Unsupported format: "@ + format)
    }
}

pub open spec fn memory_entry(
    id: Seq<char>,
    description: Option<Seq<char>>,
    sequence: Seq<char>,
    format: Seq<char>,
) -> StoredEntry {
    StoredEntry {
        key: Seq::empty(),
        metadata: MetadataView {
            id,
            name: match description {
                Some(d) => d,
                None => id,
            },
            length: byte_len(sequence) as usize,
            topology: Topology::Linear,
            format,
            file_path: None,
            byte_offsets: Seq::empty(),
        },
        bases: sequence,
    }
}

/// The store after keeping one more entry under the next key.
pub open spec fn kept(s: StorageView, e: StoredEntry) -> StorageView {
    StorageView {
        entries: s.entries.push(StoredEntry { key: storage_key(s.next_id), ..e }),
        next_id: s.next_id + 1,
    }
}

/// The index of a FASTA file's first record: each line is one byte longer
/// than its text (its line end); after the first header, every non-blank
/// line until the next header is a sequence line.
pub struct IndexScan {
    pub pos: u64,
    pub started: bool,
    pub stopped: bool,
    pub id: Seq<char>,
    pub description: Seq<char>,
    pub offsets: Seq<ByteOffset>,
    pub bases: Seq<char>,
    pub seq_position: usize,
}

/// A byte position moved past a line and its line end (saturating).
pub open spec fn pos_after(pos: u64, n: nat) -> u64 {
    if pos + n + 1 <= u64::MAX {
        (pos + n + 1) as u64
    } else {
        u64::MAX
    }
}

/// A sequence position moved past a line (saturating).
pub open spec fn len_after(a: usize, n: nat) -> usize {
    if a + n <= usize::MAX {
        (a + n) as usize
    } else {
        usize::MAX
    }
}

pub open spec fn index_step(st: IndexScan, line: Seq<char>) -> IndexScan {
    if st.stopped {
        st
    } else if line.len() > 0 && line[0] == '>' {
        if st.started {
            IndexScan { stopped: true, ..st }
        } else {
            let parts = split_once_ws_spec(line.skip(1));
            IndexScan {
                pos: pos_after(st.pos, byte_len(line)),
                started: true,
                id: parts.0,
                description: match parts.1 {
                    Some(d) => d,
                    None => parts.0,
                },
                ..st
            }
        }
    } else if st.started && trim_spec(line).len() > 0 {
        let clean = trim_spec(line);
        IndexScan {
            pos: pos_after(st.pos, byte_len(line)),
            offsets: st.offsets.push(
                ByteOffset {
                    seq_position: st.seq_position,
                    byte_position: st.pos,
                    line_length: byte_len(clean) as usize,
                },
            ),
            bases: st.bases + clean,
            seq_position: len_after(st.seq_position, byte_len(clean)),
            ..st
        }
    } else {
        IndexScan { pos: pos_after(st.pos, byte_len(line)), ..st }
    }
}

pub open spec fn index_scan(lines: Seq<Seq<char>>) -> IndexScan
    decreases lines.len(),
{
    if lines.len() == 0 {
        IndexScan {
            pos: 0,
            started: false,
            stopped: false,
            id: Seq::empty(),
            description: Seq::empty(),
            offsets: Seq::empty(),
            bases: Seq::empty(),
            seq_position: 0,
        }
    } else {
        index_step(index_scan(lines.drop_last()), lines.last())
    }
}

impl SequenceStorage {
    /// Whether one more sequence can be given a key.
    pub fn has_room(&self) -> (r: bool)
        ensures
            r == (self@.next_id < u32::MAX),
    {
        self.next_id < u32::MAX
    }

    pub fn new() -> (r: Self)
        ensures
            r@.entries.len() == 0,
            r@.next_id == 1,
    {
        SequenceStorage { entries: Vec::new(), next_id: 1 }
    }

    /// Takes the next key.
    pub fn next_id(&mut self) -> (r: String)
        requires
            old(self)@.next_id < u32::MAX,
        ensures
            r@ == storage_key(old(self)@.next_id),
            final(self)@ == (StorageView { next_id: old(self)@.next_id + 1, ..old(self)@ }),
    {
        let mut k = chars_of("seq_");
        let d = decimal(self.next_id as usize);
        extend_chars(&mut k, &d);
        self.next_id = self.next_id + 1;
        string_of(&k)
    }

    fn keep(&mut self, mut e: Stored) -> (r: String)
        requires
            old(self)@.next_id < u32::MAX,
        ensures
            r@ == storage_key(old(self)@.next_id),
            final(self)@ == kept(
                old(self)@,
                StoredEntry { key: Seq::empty(), metadata: e.metadata@, bases: e.bases@ },
            ),
    {
        let key = self.next_id();
        e.key = key.clone();
        let ghost before = self.entries@;
        self.entries.push(e);
        proof {
            assert(self.entries@ == before.push(e));
            assert(self@.entries =~= old(self)@.entries.push(
                StoredEntry { key: storage_key(old(self)@.next_id), metadata: e.metadata@, bases: e.bases@ },
            ));
        }
        key
    }

    fn find(&self, seq_id: &String) -> (r: Option<usize>)
        ensures
            r is None <==> !has_key(self@.entries, seq_id@),
            r is Some ==> r->0 < self@.entries.len() && self@.entries[r->0 as int] == lookup(
                self@.entries,
                seq_id@,
            ),
    {
        let mut j: usize = 0;
        while j < self.entries.len()
            invariant
                j <= self.entries@.len(),
                forall|k: int| 0 <= k < j ==> self@.entries[k].key != seq_id@,
            decreases self.entries.len() - j,
        {
            if self.entries[j].key == *seq_id {
                proof {
                    let e = self@.entries;
                    assert(e[j as int].key == seq_id@);
                    let c = choose|c: int|
                        0 <= c < e.len() && e[c].key == seq_id@ && forall|k: int|
                            0 <= k < c ==> e[k].key != seq_id@;
                    assert(c == j as int) by {
                        if c < j {
                        } else if c > j {
                        }
                    }
                }
                return Some(j);
            }
            j += 1;
        }
        None
    }

    fn memory(id: &String, description: &Option<String>, sequence: &String, format: &String) -> (r:
        Stored)
        ensures
            r.metadata@ == memory_entry(id@, opt_view(*description), sequence@, format@).metadata,
            r.bases@ == sequence@,
    {
        let name = match description {
            Some(d) => d.clone(),
            None => id.clone(),
        };
        let ss = sequence.as_str();
        let n = ss.len();
        assert(n == byte_len(sequence@));
        Stored {
            key: String::new(),
            metadata: SequenceMetadata {
                id: id.clone(),
                name,
                length: n,
                topology: Topology::Linear,
                format: format.clone(),
                file_path: None,
                byte_offsets: Vec::new(),
            },
            source: SequenceSource::Memory(sequence.clone()),
            bases: sequence.clone(),
        }
    }

    /// Reads a FASTA or FASTQ text and keeps its first record in memory.
    pub fn import_from_text(&mut self, text: &str, format: &str) -> (r: Result<String, String>)
        requires
            old(self)@.next_id < u32::MAX,
        ensures
            text_import(text@, format@) is Err ==> (r matches Err(m) && text_import(text@, format@)
                == Err::<StoredEntry, Seq<char>>(m@) && final(self)@ == old(self)@),
            text_import(text@, format@) is Ok ==> (r matches Ok(k) && k@ == storage_key(
                old(self)@.next_id,
            ) && final(self)@ == kept(old(self)@, text_import(text@, format@)->Ok_0)),
    {
        proof {
            reveal_strlit("fasta");
            reveal_strlit("fastq");
            assert("fasta"@[4] != "fastq"@[4]);
        }
        let f = String::from_str(format);
        if f == String::from_str("fasta") {
            let records = match parse_fasta(text) {
                Ok(v) => v,
                Err(e) => {
                    return Err(e.message());
                },
            };
            if records.len() == 0 {
                return Err(String::from_str("No sequences found"));
            }
            let rec = &records[0];
            let e = Self::memory(&rec.id, &rec.description, &rec.sequence, &f);
            Ok(self.keep(e))
        } else if f == String::from_str("fastq") {
            let records = match parse_fastq(text) {
                Ok(v) => v,
                Err(e) => {
                    return Err(e.message());
                },
            };
            if records.len() == 0 {
                return Err(String::from_str("No sequences found"));
            }
            let rec = &records[0];
            let e = Self::memory(&rec.id, &rec.description, &rec.sequence, &f);
            Ok(self.keep(e))
        } else {
            Err(text_join("Unsupported format: ", &chars_of(format)))
        }
    }

    /// Indexes the first record of a FASTA file whose text has been read,
    /// and keeps it with the file's path.
    pub fn import_from_file_text(&mut self, path: String, content: &str, format: &str) -> (r: Result<
        String,
        String,
    >)
        requires
            old(self)@.next_id < u32::MAX,
        ensures
            format@ != "fasta"@ ==> (r matches Err(m) && m@
                == "File-based import not yet supported for format: "@ + format@ && final(self)@
                == old(self)@),
            format@ == "fasta"@ && index_scan(lines_spec(content@)).id.len() == 0 ==> (r matches Err(m)
                && m@ == "No valid FASTA sequence found"@ && final(self)@ == old(self)@),
            format@ == "fasta"@ && index_scan(lines_spec(content@)).id.len() > 0 ==> (r matches Ok(k)
                && k@ == storage_key(old(self)@.next_id) && final(self)@.next_id == old(self)@.next_id + 1
                && final(self)@.entries.len() == old(self)@.entries.len() + 1
                && final(self)@.entries.last().key == k@
                && final(self)@.entries.last().metadata.id == index_scan(lines_spec(content@)).id
                && final(self)@.entries.last().metadata.name == index_scan(lines_spec(content@)).description
                && final(self)@.entries.last().metadata.byte_offsets == index_scan(lines_spec(content@)).offsets
                && final(self)@.entries.last().metadata.file_path == Some(path@)
                && final(self)@.entries.last().bases == index_scan(lines_spec(content@)).bases),
    {
        let f = String::from_str(format);
        if !(f == String::from_str("fasta")) {
            return Err(text_join("File-based import not yet supported for format: ", &chars_of(format)));
        }
        let chars = chars_of(content);
        let lines = split_lines(&chars);
        let ghost ls = lines_spec(content@);
        let mut pos: u64 = 0;
        let mut started = false;
        let mut id: Vec<char> = Vec::new();
        let mut description: Vec<char> = Vec::new();
        let mut offsets: Vec<ByteOffset> = Vec::new();
        let mut bases: Vec<char> = Vec::new();
        let mut seq_position: usize = 0;
        let mut i: usize = 0;
        let mut stopped = false;
        proof {
            assert(ls.take(0) =~= Seq::<Seq<char>>::empty());
        }
        while i < lines.len() && !stopped
            invariant
                i <= lines@.len(),
                views(lines@) == ls,
                ls == lines_spec(content@),
                stopped ==> index_scan(ls) == index_scan(ls.take(i as int)),
                index_scan(ls.take(i as int)) == (IndexScan {
                    pos,
                    started,
                    stopped,
                    id: id@,
                    description: description@,
                    offsets: offsets@,
                    bases: bases@,
                    seq_position,
                }),
            decreases lines.len() - i,
        {
            let line = &lines[i];
            let ghost st = index_scan(ls.take(i as int));
            proof {
                assert(ls.take(i + 1).drop_last() == ls.take(i as int));
                assert(ls[i as int] == line@);
                assert(index_scan(ls.take(i + 1)) == index_step(st, line@));
            }
            let ls_text = string_of(line);
            let lb = ls_text.as_str().len();
            assert(lb == byte_len(line@));
            if line.len() > 0 && line[0] == '>' {
                if started {
                    stopped = true;
                    proof {
                        assert(index_scan(ls.take(i + 1)).stopped);
                        lemma_index_stops(ls, (i + 1) as nat);
                    }
                } else {
                    let body = crate::text::slice_copy(line, 1, line.len());
                    assert(body@ == line@.skip(1));
                    let (hid, hdesc) = split_once_ws(&body);
                    description = match hdesc {
                        Some(d) => d,
                        None => {
                            let c = crate::text::slice_copy(&hid, 0, hid.len());
                            assert(c@ =~= hid@);
                            c
                        },
                    };
                    id = hid;
                    started = true;
                    pos = add_pos(pos, lb);
                }
            } else {
                let clean = trim(line);
                if started && clean.len() > 0 {
                    let cs = string_of(&clean);
                    let cl = cs.as_str().len();
                    assert(cl == byte_len(clean@));
                    let ghost o0 = offsets@;
                    let off = ByteOffset { seq_position, byte_position: pos, line_length: cl };
                    offsets.push(off);
                    assert(offsets@ == o0.push(off));
                    extend_chars(&mut bases, &clean);
                    seq_position = add_len(seq_position, cl);
                }
                pos = add_pos(pos, lb);
            }
            i += 1;
        }
        proof {
            if !stopped {
                assert(ls.take(ls.len() as int) == ls);
            }
        }
        if id.len() == 0 {
            return Err(String::from_str("No valid FASTA sequence found"));
        }
        let bases_text = string_of(&bases);
        let n = bases_text.as_str().len();
        let e = Stored {
            key: String::new(),
            metadata: SequenceMetadata {
                id: string_of(&id),
                name: string_of(&description),
                length: n,
                topology: Topology::Linear,
                format: f,
                file_path: Some(path.clone()),
                byte_offsets: offsets.clone(),
            },
            source: SequenceSource::File(path, offsets),
            bases: bases_text,
        };
        Ok(self.keep(e))
    }

    /// A window of a kept sequence: from `start` up to `end` (or the end),
    /// ASCII letters upper-cased; empty when `start >= end`.
    pub fn get_window(&self, seq_id: &str, start: usize, end: usize) -> (r: Result<String, String>)
        ensures
            !has_key(self@.entries, seq_id@) ==> (r matches Err(m) && m@ == "Sequence not found: "@
                + seq_id@),
            has_key(self@.entries, seq_id@) && start >= lookup(self@.entries, seq_id@).bases.len()
                ==> (r matches Err(m) && m@ == "Start position exceeds sequence length"@),
            has_key(self@.entries, seq_id@) && start < lookup(self@.entries, seq_id@).bases.len()
                ==> (r matches Ok(w) && w@ == window_spec(
                lookup(self@.entries, seq_id@).bases,
                start as nat,
                end as nat,
            )),
    {
        let key = String::from_str(seq_id);
        match self.find(&key) {
            Some(j) => {
                let chars = chars_of(self.entries[j].bases.as_str());
                if start >= chars.len() {
                    return Err(String::from_str("Start position exceeds sequence length"));
                }
                if start >= end {
                    return Ok(String::new());
                }
                let e = if end < chars.len() {
                    end
                } else {
                    chars.len()
                };
                let part = crate::text::slice_copy(&chars, start, e);
                let up = ascii_upper_all(&part);
                Ok(string_of(&up))
            },
            None => Err(text_join("Sequence not found: ", &chars_of(seq_id))),
        }
    }

    /// Metadata of a kept sequence.
    pub fn get_metadata(&self, seq_id: &str) -> (r: Option<&SequenceMetadata>)
        ensures
            r is None <==> !has_key(self@.entries, seq_id@),
            r is Some ==> r->0@ == lookup(self@.entries, seq_id@).metadata,
    {
        let key = String::from_str(seq_id);
        match self.find(&key) {
            Some(j) => Some(&self.entries[j].metadata),
            None => None,
        }
    }

    /// The whole of a kept sequence, upper-cased as windows are.
    pub fn get_full_sequence(&self, seq_id: &str) -> (r: Result<String, String>)
        ensures
            !has_key(self@.entries, seq_id@) ==> (r matches Err(m) && m@ == "Sequence not found: "@
                + seq_id@),
            has_key(self@.entries, seq_id@) && lookup(self@.entries, seq_id@).bases.len() == 0
                ==> (r matches Err(m) && m@ == "Start position exceeds sequence length"@),
            has_key(self@.entries, seq_id@) && lookup(self@.entries, seq_id@).bases.len() > 0
                ==> (r matches Ok(w) && w@ == window_spec(
                lookup(self@.entries, seq_id@).bases,
                0,
                lookup(self@.entries, seq_id@).metadata.length as nat,
            )),
    {
        match self.get_metadata(seq_id) {
            Some(m) => self.get_window(seq_id, 0, m.length),
            None => Err(text_join("Sequence not found: ", &chars_of(seq_id))),
        }
    }
}

fn add_pos(pos: u64, n: usize) -> (r: u64)
    ensures
        r == pos_after(pos, n as nat),
{
    let m = n as u64;
    if m < u64::MAX - pos {
        pos + m + 1
    } else {
        u64::MAX
    }
}

fn add_len(a: usize, b: usize) -> (r: usize)
    ensures
        r == len_after(a, b as nat),
{
    if b <= usize::MAX - a {
        a + b
    } else {
        usize::MAX
    }
}

proof fn lemma_index_stops(lines: Seq<Seq<char>>, k: nat)
    requires
        k <= lines.len(),
        index_scan(lines.take(k as int)).stopped,
    ensures
        index_scan(lines) == index_scan(lines.take(k as int)),
    decreases lines.len() - k,
{
    if k < lines.len() {
        assert(lines.take(k as int + 1).drop_last() == lines.take(k as int));
        lemma_index_stops(lines, k + 1);
    } else {
        assert(lines.take(k as int) == lines);
    }
}

} // verus!
