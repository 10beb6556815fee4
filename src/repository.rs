use vstd::prelude::*;
use crate::domain::{Sequence, SequenceMetadata, SequenceMetadataView, SequenceView, Topology};
use crate::parsers::{
    fasta_sequences_spec, fastq_sequences_spec, read_fasta_sequences, read_fastq_sequences,
};
use crate::text::{
    ascii_upper_all, ascii_upper_seq, chars_of, decimal, decimal_spec, extend_chars, opt_view,
    string_of, lemma_decimal_injective,
};

verus! {

/// Errors of a sequence repository.
#[derive(Debug, Clone, PartialEq, Eq)]
pub enum StorageError {
    SequenceNotFound(String),
    IoError(String),
    ParseError(String),
    InvalidRange(usize, usize),
}

/// The key the `n`-th stored sequence gets: "seq_" and the number.
pub open spec fn key_of(n: nat) -> Seq<char> {
    "seq_"@ + decimal_spec(n)
}

/// Different numbers give different keys.
pub proof fn lemma_key_distinct(a: nat, b: nat)
    requires
        a != b,
    ensures
        key_of(a) != key_of(b),
{
    if key_of(a) == key_of(b) {
        reveal_strlit("seq_");
        assert(key_of(a).skip(4) =~= decimal_spec(a));
        assert(key_of(b).skip(4) =~= decimal_spec(b));
        lemma_decimal_injective(a, b);
    }
}

/// Makes the key of the `n`-th stored sequence.
pub fn make_key(n: usize) -> (r: String)
    ensures
        r@ == key_of(n as nat),
{
    let mut k = chars_of("seq_");
    let d = decimal(n);
    extend_chars(&mut k, &d);
    string_of(&k)
}

pub fn copy_metadata(m: &SequenceMetadata) -> (r: SequenceMetadata)
    ensures
        r@ == m@,
{
    SequenceMetadata {
        id: m.id.clone(),
        name: m.name.clone(),
        length: m.length,
        topology: m.topology,
        file_path: match &m.file_path {
            Some(p) => Some(p.clone()),
            None => None,
        },
    }
}

struct Entry {
    key: String,
    sequence: String,
    metadata: SequenceMetadata,
}

pub struct StoredView {
    pub key: Seq<char>,
    pub sequence: Seq<char>,
    pub metadata: SequenceMetadataView,
}

pub struct RepositoryView {
    pub entries: Seq<StoredView>,
    pub next_id: nat,
}

/// Keeps sequences in memory under keys "seq_1", "seq_2", ... given in
/// order of storing.
pub struct FileSequenceRepository {
    entries: Vec<Entry>,
    next_id: usize,
}

/// Whether some entry has this key.
pub open spec fn has_key(e: Seq<StoredView>, key: Seq<char>) -> bool {
    exists|j: int| 0 <= j < e.len() && e[j].key == key
}

/// The first entry with this key.
pub open spec fn lookup(e: Seq<StoredView>, key: Seq<char>) -> StoredView {
    e[choose|j: int|
        0 <= j < e.len() && e[j].key == key && forall|k: int| 0 <= k < j ==> e[k].key != key]
}

/// Whether a key is "seq_n" for some `1 <= n < next`.
pub open spec fn key_numbered(key: Seq<char>, next: nat) -> bool {
    exists|n: nat| 1 <= n < next && #[trigger] key_of(n) == key
}

/// No two entries share a key.
pub open spec fn keys_distinct(e: Seq<StoredView>) -> bool {
    forall|i: int, j: int| 0 <= i < j < e.len() ==> e[i].key != e[j].key
}

/// The repository's invariant: the next number is at least 1, every key is
/// "seq_n" for a number below it, and no key is used twice.
pub open spec fn repo_wf(r: RepositoryView) -> bool {
    &&& r.next_id >= 1
    &&& forall|j: int|
        0 <= j < r.entries.len() ==> #[trigger] key_numbered(r.entries[j].key, r.next_id)
    &&& keys_distinct(r.entries)
}

/// A store that used a fresh key: the key was not in use before, and it
/// now finds the new (last) entry.
pub open spec fn fresh_store(before: RepositoryView, after: RepositoryView, key: Seq<char>) -> bool {
    &&& !has_key(before.entries, key)
    &&& has_key(after.entries, key)
    &&& lookup(after.entries, key) == after.entries.last()
}

proof fn lemma_lookup_at(e: Seq<StoredView>, j: int)
    requires
        keys_distinct(e),
        0 <= j < e.len(),
    ensures
        has_key(e, e[j].key),
        lookup(e, e[j].key) == e[j],
{
    let k = e[j].key;
    assert(0 <= j < e.len() && e[j].key == k && forall|i: int| 0 <= i < j ==> e[i].key != k);
    let c = choose|c: int| 0 <= c < e.len() && e[c].key == k && forall|i: int| 0 <= i < c ==> e[i].key != k;
    assert(c == j) by {
        if c < j {
        } else if c > j {
        }
    }
}

/// The next key is free in a well-formed repository.
pub proof fn lemma_next_key_fresh(r: RepositoryView)
    requires
        repo_wf(r),
    ensures
        !has_key(r.entries, key_of(r.next_id)),
{
    if has_key(r.entries, key_of(r.next_id)) {
        let j = choose|j: int| 0 <= j < r.entries.len() && r.entries[j].key == key_of(r.next_id);
        assert(key_numbered(r.entries[j].key, r.next_id));
        let n = choose|n: nat| 1 <= n < r.next_id && #[trigger] key_of(n) == r.entries[j].key;
        lemma_key_distinct(n, r.next_id);
    }
}

/// Taking a number keeps a repository well-formed.
pub proof fn lemma_bump_wf(r: RepositoryView)
    requires
        repo_wf(r),
    ensures
        repo_wf(RepositoryView { next_id: r.next_id + 1, ..r }),
{
    assert forall|j: int| 0 <= j < r.entries.len() implies #[trigger] key_numbered(
        r.entries[j].key,
        r.next_id + 1,
    ) by {
        assert(key_numbered(r.entries[j].key, r.next_id));
        let n = choose|n: nat| 1 <= n < r.next_id && #[trigger] key_of(n) == r.entries[j].key;
        assert(key_of(n) == r.entries[j].key);
    }
}

#[verifier::rlimit(40)]
proof fn lemma_stored_wf(r: RepositoryView, s: SequenceView, file_path: Option<Seq<char>>)
    requires
        repo_wf(r),
    ensures
        repo_wf(stored(r, s, file_path)),
{
    let a = stored(r, s, file_path);
    lemma_next_key_fresh(r);
    lemma_bump_wf(r);
    assert forall|j: int| 0 <= j < a.entries.len() implies #[trigger] key_numbered(
        a.entries[j].key,
        a.next_id,
    ) by {
        if j == r.entries.len() {
            assert(key_of(r.next_id) == a.entries[j].key);
        } else {
            assert(a.entries[j] == r.entries[j]);
            assert(key_numbered(r.entries[j].key, r.next_id + 1));
        }
    }
    assert(keys_distinct(a.entries)) by {
        assert forall|i: int, j: int| 0 <= i < j < a.entries.len() implies a.entries[i].key
            != a.entries[j].key by {
            assert(a.entries[i] == r.entries[i]);
            if j == r.entries.len() {
                if a.entries[i].key == a.entries[j].key {
                    assert(has_key(r.entries, key_of(r.next_id)));
                }
            } else {
                assert(a.entries[j] == r.entries[j]);
            }
        }
    }
}

#[verifier::rlimit(40)]
proof fn lemma_stored_fresh(r: RepositoryView, s: SequenceView, file_path: Option<Seq<char>>)
    requires
        repo_wf(r),
    ensures
        fresh_store(r, stored(r, s, file_path), key_of(r.next_id)),
{
    let a = stored(r, s, file_path);
    lemma_next_key_fresh(r);
    lemma_stored_wf(r, s, file_path);
    lemma_lookup_at(a.entries, r.entries.len() as int);
}

/// Storing in a well-formed repository keeps it well-formed and uses a fresh key.
pub proof fn lemma_stored(r: RepositoryView, s: SequenceView, file_path: Option<Seq<char>>)
    requires
        repo_wf(r),
    ensures
        repo_wf(stored(r, s, file_path)),
        fresh_store(r, stored(r, s, file_path), key_of(r.next_id)),
{
    lemma_stored_wf(r, s, file_path);
    lemma_stored_fresh(r, s, file_path);
}

/// A window of a stored sequence: starting at `start`, up to `end` or the
/// end of the sequence, ASCII letters upper-cased; empty when `start >= end`.
pub open spec fn window_spec(s: Seq<char>, start: nat, end: nat) -> Seq<char> {
    if start >= end {
        Seq::empty()
    } else {
        ascii_upper_seq(s.subrange(start as int, if end < s.len() { end as int } else { s.len() as int }))
    }
}

/// The metadata a sequence gets when it is stored from memory.
pub open spec fn metadata_of(s: SequenceView, file_path: Option<Seq<char>>) -> SequenceMetadataView {
    SequenceMetadataView {
        id: s.id,
        name: s.name,
        length: s.sequence.len() as usize,
        topology: s.topology,
        file_path,
    }
}

/// The repository after storing one more sequence.
pub open spec fn stored(r: RepositoryView, s: SequenceView, file_path: Option<Seq<char>>) -> RepositoryView {
    RepositoryView {
        entries: r.entries.push(
            StoredView { key: key_of(r.next_id), sequence: s.sequence, metadata: metadata_of(s, file_path) },
        ),
        next_id: r.next_id + 1,
    }
}

/// Which text format a name selects.
pub open spec fn is_fasta(format: Seq<char>) -> bool {
    format == "fasta"@
}

pub open spec fn is_fastq(format: Seq<char>) -> bool {
    format == "fastq"@
}

/// The sequences a text gives in a format: `None` when the format is
/// unknown or the text is not readable in it.
pub open spec fn sequences_in(content: Seq<char>, format: Seq<char>) -> Option<Seq<SequenceView>> {
    if is_fasta(format) {
        Some(fasta_sequences_spec(content))
    } else if is_fastq(format) {
        fastq_sequences_spec(content)
    } else {
        None
    }
}

impl View for FileSequenceRepository {
    type V = RepositoryView;

    closed spec fn view(&self) -> RepositoryView {
        RepositoryView {
            entries: self.entries@.map_values(
                |e: Entry| StoredView { key: e.key@, sequence: e.sequence@, metadata: e.metadata@ },
            ),
            next_id: self.next_id as nat,
        }
    }
}

impl FileSequenceRepository {
    #[verifier::type_invariant]
    spec fn well_formed(self) -> bool {
        repo_wf(self@)
    }

    /// Whether one more sequence can be given a key.
    pub fn has_room(&self) -> (r: bool)
        ensures
            repo_wf(self@),
            r == (self@.next_id < usize::MAX),
    {
        proof {
            use_type_invariant(self);
        }
        self.next_id < usize::MAX
    }

    pub fn new() -> (r: Self)
        ensures
            r@.entries.len() == 0,
            r@.next_id == 1,
            repo_wf(r@),
    {
        FileSequenceRepository { entries: Vec::new(), next_id: 1 }
    }

    /// Takes the next key.
    pub fn generate_id(&mut self) -> (r: String)
        requires
            old(self)@.next_id < usize::MAX,
        ensures
            r@ == key_of(old(self)@.next_id),
            final(self)@ == (RepositoryView { next_id: old(self)@.next_id + 1, ..old(self)@ }),
            repo_wf(final(self)@),
    {
        proof {
            use_type_invariant(&*self);
            lemma_bump_wf(self@);
        }
        let k = make_key(self.next_id);
        self.next_id = self.next_id + 1;
        k
    }

    fn find(&self, seq_id: &str) -> (r: Option<usize>)
        ensures
            r is None <==> !has_key(self@.entries, seq_id@),
            r is Some ==> r->0 < self@.entries.len() && self@.entries[r->0 as int] == lookup(
                self@.entries,
                seq_id@,
            ),
    {
        let key = String::from_str(seq_id);
        let mut j: usize = 0;
        while j < self.entries.len()
            invariant
                j <= self.entries@.len(),
                key@ == seq_id@,
                forall|k: int| 0 <= k < j ==> self@.entries[k].key != seq_id@,
            decreases self.entries.len() - j,
        {
            if self.entries[j].key == key {
                proof {
                    let e = self@.entries;
                    assert(e[j as int].key == seq_id@);
                    let c = choose|c: int|
                        0 <= c < e.len() && e[c].key == seq_id@ && forall|k: int|
                            0 <= k < c ==> e[k].key != seq_id@;
                    assert(c == j as int) by {
                        if c < j {
                        } else if c > j {
                        }
                    }
                }
                return Some(j);
            }
            j += 1;
        }
        None
    }

    /// Stores a sequence in memory under the next key.
    pub fn store_sequence(&mut self, sequence: Sequence) -> (r: Result<String, StorageError>)
        requires
            old(self)@.next_id < usize::MAX,
        ensures
            r matches Ok(k) && k@ == key_of(old(self)@.next_id),
            final(self)@ == stored(old(self)@, sequence@, None),
            fresh_store(old(self)@, final(self)@, key_of(old(self)@.next_id)),
            repo_wf(final(self)@),
    {
        self.store_with_path(sequence, None)
    }

    #[verifier::rlimit(40)]
    fn store_with_path(&mut self, sequence: Sequence, file_path: Option<String>) -> (r: Result<
        String,
        StorageError,
    >)
        requires
            old(self)@.next_id < usize::MAX,
        ensures
            r matches Ok(k) && k@ == key_of(old(self)@.next_id),
            final(self)@ == stored(old(self)@, sequence@, opt_view(file_path)),
            fresh_store(old(self)@, final(self)@, key_of(old(self)@.next_id)),
            repo_wf(final(self)@),
    {
        proof {
            use_type_invariant(&*self);
            lemma_stored(self@, sequence@, opt_view(file_path));
        }
        let seq_id = self.generate_id();
        let chars = chars_of(sequence.sequence.as_str());
        let metadata = SequenceMetadata {
            id: sequence.id,
            name: sequence.name,
            length: chars.len(),
            topology: sequence.topology,
            file_path,
        };
        let e = Entry { key: seq_id.clone(), sequence: sequence.sequence, metadata };
        let ghost before = self@;
        let mut entries: Vec<Entry> = Vec::new();
        std::mem::swap(&mut entries, &mut self.entries);
        let ghost taken = entries@;
        entries.push(e);
        proof {
            let nv = entries@.map_values(
                |x: Entry| StoredView { key: x.key@, sequence: x.sequence@, metadata: x.metadata@ },
            );
            assert(taken.map_values(
                |x: Entry| StoredView { key: x.key@, sequence: x.sequence@, metadata: x.metadata@ },
            ) == before.entries);
            assert(nv =~= before.entries.push(
                StoredView { key: key_of(old(self)@.next_id), sequence: sequence@.sequence, metadata: metadata_of(sequence@, opt_view(file_path)) },
            ));
        }
        self.entries = entries;
        Ok(seq_id)
    }

    /// Reads the entries of a FASTA text.
    pub fn parse_fasta(&self, content: &str) -> (r: Result<Vec<Sequence>, StorageError>)
        ensures
            r matches Ok(v) && crate::domain::sequence_views(v@) == fasta_sequences_spec(content@),
    {
        Ok(read_fasta_sequences(content))
    }

    /// Reads the entries of a FASTQ text.
    pub fn parse_fastq(&self, content: &str) -> (r: Result<Vec<Sequence>, StorageError>)
        ensures
            fastq_sequences_spec(content@) is None ==> (r matches Err(StorageError::ParseError(m))
                && m@ == "Invalid FASTQ format"@),
            fastq_sequences_spec(content@) is Some ==> (r matches Ok(v)
                && fastq_sequences_spec(content@) == Some(crate::domain::sequence_views(v@))),
    {
        match read_fastq_sequences(content) {
            Some(v) => Ok(v),
            None => Err(StorageError::ParseError(String::from_str("Invalid FASTQ format"))),
        }
    }

    /// Reads a text in the named format ("fasta" or "fastq") and stores its
    /// first sequence.
    pub fn import_from_text(&mut self, content: &str, format: &str) -> (r: Result<
        String,
        StorageError,
    >)
        requires
            old(self)@.next_id < usize::MAX,
        ensures
            import_outcome(old(self)@, final(self)@, r, content@, format@, None),
            repo_wf(final(self)@),
    {
        self.import_with_path(content, format, None)
    }

    /// Stores the first sequence of a file's text, with the file's path.
    pub fn import_file_text(&mut self, content: &str, format: &str, path: String) -> (r: Result<
        String,
        StorageError,
    >)
        requires
            old(self)@.next_id < usize::MAX,
        ensures
            import_outcome(old(self)@, final(self)@, r, content@, format@, Some(path@)),
            repo_wf(final(self)@),
    {
        self.import_with_path(content, format, Some(path))
    }

    #[verifier::rlimit(40)]
    fn import_with_path(&mut self, content: &str, format: &str, path: Option<String>) -> (r:
        Result<String, StorageError>)
        requires
            old(self)@.next_id < usize::MAX,
        ensures
            import_outcome(old(self)@, final(self)@, r, content@, format@, opt_view(path)),
            repo_wf(final(self)@),
    {
        proof {
            use_type_invariant(&*self);
        }
        let f = String::from_str(format);
        let sequences = if f == String::from_str("fasta") {
            read_fasta_sequences(content)
        } else if f == String::from_str("fastq") {
            match read_fastq_sequences(content) {
                Some(v) => v,
                None => {
                    return Err(StorageError::ParseError(String::from_str("Invalid FASTQ format")));
                },
            }
        } else {
            let mut m = chars_of("Unsupported format: ");
            let fc = chars_of(format);
            extend_chars(&mut m, &fc);
            return Err(StorageError::ParseError(string_of(&m)));
        };
        if sequences.len() == 0 {
            return Err(StorageError::ParseError(String::from_str("No sequences found")));
        }
        let first = copy_sequence(&sequences[0]);
        self.store_with_path(first, path)
    }

    /// Metadata of a stored sequence.
    pub fn get_metadata(&self, seq_id: &str) -> (r: Option<SequenceMetadata>)
        ensures
            repo_wf(self@),
            r is None <==> !has_key(self@.entries, seq_id@),
            r is Some ==> r->0@ == lookup(self@.entries, seq_id@).metadata,
    {
        proof {
            use_type_invariant(self);
        }
        match self.find(seq_id) {
            Some(j) => Some(copy_metadata(&self.entries[j].metadata)),
            None => None,
        }
    }

    /// The whole of a stored sequence.
    pub fn get_sequence(&self, seq_id: &str) -> (r: Result<String, StorageError>)
        ensures
            repo_wf(self@),
            !has_key(self@.entries, seq_id@) ==> (r matches Err(StorageError::SequenceNotFound(m))
                && m@ == seq_id@),
            has_key(self@.entries, seq_id@) ==> (r matches Ok(s) && s@ == lookup(
                self@.entries,
                seq_id@,
            ).sequence),
    {
        proof {
            use_type_invariant(self);
        }
        match self.find(seq_id) {
            Some(j) => Ok(self.entries[j].sequence.clone()),
            None => Err(StorageError::SequenceNotFound(String::from_str(seq_id))),
        }
    }

    /// A window of a stored sequence; positions count characters.
    pub fn get_window(&self, seq_id: &str, start: usize, end: usize) -> (r: Result<
        String,
        StorageError,
    >)
        ensures
            repo_wf(self@),
            !has_key(self@.entries, seq_id@) ==> (r matches Err(StorageError::SequenceNotFound(m))
                && m@ == seq_id@),
            has_key(self@.entries, seq_id@) && start >= lookup(self@.entries, seq_id@).sequence.len()
                ==> r == Err::<String, StorageError>(StorageError::InvalidRange(start, end)),
            has_key(self@.entries, seq_id@) && start < lookup(self@.entries, seq_id@).sequence.len()
                ==> (r matches Ok(w) && w@ == window_spec(
                lookup(self@.entries, seq_id@).sequence,
                start as nat,
                end as nat,
            )),
    {
        proof {
            use_type_invariant(self);
        }
        match self.find(seq_id) {
            Some(j) => {
                let chars = chars_of(self.entries[j].sequence.as_str());
                window_of(&chars, start, end)
            },
            None => Err(StorageError::SequenceNotFound(String::from_str(seq_id))),
        }
    }
}

impl crate::domain::SequenceRepository for FileSequenceRepository {
    type Error = StorageError;

    fn get_metadata(&self, seq_id: &str) -> Option<SequenceMetadata> {
        FileSequenceRepository::get_metadata(self, seq_id)
    }

    fn get_sequence(&self, seq_id: &str) -> Result<String, StorageError> {
        FileSequenceRepository::get_sequence(self, seq_id)
    }

    fn get_window(&self, seq_id: &str, start: usize, end: usize) -> Result<String, StorageError> {
        FileSequenceRepository::get_window(self, seq_id, start, end)
    }
}

/// A window of a sequence's characters, or the range error.
pub fn window_of(chars: &[char], start: usize, end: usize) -> (r: Result<String, StorageError>)
    ensures
        start >= chars@.len() ==> r == Err::<String, StorageError>(
            StorageError::InvalidRange(start, end),
        ),
        start < chars@.len() ==> (r matches Ok(w) && w@ == window_spec(
            chars@,
            start as nat,
            end as nat,
        )),
{
    if start >= chars.len() {
        return Err(StorageError::InvalidRange(start, end));
    }
    if start >= end {
        return Ok(String::new());
    }
    let e = if end < chars.len() {
        end
    } else {
        chars.len()
    };
    let part = crate::text::slice_copy(chars, start, e);
    let up = ascii_upper_all(&part);
    Ok(string_of(&up))
}

pub fn copy_sequence(s: &Sequence) -> (r: Sequence)
    ensures
        r@ == s@,
{
    Sequence {
        id: s.id.clone(),
        name: s.name.clone(),
        sequence: s.sequence.clone(),
        topology: s.topology,
    }
}

/// Why an import is refused, if it is: an unknown format, an unreadable
/// FASTQ text, or a text with no sequence.
pub open spec fn import_error(content: Seq<char>, format: Seq<char>) -> Option<Seq<char>> {
    if !is_fasta(format) && !is_fastq(format) {
        Some("Unsupported format: "@ + format)
    } else if sequences_in(content, format) is None {
        Some("Invalid FASTQ format"@)
    } else if sequences_in(content, format)->0.len() == 0 {
        Some("No sequences found"@)
    } else {
        None
    }
}

/// The sequence an accepted import stores: the first one of the text.
pub open spec fn imported(content: Seq<char>, format: Seq<char>) -> SequenceView {
    sequences_in(content, format)->0[0]
}

/// What an import does: when refused nothing changes and the reason comes
/// back as a parse error; otherwise the first sequence is stored under the
/// next key, which is returned.
pub open spec fn import_outcome(
    before: RepositoryView,
    after: RepositoryView,
    r: Result<String, StorageError>,
    content: Seq<char>,
    format: Seq<char>,
    file_path: Option<Seq<char>>,
) -> bool {
    match import_error(content, format) {
        Some(m) => r matches Err(StorageError::ParseError(x)) && x@ == m && after == before,
        None => r matches Ok(k) && k@ == key_of(before.next_id) && after == stored(
            before,
            imported(content, format),
            file_path,
        ) && fresh_store(before, after, k@),
    }
}

/// The text of an error, as the error type displays it.
pub open spec fn error_text(e: StorageError) -> Seq<char> {
    match e {
        StorageError::SequenceNotFound(m) => "Sequence not found: "@ + m@,
        StorageError::IoError(m) => "IO error: "@ + m@,
        StorageError::ParseError(m) => "Parse error: "@ + m@,
        StorageError::InvalidRange(a, b) => "Invalid range: start="@ + decimal_spec(a as nat)
            + ", end="@ + decimal_spec(b as nat),
    }
}

/// `prefix` followed by `rest`.
pub fn text_join(prefix: &str, rest: &[char]) -> (r: String)
    ensures
        r@ == prefix@ + rest@,
{
    let mut m = chars_of(prefix);
    extend_chars(&mut m, rest);
    string_of(&m)
}

impl StorageError {
    /// The text of the error.
    pub fn message(&self) -> (r: String)
        ensures
            r@ == error_text(*self),
    {
        match self {
            StorageError::SequenceNotFound(m) => text_join("Sequence not found: ", &chars_of(m.as_str())),
            StorageError::IoError(m) => text_join("IO error: ", &chars_of(m.as_str())),
            StorageError::ParseError(m) => text_join("Parse error: ", &chars_of(m.as_str())),
            StorageError::InvalidRange(a, b) => {
                let mut t = chars_of("Invalid range: start=");
                extend_chars(&mut t, &decimal(*a));
                extend_chars(&mut t, &chars_of(", end="));
                extend_chars(&mut t, &decimal(*b));
                string_of(&t)
            },
        }
    }
}

} // verus!
