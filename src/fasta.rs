use vstd::prelude::*;
use crate::text::{
    chars_of, extend_chars, lines_spec, opt_chars_view, opt_view, split_lines, split_once_ws,
    split_once_ws_spec, string_of, strip_ws, strip_ws_spec, to_upper, trim, trim_spec,
    trim_start_index, trim_start_spec, upper_of, views,
};

verus! {

/// Errors of the FASTA and FASTQ readers.
#[derive(Debug, Clone, PartialEq, Eq)]
pub enum ParseError {
    InvalidFormat(String),
    MissingField(String),
    LengthMismatch(String),
    IoError(String),
}

/// The text of a parse error, as the error type displays it.
pub open spec fn parse_error_text(e: ParseError) -> Seq<char> {
    match e {
        ParseError::InvalidFormat(m) => "Invalid format: "@ + m@,
        ParseError::MissingField(m) => "Missing required field: "@ + m@,
        ParseError::LengthMismatch(m) => "Length mismatch: "@ + m@,
        ParseError::IoError(m) => "IO error: "@ + m@,
    }
}

fn prefixed(prefix: &str, m: &String) -> (r: String)
    ensures
        r@ == prefix@ + m@,
{
    let mut t = chars_of(prefix);
    let c = chars_of(m.as_str());
    extend_chars(&mut t, &c);
    string_of(&t)
}

impl ParseError {
    /// The text of the error.
    pub fn message(&self) -> (r: String)
        ensures
            r@ == parse_error_text(*self),
    {
        match self {
            ParseError::InvalidFormat(m) => prefixed("Invalid format: ", m),
            ParseError::MissingField(m) => prefixed("Missing required field: ", m),
            ParseError::LengthMismatch(m) => prefixed("Length mismatch: ", m),
            ParseError::IoError(m) => prefixed("IO error: ", m),
        }
    }
}

/// One FASTA entry: the sequence is upper case, with no white space.
#[derive(Debug, Clone)]
pub struct FastaRecord {
    pub id: String,
    pub description: Option<String>,
    pub sequence: String,
}

pub struct FastaRecordView {
    pub id: Seq<char>,
    pub description: Option<Seq<char>>,
    pub sequence: Seq<char>,
}

impl View for FastaRecord {
    type V = FastaRecordView;

    open spec fn view(&self) -> FastaRecordView {
        FastaRecordView { id: self.id@, description: opt_view(self.description), sequence: self.sequence@ }
    }
}

/// Sequence text as a record stores it: upper case, white space removed.
pub open spec fn clean_sequence(s: Seq<char>) -> Seq<char> {
    strip_ws_spec(upper_of(s))
}

pub open spec fn fasta_record_spec(
    id: Seq<char>,
    description: Option<Seq<char>>,
    sequence: Seq<char>,
) -> FastaRecordView {
    FastaRecordView { id, description, sequence: clean_sequence(sequence) }
}

impl FastaRecord {
    pub fn new(id: String, description: Option<String>, sequence: String) -> (r: Self)
        ensures
            r@ == fasta_record_spec(id@, opt_view(description), sequence@),
    {
        let upper = to_upper(sequence.as_str());
        let chars = chars_of(upper.as_str());
        let cleaned = strip_ws(&chars);
        FastaRecord { id, description, sequence: string_of(&cleaned) }
    }
}

/// The identifier and description of a header line: after the marker and
/// leading white space, up to the first white space; the description is the
/// rest after that one character, when it is not empty.
pub open spec fn header_spec(line: Seq<char>) -> (Seq<char>, Option<Seq<char>>) {
    let parts = split_once_ws_spec(trim_start_spec(line.skip(1)));
    (
        parts.0,
        match parts.1 {
            Some(d) => if d.len() > 0 {
                Some(d)
            } else {
                None
            },
            None => None,
        },
    )
}

/// Splits a header line (marker included) into identifier and description.
pub fn parse_header(line: &[char]) -> (r: (Vec<char>, Option<Vec<char>>))
    requires
        line@.len() > 0,
    ensures
        r.0@ == header_spec(line@).0,
        opt_chars_view(r.1) == header_spec(line@).1,
{
    let body = crate::text::slice_copy(line, 1, line.len());
    let a = trim_start_index(&body);
    let rest = crate::text::slice_copy(&body, a, body.len());
    let (id, d) = split_once_ws(&rest);
    let desc = match d {
        Some(v) => if v.len() > 0 {
            Some(v)
        } else {
            None
        },
        None => None,
    };
    proof {
        assert(body@ == line@.skip(1));
    }
    (id, desc)
}

/// The state of a FASTA scan after some lines.
pub struct FastaScan {
    pub id: Seq<char>,
    pub desc: Option<Seq<char>>,
    pub seq: Seq<char>,
    pub records: Seq<FastaRecordView>,
}

pub open spec fn fasta_step(st: FastaScan, line: Seq<char>) -> FastaScan {
    if line.len() > 0 && line[0] == '>' {
        let h = header_spec(line);
        if st.id.len() > 0 {
            FastaScan {
                id: h.0,
                desc: h.1,
                seq: Seq::empty(),
                records: st.records.push(fasta_record_spec(st.id, st.desc, st.seq)),
            }
        } else {
            FastaScan { id: h.0, desc: h.1, seq: st.seq, records: st.records }
        }
    } else if trim_spec(line).len() > 0 {
        FastaScan { id: st.id, desc: st.desc, seq: st.seq + trim_spec(line), records: st.records }
    } else {
        st
    }
}

pub open spec fn fasta_scan(lines: Seq<Seq<char>>) -> FastaScan
    decreases lines.len(),
{
    if lines.len() == 0 {
        FastaScan { id: Seq::empty(), desc: None, seq: Seq::empty(), records: Seq::empty() }
    } else {
        fasta_step(fasta_scan(lines.drop_last()), lines.last())
    }
}

/// The records of a FASTA text: a header line starts a record (one with an
/// empty identifier is not kept, and its sequence lines go to the next one),
/// and every other non-blank line, trimmed, extends the current sequence.
pub open spec fn fasta_records(content: Seq<char>) -> Seq<FastaRecordView> {
    let st = fasta_scan(lines_spec(content));
    if st.id.len() > 0 {
        st.records.push(fasta_record_spec(st.id, st.desc, st.seq))
    } else {
        st.records
    }
}

/// A FASTA text is refused when, trimmed, it is not empty and does not start with '>'.
pub open spec fn fasta_refused(content: Seq<char>) -> bool {
    trim_spec(content).len() > 0 && trim_spec(content)[0] != '>'
}

pub open spec fn record_views(v: Seq<FastaRecord>) -> Seq<FastaRecordView> {
    v.map_values(|r: FastaRecord| r@)
}

fn push_record(
    records: &mut Vec<FastaRecord>,
    id: &Vec<char>,
    desc: &Option<Vec<char>>,
    seq: &Vec<char>,
)
    ensures
        record_views(final(records)@) == record_views(old(records)@).push(
            fasta_record_spec(id@, opt_chars_view(*desc), seq@),
        ),
{
    let d = match desc {
        Some(d) => Some(string_of(d)),
        None => None,
    };
    let rec = FastaRecord::new(string_of(id), d, string_of(seq));
    let ghost before = records@;
    records.push(rec);
    proof {
        assert(record_views(records@) =~= record_views(before).push(rec@));
    }
}

pub fn parse_fasta_chars(content: &[char]) -> (r: Result<Vec<FastaRecord>, ParseError>)
    ensures
        fasta_refused(content@) ==> (r matches Err(ParseError::InvalidFormat(m)) && m@
            == "FASTA content must start with '>'"@),
        !fasta_refused(content@) ==> (r matches Ok(v) && record_views(v@) == fasta_records(
            content@,
        )),
{
    let t = trim(content);
    if t.len() > 0 && t[0] != '>' {
        return Err(
            ParseError::InvalidFormat(String::from_str("FASTA content must start with '>'")),
        );
    }
    let lines = split_lines(content);
    let ghost ls = lines_spec(content@);
    let mut records: Vec<FastaRecord> = Vec::new();
    let mut id: Vec<char> = Vec::new();
    let mut desc: Option<Vec<char>> = None;
    let mut seq: Vec<char> = Vec::new();
    let mut i: usize = 0;
    proof {
        assert(ls.take(0) =~= Seq::<Seq<char>>::empty());
        assert(record_views(records@) =~= Seq::<FastaRecordView>::empty());
    }
    while i < lines.len()
        invariant
            i <= lines@.len(),
            views(lines@) == ls,
            fasta_scan(ls.take(i as int)) == (FastaScan {
                id: id@,
                desc: opt_chars_view(desc),
                seq: seq@,
                records: record_views(records@),
            }),
        decreases lines.len() - i,
    {
        let line = &lines[i];
        proof {
            assert(ls.take(i + 1).drop_last() == ls.take(i as int));
            assert(ls[i as int] == line@);
        }
        if line.len() > 0 && line[0] == '>' {
            if id.len() > 0 {
                push_record(&mut records, &id, &desc, &seq);
                seq = Vec::new();
            }
            let (hid, hdesc) = parse_header(line);
            id = hid;
            desc = hdesc;
        } else {
            let tl = trim(line);
            if tl.len() > 0 {
                extend_chars(&mut seq, &tl);
            }
        }
        i += 1;
    }
    proof {
        assert(ls.take(ls.len() as int) == ls);
    }
    if id.len() > 0 {
        push_record(&mut records, &id, &desc, &seq);
    }
    Ok(records)
}

/// Reads the records of a FASTA text.
pub fn parse_fasta(content: &str) -> (r: Result<Vec<FastaRecord>, ParseError>)
    ensures
        fasta_refused(content@) ==> (r matches Err(ParseError::InvalidFormat(m)) && m@
            == "FASTA content must start with '>'"@),
        !fasta_refused(content@) ==> (r matches Ok(v) && record_views(v@) == fasta_records(
            content@,
        )),
{
    let chars = chars_of(content);
    parse_fasta_chars(&chars)
}

} // verus!
