use vstd::prelude::*;
use crate::domain::{Sequence, SequenceView, Topology, sequence_views};
use crate::text::{
    chars_of, extend_chars, join_space, join_words_from, lines_spec, split_lines, split_words,
    string_of, trim, trim_spec, views, words,
};

verus! {

/// Errors of the sequence readers.
#[derive(Debug, Clone, PartialEq, Eq)]
pub enum ParserError {
    InvalidFormat(String),
    MissingField(String),
    LengthMismatch(String),
    IoError(String),
}

/// Reads sequences out of a text.
pub trait SequenceParser {
    type Error;

    fn parse(&self, content: &str) -> Result<Vec<Sequence>, Self::Error>;
}

/// Identifier and name of a header body split into words: the first word
/// (or "unknown" when there is none) and the other words joined by spaces.
pub open spec fn header_words_spec(body: Seq<char>) -> (Seq<char>, Seq<char>) {
    let w = words(body);
    if w.len() == 0 {
        ("unknown"@, Seq::empty())
    } else {
        (w[0], join_space(w.skip(1)))
    }
}

pub fn header_words(body: &[char]) -> (r: (Vec<char>, Vec<char>))
    ensures
        r.0@ == header_words_spec(body@).0,
        r.1@ == header_words_spec(body@).1,
{
    let w = split_words(body);
    if w.len() == 0 {
        (chars_of("unknown"), Vec::new())
    } else {
        let first = crate::text::slice_copy(&w[0], 0, w[0].len());
        proof {
            assert(first@ == views(w@)[0]);
        }
        (first, join_words_from(&w, 1))
    }
}

pub open spec fn linear(id: Seq<char>, name: Seq<char>, sequence: Seq<char>) -> SequenceView {
    SequenceView { id, name, sequence, topology: Topology::Linear }
}

pub struct SimpleScan {
    pub id: Seq<char>,
    pub name: Seq<char>,
    pub seq: Seq<char>,
    pub out: Seq<SequenceView>,
}

/// One line of the simple FASTA reader: lines are trimmed, a '>' line
/// closes the current entry (when it has an identifier) and opens a new one.
pub open spec fn simple_fasta_step(st: SimpleScan, raw: Seq<char>) -> SimpleScan {
    let line = trim_spec(raw);
    if line.len() > 0 && line[0] == '>' {
        let h = header_words_spec(line.skip(1));
        SimpleScan {
            id: h.0,
            name: h.1,
            seq: Seq::empty(),
            out: if st.id.len() > 0 {
                st.out.push(linear(st.id, st.name, st.seq))
            } else {
                st.out
            },
        }
    } else if line.len() > 0 {
        SimpleScan { seq: st.seq + line, ..st }
    } else {
        st
    }
}

pub open spec fn simple_fasta_scan(lines: Seq<Seq<char>>) -> SimpleScan
    decreases lines.len(),
{
    if lines.len() == 0 {
        SimpleScan { id: Seq::empty(), name: Seq::empty(), seq: Seq::empty(), out: Seq::empty() }
    } else {
        simple_fasta_step(simple_fasta_scan(lines.drop_last()), lines.last())
    }
}

/// The linear sequences of a FASTA text.
pub open spec fn fasta_sequences_spec(content: Seq<char>) -> Seq<SequenceView> {
    let st = simple_fasta_scan(lines_spec(content));
    if st.id.len() > 0 {
        st.out.push(linear(st.id, st.name, st.seq))
    } else {
        st.out
    }
}

fn push_sequence(out: &mut Vec<Sequence>, id: &Vec<char>, name: &Vec<char>, seq: &Vec<char>)
    ensures
        sequence_views(final(out)@) == sequence_views(old(out)@).push(linear(id@, name@, seq@)),
{
    let s = Sequence {
        id: string_of(id),
        name: string_of(name),
        sequence: string_of(seq),
        topology: Topology::Linear,
    };
    let ghost before = out@;
    out.push(s);
    proof {
        assert(sequence_views(out@) =~= sequence_views(before).push(s@));
    }
}

/// Reads the entries of a FASTA text as linear sequences.
pub fn read_fasta_sequences(content: &str) -> (r: Vec<Sequence>)
    ensures
        sequence_views(r@) == fasta_sequences_spec(content@),
{
    let chars = chars_of(content);
    let lines = split_lines(&chars);
    let ghost ls = lines_spec(content@);
    let mut out: Vec<Sequence> = Vec::new();
    let mut id: Vec<char> = Vec::new();
    let mut name: Vec<char> = Vec::new();
    let mut seq: Vec<char> = Vec::new();
    let mut i: usize = 0;
    proof {
        assert(ls.take(0) =~= Seq::<Seq<char>>::empty());
        assert(sequence_views(out@) =~= Seq::<SequenceView>::empty());
    }
    while i < lines.len()
        invariant
            i <= lines@.len(),
            views(lines@) == ls,
            simple_fasta_scan(ls.take(i as int)) == (SimpleScan {
                id: id@,
                name: name@,
                seq: seq@,
                out: sequence_views(out@),
            }),
        decreases lines.len() - i,
    {
        proof {
            assert(ls.take(i + 1).drop_last() == ls.take(i as int));
            assert(ls[i as int] == lines@[i as int]@);
        }
        let line = trim(&lines[i]);
        if line.len() > 0 && line[0] == '>' {
            if id.len() > 0 {
                push_sequence(&mut out, &id, &name, &seq);
            }
            let body = crate::text::slice_copy(&line, 1, line.len());
            let (hid, hname) = header_words(&body);
            id = hid;
            name = hname;
            seq = Vec::new();
            proof {
                assert(seq@ =~= Seq::<char>::empty());
            }
        } else if line.len() > 0 {
            extend_chars(&mut seq, &line);
        }
        i += 1;
    }
    proof {
        assert(ls.take(ls.len() as int) == ls);
    }
    if id.len() > 0 {
        push_sequence(&mut out, &id, &name, &seq);
    }
    out
}

/// The simple FASTQ reader from line `i` on: while four lines remain, the
/// first must start with '@'; `None` when one does not.
pub open spec fn fastq_sequences_from(lines: Seq<Seq<char>>, i: nat) -> Option<Seq<SequenceView>>
    decreases lines.len() - i,
{
    if i + 3 >= lines.len() {
        Some(Seq::empty())
    } else if !(lines[i as int].len() > 0 && lines[i as int][0] == '@') {
        None
    } else {
        let h = header_words_spec(lines[i as int].skip(1));
        match fastq_sequences_from(lines, i + 4) {
            Some(rest) => Some(seq![linear(h.0, h.1, lines[i as int + 1])] + rest),
            None => None,
        }
    }
}

pub open spec fn fastq_sequences_spec(content: Seq<char>) -> Option<Seq<SequenceView>> {
    fastq_sequences_from(lines_spec(content), 0)
}

/// Reads the entries of a FASTQ text as linear sequences; `None` when a
/// record does not start with '@'.
pub fn read_fastq_sequences(content: &str) -> (r: Option<Vec<Sequence>>)
    ensures
        r is None <==> fastq_sequences_spec(content@) is None,
        r is Some ==> fastq_sequences_spec(content@) == Some(sequence_views(r->0@)),
{
    let chars = chars_of(content);
    let lines = split_lines(&chars);
    let ghost ls = lines_spec(content@);
    let mut out: Vec<Sequence> = Vec::new();
    let mut i: usize = 0;
    proof {
        assert(sequence_views(out@) =~= Seq::<SequenceView>::empty());
        match fastq_sequences_from(ls, 0) {
            Some(r) => {
                assert(Seq::<SequenceView>::empty() + r =~= r);
            },
            None => {},
        }
    }
    while lines.len() >= 4 && i < lines.len() - 3
        invariant
            i <= lines@.len(),
            views(lines@) == ls,
            fastq_sequences_spec(content@) == fastq_sequences_from(ls, 0),
            fastq_sequences_from(ls, 0) == match fastq_sequences_from(ls, i as nat) {
                Some(rest) => Some(sequence_views(out@) + rest),
                None => None::<Seq<SequenceView>>,
            },
        decreases lines.len() - i,
    {
        proof {
            assert(ls[i as int] == lines@[i as int]@);
            assert(ls[i + 1] == lines@[i + 1]@);
        }
        if !(lines[i].len() > 0 && lines[i][0] == '@') {
            proof {
                assert(fastq_sequences_from(ls, i as nat) is None);
            }
            return None;
        }
        let body = crate::text::slice_copy(&lines[i], 1, lines[i].len());
        let (id, name) = header_words(&body);
        let ghost before = sequence_views(out@);
        push_sequence(&mut out, &id, &name, &lines[i + 1]);
        proof {
            match fastq_sequences_from(ls, (i + 4) as nat) {
                Some(rest) => {
                    assert(before + (seq![linear(id@, name@, lines@[i + 1]@)] + rest)
                        =~= before.push(linear(id@, name@, lines@[i + 1]@)) + rest);
                },
                None => {},
            }
        }
        i += 4;
    }
    proof {
        assert(sequence_views(out@) + Seq::<SequenceView>::empty() =~= sequence_views(out@));
    }
    Some(out)
}

/// Reads FASTA entries; a text without any is refused.
pub struct FastaParser;

/// Reads FASTQ entries, four lines each; a text without any is refused.
pub struct FastqParser;

impl FastaParser {
    pub fn parse_text(&self, content: &str) -> (r: Result<Vec<Sequence>, ParserError>)
        ensures
            fasta_sequences_spec(content@).len() == 0 ==> (r matches Err(
                ParserError::InvalidFormat(m),
            ) && m@ == "No sequences found"@),
            fasta_sequences_spec(content@).len() > 0 ==> (r matches Ok(v) && sequence_views(v@)
                == fasta_sequences_spec(content@)),
    {
        let v = read_fasta_sequences(content);
        if v.len() == 0 {
            return Err(ParserError::InvalidFormat(String::from_str("No sequences found")));
        }
        Ok(v)
    }
}

impl FastqParser {
    pub fn parse_text(&self, content: &str) -> (r: Result<Vec<Sequence>, ParserError>)
        ensures
            fastq_sequences_spec(content@) is None ==> (r matches Err(
                ParserError::InvalidFormat(m),
            ) && m@ == "Invalid FASTQ format"@),
            fastq_sequences_spec(content@) is Some && fastq_sequences_spec(content@)->0.len() == 0
                ==> (r matches Err(
                ParserError::InvalidFormat(m),
            ) && m@ == "No sequences found"@),
            fastq_sequences_spec(content@) is Some && fastq_sequences_spec(content@)->0.len() > 0
                ==> (r matches Ok(v) && sequence_views(v@) == fastq_sequences_spec(content@)->0),
    {
        match read_fastq_sequences(content) {
            None => Err(ParserError::InvalidFormat(String::from_str("Invalid FASTQ format"))),
            Some(v) => {
                if v.len() == 0 {
                    return Err(ParserError::InvalidFormat(String::from_str("No sequences found")));
                }
                Ok(v)
            },
        }
    }
}

impl SequenceParser for FastaParser {
    type Error = ParserError;

    fn parse(&self, content: &str) -> Result<Vec<Sequence>, ParserError> {
        self.parse_text(content)
    }
}

impl SequenceParser for FastqParser {
    type Error = ParserError;

    fn parse(&self, content: &str) -> Result<Vec<Sequence>, ParserError> {
        self.parse_text(content)
    }
}

} // verus!
