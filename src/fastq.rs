use vstd::prelude::*;
use vstd::utf8::encode_utf8;
use crate::fasta::{clean_sequence, ParseError};
use crate::text::{
    chars_of, decimal, decimal_spec, extend_chars, lines_spec, opt_chars_view, opt_view,
    split_lines, split_once_ws, split_once_ws_spec, string_of, strip_ws, strip_ws_spec, to_upper,
    trim, trim_spec, views,
};

verus! {

/// One FASTQ entry. The quality line holds one Phred+33 character per base.
#[derive(Debug, Clone)]
pub struct FastqRecord {
    pub id: String,
    pub description: Option<String>,
    pub sequence: String,
    pub quality: String,
}

pub struct FastqRecordView {
    pub id: Seq<char>,
    pub description: Option<Seq<char>>,
    pub sequence: Seq<char>,
    pub quality: Seq<char>,
}

impl View for FastqRecord {
    type V = FastqRecordView;

    open spec fn view(&self) -> FastqRecordView {
        FastqRecordView {
            id: self.id@,
            description: opt_view(self.description),
            sequence: self.sequence@,
            quality: self.quality@,
        }
    }
}

/// A parse error with its message as characters.
pub enum ParseErrorView {
    InvalidFormat(Seq<char>),
    MissingField(Seq<char>),
    LengthMismatch(Seq<char>),
    IoError(Seq<char>),
}

impl View for ParseError {
    type V = ParseErrorView;

    open spec fn view(&self) -> ParseErrorView {
        match self {
            ParseError::InvalidFormat(m) => ParseErrorView::InvalidFormat(m@),
            ParseError::MissingField(m) => ParseErrorView::MissingField(m@),
            ParseError::LengthMismatch(m) => ParseErrorView::LengthMismatch(m@),
            ParseError::IoError(m) => ParseErrorView::IoError(m@),
        }
    }
}

/// Length of a text in UTF-8 bytes, as `str::len` counts it.
pub open spec fn byte_len(s: Seq<char>) -> nat {
    (encode_utf8(s).len() as usize) as nat
}

pub open spec fn mismatch_message(a: nat, b: nat) -> Seq<char> {
    "Sequence length ("@ + decimal_spec(a) + ") != quality length ("@ + decimal_spec(b) + ")"@
}

/// A record is made when sequence and quality have the same length in bytes;
/// the sequence is then upper-cased and both lose their white space.
pub open spec fn fastq_record_spec(
    id: Seq<char>,
    description: Option<Seq<char>>,
    sequence: Seq<char>,
    quality: Seq<char>,
) -> Result<FastqRecordView, ParseErrorView> {
    if byte_len(sequence) != byte_len(quality) {
        Err(
            ParseErrorView::LengthMismatch(
                mismatch_message(byte_len(sequence), byte_len(quality)),
            ),
        )
    } else {
        Ok(
            FastqRecordView {
                id,
                description,
                sequence: clean_sequence(sequence),
                quality: strip_ws_spec(quality),
            },
        )
    }
}

pub open spec fn result_view(r: Result<FastqRecord, ParseError>) -> Result<
    FastqRecordView,
    ParseErrorView,
> {
    match r {
        Ok(v) => Ok(v@),
        Err(e) => Err(e@),
    }
}

/// Phred score of one quality byte: the byte less 33, floored at zero.
pub open spec fn phred(b: u8) -> u8 {
    if b >= 33 {
        (b - 33) as u8
    } else {
        0
    }
}

pub open spec fn is_ascii_text(s: Seq<char>) -> bool {
    forall|i: int| 0 <= i < s.len() ==> (#[trigger] s[i] as u32) < 128
}

/// Phred scores of a quality text, one per character.
pub open spec fn scores_of(q: Seq<char>) -> Seq<u8> {
    Seq::new(q.len(), |i: int| phred(q[i] as u8))
}

/// Number of leading scores at or above the threshold.
pub open spec fn good_prefix(s: Seq<u8>, min: u8, k: int) -> bool {
    0 <= k <= s.len() && (forall|j: int| 0 <= j < k ==> s[j] >= min) && (k == s.len() || s[k]
        < min)
}

/// Position just after the last score at or above the threshold (0 if none).
pub open spec fn good_end(s: Seq<u8>, min: u8, e: int) -> bool {
    0 <= e <= s.len() && (forall|j: int| e <= j < s.len() ==> s[j] < min) && (e == 0 || s[e - 1]
        >= min)
}

impl FastqRecord {
    pub fn new(id: String, description: Option<String>, sequence: String, quality: String) -> (r:
        Result<Self, ParseError>)
        ensures
            result_view(r) == fastq_record_spec(
                id@,
                opt_view(description),
                sequence@,
                quality@,
            ),
    {
        let ss = sequence.as_str();
        let qs = quality.as_str();
        let sl = ss.len();
        let ql = qs.len();
        proof {
            assert(sl == byte_len(sequence@));
            assert(ql == byte_len(quality@));
        }
        if sl != ql {
            let mut m = chars_of("Sequence length (");
            let d1 = decimal(sl);
            extend_chars(&mut m, &d1);
            let mid = chars_of(") != quality length (");
            extend_chars(&mut m, &mid);
            let d2 = decimal(ql);
            extend_chars(&mut m, &d2);
            let end = chars_of(")");
            extend_chars(&mut m, &end);
            return Err(ParseError::LengthMismatch(string_of(&m)));
        }
        let upper = to_upper(sequence.as_str());
        let uc = chars_of(upper.as_str());
        let sc = strip_ws(&uc);
        let qc = chars_of(quality.as_str());
        let qw = strip_ws(&qc);
        Ok(FastqRecord { id, description, sequence: string_of(&sc), quality: string_of(&qw) })
    }

    /// Phred+33 scores of the quality bytes.
    pub fn get_quality_scores(&self) -> (r: Vec<u8>)
        ensures
            r@ == encode_utf8(self.quality@).map_values(|b: u8| phred(b)),
    {
        let bytes = self.quality.as_str().as_bytes();
        let mut r: Vec<u8> = Vec::new();
        let mut i: usize = 0;
        while i < bytes.len()
            invariant
                i <= bytes@.len(),
                bytes@ == encode_utf8(self.quality@),
                r@ == bytes@.take(i as int).map_values(|b: u8| phred(b)),
            decreases bytes.len() - i,
        {
            let b = bytes[i];
            let p = if b >= 33 {
                b - 33
            } else {
                0
            };
            r.push(p);
            proof {
                assert(bytes@.take(i + 1) == bytes@.take(i as int).push(b));
                assert(r@ =~= bytes@.take(i + 1).map_values(|b: u8| phred(b)));
            }
            i += 1;
        }
        proof {
            assert(bytes@.take(bytes@.len() as int) == bytes@);
        }
        r
    }

    /// Trims by quality: `k` is the length of the leading run of scores at
    /// or above `min_quality`, `e` the end of the last such score. Bases
    /// `k..e` are kept when `k < e`; all are kept when every score passes;
    /// otherwise both texts become empty.
    pub fn trim_by_quality(&mut self, min_quality: u8)
        requires
            is_ascii_text(old(self).quality@),
            is_ascii_text(old(self).sequence@),
            old(self).sequence@.len() == old(self).quality@.len(),
        ensures
            final(self).id == old(self).id,
            final(self).description == old(self).description,
            exists|k: int, e: int|
                #![trigger good_prefix(scores_of(old(self).quality@), min_quality, k), good_end(scores_of(old(self).quality@), min_quality, e)]
                {
                    &&& good_prefix(scores_of(old(self).quality@), min_quality, k)
                    &&& good_end(scores_of(old(self).quality@), min_quality, e)
                    &&& if k < e {
                        final(self).sequence@ == old(self).sequence@.subrange(k, e)
                            && final(self).quality@ == old(self).quality@.subrange(k, e)
                    } else if k == old(self).quality@.len() {
                        final(self).sequence@ == old(self).sequence@ && final(self).quality@
                            == old(self).quality@
                    } else {
                        final(self).sequence@.len() == 0 && final(self).quality@.len() == 0
                    }
                },
    {
        let q = chars_of(self.quality.as_str());
        let s = chars_of(self.sequence.as_str());
        let ghost sc = scores_of(q@);
        let mut k: usize = 0;
        while k < q.len() && phred_exec(q[k]) >= min_quality
            invariant
                k <= q@.len(),
                q@ == old(self).quality@,
                is_ascii_text(q@),
                sc == scores_of(q@),
                forall|j: int| 0 <= j < k ==> sc[j] >= min_quality,
            decreases q.len() - k,
        {
            k += 1;
        }
        let mut e: usize = q.len();
        while e > 0 && phred_exec(q[e - 1]) < min_quality
            invariant
                e <= q@.len(),
                q@ == old(self).quality@,
                is_ascii_text(q@),
                sc == scores_of(q@),
                forall|j: int| e <= j < q@.len() ==> sc[j] < min_quality,
            decreases e,
        {
            e -= 1;
        }
        proof {
            assert(good_prefix(sc, min_quality, k as int));
            assert(good_end(sc, min_quality, e as int));
        }
        if k < e {
            let ns = crate::text::slice_copy(&s, k, e);
            let nq = crate::text::slice_copy(&q, k, e);
            self.sequence = string_of(&ns);
            self.quality = string_of(&nq);
        } else if k == q.len() {
        } else {
            self.sequence = String::new();
            self.quality = String::new();
        }
        proof {
            let kk = k as int;
            let ee = e as int;
            assert({
                &&& good_prefix(scores_of(old(self).quality@), min_quality, kk)
                &&& good_end(scores_of(old(self).quality@), min_quality, ee)
                &&& if kk < ee {
                    self.sequence@ == old(self).sequence@.subrange(kk, ee) && self.quality@
                        == old(self).quality@.subrange(kk, ee)
                } else if kk == old(self).quality@.len() {
                    self.sequence@ == old(self).sequence@ && self.quality@ == old(self).quality@
                } else {
                    self.sequence@.len() == 0 && self.quality@.len() == 0
                }
            });
            assert(exists|k: int, e: int|
                #![trigger good_prefix(scores_of(old(self).quality@), min_quality, k), good_end(scores_of(old(self).quality@), min_quality, e)]
                {
                    &&& good_prefix(scores_of(old(self).quality@), min_quality, k)
                    &&& good_end(scores_of(old(self).quality@), min_quality, e)
                    &&& if k < e {
                        self.sequence@ == old(self).sequence@.subrange(k, e) && self.quality@
                            == old(self).quality@.subrange(k, e)
                    } else if k == old(self).quality@.len() {
                        self.sequence@ == old(self).sequence@ && self.quality@ == old(self).quality@
                    } else {
                        self.sequence@.len() == 0 && self.quality@.len() == 0
                    }
                });
        }
    }

    /// Cuts both texts to at most `max_length` characters.
    pub fn trim_to_length(&mut self, max_length: usize)
        requires
            is_ascii_text(old(self).quality@),
            is_ascii_text(old(self).sequence@),
        ensures
            final(self).id == old(self).id,
            final(self).description == old(self).description,
            old(self).sequence@.len() > max_length ==> final(self).sequence@
                == old(self).sequence@.take(max_length as int) && final(self).quality@ == (if old(
                self,
            ).quality@.len() > max_length {
                old(self).quality@.take(max_length as int)
            } else {
                old(self).quality@
            }),
            old(self).sequence@.len() <= max_length ==> final(self).sequence@
                == old(self).sequence@ && final(self).quality@ == old(self).quality@,
    {
        let s = chars_of(self.sequence.as_str());
        if s.len() > max_length {
            let ns = crate::text::slice_copy(&s, 0, max_length);
            self.sequence = string_of(&ns);
            let q = chars_of(self.quality.as_str());
            if q.len() > max_length {
                let nq = crate::text::slice_copy(&q, 0, max_length);
                self.quality = string_of(&nq);
            }
        }
    }
}

fn phred_exec(c: char) -> (r: u8)
    requires
        (c as u32) < 128,
    ensures
        r == phred(c as u8),
{
    let b = c as u8;
    if b >= 33 {
        b - 33
    } else {
        0
    }
}

pub open spec fn starts_with(l: Seq<char>, c: char) -> bool {
    l.len() > 0 && l[0] == c
}

pub open spec fn at_message(line_no: nat, line: Seq<char>) -> Seq<char> {
    "Expected '@' at line "@ + decimal_spec(line_no) + ", found '"@ + line + "'"@
}

/// The record that starts at a non-blank line `i`: a header line marked
/// '@', a sequence line, a line marked '+', then the quality line.
pub open spec fn fastq_entry_spec(lines: Seq<Seq<char>>, i: nat) -> Result<
    FastqRecordView,
    ParseErrorView,
> {
    if !starts_with(lines[i as int], '@') {
        Err(ParseErrorView::InvalidFormat(at_message(i + 1, lines[i as int])))
    } else if i + 1 >= lines.len() {
        Err(ParseErrorView::MissingField("sequence"@))
    } else if i + 2 >= lines.len() || !starts_with(lines[i as int + 2], '+') {
        Err(ParseErrorView::InvalidFormat("Expected '+' separator"@))
    } else if i + 3 >= lines.len() {
        Err(ParseErrorView::MissingField("quality"@))
    } else {
        let parts = split_once_ws_spec(lines[i as int].skip(1));
        let desc = match parts.1 {
            Some(d) => if d.len() > 0 {
                Some(d)
            } else {
                None
            },
            None => None,
        };
        fastq_record_spec(parts.0, desc, trim_spec(lines[i as int + 1]), trim_spec(lines[i as int + 3]))
    }
}

/// The records of a FASTQ text read from line `i` on: blank lines are
/// skipped, and each record takes four lines.
pub open spec fn fastq_from(lines: Seq<Seq<char>>, i: nat) -> Result<
    Seq<FastqRecordView>,
    ParseErrorView,
>
    decreases lines.len() - i,
{
    if i >= lines.len() {
        Ok(Seq::empty())
    } else if trim_spec(lines[i as int]).len() == 0 {
        fastq_from(lines, i + 1)
    } else {
        match fastq_entry_spec(lines, i) {
            Err(e) => Err(e),
            Ok(rec) => match fastq_from(lines, i + 4) {
                Ok(rest) => Ok(seq![rec] + rest),
                Err(e) => Err(e),
            },
        }
    }
}

pub open spec fn fastq_records(content: Seq<char>) -> Result<Seq<FastqRecordView>, ParseErrorView> {
    fastq_from(lines_spec(content), 0)
}

pub open spec fn fastq_views(v: Seq<FastqRecord>) -> Seq<FastqRecordView> {
    v.map_values(|r: FastqRecord| r@)
}

pub open spec fn fastq_result_view(r: Result<Vec<FastqRecord>, ParseError>) -> Result<
    Seq<FastqRecordView>,
    ParseErrorView,
> {
    match r {
        Ok(v) => Ok(fastq_views(v@)),
        Err(e) => Err(e@),
    }
}

/// The result of the rest of the text, put after the records read so far.
pub open spec fn prepend(done: Seq<FastqRecordView>, rest: Result<Seq<FastqRecordView>, ParseErrorView>) -> Result<
    Seq<FastqRecordView>,
    ParseErrorView,
> {
    match rest {
        Ok(r) => Ok(done + r),
        Err(e) => Err(e),
    }
}

fn line_message(line_no: usize, line: &[char]) -> (r: String)
    ensures
        r@ == at_message(line_no as nat, line@),
{
    let mut m = chars_of("Expected '@' at line ");
    let d = decimal(line_no);
    extend_chars(&mut m, &d);
    let mid = chars_of(", found '");
    extend_chars(&mut m, &mid);
    extend_chars(&mut m, line);
    let end = chars_of("'");
    extend_chars(&mut m, &end);
    string_of(&m)
}

fn read_entry(lines: &Vec<Vec<char>>, i: usize) -> (r: Result<FastqRecord, ParseError>)
    requires
        i < lines@.len(),
    ensures
        result_view(r) == fastq_entry_spec(views(lines@), i as nat),
{
    let ghost ls = views(lines@);
    let n = lines.len();
    proof {
        assert(ls[i as int] == lines@[i as int]@);
    }
    if !(lines[i].len() > 0 && lines[i][0] == '@') {
        return Err(ParseError::InvalidFormat(line_message(i + 1, &lines[i])));
    }
    if i + 1 >= n {
        return Err(ParseError::MissingField(String::from_str("sequence")));
    }
    proof {
        assert(ls[i + 1] == lines@[i + 1]@);
    }
    if i + 2 >= n || !(lines[i + 2].len() > 0 && lines[i + 2][0] == '+') {
        proof {
            if i + 2 < n {
                assert(ls[i + 2] == lines@[i + 2]@);
            }
        }
        return Err(ParseError::InvalidFormat(String::from_str("Expected '+' separator")));
    }
    proof {
        assert(ls[i + 2] == lines@[i + 2]@);
    }
    if i + 3 >= n {
        return Err(ParseError::MissingField(String::from_str("quality")));
    }
    proof {
        assert(ls[i + 3] == lines@[i + 3]@);
    }
    let header = crate::text::slice_copy(&lines[i], 1, lines[i].len());
    proof {
        assert(header@ == ls[i as int].skip(1));
    }
    let (id, d) = split_once_ws(&header);
    let desc = match d {
        Some(v) => if v.len() > 0 {
            Some(string_of(&v))
        } else {
            None
        },
        None => None,
    };
    let sq = trim(&lines[i + 1]);
    let ql = trim(&lines[i + 3]);
    FastqRecord::new(string_of(&id), desc, string_of(&sq), string_of(&ql))
}

#[verifier::rlimit(40)]
pub fn parse_fastq_chars(content: &[char]) -> (r: Result<Vec<FastqRecord>, ParseError>)
    ensures
        fastq_result_view(r) == fastq_records(content@),
{
    let lines = split_lines(content);
    let ghost ls = lines_spec(content@);
    let mut records: Vec<FastqRecord> = Vec::new();
    let mut i: usize = 0;
    proof {
        assert(fastq_views(records@) =~= Seq::<FastqRecordView>::empty());
        assert(prepend(Seq::empty(), fastq_from(ls, 0)) == fastq_from(ls, 0)) by {
            match fastq_from(ls, 0) {
                Ok(r) => {
                    assert(Seq::<FastqRecordView>::empty() + r =~= r);
                },
                Err(e) => {},
            }
        }
    }
    while i < lines.len()
        invariant
            views(lines@) == ls,
            i <= lines@.len() + 4,
            fastq_records(content@) == fastq_from(ls, 0),
            fastq_from(ls, 0) == prepend(fastq_views(records@), fastq_from(ls, i as nat)),
        decreases lines.len() + 4 - i,
    {
        proof {
            assert(ls[i as int] == lines@[i as int]@);
        }
        let t = trim(&lines[i]);
        if t.len() == 0 {
            i += 1;
            continue;
        }
        proof {
            assert(fastq_from(ls, i as nat) == match fastq_entry_spec(ls, i as nat) {
                Err(e) => Err(e),
                Ok(rec) => match fastq_from(ls, (i + 4) as nat) {
                    Ok(rest) => Ok(seq![rec] + rest),
                    Err(e) => Err(e),
                },
            });
        }
        let rec = read_entry(&lines, i);
        match rec {
            Err(e) => {
                proof {
                    assert(fastq_entry_spec(ls, i as nat) == Err::<FastqRecordView, ParseErrorView>(e@));
                    assert(fastq_from(ls, i as nat) == Err::<Seq<FastqRecordView>, ParseErrorView>(e@));
                    assert(fastq_from(ls, 0) == Err::<Seq<FastqRecordView>, ParseErrorView>(e@));
                    assert(fastq_result_view(Err::<Vec<FastqRecord>, ParseError>(e)) == Err::<Seq<FastqRecordView>, ParseErrorView>(e@));
                }
                return Err(e);
            },
            Ok(rec) => {
                let ghost before = fastq_views(records@);
                records.push(rec);
                proof {
                    assert(fastq_views(records@) =~= before.push(rec@));
                    match fastq_from(ls, (i + 4) as nat) {
                        Ok(rest) => {
                            assert(before + (seq![rec@] + rest) =~= before.push(rec@) + rest);
                        },
                        Err(e) => {},
                    }
                }
            },
        }
        i += 4;
    }
    proof {
        match fastq_from(ls, i as nat) {
            Ok(rest) => {
                assert(rest =~= Seq::<FastqRecordView>::empty());
                assert(fastq_views(records@) + rest =~= fastq_views(records@));
            },
            Err(e) => {},
        }
    }
    Ok(records)
}

/// Reads the records of a FASTQ text.
pub fn parse_fastq(content: &str) -> (r: Result<Vec<FastqRecord>, ParseError>)
    ensures
        fastq_result_view(r) == fastq_records(content@),
{
    let chars = chars_of(content);
    parse_fastq_chars(&chars)
}

} // verus!
