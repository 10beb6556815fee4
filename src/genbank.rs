use vstd::prelude::*;
use crate::domain::{Sequence, SequenceView, Topology};
use crate::fastq::byte_len;
use crate::text::{
    chars_of, extend_chars, lines_spec, split_lines, split_words, string_of, to_upper, trim,
    trim_spec, upper_of, views, words,
};

verus! {

/// Whether `char::is_alphabetic` holds (the Unicode Alphabetic property).
pub uninterp spec fn alphabetic(c: char) -> bool;

/// Relies on `char::is_alphabetic`; on ASCII it holds exactly of the letters.
#[verifier::external_body]
fn is_alpha(c: char) -> (r: bool)
    ensures
        r == alphabetic(c),
        (c as u32) < 128 ==> (r <==> (('a' <= c && c <= 'z') || ('A' <= c && c <= 'Z'))),
{
    c.is_alphabetic()
}

/// What `str::to_lowercase` makes of a text (full Unicode case mapping).
pub uninterp spec fn lower_of(s: Seq<char>) -> Seq<char>;

/// Relies on `str::to_lowercase`: the result depends on the characters alone.
#[verifier::external_body]
fn to_lower(s: &str) -> (r: String)
    ensures
        r@ == lower_of(s@),
{
    s.to_lowercase()
}

/// A feature of the feature table, with its qualifiers in order of first
/// appearance; a repeated qualifier keeps its last value.
#[derive(Debug, Clone)]
pub struct GenBankFeature {
    pub feature_type: String,
    pub location: String,
    pub qualifiers: Vec<(String, String)>,
}

pub struct FeatureView {
    pub feature_type: Seq<char>,
    pub location: Seq<char>,
    pub qualifiers: Seq<(Seq<char>, Seq<char>)>,
}

pub open spec fn pair_views(q: Seq<(String, String)>) -> Seq<(Seq<char>, Seq<char>)> {
    q.map_values(|p: (String, String)| (p.0@, p.1@))
}

impl View for GenBankFeature {
    type V = FeatureView;

    open spec fn view(&self) -> FeatureView {
        FeatureView {
            feature_type: self.feature_type@,
            location: self.location@,
            qualifiers: pair_views(self.qualifiers@),
        }
    }
}

/// A GenBank record.
#[derive(Debug, Clone)]
pub struct GenBankRecord {
    pub locus: String,
    pub definition: String,
    pub accession: String,
    pub version: String,
    pub source: String,
    pub organism: String,
    pub length: usize,
    pub topology: Topology,
    pub molecule_type: String,
    pub division: String,
    pub date: String,
    pub features: Vec<GenBankFeature>,
    pub sequence: String,
}

pub struct RecordView {
    pub locus: Seq<char>,
    pub definition: Seq<char>,
    pub accession: Seq<char>,
    pub version: Seq<char>,
    pub source: Seq<char>,
    pub organism: Seq<char>,
    pub topology: Topology,
    pub molecule_type: Seq<char>,
    pub division: Seq<char>,
    pub date: Seq<char>,
    pub features: Seq<FeatureView>,
    pub sequence: Seq<char>,
}

pub open spec fn feature_views(f: Seq<GenBankFeature>) -> Seq<FeatureView> {
    f.map_values(|x: GenBankFeature| x@)
}

impl View for GenBankRecord {
    type V = RecordView;

    open spec fn view(&self) -> RecordView {
        RecordView {
            locus: self.locus@,
            definition: self.definition@,
            accession: self.accession@,
            version: self.version@,
            source: self.source@,
            organism: self.organism@,
            topology: self.topology,
            molecule_type: self.molecule_type@,
            division: self.division@,
            date: self.date@,
            features: feature_views(self.features@),
            sequence: self.sequence@,
        }
    }
}

pub open spec fn has_prefix_spec(s: Seq<char>, p: Seq<char>) -> bool {
    s.len() >= p.len() && s.take(p.len() as int) == p
}

pub fn has_prefix(s: &[char], p: &str) -> (r: bool)
    ensures
        r == has_prefix_spec(s@, p@),
{
    let pc = chars_of(p);
    if s.len() < pc.len() {
        return false;
    }
    let mut i: usize = 0;
    while i < pc.len()
        invariant
            i <= pc@.len() <= s@.len(),
            pc@ == p@,
            forall|j: int| 0 <= j < i ==> s@[j] == pc@[j],
        decreases pc.len() - i,
    {
        if s[i] != pc[i] {
            return false;
        }
        i += 1;
    }
    assert(s@.take(pc@.len() as int) =~= pc@);
    true
}

pub open spec fn contains_spec(s: Seq<char>, t: Seq<char>) -> bool {
    exists|i: int| 0 <= i && i + t.len() <= s.len() && #[trigger] s.subrange(i, i + t.len()) == t
}

pub fn contains_text(s: &[char], t: &str) -> (r: bool)
    ensures
        r == contains_spec(s@, t@),
{
    let tc = chars_of(t);
    contains_chars(s, &tc)
}

/// Whether `t` occurs in `s`.
pub fn contains_chars(s: &[char], t: &[char]) -> (r: bool)
    ensures
        r == contains_spec(s@, t@),
{
    let tc = t;
    if tc.len() > s.len() {
        return false;
    }
    if tc.len() == 0 {
        assert(s@.subrange(0, 0int + t@.len()) =~= t@);
        return true;
    }
    let last = s.len() - tc.len();
    let mut i: usize = 0;
    while i <= last
        invariant
            tc@ == t@,
            0 < tc@.len() <= s@.len(),
            last == s@.len() - tc@.len(),
            i <= last + 1,
            forall|k: int| 0 <= k < i ==> #[trigger] s@.subrange(k, k + t@.len()) != t@,
        decreases last + 1 - i,
    {
        let part = crate::text::slice_copy(s, i, s.len() - (last - i));
        assert(s@.len() - (last - i) == i + t@.len());
        if crate::nucleotide::chars_equal(&part, &tc) {
            assert(s@.subrange(i as int, i + t@.len()) == t@);
            return true;
        }
        i += 1;
    }
    proof {
        assert forall|k: int| 0 <= k && k + t@.len() <= s@.len() implies #[trigger] s@.subrange(
            k,
            k + t@.len(),
        ) != t@ by {
            assert(k < i);
        }
    }
    false
}

/// The value of a field line: the text after the field name (at `offset`),
/// trimmed; of an accession line only its first word.
pub open spec fn field_value_spec(line: Seq<char>, offset: nat, accession: bool) -> Seq<char> {
    let value = trim_spec(line.skip(offset as int));
    if accession && words(value).len() > 0 {
        words(value)[0]
    } else {
        value
    }
}

fn field_value(line: &[char], offset: usize, accession: bool) -> (r: Vec<char>)
    requires
        offset <= line@.len(),
    ensures
        r@ == field_value_spec(line@, offset as nat, accession),
{
    let rest = crate::text::slice_copy(line, offset, line.len());
    let value = trim(&rest);
    if accession {
        let w = split_words(&value);
        if w.len() > 0 {
            proof {
                assert(views(w@)[0] == w@[0]@);
            }
            return crate::text::slice_copy(&w[0], 0, w[0].len());
        }
    }
    value
}

/// Index of the first occurrence of a character, if any.
pub open spec fn first_index_of(s: Seq<char>, c: char, k: int) -> bool {
    0 <= k < s.len() && s[k] == c && forall|j: int| 0 <= j < k ==> s[j] != c
}

pub open spec fn has_char(s: Seq<char>, c: char) -> bool {
    exists|k: int| 0 <= k < s.len() && s[k] == c
}

pub open spec fn index_of_char(s: Seq<char>, c: char) -> int {
    choose|k: int| first_index_of(s, c, k)
}

fn find_char(s: &[char], c: char) -> (r: Option<usize>)
    ensures
        r is None <==> !has_char(s@, c),
        r is Some ==> r->0 == index_of_char(s@, c) && first_index_of(s@, c, r->0 as int),
{
    let mut k: usize = 0;
    while k < s.len()
        invariant
            k <= s@.len(),
            forall|j: int| 0 <= j < k ==> s@[j] != c,
        decreases s.len() - k,
    {
        if s[k] == c {
            proof {
                assert(first_index_of(s@, c, k as int));
                let kk = index_of_char(s@, c);
                assert(kk == k as int) by {
                    if kk < k {
                    } else if kk > k {
                    }
                }
            }
            return Some(k);
        }
        k += 1;
    }
    None
}

/// A feature line: its first word up to a space is the type, the trimmed
/// rest is the location; a line with no space starts no feature.
pub open spec fn feature_line_spec(line: Seq<char>) -> Option<FeatureView> {
    let t = trim_spec(line);
    if has_char(t, ' ') {
        let p = index_of_char(t, ' ');
        Some(
            FeatureView {
                feature_type: t.take(p),
                location: trim_spec(t.skip(p + 1)),
                qualifiers: Seq::empty(),
            },
        )
    } else {
        None
    }
}

fn parse_feature_line(line: &[char]) -> (r: Option<GenBankFeature>)
    ensures
        r is None <==> feature_line_spec(line@) is None,
        r is Some ==> feature_line_spec(line@) == Some(r->0@),
{
    let t = trim(line);
    match find_char(&t, ' ') {
        Some(p) => {
            let ft = crate::text::slice_copy(&t, 0, p);
            let rest = crate::text::slice_copy(&t, p + 1, t.len());
            let loc = trim(&rest);
            let f = GenBankFeature {
                feature_type: string_of(&ft),
                location: string_of(&loc),
                qualifiers: Vec::new(),
            };
            proof {
                assert(pair_views(f.qualifiers@) =~= Seq::<(Seq<char>, Seq<char>)>::empty());
            }
            Some(f)
        },
        None => None,
    }
}

/// Sets a qualifier: the first pair with the key gets the value, or the
/// pair is added at the end.
pub open spec fn qualifier_insert(
    q: Seq<(Seq<char>, Seq<char>)>,
    key: Seq<char>,
    value: Seq<char>,
) -> Seq<(Seq<char>, Seq<char>)> {
    if exists|j: int| 0 <= j < q.len() && q[j].0 == key {
        let j = choose|j: int|
            0 <= j < q.len() && q[j].0 == key && forall|i: int| 0 <= i < j ==> q[i].0 != key;
        q.update(j, (key, value))
    } else {
        q.push((key, value))
    }
}

/// A qualifier line "/key=value" or "/key" (then the value is "true"); a
/// value in double quotes loses them. Other lines change nothing.
pub open spec fn qualifier_spec(line: Seq<char>) -> Option<(Seq<char>, Seq<char>)> {
    let t = trim_spec(line);
    if t.len() > 0 && t[0] == '/' {
        if has_char(t, '=') {
            let q = index_of_char(t, '=');
            let v = t.skip(q + 1);
            let value = if v.len() >= 2 && v[0] == '"' && v.last() == '"' {
                v.subrange(1, v.len() - 1)
            } else {
                v
            };
            Some((t.subrange(1, q), value))
        } else {
            Some((t.skip(1), "true"@))
        }
    } else {
        None
    }
}

pub open spec fn qualifier_key(line: Seq<char>) -> Seq<char> {
    let q = qualifier_spec(line)->0;
    q.0
}

pub open spec fn qualifier_value(line: Seq<char>) -> Seq<char> {
    let q = qualifier_spec(line)->0;
    q.1
}

fn insert_qualifier(f: &mut GenBankFeature, key: Vec<char>, value: Vec<char>)
    ensures
        final(f).feature_type == old(f).feature_type,
        final(f).location == old(f).location,
        final(f)@.qualifiers == qualifier_insert(old(f)@.qualifiers, key@, value@),
{
    let k = string_of(&key);
    let v = string_of(&value);
    let ghost q = old(f)@.qualifiers;
    let mut j: usize = 0;
    while j < f.qualifiers.len()
        invariant
            j <= f.qualifiers@.len(),
            f == old(f),
            q == pair_views(f.qualifiers@),
            k@ == key@,
            v@ == value@,
            forall|i: int| 0 <= i < j ==> q[i].0 != key@,
        decreases f.qualifiers.len() - j,
    {
        if f.qualifiers[j].0 == k {
            proof {
                assert(q[j as int].0 == key@);
                let c = choose|c: int|
                    0 <= c < q.len() && q[c].0 == key@ && forall|i: int| 0 <= i < c ==> q[i].0
                        != key@;
                assert(c == j as int) by {
                    if c < j {
                    } else if c > j {
                    }
                }
            }
            let ghost before = f.qualifiers@;
            f.qualifiers.set(j, (k, v));
            proof {
                assert(f.qualifiers@ == before.update(j as int, (k, v)));
                assert(q == pair_views(before));
                assert forall|x: int| 0 <= x < q.len() implies #[trigger] pair_views(f.qualifiers@)[x]
                    == q.update(j as int, (key@, value@))[x] by {
                    if x == j {
                        assert(pair_views(f.qualifiers@)[x] == (k@, v@));
                    }
                }
                assert(pair_views(f.qualifiers@) =~= q.update(j as int, (key@, value@)));
            }
            return;
        }
        j += 1;
    }
    let ghost before = f.qualifiers@;
    f.qualifiers.push((k, v));
    proof {
        assert(pair_views(f.qualifiers@) =~= q.push((key@, value@)));
    }
}

fn parse_feature_qualifier(line: &[char], f: &mut GenBankFeature)
    ensures
        final(f).feature_type == old(f).feature_type,
        final(f).location == old(f).location,
        qualifier_spec(line@) is None ==> final(f)@.qualifiers == old(f)@.qualifiers,
        qualifier_spec(line@) is Some ==> final(f)@.qualifiers == qualifier_insert(
            old(f)@.qualifiers,
            qualifier_key(line@),
            qualifier_value(line@),
        ),
{
    let t = trim(line);
    if t.len() > 0 && t[0] == '/' {
        match find_char(&t, '=') {
            Some(q) => {
                let key = crate::text::slice_copy(&t, 1, q);
                let v = crate::text::slice_copy(&t, q + 1, t.len());
                let value = if v.len() >= 2 && v[0] == '"' && v[v.len() - 1] == '"' {
                    crate::text::slice_copy(&v, 1, v.len() - 1)
                } else {
                    v
                };
                insert_qualifier(f, key, value);
            },
            None => {
                let key = crate::text::slice_copy(&t, 1, t.len());
                insert_qualifier(f, key, chars_of("true"));
            },
        }
    }
}

/// What one word after the name of a LOCUS line sets.
pub struct LocusInfo {
    pub topology: Topology,
    pub molecule_type: Seq<char>,
    pub division: Seq<char>,
    pub date: Seq<char>,
}

pub open spec fn all_alphabetic(s: Seq<char>) -> bool {
    forall|i: int| 0 <= i < s.len() ==> alphabetic(#[trigger] s[i])
}

/// One word of a LOCUS line: "circular"/"linear" (any case) set the
/// topology; a word holding "DNA" or "RNA" is the molecule type; a word of
/// three bytes, all letters, is the division; one of eleven bytes holding
/// '-' is the date.
pub open spec fn locus_word(st: LocusInfo, w: Seq<char>) -> LocusInfo {
    let topology = if lower_of(w) == "circular"@ {
        Topology::Circular
    } else if lower_of(w) == "linear"@ {
        Topology::Linear
    } else {
        st.topology
    };
    LocusInfo {
        topology,
        molecule_type: if contains_spec(w, "DNA"@) || contains_spec(w, "RNA"@) {
            w
        } else {
            st.molecule_type
        },
        division: if byte_len(w) == 3 && all_alphabetic(w) {
            w
        } else {
            st.division
        },
        date: if contains_spec(w, "-"@) && byte_len(w) == 11 {
            w
        } else {
            st.date
        },
    }
}

pub open spec fn locus_words(st: LocusInfo, w: Seq<Seq<char>>) -> LocusInfo
    decreases w.len(),
{
    if w.len() == 0 {
        st
    } else {
        locus_word(locus_words(st, w.drop_last()), w.last())
    }
}

/// The state of a GenBank scan.
pub struct GbScan {
    pub rec: RecordView,
    pub section: nat,
    pub in_sequence: bool,
    pub feature: Option<FeatureView>,
    pub done: bool,
}

pub open spec fn with_feature(rec: RecordView, f: Option<FeatureView>) -> RecordView {
    match f {
        Some(x) => RecordView { features: rec.features.push(x), ..rec },
        None => rec,
    }
}

pub open spec fn alpha_only(s: Seq<char>) -> Seq<char>
    decreases s.len(),
{
    if s.len() == 0 {
        s
    } else if alphabetic(s.last()) {
        alpha_only(s.drop_last()).push(s.last())
    } else {
        alpha_only(s.drop_last())
    }
}

/// What a LOCUS line sets: with at least three words, the second is the
/// locus name and the words from the fourth on are read one by one.
pub open spec fn locus_spec(rec: RecordView, line: Seq<char>) -> RecordView {
    let w = words(line);
    if w.len() >= 3 {
        let info = locus_words(
            LocusInfo {
                topology: rec.topology,
                molecule_type: rec.molecule_type,
                division: rec.division,
                date: rec.date,
            },
            w.skip(3),
        );
        RecordView {
            locus: w[1],
            topology: info.topology,
            molecule_type: info.molecule_type,
            division: info.division,
            date: info.date,
            ..rec
        }
    } else {
        rec
    }
}

/// Sections: 1 LOCUS, 2 DEFINITION, 3 ACCESSION, 4 VERSION, 5 SOURCE,
/// 6 FEATURES, 7 ORIGIN.
#[verifier::opaque]
pub open spec fn gb_step(st: GbScan, line: Seq<char>) -> GbScan {
    if st.done {
        st
    } else if has_prefix_spec(line, "//"@) {
        GbScan { rec: with_feature(st.rec, st.feature), feature: None, done: true, ..st }
    } else if st.in_sequence {
        GbScan {
            rec: RecordView { sequence: st.rec.sequence + upper_of(alpha_only(line)), ..st.rec },
            ..st
        }
    } else if has_prefix_spec(line, "LOCUS"@) {
        GbScan { rec: locus_spec(st.rec, line), section: 1, ..st }
    } else if has_prefix_spec(line, "DEFINITION"@) {
        GbScan {
            rec: RecordView { definition: field_value_spec(line, 10, false), ..st.rec },
            section: 2,
            ..st
        }
    } else if has_prefix_spec(line, "ACCESSION"@) {
        GbScan {
            rec: RecordView { accession: field_value_spec(line, 9, true), ..st.rec },
            section: 3,
            ..st
        }
    } else if has_prefix_spec(line, "VERSION"@) {
        GbScan {
            rec: RecordView { version: field_value_spec(line, 7, false), ..st.rec },
            section: 4,
            ..st
        }
    } else if has_prefix_spec(line, "SOURCE"@) {
        GbScan {
            rec: RecordView { source: field_value_spec(line, 6, false), ..st.rec },
            section: 5,
            ..st
        }
    } else if has_prefix_spec(line, "  ORGANISM"@) {
        GbScan { rec: RecordView { organism: field_value_spec(line, 10, false), ..st.rec }, ..st }
    } else if has_prefix_spec(line, "FEATURES"@) {
        GbScan { section: 6, ..st }
    } else if has_prefix_spec(line, "ORIGIN"@) {
        GbScan {
            rec: with_feature(st.rec, st.feature),
            feature: None,
            section: 7,
            in_sequence: true,
            ..st
        }
    } else if st.section == 6 && trim_spec(line).len() > 0 {
        if has_prefix_spec(line, "     "@) && !has_prefix_spec(line, "                     "@) {
            GbScan { rec: with_feature(st.rec, st.feature), feature: feature_line_spec(line), ..st }
        } else if has_prefix_spec(line, "                     "@) {
            match (st.feature, qualifier_spec(line)) {
                (Some(f), Some(q)) => GbScan {
                    feature: Some(
                        FeatureView { qualifiers: qualifier_insert(f.qualifiers, q.0, q.1), ..f },
                    ),
                    ..st
                },
                _ => st,
            }
        } else {
            st
        }
    } else if st.section == 2 && has_prefix_spec(line, "            "@) {
        GbScan {
            rec: RecordView {
                definition: st.rec.definition + seq![' '] + trim_spec(line),
                ..st.rec
            },
            ..st
        }
    } else {
        st
    }
}

pub open spec fn empty_record() -> RecordView {
    RecordView {
        locus: Seq::empty(),
        definition: Seq::empty(),
        accession: Seq::empty(),
        version: Seq::empty(),
        source: Seq::empty(),
        organism: Seq::empty(),
        topology: Topology::Linear,
        molecule_type: Seq::empty(),
        division: Seq::empty(),
        date: Seq::empty(),
        features: Seq::empty(),
        sequence: Seq::empty(),
    }
}

pub open spec fn gb_scan(lines: Seq<Seq<char>>) -> GbScan
    decreases lines.len(),
{
    if lines.len() == 0 {
        GbScan { rec: empty_record(), section: 0, in_sequence: false, feature: None, done: false }
    } else {
        gb_step(gb_scan(lines.drop_last()), lines.last())
    }
}

/// The record a GenBank text describes.
pub open spec fn genbank_spec(content: Seq<char>) -> RecordView {
    gb_scan(lines_spec(content)).rec
}

pub open spec fn opt_feature_view(f: Option<GenBankFeature>) -> Option<FeatureView> {
    match f {
        Some(x) => Some(x@),
        None => None,
    }
}

/// Reads GenBank flat-file text.
pub struct GenBankParser;

fn empty_string() -> (r: String)
    ensures
        r@ == Seq::<char>::empty(),
{
    String::new()
}

fn flush_feature(rec: &mut GenBankRecord, f: Option<GenBankFeature>)
    ensures
        final(rec)@ == with_feature(old(rec)@, opt_feature_view(f)),
        final(rec).length == old(rec).length,
{
    match f {
        Some(x) => {
            let ghost before = rec.features@;
            rec.features.push(x);
            proof {
                assert(feature_views(rec.features@) =~= feature_views(before).push(x@));
            }
        },
        None => {},
    }
}

fn set_text(target: &mut String, v: &Vec<char>)
    ensures
        final(target)@ == v@,
{
    *target = string_of(v);
}

fn append_text(target: &mut String, v: &Vec<char>)
    ensures
        final(target)@ == old(target)@ + v@,
{
    let mut c = chars_of(target.as_str());
    extend_chars(&mut c, v);
    *target = string_of(&c);
}

fn parse_locus_line(line: &[char], rec: &mut GenBankRecord)
    ensures
        final(rec)@ == locus_spec(old(rec)@, line@),
        final(rec).length == old(rec).length,
{
    let w = split_words(line);
    if w.len() >= 3 {
        set_text(&mut rec.locus, &w[1]);
        let mut k: usize = 3;
        proof {
            assert(views(w@).skip(3).take(0) =~= Seq::<Seq<char>>::empty());
        }
        while k < w.len()
            invariant
                3 <= k <= w@.len(),
                rec.locus@ == views(w@)[1],
                rec.length == old(rec).length,
                (LocusInfo {
                    topology: rec.topology,
                    molecule_type: rec.molecule_type@,
                    division: rec.division@,
                    date: rec.date@,
                }) == locus_words(
                    LocusInfo {
                        topology: old(rec).topology,
                        molecule_type: old(rec).molecule_type@,
                        division: old(rec).division@,
                        date: old(rec).date@,
                    },
                    views(w@).skip(3).take(k - 3),
                ),
                rec.definition == old(rec).definition,
                rec.accession == old(rec).accession,
                rec.version == old(rec).version,
                rec.source == old(rec).source,
                rec.organism == old(rec).organism,
                rec.features == old(rec).features,
                rec.sequence == old(rec).sequence,
            decreases w.len() - k,
        {
            let part = &w[k];
            proof {
                let s = views(w@).skip(3);
                assert(s.take(k - 2).drop_last() == s.take(k - 3));
                assert(s.take(k - 2).last() == part@);
            }
            let ps = string_of(part);
            let low = to_lower(ps.as_str());
            let lowc = chars_of(low.as_str());
            if crate::nucleotide::chars_equal(&lowc, &chars_of("circular")) {
                rec.topology = Topology::Circular;
            } else if crate::nucleotide::chars_equal(&lowc, &chars_of("linear")) {
                rec.topology = Topology::Linear;
            }
            if contains_text(part, "DNA") || contains_text(part, "RNA") {
                set_text(&mut rec.molecule_type, part);
            }
            let blen = ps.as_str().len();
            proof {
                assert(blen == byte_len(part@));
            }
            if blen == 3 && all_alpha(part) {
                set_text(&mut rec.division, part);
            }
            if contains_text(part, "-") && blen == 11 {
                set_text(&mut rec.date, part);
            }
            k += 1;
        }
        proof {
            assert(views(w@).skip(3).take(w@.len() - 3) == views(w@).skip(3));
            assert(rec@ == locus_spec(old(rec)@, line@));
        }
    }
}

fn all_alpha(s: &[char]) -> (r: bool)
    ensures
        r == all_alphabetic(s@),
{
    let mut i: usize = 0;
    while i < s.len()
        invariant
            i <= s@.len(),
            forall|j: int| 0 <= j < i ==> alphabetic(s@[j]),
        decreases s.len() - i,
    {
        if !is_alpha(s[i]) {
            return false;
        }
        i += 1;
    }
    true
}

fn alpha_upper(line: &[char]) -> (r: Vec<char>)
    ensures
        r@ == upper_of(alpha_only(line@)),
{
    let mut kept: Vec<char> = Vec::new();
    let mut i: usize = 0;
    while i < line.len()
        invariant
            i <= line@.len(),
            kept@ == alpha_only(line@.take(i as int)),
        decreases line.len() - i,
    {
        proof {
            let t = line@.take(i + 1);
            assert(t.drop_last() == line@.take(i as int));
            assert(t.last() == line@[i as int]);
        }
        if is_alpha(line[i]) {
            kept.push(line[i]);
        }
        i += 1;
    }
    proof {
        assert(line@.take(line@.len() as int) == line@);
    }
    let ks = string_of(&kept);
    let up = to_upper(ks.as_str());
    chars_of(up.as_str())
}

impl GenBankParser {
    pub fn new() -> (r: Self) {
        GenBankParser
    }

    /// Reads a record; its length is the length in bytes of its sequence.
    pub fn parse(&self, content: &str) -> (r: Result<GenBankRecord, String>)
        ensures
            r matches Ok(rec) && rec@ == genbank_spec(content@) && rec.length == byte_len(
                rec.sequence@,
            ),
    {
        let chars = chars_of(content);
        let lines = split_lines(&chars);
        let ghost ls = lines_spec(content@);
        let mut rec = GenBankRecord {
            locus: empty_string(),
            definition: empty_string(),
            accession: empty_string(),
            version: empty_string(),
            source: empty_string(),
            organism: empty_string(),
            length: 0,
            topology: Topology::Linear,
            molecule_type: empty_string(),
            division: empty_string(),
            date: empty_string(),
            features: Vec::new(),
            sequence: empty_string(),
        };
        let mut section: u8 = 0;
        let mut in_sequence = false;
        let mut feature: Option<GenBankFeature> = None;
        let mut i: usize = 0;
        proof {
            assert(ls.take(0) =~= Seq::<Seq<char>>::empty());
            assert(feature_views(rec.features@) =~= Seq::<FeatureView>::empty());
            assert(rec@ == empty_record());
        }
        while i < lines.len()
            invariant
                i <= lines@.len(),
                views(lines@) == ls,
                ls == lines_spec(content@),
                section <= 7,
                gb_scan(ls.take(i as int)) == (GbScan {
                    rec: rec@,
                    section: section as nat,
                    in_sequence,
                    feature: opt_feature_view(feature),
                    done: false,
                }),
            decreases lines.len() - i,
        {
            let line = &lines[i];
            proof {
                assert(ls.take(i + 1).drop_last() == ls.take(i as int));
                assert(ls[i as int] == line@);
            }
            if has_prefix(line, "//") {
                let ghost st = gb_scan(ls.take(i as int));
                assert(st.feature == opt_feature_view(feature));
                assert(st.rec == rec@);
                flush_feature(&mut rec, feature);
                proof {
                    assert(ls.take(i + 1).last() == line@);
                    lemma_step_end(st, line@);
                    assert(gb_scan(ls.take(i + 1)) == gb_step(st, line@));
                    assert(gb_scan(ls.take(i + 1)).done);
                    assert(gb_scan(ls.take(i + 1)).rec == rec@);
                    lemma_done_stays(ls, i as nat + 1);
                    assert(ls.take(ls.len() as int) == ls);
                    assert(gb_scan(ls) == gb_scan(ls.take(i + 1)));
                    assert(genbank_spec(content@) == rec@);
                }
                let n = byte_length(&rec.sequence);
                rec.length = n;
                assert(rec@ == genbank_spec(content@));
                return Ok(rec);
            }
            self.step(line, &mut rec, &mut section, &mut in_sequence, &mut feature);
            i += 1;
        }
        proof {
            assert(ls.take(ls.len() as int) == ls);
        }
        let n = byte_length(&rec.sequence);
        rec.length = n;
        Ok(rec)
    }

    fn step(
        &self,
        line: &Vec<char>,
        rec: &mut GenBankRecord,
        section: &mut u8,
        in_sequence: &mut bool,
        feature: &mut Option<GenBankFeature>,
    )
        requires
            *old(section) <= 7,
            !has_prefix_spec(line@, "//"@),
        ensures
            *final(section) <= 7,
            gb_step(
                GbScan {
                    rec: old(rec)@,
                    section: *old(section) as nat,
                    in_sequence: *old(in_sequence),
                    feature: opt_feature_view(*old(feature)),
                    done: false,
                },
                line@,
            ) == (GbScan {
                rec: final(rec)@,
                section: *final(section) as nat,
                in_sequence: *final(in_sequence),
                feature: opt_feature_view(*final(feature)),
                done: false,
            }),
    {
        proof {
            reveal(gb_step);
        }
        if *in_sequence {
            let up = alpha_upper(line);
            append_text(&mut rec.sequence, &up);
        } else if has_prefix(line, "LOCUS") {
            proof {
                reveal_strlit("LOCUS");
            }
            *section = 1;
            parse_locus_line(line, rec);
        } else if has_prefix(line, "DEFINITION") {
            proof {
                reveal_strlit("DEFINITION");
            }
            *section = 2;
            let v = field_value(line, 10, false);
            set_text(&mut rec.definition, &v);
        } else if has_prefix(line, "ACCESSION") {
            proof {
                reveal_strlit("ACCESSION");
            }
            *section = 3;
            let v = field_value(line, 9, true);
            set_text(&mut rec.accession, &v);
        } else if has_prefix(line, "VERSION") {
            proof {
                reveal_strlit("VERSION");
            }
            *section = 4;
            let v = field_value(line, 7, false);
            set_text(&mut rec.version, &v);
        } else if has_prefix(line, "SOURCE") {
            proof {
                reveal_strlit("SOURCE");
            }
            *section = 5;
            let v = field_value(line, 6, false);
            set_text(&mut rec.source, &v);
        } else if has_prefix(line, "  ORGANISM") {
            proof {
                reveal_strlit("  ORGANISM");
            }
            let v = field_value(line, 10, false);
            set_text(&mut rec.organism, &v);
        } else if has_prefix(line, "FEATURES") {
            *section = 6;
        } else if has_prefix(line, "ORIGIN") {
            *section = 7;
            *in_sequence = true;
            let f = feature.take();
            flush_feature(rec, f);
        } else if *section == 6 && trim(line).len() > 0 {
            if has_prefix(line, "     ") && !has_prefix(line, "                     ") {
                let f = feature.take();
                flush_feature(rec, f);
                *feature = parse_feature_line(line);
            } else if has_prefix(line, "                     ") {
                match feature {
                    Some(f) => {
                        parse_feature_qualifier(line, f);
                    },
                    None => {},
                }
            }
        } else if *section == 2 && has_prefix(line, "            ") {
            let mut extra: Vec<char> = Vec::new();
            extra.push(' ');
            let t = trim(line);
            extend_chars(&mut extra, &t);
            append_text(&mut rec.definition, &extra);
            proof {
                assert(rec.definition@ =~= old(rec).definition@ + seq![' '] + trim_spec(line@));
            }
        }
    }

    /// The sequence of a record, named by its accession and definition.
    pub fn to_sequence(&self, record: &GenBankRecord) -> (r: Sequence)
        ensures
            r@ == (SequenceView {
                id: record.accession@,
                name: record.definition@,
                sequence: record.sequence@,
                topology: record.topology,
            }),
    {
        Sequence {
            id: record.accession.clone(),
            name: record.definition.clone(),
            sequence: record.sequence.clone(),
            topology: record.topology,
        }
    }
}

fn byte_length(s: &String) -> (r: usize)
    ensures
        r == byte_len(s@),
{
    s.as_str().len()
}

proof fn lemma_step_done(st: GbScan, line: Seq<char>)
    requires
        st.done,
    ensures
        gb_step(st, line) == st,
{
    reveal(gb_step);
}

proof fn lemma_step_end(st: GbScan, line: Seq<char>)
    requires
        !st.done,
        has_prefix_spec(line, "//"@),
    ensures
        gb_step(st, line) == (GbScan {
            rec: with_feature(st.rec, st.feature),
            feature: None,
            done: true,
            ..st
        }),
{
    reveal(gb_step);
}

/// Once the end marker is read, later lines change nothing.
proof fn lemma_done_stays(lines: Seq<Seq<char>>, k: nat)
    requires
        k <= lines.len(),
        gb_scan(lines.take(k as int)).done,
    ensures
        gb_scan(lines) == gb_scan(lines.take(k as int)),
    decreases lines.len() - k,
{
    if k < lines.len() {
        assert(lines.take(k as int + 1).drop_last() == lines.take(k as int));
        lemma_step_done(gb_scan(lines.take(k as int)), lines.take(k as int + 1).last());
        lemma_done_stays(lines, k + 1);
    } else {
        assert(lines.take(k as int) == lines);
    }
}

} // verus!
