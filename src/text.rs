use vstd::prelude::*;

verus! {

/// The Unicode White_Space set, which `char::is_whitespace` tests.
pub open spec fn is_ws_spec(c: char) -> bool {
    let u = c as u32;
    (0x9 <= u && u <= 0xd) || u == 0x20 || u == 0x85 || u == 0xa0 || u == 0x1680 || (0x2000 <= u
        && u <= 0x200a) || u == 0x2028 || u == 0x2029 || u == 0x202f || u == 0x205f || u == 0x3000
}

pub fn is_ws(c: char) -> (r: bool)
    ensures
        r == is_ws_spec(c),
{
    let u = c as u32;
    (0x9 <= u && u <= 0xd) || u == 0x20 || u == 0x85 || u == 0xa0 || u == 0x1680 || (0x2000 <= u
        && u <= 0x200a) || u == 0x2028 || u == 0x2029 || u == 0x202f || u == 0x205f || u == 0x3000
}

/// ASCII upper case of one character; every other character is kept.
pub open spec fn ascii_upper_spec(c: char) -> char {
    if 'a' <= c && c <= 'z' {
        ((c as u32) - 32) as char
    } else {
        c
    }
}

pub open spec fn ascii_upper_seq(s: Seq<char>) -> Seq<char> {
    s.map_values(|c: char| ascii_upper_spec(c))
}

pub fn ascii_upper(c: char) -> (r: char)
    ensures
        r == ascii_upper_spec(c),
{
    if 'a' <= c && c <= 'z' {
        ((c as u8) - 32) as char
    } else {
        c
    }
}

/// Upper-cases the ASCII letters of a slice of characters.
pub fn ascii_upper_all(s: &[char]) -> (r: Vec<char>)
    ensures
        r@ == ascii_upper_seq(s@),
{
    let mut r: Vec<char> = Vec::new();
    let mut i: usize = 0;
    while i < s.len()
        invariant
            i <= s@.len(),
            r@ == ascii_upper_seq(s@.take(i as int)),
        decreases s.len() - i,
    {
        r.push(ascii_upper(s[i]));
        proof {
            assert(s@.take(i + 1) == s@.take(i as int).push(s@[i as int]));
        }
        i += 1;
    }
    proof {
        assert(s@.take(s@.len() as int) == s@);
    }
    r
}

/// The text that `str::lines` yields: pieces between '\n', with a final
/// empty piece dropped and one '\r' removed before each '\n'.
pub open spec fn pieces(s: Seq<char>) -> Seq<Seq<char>>
    decreases s.len(),
{
    if s.len() == 0 {
        seq![Seq::<char>::empty()]
    } else {
        let p = pieces(s.drop_last());
        if s.last() == '\n' {
            p.push(Seq::<char>::empty())
        } else {
            p.update(p.len() - 1, p.last().push(s.last()))
        }
    }
}

pub open spec fn strip_cr(l: Seq<char>) -> Seq<char> {
    if l.len() > 0 && l.last() == '\r' {
        l.drop_last()
    } else {
        l
    }
}

pub open spec fn lines_spec(s: Seq<char>) -> Seq<Seq<char>> {
    let p = pieces(s);
    let done = p.drop_last().map_values(|l: Seq<char>| strip_cr(l));
    if p.last().len() == 0 {
        done
    } else {
        done.push(p.last())
    }
}

/// Views of a vector of character vectors.
pub open spec fn views(v: Seq<Vec<char>>) -> Seq<Seq<char>> {
    v.map_values(|x: Vec<char>| x@)
}

/// Splits text into lines as `str::lines` does.
pub fn split_lines(s: &[char]) -> (r: Vec<Vec<char>>)
    ensures
        views(r@) == lines_spec(s@),
{
    let mut done: Vec<Vec<char>> = Vec::new();
    let mut cur: Vec<char> = Vec::new();
    let ghost mut raw: Seq<Seq<char>> = Seq::empty();
    let mut i: usize = 0;
    while i < s.len()
        invariant
            i <= s@.len(),
            pieces(s@.take(i as int)) == raw.push(cur@),
            views(done@) == raw.map_values(|l: Seq<char>| strip_cr(l)),
        decreases s.len() - i,
    {
        let c = s[i];
        proof {
            let t = s@.take(i + 1);
            assert(t.drop_last() == s@.take(i as int));
            assert(t.last() == c);
        }
        if c == '\n' {
            let mut line = cur;
            if line.len() > 0 && line[line.len() - 1] == '\r' {
                line.pop();
            }
            proof {
                assert(views(done@.push(line)) == views(done@).push(line@));
                assert(raw.push(cur@).map_values(|l: Seq<char>| strip_cr(l)) == raw.map_values(
                    |l: Seq<char>| strip_cr(l),
                ).push(strip_cr(cur@)));
                raw = raw.push(cur@);
            }
            done.push(line);
            cur = Vec::new();
        } else {
            proof {
                let p = raw.push(cur@);
                assert(p.update(p.len() - 1, p.last().push(c)) == raw.push(cur@.push(c)));
            }
            cur.push(c);
        }
        i += 1;
    }
    proof {
        assert(s@.take(s@.len() as int) == s@);
        assert(raw.push(cur@).drop_last() == raw);
    }
    if cur.len() > 0 {
        proof {
            assert(views(done@.push(cur)) == views(done@).push(cur@));
        }
        done.push(cur);
    }
    done
}

pub open spec fn trim_start_spec(s: Seq<char>) -> Seq<char>
    decreases s.len(),
{
    if s.len() > 0 && is_ws_spec(s[0]) {
        trim_start_spec(s.drop_first())
    } else {
        s
    }
}

pub open spec fn trim_end_spec(s: Seq<char>) -> Seq<char>
    decreases s.len(),
{
    if s.len() > 0 && is_ws_spec(s.last()) {
        trim_end_spec(s.drop_last())
    } else {
        s
    }
}

/// What `str::trim` keeps: leading and trailing white space removed.
pub open spec fn trim_spec(s: Seq<char>) -> Seq<char> {
    trim_end_spec(trim_start_spec(s))
}

/// Index of the first character that is not white space.
pub fn trim_start_index(s: &[char]) -> (r: usize)
    ensures
        r <= s@.len(),
        s@.subrange(r as int, s@.len() as int) == trim_start_spec(s@),
{
    let mut i: usize = 0;
    proof {
        assert(s@.subrange(0, s@.len() as int) == s@);
    }
    while i < s.len() && is_ws(s[i])
        invariant
            i <= s@.len(),
            trim_start_spec(s@) == trim_start_spec(s@.subrange(i as int, s@.len() as int)),
        decreases s.len() - i,
    {
        proof {
            let t = s@.subrange(i as int, s@.len() as int);
            assert(t.drop_first() == s@.subrange(i + 1, s@.len() as int));
        }
        i += 1;
    }
    proof {
        assert(s@.subrange(0, s@.len() as int) == s@);
    }
    i
}

/// Copies `s[from..to]`.
pub fn slice_copy(s: &[char], from: usize, to: usize) -> (r: Vec<char>)
    requires
        from <= to <= s@.len(),
    ensures
        r@ == s@.subrange(from as int, to as int),
{
    let mut r: Vec<char> = Vec::new();
    let mut i: usize = from;
    while i < to
        invariant
            from <= i <= to <= s@.len(),
            r@ == s@.subrange(from as int, i as int),
        decreases to - i,
    {
        r.push(s[i]);
        proof {
            assert(s@.subrange(from as int, i + 1) == s@.subrange(from as int, i as int).push(
                s@[i as int],
            ));
        }
        i += 1;
    }
    r
}

/// `str::trim` on characters.
pub fn trim(s: &[char]) -> (r: Vec<char>)
    ensures
        r@ == trim_spec(s@),
{
    let a = trim_start_index(s);
    let mut b: usize = s.len();
    while b > a && is_ws(s[b - 1])
        invariant
            a <= b <= s@.len(),
            trim_end_spec(s@.subrange(a as int, s@.len() as int)) == trim_end_spec(
                s@.subrange(a as int, b as int),
            ),
        decreases b,
    {
        proof {
            let t = s@.subrange(a as int, b as int);
            assert(t.drop_last() == s@.subrange(a as int, b - 1));
        }
        b -= 1;
    }
    slice_copy(s, a, b)
}

/// The maximal runs of characters that are not white space, in order, as
/// `str::split_whitespace` yields them.
pub open spec fn words(s: Seq<char>) -> Seq<Seq<char>>
    decreases s.len(),
{
    if s.len() == 0 {
        Seq::empty()
    } else {
        let w = words(s.drop_last());
        let c = s.last();
        if is_ws_spec(c) {
            w
        } else if s.len() >= 2 && !is_ws_spec(s[s.len() - 2]) {
            w.update(w.len() - 1, w.last().push(c))
        } else {
            w.push(seq![c])
        }
    }
}

/// `str::split_whitespace` on characters.
pub fn split_words(s: &[char]) -> (r: Vec<Vec<char>>)
    ensures
        views(r@) == words(s@),
{
    let mut r: Vec<Vec<char>> = Vec::new();
    let mut i: usize = 0;
    while i < s.len()
        invariant
            i <= s@.len(),
            views(r@) == words(s@.take(i as int)),
            i > 0 && !is_ws_spec(s@[i - 1]) ==> r@.len() > 0,
        decreases s.len() - i,
    {
        let c = s[i];
        let ghost t = s@.take(i + 1);
        proof {
            assert(t.drop_last() == s@.take(i as int));
            assert(t.last() == c);
            if i > 0 {
                assert(t[t.len() - 2] == s@[i - 1]);
            }
        }
        if is_ws(c) {
        } else if i > 0 && !is_ws(s[i - 1]) {
            let ghost r0 = r@;
            let mut last = r.pop().unwrap();
            proof {
                assert(views(r@) =~= views(r0).drop_last());
            }
            last.push(c);
            r.push(last);
            proof {
                let w = words(s@.take(i as int));
                assert(views(r@) =~= w.update(w.len() - 1, w.last().push(c)));
            }
        } else {
            let mut v: Vec<char> = Vec::new();
            v.push(c);
            let ghost w = views(r@);
            r.push(v);
            proof {
                assert(v@ == seq![c]);
                assert(views(r@) =~= w.push(seq![c]));
            }
        }
        i += 1;
    }
    proof {
        assert(s@.take(s@.len() as int) == s@);
    }
    r
}

/// Splits at the first white-space character, as `str::splitn(2, char::is_whitespace)`:
/// the part before it, and the part after it when there is one.
pub open spec fn split_once_ws_spec(s: Seq<char>) -> (Seq<char>, Option<Seq<char>>) {
    if exists|k: int| 0 <= k < s.len() && is_ws_spec(s[k]) {
        let k = choose|k: int|
            0 <= k < s.len() && is_ws_spec(s[k]) && forall|j: int| 0 <= j < k ==> !is_ws_spec(s[j]);
        (s.take(k), Some(s.skip(k + 1)))
    } else {
        (s, None)
    }
}

pub fn split_once_ws(s: &[char]) -> (r: (Vec<char>, Option<Vec<char>>))
    ensures
        r.0@ == split_once_ws_spec(s@).0,
        r.1 is None <==> split_once_ws_spec(s@).1 is None,
        r.1 is Some ==> r.1->0@ == split_once_ws_spec(s@).1->0,
{
    let mut k: usize = 0;
    while k < s.len() && !is_ws(s[k])
        invariant
            k <= s@.len(),
            forall|j: int| 0 <= j < k ==> !is_ws_spec(s@[j]),
        decreases s.len() - k,
    {
        k += 1;
    }
    if k < s.len() {
        proof {
            let kk = choose|kk: int|
                0 <= kk < s@.len() && is_ws_spec(s@[kk]) && forall|j: int|
                    0 <= j < kk ==> !is_ws_spec(s@[j]);
            assert(kk == k as int) by {
                if kk < k {
                } else if kk > k {
                }
            }
        }
        (slice_copy(s, 0, k), Some(slice_copy(s, k + 1, s.len())))
    } else {
        proof {
            assert(s@.subrange(0, s@.len() as int) == s@);
        }
        (slice_copy(s, 0, k), None)
    }
}

/// Words joined with one space between each two.
pub open spec fn join_space(w: Seq<Seq<char>>) -> Seq<char>
    decreases w.len(),
{
    if w.len() == 0 {
        Seq::empty()
    } else if w.len() == 1 {
        w[0]
    } else {
        join_space(w.drop_last()) + seq![' '] + w.last()
    }
}

/// Joins `w[from..]` with single spaces, as `[&str]::join(" ")` does.
pub fn join_words_from(w: &Vec<Vec<char>>, from: usize) -> (r: Vec<char>)
    requires
        from <= w@.len(),
    ensures
        r@ == join_space(views(w@).skip(from as int)),
{
    let mut r: Vec<char> = Vec::new();
    if from >= w.len() {
        proof {
            assert(views(w@).skip(from as int).len() == 0);
        }
        return r;
    }
    let mut i: usize = from;
    while i < w.len()
        invariant
            from <= i <= w@.len(),
            from < w@.len(),
            r@ == join_space(views(w@).subrange(from as int, i as int)),
        decreases w.len() - i,
    {
        let ghost sub = views(w@).subrange(from as int, i + 1);
        proof {
            assert(sub.drop_last() == views(w@).subrange(from as int, i as int));
            assert(sub.last() == w@[i as int]@);
        }
        if i > from {
            r.push(' ');
        }
        let item = &w[i];
        let mut j: usize = 0;
        let ghost base = r@;
        while j < item.len()
            invariant
                j <= item@.len(),
                r@ == base + item@.take(j as int),
            decreases item.len() - j,
        {
            r.push(item[j]);
            proof {
                assert(item@.take(j + 1) == item@.take(j as int).push(item@[j as int]));
            }
            j += 1;
        }
        proof {
            assert(item@.take(item@.len() as int) == item@);
            if i == from {
                assert(sub.len() == 1);
                assert(r@ =~= join_space(sub));
            } else {
                assert(r@ =~= join_space(sub));
            }
        }
        i += 1;
    }
    proof {
        assert(views(w@).subrange(from as int, w@.len() as int) == views(w@).skip(from as int));
    }
    r
}

/// What `str::to_uppercase` makes of a text (full Unicode case mapping).
pub uninterp spec fn upper_of(s: Seq<char>) -> Seq<char>;

/// Relies on `str::to_uppercase`: the result depends on the characters alone.
#[verifier::external_body]
pub(crate) fn to_upper(s: &str) -> (r: String)
    ensures
        r@ == upper_of(s@),
{
    s.to_uppercase()
}

/// The characters that are not white space, in order.
pub open spec fn strip_ws_spec(s: Seq<char>) -> Seq<char>
    decreases s.len(),
{
    if s.len() == 0 {
        s
    } else if is_ws_spec(s.last()) {
        strip_ws_spec(s.drop_last())
    } else {
        strip_ws_spec(s.drop_last()).push(s.last())
    }
}

/// Removes every white-space character.
pub fn strip_ws(s: &[char]) -> (r: Vec<char>)
    ensures
        r@ == strip_ws_spec(s@),
{
    let mut r: Vec<char> = Vec::new();
    let mut i: usize = 0;
    while i < s.len()
        invariant
            i <= s@.len(),
            r@ == strip_ws_spec(s@.take(i as int)),
        decreases s.len() - i,
    {
        proof {
            let t = s@.take(i + 1);
            assert(t.drop_last() == s@.take(i as int));
            assert(t.last() == s@[i as int]);
            assert(strip_ws_spec(t) == if !is_ws_spec(s@[i as int]) {
                strip_ws_spec(s@.take(i as int)).push(s@[i as int])
            } else {
                strip_ws_spec(s@.take(i as int))
            });
        }
        if !is_ws(s[i]) {
            r.push(s[i]);
        }
        i += 1;
    }
    proof {
        assert(s@.take(s@.len() as int) == s@);
    }
    r
}

/// Appends a slice of characters.
pub fn extend_chars(v: &mut Vec<char>, s: &[char])
    ensures
        final(v)@ == old(v)@ + s@,
{
    let mut i: usize = 0;
    while i < s.len()
        invariant
            i <= s@.len(),
            v@ == old(v)@ + s@.take(i as int),
        decreases s.len() - i,
    {
        v.push(s[i]);
        proof {
            assert(s@.take(i + 1) == s@.take(i as int).push(s@[i as int]));
        }
        i += 1;
    }
    proof {
        assert(s@.take(s@.len() as int) == s@);
    }
}

/// Views of an optional string.
pub open spec fn opt_view(o: Option<String>) -> Option<Seq<char>> {
    match o {
        Some(s) => Some(s@),
        None => None,
    }
}

/// Views of an optional character vector.
pub open spec fn opt_chars_view(o: Option<Vec<char>>) -> Option<Seq<char>> {
    match o {
        Some(s) => Some(s@),
        None => None,
    }
}

/// The character of a decimal digit.
pub open spec fn digit_char(d: nat) -> char {
    ((d + 48) as u8) as char
}

/// The decimal numeral of a number, as `format!("{}", n)` writes it.
pub open spec fn decimal_spec(n: nat) -> Seq<char>
    decreases n,
{
    if n < 10 {
        seq![digit_char(n)]
    } else {
        decimal_spec(n / 10).push(digit_char(n % 10))
    }
}

proof fn lemma_digit_char(a: nat, b: nat)
    requires
        a < 10,
        b < 10,
        digit_char(a) == digit_char(b),
    ensures
        a == b,
{
    assert((digit_char(a) as u32) == a + 48);
    assert((digit_char(b) as u32) == b + 48);
}

proof fn lemma_decimal_len(n: nat)
    ensures
        decimal_spec(n).len() >= 1,
        n >= 10 ==> decimal_spec(n).len() >= 2,
    decreases n,
{
    if n >= 10 {
        lemma_decimal_len(n / 10);
    }
}

/// Different numbers have different numerals.
pub proof fn lemma_decimal_injective(a: nat, b: nat)
    requires
        decimal_spec(a) == decimal_spec(b),
    ensures
        a == b,
    decreases a,
{
    lemma_decimal_len(a);
    lemma_decimal_len(b);
    if a < 10 && b < 10 {
        assert(decimal_spec(a) == seq![digit_char(a)]);
        assert(decimal_spec(b) == seq![digit_char(b)]);
        assert(seq![digit_char(a)][0] == digit_char(a));
        assert(seq![digit_char(b)][0] == digit_char(b));
        lemma_digit_char(a, b);
    } else if a >= 10 && b >= 10 {
        let da = decimal_spec(a);
        let db = decimal_spec(b);
        assert(da.last() == db.last());
        assert(da.drop_last() == decimal_spec(a / 10));
        assert(db.drop_last() == decimal_spec(b / 10));
        lemma_digit_char(a % 10, b % 10);
        lemma_decimal_injective(a / 10, b / 10);
    } else {
        assert(decimal_spec(a).len() != decimal_spec(b).len());
    }
}

pub fn decimal(n: usize) -> (r: Vec<char>)
    ensures
        r@ == decimal_spec(n as nat),
    decreases n,
{
    if n < 10 {
        let mut v: Vec<char> = Vec::new();
        v.push(((n as u8) + 48) as char);
        proof {
            assert(v@ =~= seq![digit_char(n as nat)]);
        }
        v
    } else {
        let mut v = decimal(n / 10);
        v.push((((n % 10) as u8) + 48) as char);
        v
    }
}

/// Relies on `str::chars`: the characters of the text, in order.
#[verifier::external_body]
pub(crate) fn chars_of(s: &str) -> (r: Vec<char>)
    ensures
        r@ == s@,
{
    s.chars().collect()
}

/// Relies on `String: FromIterator<char>`: the string made of these characters.
#[verifier::external_body]
pub(crate) fn string_of(v: &[char]) -> (r: String)
    ensures
        r@ == v@,
{
    v.iter().collect()
}

} // verus!
