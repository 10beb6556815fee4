use vstd::prelude::*;
use crate::domain::{BaseCount, base_total};
use crate::text::{ascii_upper, ascii_upper_spec, chars_of, string_of};

verus! {

/// Computes sequence statistics; its numeric measures run outside this library.
pub struct StatsServiceImpl;

impl StatsServiceImpl {
    pub fn new() -> (r: Self) {
        StatsServiceImpl
    }
}

/// Which count a character goes to, read in either case: 0 A, 1 T or U,
/// 2 G, 3 C, 4 N, 5 anything else.
pub open spec fn base_class(c: char) -> nat {
    let u = ascii_upper_spec(c);
    if u == 'A' {
        0
    } else if u == 'T' || u == 'U' {
        1
    } else if u == 'G' {
        2
    } else if u == 'C' {
        3
    } else if u == 'N' {
        4
    } else {
        5
    }
}

/// Number of characters of class `k`.
pub open spec fn class_count(s: Seq<char>, k: nat) -> nat
    decreases s.len(),
{
    if s.len() == 0 {
        0
    } else {
        class_count(s.drop_last(), k) + if base_class(s.last()) == k {
            1nat
        } else {
            0nat
        }
    }
}

pub open spec fn counts_of(s: Seq<char>) -> BaseCount {
    BaseCount {
        a: class_count(s, 0) as usize,
        t: class_count(s, 1) as usize,
        g: class_count(s, 2) as usize,
        c: class_count(s, 3) as usize,
        n: class_count(s, 4) as usize,
        other: class_count(s, 5) as usize,
    }
}

proof fn lemma_counts_sum(s: Seq<char>)
    ensures
        class_count(s, 0) + class_count(s, 1) + class_count(s, 2) + class_count(s, 3)
            + class_count(s, 4) + class_count(s, 5) == s.len(),
    decreases s.len(),
{
    if s.len() > 0 {
        lemma_counts_sum(s.drop_last());
    }
}

/// Counts the bases of a sequence by kind.
pub fn count_bases(s: &[char]) -> (r: BaseCount)
    ensures
        r == counts_of(s@),
        base_total(r) == s@.len(),
{
    let mut b = BaseCount::new();
    let mut i: usize = 0;
    while i < s.len()
        invariant
            i <= s@.len(),
            b == counts_of(s@.take(i as int)),
            base_total(b) == i,
        decreases s.len() - i,
    {
        proof {
            let t = s@.take(i + 1);
            assert(t.drop_last() == s@.take(i as int));
            assert(t.last() == s@[i as int]);
            lemma_counts_sum(s@.take(i as int));
        }
        let u = ascii_upper(s[i]);
        if u == 'A' {
            b.a = b.a + 1;
        } else if u == 'T' || u == 'U' {
            b.t = b.t + 1;
        } else if u == 'G' {
            b.g = b.g + 1;
        } else if u == 'C' {
            b.c = b.c + 1;
        } else if u == 'N' {
            b.n = b.n + 1;
        } else {
            b.other = b.other + 1;
        }
        i += 1;
    }
    proof {
        assert(s@.take(s@.len() as int) == s@);
    }
    b
}

/// Bases in the order of the standard codon table: T, C, A, G.
pub open spec fn table_base(i: int) -> char {
    if i == 0 {
        'T'
    } else if i == 1 {
        'C'
    } else if i == 2 {
        'A'
    } else {
        'G'
    }
}

/// The `i`-th codon of the table: first base slowest.
pub open spec fn codon_at(i: int) -> Seq<char> {
    seq![table_base(i / 16), table_base((i / 4) % 4), table_base(i % 4)]
}

/// Amino acids of the standard code (NCBI table 1), one letter per codon
/// in table order; '*' marks a stop codon.
pub open spec fn standard_amino_acids() -> Seq<char> {
    "FFLLSSSSYY**CC*WLLLLPPPPHHQQRRRRIIIMTTTTNNKKSSRRVVVVAAAADDEEGGGG"@
}

fn base_at(i: usize) -> (r: char)
    requires
        i < 4,
    ensures
        r == table_base(i as int),
{
    if i == 0 {
        'T'
    } else if i == 1 {
        'C'
    } else if i == 2 {
        'A'
    } else {
        'G'
    }
}

/// The standard genetic code as (codon, amino acid) pairs in table order.
/// Every code number gives the standard table.
pub fn get_genetic_code(code: u8) -> (r: Vec<(String, char)>)
    ensures
        r@.len() == 64,
        forall|i: int| 0 <= i < 64 ==> (#[trigger] r@[i]).0@ == codon_at(i),
        forall|i: int| 0 <= i < 64 ==> (#[trigger] r@[i]).1 == standard_amino_acids()[i],
{
    let table = chars_of("FFLLSSSSYY**CC*WLLLLPPPPHHQQRRRRIIIMTTTTNNKKSSRRVVVVAAAADDEEGGGG");
    proof {
        reveal_strlit("FFLLSSSSYY**CC*WLLLLPPPPHHQQRRRRIIIMTTTTNNKKSSRRVVVVAAAADDEEGGGG");
    }
    let mut r: Vec<(String, char)> = Vec::new();
    let mut i: usize = 0;
    while i < 64
        invariant
            i <= 64,
            table@ == standard_amino_acids(),
            table@.len() == 64,
            r@.len() == i,
            forall|j: int| 0 <= j < i ==> (#[trigger] r@[j]).0@ == codon_at(j),
            forall|j: int| 0 <= j < i ==> (#[trigger] r@[j]).1 == standard_amino_acids()[j],
        decreases 64 - i,
    {
        let mut c: Vec<char> = Vec::new();
        c.push(base_at(i / 16));
        c.push(base_at((i / 4) % 4));
        c.push(base_at(i % 4));
        proof {
            assert(c@ =~= codon_at(i as int));
        }
        r.push((string_of(&c), table[i]));
        i += 1;
    }
    r
}

} // verus!
