use vitalis_core::domain::{BaseCount, Range, ValidationResults};
use vitalis_core::nucleotide::{
    find_repeats, asymmetric_loop_key, dinucleotide_keys, gc_count, is_complement, is_palindrome,
    reverse_complement, reverse_complement_dinucleotide, strict_reverse_complement,
    ThermodynamicError,
};
use vitalis_core::primer::{amplicon_bounds, candidate_window, check_target_region, DesignError, PrimerDesignServiceImpl};
use vitalis_core::stats::{get_genetic_code, StatsServiceImpl};
use vitalis_core::dimer::{longest_shared_run, service_alignment_score};
use vitalis_core::hairpin::{hairpin_sites, HairpinSite};

#[test]
fn primer_design_test_reverse_complement() {
    let service = PrimerDesignServiceImpl::new();
    let rc = service.reverse_complement("ATGC");
    assert_eq!(rc, "GCAT");
}

#[test]
fn thermodynamic_calculator_test_reverse_complement() {
    let result = strict_reverse_complement("ATCG");
    assert_eq!(result.unwrap(), "CGAT");

    let result = strict_reverse_complement("GCTA");
    assert_eq!(result.unwrap(), "TAGC");
}

#[test]
fn strict_reverse_complement_names_unknown_base() {
    let result = strict_reverse_complement("ATCGX");
    assert!(matches!(result, Err(ThermodynamicError::UnknownBase('X'))));
    let result = strict_reverse_complement("NACGTY");
    assert!(matches!(result, Err(ThermodynamicError::UnknownBase('Y'))));
}

#[test]
fn reverse_complement_is_an_involution() {
    assert_eq!(reverse_complement("ATCG"), "CGAT");
    for s in ["ACGTTGCA", "GATTACA", "CCCGGGAAT", ""] {
        assert_eq!(reverse_complement(&reverse_complement(s)), s);
    }
}

#[test]
fn tolerant_reverse_complement_keeps_unknown() {
    assert_eq!(reverse_complement("acgN"), "NCGT");
    let service = PrimerDesignServiceImpl::new();
    assert!(service.is_complement('a', 'T'));
    assert!(!service.is_complement('A', 'G'));
    assert!(is_complement('G', 'C'));
    assert!(!is_complement('g', 'C'));
}

#[test]
fn palindrome_detection_with_self_complementary_inputs() {
    // Both equal their own reverse complement; the original asserted false here.
    assert!(is_palindrome("ATGCAT"));
    assert!(is_palindrome("ACGTACGT"));
}

#[test]
fn palindrome_detection() {
    assert!(is_palindrome("GAATTC"));
    assert!(is_palindrome("ATCGAT"));
    assert!(!is_palindrome("ACGTTT"));
    assert!(!is_palindrome("GAATTG"));
}

#[test]
fn gc_count_of_mixed_sequence() {
    assert_eq!(gc_count("ATGCGCGCGCAT"), 8);
    assert_eq!(gc_count(""), 0);
    assert_eq!(gc_count("gcGC"), 2);
}

#[test]
fn test_validation_results() {
    let mut validation = ValidationResults::new();
    assert!(!validation.is_valid());

    validation.self_dimer_check = true;
    validation.hairpin_check = true;
    assert!(validation.is_valid());

    validation.warnings.push("Warning message".to_string());
    assert!(!validation.is_valid());
}

#[test]
fn validation_add_warning_invalidates() {
    let mut validation = ValidationResults::new();
    validation.self_dimer_check = true;
    validation.hairpin_check = true;
    validation.add_warning("primer dimer".to_string());
    assert!(!validation.is_valid());
    assert_eq!(validation.warnings.len(), 1);
}

#[test]
fn range_and_base_count() {
    let r = Range::new(3, 10);
    assert_eq!(r.len(), 7);
    let mut b = BaseCount::new();
    assert_eq!(b.total(), 0);
    b.a = 2;
    b.g = 3;
    b.other = 1;
    assert_eq!(b.total(), 6);
}

#[test]
fn target_region_checks() {
    assert_eq!(check_target_region(100, 10, 10), Err(DesignError::InvalidRegion));
    assert_eq!(check_target_region(100, 20, 10), Err(DesignError::InvalidRegion));
    assert_eq!(check_target_region(100, 10, 101), Err(DesignError::InvalidRegion));
    assert_eq!(check_target_region(100, 10, 100), Ok(()));
}

#[test]
fn candidate_window_is_clamped() {
    assert_eq!(candidate_window(300, 20, 18), (0, 70));
    assert_eq!(candidate_window(300, 200, 18), (150, 250));
    assert_eq!(candidate_window(230, 200, 20), (150, 210));
    assert_eq!(candidate_window(10, 5, 20), (0, 0));
}

#[test]
fn amplicon_bounds_filter() {
    assert_eq!(amplicon_bounds(10, 20, 190, 20, 400), Some((10, 210)));
    assert_eq!(amplicon_bounds(190, 22, 10, 20, 400), Some((10, 212)));
    assert_eq!(amplicon_bounds(10, 20, 50, 20, 400), None);
    assert_eq!(amplicon_bounds(10, 20, 3100, 20, 4000), None);
    assert_eq!(amplicon_bounds(10, 20, 190, 20, 205), None);
    assert_eq!(amplicon_bounds(0, 25, 150, 18, 400), Some((0, 168)));
    assert_eq!(amplicon_bounds(0, 25, 80, 18, 400), None);
}

#[test]
fn genetic_code_table() {
    let _stats = StatsServiceImpl::new();
    let code = get_genetic_code(1);
    assert_eq!(code.len(), 64);
    let find = |c: &str| code.iter().find(|(k, _)| k == c).map(|(_, a)| *a);
    assert_eq!(find("ATG"), Some('M'));
    assert_eq!(find("TAA"), Some('*'));
    assert_eq!(find("TGG"), Some('W'));
    assert_eq!(find("GCA"), Some('A'));
    assert_eq!(find("CGT"), Some('R'));
    assert_eq!(find("TTT"), Some('F'));
}

#[test]
fn dinucleotide_reverse_complement_and_keys() {
    assert_eq!(reverse_complement_dinucleotide("GA").unwrap(), "TC");
    assert_eq!(reverse_complement_dinucleotide("AT").unwrap(), "AT");
    assert_eq!(
        reverse_complement_dinucleotide("XA"),
        Err(ThermodynamicError::UnknownBase('X'))
    );
    assert_eq!(
        reverse_complement_dinucleotide("NX"),
        Err(ThermodynamicError::UnknownBase('X'))
    );
    assert_eq!(
        reverse_complement_dinucleotide("ACG"),
        Err(ThermodynamicError::InvalidSequence("ACG".to_string()))
    );
    assert_eq!(
        dinucleotide_keys("AA").unwrap(),
        ("AA/TT".to_string(), "TT/AA".to_string())
    );
    assert_eq!(
        dinucleotide_keys("CA").unwrap(),
        ("CA/TG".to_string(), "TG/CA".to_string())
    );
}

#[test]
fn asymmetric_loop_keys_are_ordered() {
    assert_eq!(asymmetric_loop_key(3, 1), "1x3");
    assert_eq!(asymmetric_loop_key(1, 2), "1x2");
    assert_eq!(asymmetric_loop_key(12, 12), "12x12");
}

#[test]
fn self_dimer_scan_finds_poly_a_pairing() {
    let seq: Vec<char> = "AAAAAAAA".chars().collect();
    let scan = vitalis_core::dimer::self_dimer_scan(&seq).unwrap();
    assert_eq!(scan.alignments.len(), 14);
    assert_eq!(scan.max_score, -14);
    assert_eq!(scan.best_alignment_offset, Some(1));
    assert!(scan.is_problematic);
    assert_eq!(scan.alignments[0].mismatches, 7);
    assert_eq!(scan.alignments[7].pairs, 7);
    assert_eq!(scan.alignments[7].length, 7);
}

#[test]
fn hetero_dimer_scan_scores_each_offset() {
    let a: Vec<char> = "ACGT".chars().collect();
    let scan = vitalis_core::dimer::hetero_dimer_scan(&a, &a).unwrap();
    assert_eq!(scan.alignments.len(), 8);
    assert_eq!(scan.alignments[1].pairs, 1);
    assert_eq!(scan.alignments[1].mismatches, 2);
    assert_eq!(scan.max_score, -2);
    assert_eq!(scan.best_alignment_offset, Some(3));
    assert!(!scan.is_problematic);
    let bad: Vec<char> = "ACNT".chars().collect();
    assert_eq!(
        vitalis_core::dimer::hetero_dimer_scan(&a, &bad).err(),
        Some(ThermodynamicError::UnknownBase('N'))
    );
}

#[test]
fn hairpin_sites_in_search_order() {
    let site = |start, stem_length, loop_size| HairpinSite { start, stem_length, loop_size };
    let seq: Vec<char> = "GCGCAAAAAGCGC".chars().collect();
    assert_eq!(hairpin_sites(&seq).unwrap(), vec![site(0, 3, 7), site(1, 3, 5), site(0, 4, 5)]);
    let other: Vec<char> = "GCGCAAAAACGCG".chars().collect();
    assert_eq!(hairpin_sites(&other).unwrap(), vec![site(0, 3, 6), site(1, 3, 6)]);
    let plain: Vec<char> = "AAAAAAAAAA".chars().collect();
    assert!(hairpin_sites(&plain).unwrap().is_empty());
    let unknown: Vec<char> = "GCGCAAAAANGCG".chars().collect();
    assert_eq!(
        hairpin_sites(&unknown).err(),
        Some(ThermodynamicError::UnknownBase('N'))
    );
}

#[test]
fn longest_shared_run_between_strand_and_its_reverse_complement() {
    let a: Vec<char> = "GAATTCAA".chars().collect();
    let b: Vec<char> = "TTGAATTC".chars().collect();
    assert_eq!(longest_shared_run(&a, &b), 6);
    let c: Vec<char> = "AAAA".chars().collect();
    let d: Vec<char> = "CCCC".chars().collect();
    assert_eq!(longest_shared_run(&c, &d), 0);
    assert_eq!(longest_shared_run(&[], &d), 0);
}

#[test]
fn service_alignment_score_in_half_units() {
    let a: Vec<char> = "AAAA".chars().collect();
    let t: Vec<char> = "TTTT".chars().collect();
    assert_eq!(service_alignment_score(&a, &t), -16);
    let two: Vec<char> = "AT".chars().collect();
    assert_eq!(service_alignment_score(&two, &two), 0);
    let x: Vec<char> = "ACGTA".chars().collect();
    let y: Vec<char> = "TGCAA".chars().collect();
    assert_eq!(service_alignment_score(&x, &y), -17);
}

#[test]
fn repeat_findings() {
    let seq: Vec<char> = "GCTTTTTTGATATATATC".chars().collect();
    let found = find_repeats(&seq);
    assert_eq!(found.single, Some('T'));
    assert_eq!(found.very_long, Some('T'));
    assert!(found.dinucleotide);
    let plain: Vec<char> = "ACGTAACCGGTT".chars().collect();
    let none = find_repeats(&plain);
    assert_eq!(none.single, None);
    assert_eq!(none.very_long, None);
    assert!(!none.dinucleotide);
    let mixed: Vec<char> = "CCCCAAAAG".chars().collect();
    assert_eq!(find_repeats(&mixed).single, Some('A'));
}

#[test]
fn base_counts_by_kind() {
    let seq: Vec<char> = "AaTtUGgCNnX-".chars().collect();
    let b = vitalis_core::stats::count_bases(&seq);
    assert_eq!((b.a, b.t, b.g, b.c, b.n, b.other), (2, 3, 2, 1, 2, 2));
    assert_eq!(b.total(), 12);
}
