use vitalis_core::application::{get_window, import_from_file, parse_and_import, ImportFromFileRequest};
use vitalis_core::repository::FileSequenceRepository;

#[test]
fn test_get_window_basic() {
    let mut repo = FileSequenceRepository::new();
    let fasta_content = ">test_seq\nATCGATCGATCGATCG".to_string();
    let result = parse_and_import(&mut repo, fasta_content, "fasta".to_string()).unwrap();

    let window = get_window(&repo, result.seq_id, 2, 6).unwrap();
    assert_eq!(window.bases, "CGAT");
}

#[test]
fn test_get_window_boundary_conditions() {
    let mut repo = FileSequenceRepository::new();
    let fasta_content = ">test_seq\nATCGATCG".to_string();
    let result = parse_and_import(&mut repo, fasta_content, "fasta".to_string()).unwrap();

    let window = get_window(&repo, result.seq_id.clone(), 0, 4).unwrap();
    assert_eq!(window.bases, "ATCG");

    let window = get_window(&repo, result.seq_id.clone(), 4, 8).unwrap();
    assert_eq!(window.bases, "ATCG");

    let window = get_window(&repo, result.seq_id, 0, 8).unwrap();
    assert_eq!(window.bases, "ATCGATCG");
}

#[test]
fn test_get_window_invalid_ranges() {
    let mut repo = FileSequenceRepository::new();
    let fasta_content = ">test_seq\nATCGATCG".to_string();
    let result = parse_and_import(&mut repo, fasta_content, "fasta".to_string()).unwrap();

    let result_err = get_window(&repo, result.seq_id.clone(), 8, 10);
    assert!(result_err.is_err());
    let error_msg = result_err.unwrap_err();
    assert!(error_msg.contains("Invalid range"));

    let window = get_window(&repo, result.seq_id.clone(), 5, 5).unwrap();
    assert_eq!(window.bases, "");

    let window = get_window(&repo, result.seq_id, 6, 4).unwrap();
    assert_eq!(window.bases, "");
}

#[test]
fn test_get_window_end_exceeds_length() {
    let mut repo = FileSequenceRepository::new();
    let fasta_content = ">test_seq\nATCGATCG".to_string();
    let result = parse_and_import(&mut repo, fasta_content, "fasta".to_string()).unwrap();

    let window = get_window(&repo, result.seq_id, 4, 20).unwrap();
    assert_eq!(window.bases, "ATCG");
}

#[test]
fn test_get_window_nonexistent_sequence() {
    let repo = FileSequenceRepository::new();
    let result = get_window(&repo, "nonexistent_seq".to_string(), 0, 4);
    assert!(result.is_err());
    let error_msg = result.unwrap_err();
    assert!(error_msg.contains("not found") || error_msg.contains("Sequence not found"));
}

#[test]
fn test_get_window_large_sequence_memory() {
    let mut repo = FileSequenceRepository::new();
    let large_seq = "A".repeat(500) + &"T".repeat(500);
    let fasta_content = format!(">large_seq\n{}", large_seq);
    let result = parse_and_import(&mut repo, fasta_content, "fasta".to_string()).unwrap();

    let window = get_window(&repo, result.seq_id.clone(), 0, 100).unwrap();
    assert_eq!(window.bases, "A".repeat(100));

    let window = get_window(&repo, result.seq_id.clone(), 250, 350).unwrap();
    assert_eq!(window.bases, "A".repeat(100));

    let window = get_window(&repo, result.seq_id.clone(), 900, 1000).unwrap();
    assert_eq!(window.bases, "T".repeat(100));

    let window1 = get_window(&repo, result.seq_id.clone(), 490, 510).unwrap();
    let window2 = get_window(&repo, result.seq_id.clone(), 500, 520).unwrap();
    assert_eq!(window1.bases, "A".repeat(10) + &"T".repeat(10));
    assert_eq!(window2.bases, "T".repeat(20));
}

#[test]
fn test_get_window_file_based_sequence() {
    let mut repo = FileSequenceRepository::new();
    let content = ">file_seq Test sequence from file\nATCGATCGATCGATCG\nGCTAGCTAGCTAGCTA\nTTAATTAATTAATTAA\n".to_string();
    let request = ImportFromFileRequest {
        file_path: "/data/file_seq.fasta".to_string(),
        format: "fasta".to_string(),
    };
    let result = import_from_file(&mut repo, request, content).unwrap();

    let window = get_window(&repo, result.seq_id.clone(), 0, 8).unwrap();
    assert_eq!(window.bases, "ATCGATCG");

    let window = get_window(&repo, result.seq_id.clone(), 14, 18).unwrap();
    assert_eq!(window.bases, "CGGC");

    let window = get_window(&repo, result.seq_id.clone(), 16, 32).unwrap();
    assert_eq!(window.bases, "GCTAGCTAGCTAGCTA");

    let window = get_window(&repo, result.seq_id.clone(), 30, 40).unwrap();
    assert_eq!(window.bases, "TATTAATTAA");

    let window = get_window(&repo, result.seq_id, 40, 48).unwrap();
    assert_eq!(window.bases, "TTAATTAA");
}

#[test]
fn test_get_window_multiline_sequences() {
    let mut repo = FileSequenceRepository::new();
    let content = ">multiline_seq\nAAAAAAAAAA\nTTTTTTTTTT\nGGGGGGGGGG\nCCCCCCCCCC\n".to_string();
    let request = ImportFromFileRequest {
        file_path: "/data/multi.fasta".to_string(),
        format: "fasta".to_string(),
    };
    let result = import_from_file(&mut repo, request, content).unwrap();

    let window = get_window(&repo, result.seq_id.clone(), 5, 15).unwrap();
    assert_eq!(window.bases, "AAAAATTTTT");

    let window = get_window(&repo, result.seq_id, 18, 32).unwrap();
    assert_eq!(window.bases, "TTGGGGGGGGGGCC");
}

#[test]
fn test_get_window_special_characters() {
    let mut repo = FileSequenceRepository::new();
    let fasta_content = ">test_seq\nATCGNNNNatcgXYZ".to_string();
    let result = parse_and_import(&mut repo, fasta_content, "fasta".to_string()).unwrap();

    let window = get_window(&repo, result.seq_id.clone(), 8, 12).unwrap();
    assert_eq!(window.bases, "ATCG");

    let window = get_window(&repo, result.seq_id, 4, 8).unwrap();
    assert_eq!(window.bases, "NNNN");
}

#[test]
fn test_get_window_empty_sequence() {
    let mut repo = FileSequenceRepository::new();
    let fasta_content = ">empty_seq\n".to_string();
    let result = parse_and_import(&mut repo, fasta_content, "fasta".to_string()).unwrap();

    let result_err = get_window(&repo, result.seq_id, 0, 1);
    assert!(result_err.is_err());
}

#[test]
fn test_get_window_consistency_memory_vs_file() {
    let mut repo = FileSequenceRepository::new();
    let sequence = "ATCGATCGATCGATCGATCGATCGATCGATCG";

    let fasta_memory = format!(">mem_seq\n{}", sequence);
    let mem_result = parse_and_import(&mut repo, fasta_memory, "fasta".to_string()).unwrap();

    let request = ImportFromFileRequest {
        file_path: "/data/file_seq.fasta".to_string(),
        format: "fasta".to_string(),
    };
    let file_result = import_from_file(&mut repo, request, format!(">file_seq\n{}\n", sequence)).unwrap();

    let test_cases = vec![(0, 8), (8, 16), (16, 24), (24, 32), (5, 15), (10, 20)];

    for (start, end) in test_cases {
        let mem_window = get_window(&repo, mem_result.seq_id.clone(), start, end).unwrap();
        let file_window = get_window(&repo, file_result.seq_id.clone(), start, end).unwrap();

        assert_eq!(
            mem_window.bases, file_window.bases,
            "Mismatch at window [{}, {})",
            start, end
        );
    }
}

#[test]
fn window_error_names_the_range() {
    let mut repo = FileSequenceRepository::new();
    let result = parse_and_import(&mut repo, ">s\nACGT".to_string(), "fasta".to_string()).unwrap();
    let err = get_window(&repo, result.seq_id, 4, 9).unwrap_err();
    assert_eq!(err, "Invalid range: start=4, end=9");
}
