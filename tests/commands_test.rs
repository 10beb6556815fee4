use vitalis_core::commands::{export, get_meta, get_window, parse_and_import, CommandStore};

#[test]
fn test_parse_and_import_fasta() {
    let mut store = CommandStore::new();
    let fasta_content = ">test_seq Test sequence\nATCGATCG".to_string();
    let result = parse_and_import(&mut store, fasta_content, "fasta".to_string()).unwrap();

    assert!(result.seq_id.starts_with("seq_"));

    let meta = get_meta(&store, result.seq_id.clone()).unwrap();
    assert_eq!(meta.id, "test_seq");
    assert_eq!(meta.name, "Test sequence");
    assert_eq!(meta.length, 8);
}

#[test]
fn commands_test_get_window() {
    let mut store = CommandStore::new();
    let fasta_content = ">test_seq\nATCGATCGATCG".to_string();
    let result = parse_and_import(&mut store, fasta_content, "fasta".to_string()).unwrap();

    let window = get_window(&store, result.seq_id, 2, 6).unwrap();
    assert_eq!(window.bases, "CGAT");
}

#[test]
fn commands_test_export() {
    let mut store = CommandStore::new();
    let fasta_content = ">test_seq Test\nATCG".to_string();
    let result = parse_and_import(&mut store, fasta_content, "fasta".to_string()).unwrap();

    let exported = export(&store, result.seq_id, "fasta".to_string()).unwrap();
    assert!(exported.text.contains(">test_seq Test"));
    assert!(exported.text.contains("ATCG"));
}

#[test]
fn commands_keep_fastq_quality() {
    let mut store = CommandStore::new();
    let text = "@r1\nACGT\n+\nIIH#".to_string();
    let result = parse_and_import(&mut store, text, "fastq".to_string()).unwrap();
    let meta = get_meta(&store, result.seq_id.clone()).unwrap();
    assert_eq!(meta.name, "r1");
    let exported = export(&store, result.seq_id, "fastq".to_string()).unwrap();
    assert_eq!(exported.text, "@r1 r1\nACGT\n+\nIIH#\n");
}

#[test]
fn commands_errors() {
    let mut store = CommandStore::new();
    assert_eq!(
        parse_and_import(&mut store, "".to_string(), "fasta".to_string()).unwrap_err(),
        "No sequences found in FASTA content"
    );
    assert_eq!(
        parse_and_import(&mut store, "".to_string(), "fastq".to_string()).unwrap_err(),
        "No sequences found in FASTQ content"
    );
    assert_eq!(
        parse_and_import(&mut store, "x".to_string(), "fasta".to_string()).unwrap_err(),
        "Invalid format: FASTA content must start with '>'"
    );
    assert_eq!(
        parse_and_import(&mut store, "x".to_string(), "raw".to_string()).unwrap_err(),
        "Unsupported format: raw"
    );
    let result = parse_and_import(&mut store, ">s\nacgt".to_string(), "fasta".to_string()).unwrap();
    assert_eq!(
        get_window(&store, result.seq_id.clone(), 4, 6).unwrap_err(),
        "Start position exceeds sequence length"
    );
    assert_eq!(get_window(&store, result.seq_id.clone(), 1, 9).unwrap().bases, "CGT");
    assert_eq!(
        get_meta(&store, "seq_7".to_string()).unwrap_err(),
        "Sequence not found: seq_7"
    );
    let fastq = export(&store, result.seq_id, "fastq".to_string()).unwrap();
    assert_eq!(fastq.text, "@s s\nACGT\n+\nIIII\n");
}
