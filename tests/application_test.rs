use vitalis_core::application::{
    export, get_genbank_metadata, get_meta, get_window, import_from_file, import_sequence,
    parse_and_import, parse_preview, ImportFromFileRequest,
};
use vitalis_core::repository::FileSequenceRepository;
use vitalis_core::Topology;

#[test]
fn test_parse_and_import() {
    let mut repo = FileSequenceRepository::new();
    let fasta_content = ">test_seq Test sequence\nATCGATCG".to_string();
    let result = parse_and_import(&mut repo, fasta_content, "fasta".to_string()).unwrap();

    assert!(result.seq_id.starts_with("seq_"));

    let meta = get_meta(&repo, result.seq_id.clone()).unwrap();
    assert_eq!(meta.id, "test_seq");
    assert_eq!(meta.name, "Test sequence");
    assert_eq!(meta.length, 8);
}

#[test]
fn mod_test_get_window() {
    let mut repo = FileSequenceRepository::new();
    let fasta_content = ">test_seq\nATCGATCGATCG".to_string();
    let result = parse_and_import(&mut repo, fasta_content, "fasta".to_string()).unwrap();

    let window = get_window(&repo, result.seq_id, 2, 6).unwrap();
    assert_eq!(window.bases, "CGAT");
}

#[test]
fn mod_test_export() {
    let mut repo = FileSequenceRepository::new();
    let fasta_content = ">test_seq Test\nATCG".to_string();
    let result = parse_and_import(&mut repo, fasta_content, "fasta".to_string()).unwrap();

    let exported = export(&repo, result.seq_id, "fasta".to_string()).unwrap();
    assert!(exported.text.contains(">test_seq Test"));
    assert!(exported.text.contains("ATCG"));
}

#[test]
fn test_file_import() {
    let mut repo = FileSequenceRepository::new();
    let content = ">test_file_seq Test from file\nATCGATCG\nGCTAGCTA\n".to_string();
    let request = ImportFromFileRequest {
        file_path: "/data/test.fasta".to_string(),
        format: "fasta".to_string(),
    };

    let result = import_from_file(&mut repo, request, content).unwrap();
    let meta = get_meta(&repo, result.seq_id.clone()).unwrap();

    assert_eq!(meta.id, "test_file_seq");
    assert_eq!(meta.length, 16);
    assert!(meta.file_path.is_some());

    let window = get_window(&repo, result.seq_id, 4, 12).unwrap();
    assert_eq!(window.bases, "ATCGGCTA");
}

#[test]
fn import_gives_consecutive_keys() {
    let mut repo = FileSequenceRepository::new();
    let a = parse_and_import(&mut repo, ">a\nAC".to_string(), "fasta".to_string()).unwrap();
    let b = parse_and_import(&mut repo, ">b\nGT".to_string(), "fasta".to_string()).unwrap();
    assert_eq!(a.seq_id, "seq_1");
    assert_eq!(b.seq_id, "seq_2");
}

#[test]
fn import_refuses_unknown_format() {
    let mut repo = FileSequenceRepository::new();
    let err = parse_and_import(&mut repo, ">a\nAC".to_string(), "embl".to_string()).unwrap_err();
    assert_eq!(err, "Parse error: Unsupported format: embl");
}

#[test]
fn import_refuses_text_without_sequences() {
    let mut repo = FileSequenceRepository::new();
    let err = parse_and_import(&mut repo, "".to_string(), "fasta".to_string()).unwrap_err();
    assert_eq!(err, "Parse error: No sequences found");
}

#[test]
fn import_refuses_bad_fastq() {
    let mut repo = FileSequenceRepository::new();
    let err =
        parse_and_import(&mut repo, "read1\nACGT\n+\nIIII".to_string(), "fastq".to_string())
            .unwrap_err();
    assert_eq!(err, "Parse error: Invalid FASTQ format");
}

#[test]
fn import_fastq_keeps_first_record() {
    let mut repo = FileSequenceRepository::new();
    let text = "@r1 first read\nACGT\n+\nIIII\n@r2\nGGGG\n+\nIIII".to_string();
    let result = parse_and_import(&mut repo, text, "fastq".to_string()).unwrap();
    let meta = get_meta(&repo, result.seq_id).unwrap();
    assert_eq!(meta.id, "r1");
    assert_eq!(meta.name, "first read");
    assert_eq!(meta.length, 4);
}

#[test]
fn preview_lists_every_sequence() {
    let repo = FileSequenceRepository::new();
    let long = "A".repeat(60);
    let text = format!(">one first\n{}\n>two\nCCGG", long);
    let preview = parse_preview(&repo, text, "fasta".to_string()).unwrap();
    assert_eq!(preview.format, "fasta");
    assert_eq!(preview.sequences.len(), 2);
    assert_eq!(preview.sequences[0].id, "one");
    assert_eq!(preview.sequences[0].length, 60);
    assert_eq!(preview.sequences[0].preview, "A".repeat(50));
    assert_eq!(preview.sequences[1].preview, "CCGG");
}

#[test]
fn preview_refuses_unknown_format() {
    let repo = FileSequenceRepository::new();
    let err = parse_preview(&repo, ">a\nA".to_string(), "txt".to_string()).unwrap_err();
    assert_eq!(err, "Unsupported format: txt");
}

#[test]
fn import_sequence_by_index() {
    let mut repo = FileSequenceRepository::new();
    let text = ">one\nAAAA\n>two second\nCCGG".to_string();
    let result = import_sequence(&mut repo, text.clone(), "fasta".to_string(), 1).unwrap();
    let meta = get_meta(&repo, result.seq_id.clone()).unwrap();
    assert_eq!(meta.id, "two");
    assert_eq!(meta.name, "second");
    assert_eq!(get_window(&repo, result.seq_id, 0, 4).unwrap().bases, "CCGG");

    let err = import_sequence(&mut repo, text, "fasta".to_string(), 2).unwrap_err();
    assert_eq!(err, "Sequence index out of range");
}

#[test]
fn export_as_fastq_uses_dummy_quality() {
    let mut repo = FileSequenceRepository::new();
    let result = parse_and_import(&mut repo, ">s d\nACG".to_string(), "fasta".to_string()).unwrap();
    let exported = export(&repo, result.seq_id.clone(), "fastq".to_string()).unwrap();
    assert_eq!(exported.text, "@s d\nACG\n+\nIII\n");
    let fasta = export(&repo, result.seq_id.clone(), "fasta".to_string()).unwrap();
    assert_eq!(fasta.text, ">s d\nACG\n");
    let err = export(&repo, result.seq_id, "gff".to_string()).unwrap_err();
    assert_eq!(err, "Unsupported export format: gff");
}

#[test]
fn genbank_metadata_reads_header_and_features() {
    let text = "LOCUS       X1   8 bp    DNA     circular   BCT 01-JAN-2024\nDEFINITION  Small test.\nACCESSION   X1 REGION: 1..8\nVERSION     X1.1\nSOURCE      Lab\n  ORGANISM  Lab strain\nFEATURES             Location/Qualifiers\n     gene            1..8\n                     /gene=\"abc\"\n                     /pseudo\nORIGIN\n        1 acgtacgt\n//\n".to_string();
    let meta = get_genbank_metadata(text).unwrap();
    assert_eq!(meta.accession, "X1");
    assert_eq!(meta.version, "X1.1");
    assert_eq!(meta.definition, "Small test.");
    assert_eq!(meta.source, "Lab");
    assert_eq!(meta.organism, "Lab strain");
    assert_eq!(meta.length, 8);
    assert_eq!(meta.topology, Topology::Circular);
    assert_eq!(meta.features.len(), 1);
    assert_eq!(meta.features[0].feature_type, "gene");
    assert_eq!(meta.features[0].location, "1..8");
    assert_eq!(
        meta.features[0].qualifiers,
        vec![
            ("gene".to_string(), "abc".to_string()),
            ("pseudo".to_string(), "true".to_string())
        ]
    );
}
