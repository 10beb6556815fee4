use vitalis_core::storage::{ByteOffset, SequenceStorage};

#[test]
fn test_memory_storage() {
    let mut storage = SequenceStorage::new();
    let fasta = ">test\nATCGATCG";
    let seq_id = storage.import_from_text(fasta, "fasta").unwrap();

    let window = storage.get_window(&seq_id, 2, 6).unwrap();
    assert_eq!(window, "CGAT");
}

#[test]
fn test_file_storage() {
    let mut storage = SequenceStorage::new();
    let content = ">test_seq Test sequence\nATCGATCG\nGCTAGCTA\nTTAATTAA\n";

    let seq_id = storage
        .import_from_file_text("/data/test_seq.fasta".to_string(), content, "fasta")
        .unwrap();

    let metadata = storage.get_metadata(&seq_id).unwrap();
    assert_eq!(metadata.length, 24);
    assert_eq!(metadata.id, "test_seq");

    let window = storage.get_window(&seq_id, 0, 8).unwrap();
    assert_eq!(window, "ATCGATCG");

    let window = storage.get_window(&seq_id, 8, 16).unwrap();
    assert_eq!(window, "GCTAGCTA");

    let window = storage.get_window(&seq_id, 4, 12).unwrap();
    assert_eq!(window, "ATCGGCTA");
}

#[test]
fn file_index_records_line_offsets() {
    let mut storage = SequenceStorage::new();
    let content = ">s desc words\nACGT\n\nGG\n>t\nTTTT\n";
    let seq_id = storage.import_from_file_text("/x.fa".to_string(), content, "fasta").unwrap();
    let metadata = storage.get_metadata(&seq_id).unwrap();
    assert_eq!(metadata.name, "desc words");
    assert_eq!(metadata.file_path, Some("/x.fa".to_string()));
    assert_eq!(
        metadata.byte_offsets,
        vec![
            ByteOffset { seq_position: 0, byte_position: 14, line_length: 4 },
            ByteOffset { seq_position: 4, byte_position: 20, line_length: 2 },
        ]
    );
    assert_eq!(storage.get_full_sequence(&seq_id).unwrap(), "ACGTGG");
}

#[test]
fn storage_errors() {
    let mut storage = SequenceStorage::new();
    assert_eq!(
        storage.import_from_text(">a\nAC", "genbank").unwrap_err(),
        "Unsupported format: genbank"
    );
    assert_eq!(storage.import_from_text("", "fasta").unwrap_err(), "No sequences found");
    assert_eq!(
        storage.import_from_file_text("/y".to_string(), ">a\nAC", "fastq").unwrap_err(),
        "File-based import not yet supported for format: fastq"
    );
    assert_eq!(
        storage.import_from_file_text("/y".to_string(), "ACGT\n", "fasta").unwrap_err(),
        "No valid FASTA sequence found"
    );
    let id = storage.import_from_text(">a\nacgt", "fasta").unwrap();
    assert_eq!(id, "seq_1");
    assert_eq!(storage.get_window(&id, 1, 3).unwrap(), "CG");
    assert_eq!(storage.get_window(&id, 3, 1).unwrap(), "");
    assert_eq!(
        storage.get_window(&id, 4, 5).unwrap_err(),
        "Start position exceeds sequence length"
    );
    assert_eq!(storage.get_window("seq_9", 0, 1).unwrap_err(), "Sequence not found: seq_9");
    assert_eq!(storage.next_id(), "seq_2");
}
