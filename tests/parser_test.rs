use vitalis_core::fasta::{parse_fasta, FastaRecord, ParseError};
use vitalis_core::fastq::{parse_fastq, FastqRecord};
use vitalis_core::genbank::GenBankParser;
use vitalis_core::parsers::{FastaParser, FastqParser, ParserError, SequenceParser};
use vitalis_core::Topology;

#[test]
fn test_basic_fasta_parsing() {
    let content = ">seq1 description\nATCG\n>seq2\nGGCC";
    let records = parse_fasta(content).unwrap();

    assert_eq!(records.len(), 2);
    assert_eq!(records[0].id, "seq1");
    assert_eq!(records[0].description, Some("description".to_string()));
    assert_eq!(records[0].sequence, "ATCG");
    assert_eq!(records[1].id, "seq2");
    assert_eq!(records[1].description, None);
    assert_eq!(records[1].sequence, "GGCC");
}

#[test]
fn test_multiline_sequence() {
    let content = ">seq1\nATCG\nGGCC\nTTAA";
    let records = parse_fasta(content).unwrap();

    assert_eq!(records.len(), 1);
    assert_eq!(records[0].sequence, "ATCGGGCCTTAA");
}

#[test]
fn test_lowercase_conversion() {
    let content = ">seq1\natcg";
    let records = parse_fasta(content).unwrap();

    assert_eq!(records[0].sequence, "ATCG");
}

#[test]
fn test_invalid_fasta() {
    let invalid = "seq1\nATCG";
    let result = parse_fasta(invalid);
    assert!(result.is_err());

    let empty = "";
    let result = parse_fasta(empty);
    assert!(result.is_ok());
    assert_eq!(result.unwrap().len(), 0);

    let headers_only = ">seq1\n>seq2\n>seq3";
    let result = parse_fasta(headers_only);
    assert!(result.is_ok());
    let records = result.unwrap();
    assert_eq!(records.len(), 3);
    assert_eq!(records[0].sequence, "");
}

#[test]
fn fasta_error_message() {
    let err = parse_fasta("ACGT").unwrap_err();
    assert_eq!(err, ParseError::InvalidFormat("FASTA content must start with '>'".to_string()));
    assert_eq!(err.message(), "Invalid format: FASTA content must start with '>'");
}

#[test]
fn fasta_record_cleans_sequence() {
    let r = FastaRecord::new("x".to_string(), None, "ac gt\tn".to_string());
    assert_eq!(r.sequence, "ACGTN");
}

#[test]
fn fasta_crlf_and_blank_lines() {
    let records = parse_fasta(">a  two  spaces\r\nAC\r\n\r\n  gt  \r\n").unwrap();
    assert_eq!(records.len(), 1);
    assert_eq!(records[0].id, "a");
    assert_eq!(records[0].description, Some(" two  spaces".to_string()));
    assert_eq!(records[0].sequence, "ACGT");
}

#[test]
fn test_basic_fastq_parsing() {
    let content = "@read1 desc\nATCG\n+\nIIII\n@read2\nGGCC\n+\nHHHH";
    let records = parse_fastq(content).unwrap();

    assert_eq!(records.len(), 2);
    assert_eq!(records[0].id, "read1");
    assert_eq!(records[0].description, Some("desc".to_string()));
    assert_eq!(records[0].sequence, "ATCG");
    assert_eq!(records[0].quality, "IIII");
}

#[test]
fn test_quality_scores() {
    let content = "@read1\nATCG\n+\n!III";
    let records = parse_fastq(content).unwrap();
    let scores = records[0].get_quality_scores();

    assert_eq!(scores, vec![0, 40, 40, 40]);
}

#[test]
fn test_length_mismatch() {
    let content = "@read1\nATCG\n+\nII";
    let result = parse_fastq(content);

    assert!(result.is_err());
}

#[test]
fn test_invalid_fastq() {
    let invalid = "@read1\nATCG\n+\nIII";
    let result = parse_fastq(invalid);
    assert!(result.is_err());

    let invalid = "@read1\nATCG\n+";
    let result = parse_fastq(invalid);
    assert!(result.is_err());

    let invalid = "@read1\nATCG\nIIII";
    let result = parse_fastq(invalid);
    assert!(result.is_err());

    let empty = "";
    let result = parse_fastq(empty);
    assert!(result.is_ok());
    assert_eq!(result.unwrap().len(), 0);
}

#[test]
fn fastq_error_messages() {
    assert_eq!(
        parse_fastq("@r\nACGT\n+\nII").unwrap_err(),
        ParseError::LengthMismatch("Sequence length (4) != quality length (2)".to_string())
    );
    assert_eq!(
        parse_fastq("\nr1\nACGT").unwrap_err(),
        ParseError::InvalidFormat("Expected '@' at line 2, found 'r1'".to_string())
    );
    assert_eq!(parse_fastq("@r").unwrap_err(), ParseError::MissingField("sequence".to_string()));
    assert_eq!(
        parse_fastq("@r\nAC\nII").unwrap_err(),
        ParseError::InvalidFormat("Expected '+' separator".to_string())
    );
    assert_eq!(parse_fastq("@r\nAC\n+").unwrap_err(), ParseError::MissingField("quality".to_string()));
}

#[test]
fn fastq_trim_by_quality() {
    let mut r = FastqRecord::new("r".to_string(), None, "ACGTACGT".to_string(), "II##II##".to_string())
        .unwrap();
    r.trim_by_quality(20);
    assert_eq!(r.sequence, "GTAC");
    assert_eq!(r.quality, "##II");

    let mut all_good =
        FastqRecord::new("r".to_string(), None, "ACGT".to_string(), "IIII".to_string()).unwrap();
    all_good.trim_by_quality(20);
    assert_eq!(all_good.sequence, "ACGT");

    let mut all_bad =
        FastqRecord::new("r".to_string(), None, "ACGT".to_string(), "####".to_string()).unwrap();
    all_bad.trim_by_quality(20);
    assert_eq!(all_bad.sequence, "");
    assert_eq!(all_bad.quality, "");
}

#[test]
fn fastq_trim_to_length() {
    let mut r = FastqRecord::new("r".to_string(), None, "ACGTACGT".to_string(), "IIIIIIII".to_string())
        .unwrap();
    r.trim_to_length(3);
    assert_eq!(r.sequence, "ACG");
    assert_eq!(r.quality, "III");
    r.trim_to_length(10);
    assert_eq!(r.sequence, "ACG");
}

#[test]
fn simple_parsers_read_headers_by_words() {
    let seqs = FastaParser.parse(">  id1   some   name  \nAC\n>\nGG").unwrap();
    assert_eq!(seqs.len(), 2);
    assert_eq!(seqs[0].id, "id1");
    assert_eq!(seqs[0].name, "some name");
    assert_eq!(seqs[0].sequence, "AC");
    assert_eq!(seqs[1].id, "unknown");
    assert_eq!(seqs[1].sequence, "GG");
    assert_eq!(seqs[1].topology, Topology::Linear);

    let reads = FastqParser.parse("@r1 a b\nACGT\n+\nIIII").unwrap();
    assert_eq!(reads.len(), 1);
    assert_eq!(reads[0].name, "a b");

    assert_eq!(
        FastqParser.parse("r1\nACGT\n+\nIIII").unwrap_err(),
        ParserError::InvalidFormat("Invalid FASTQ format".to_string())
    );
    assert_eq!(
        FastaParser.parse("").unwrap_err(),
        ParserError::InvalidFormat("No sequences found".to_string())
    );
}

#[test]
fn test_parse_simple_genbank() {
    let genbank_content = r#"LOCUS       TEST_SEQ                 100 bp    DNA     linear   BCT 01-JAN-2024
DEFINITION  Test sequence for GenBank parser.
ACCESSION   TEST001
VERSION     TEST001.1
SOURCE      Test organism
  ORGANISM  Test organism
            Bacteria; Test phylum; Test class.
FEATURES             Location/Qualifiers
     source          1..100
                     /organism="Test organism"
                     /mol_type="genomic DNA"
     gene            10..90
                     /gene="testA"
                     /product="test protein A"
ORIGIN
        1 atgcgtacgt cgtagctagt cgtagctagc tagctagcta gctagctagt cgtagctacg
       61 tagctagcta gctagctagt cgtagctagt cgtagctacg
//
"#;

    let parser = GenBankParser::new();
    let result = parser.parse(genbank_content);

    assert!(result.is_ok());
    let record = result.unwrap();

    assert_eq!(record.locus, "TEST_SEQ");
    assert_eq!(record.accession, "TEST001");
    assert_eq!(record.length, 100);
    assert_eq!(record.topology, Topology::Linear);
    assert!(record.sequence.len() > 0);
    assert!(!record.features.is_empty());
}

#[test]
fn genbank_locus_fields_and_definition_continuation() {
    let text = "LOCUS       AB1   12 bp    mRNA     circular   PLN 15-MAR-2020\nDEFINITION  First part\n            second part.\nORIGIN\n        1 acgtac gtacgt\n//\nignored line";
    let record = GenBankParser::new().parse(text).unwrap();
    assert_eq!(record.locus, "AB1");
    assert_eq!(record.molecule_type, "mRNA");
    assert_eq!(record.division, "PLN");
    assert_eq!(record.date, "15-MAR-2020");
    assert_eq!(record.topology, Topology::Circular);
    assert_eq!(record.definition, "First part second part.");
    assert_eq!(record.sequence, "ACGTACGTACGT");
    assert_eq!(record.length, 12);
    let seq = GenBankParser::new().to_sequence(&record);
    assert_eq!(seq.name, "First part second part.");
    assert_eq!(seq.sequence, "ACGTACGTACGT");
}
