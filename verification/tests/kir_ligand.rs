use immunoprot::classifier::{classify_frequency, parse_motif, AlleleFreq, LigandMotif,
    NomenclatureError};
use immunoprot::hla::ClassI;
use immunoprot::kir_ligand::{extract_records, read_table, ExtractionError, KirLigandInfo};

#[test]
fn test_known_ligands() {
    let lg_group = "A03".parse::<LigandMotif>().unwrap();
    assert_eq!(LigandMotif::A3, lg_group)
}

#[test]
fn test_ligand_info() {
    let lg_info = "C*01:02:01:01\tC1\tCommon\nB*57:01:01:01\tBw4-80I\tCommon";

    lg_info.lines().for_each(|l| {
        println!("{}", l);
    });
}

#[test]
fn motif_tokens_canonical_and_legacy() {
    assert_eq!("A11".parse::<LigandMotif>().unwrap(), LigandMotif::A11);
    assert_eq!("A3".parse::<LigandMotif>().unwrap(), LigandMotif::A3);
    assert_eq!("A03".parse::<LigandMotif>().unwrap(), LigandMotif::A3);
    assert_eq!("Bw4-80T".parse::<LigandMotif>().unwrap(), LigandMotif::Bw4_80T);
    assert_eq!("  Bw4-80T  ".parse::<LigandMotif>().unwrap(), LigandMotif::Bw4_80T);
    assert_eq!("Bw4-80I".parse::<LigandMotif>().unwrap(), LigandMotif::Bw4_80I);
    assert_eq!("Bw6".parse::<LigandMotif>().unwrap(), LigandMotif::Bw6);
    assert_eq!("C1".parse::<LigandMotif>().unwrap(), LigandMotif::C1);
    assert_eq!("C01".parse::<LigandMotif>().unwrap(), LigandMotif::C1);
    assert_eq!("C2".parse::<LigandMotif>().unwrap(), LigandMotif::C2);
    assert_eq!("C02".parse::<LigandMotif>().unwrap(), LigandMotif::C2);
    assert_eq!("Unclassified".parse::<LigandMotif>().unwrap(), LigandMotif::Unclassified);
}

#[test]
fn motif_unknown_token_fails() {
    match parse_motif(" Bw9 ") {
        Err(NomenclatureError::UnknownLigandMotif(t)) => assert_eq!(t, "Bw9"),
        other => panic!("expected an unknown-motif failure, got {:?}", other),
    }
}

#[test]
fn frequency_classification() {
    assert_eq!(classify_frequency("Common (some note)"), AlleleFreq::Common);
    assert_eq!(classify_frequency("Rare"), AlleleFreq::Rare);
    assert_eq!(classify_frequency("  Rare  "), AlleleFreq::Rare);
    assert_eq!(classify_frequency(""), AlleleFreq::Unknown);
    assert_eq!(classify_frequency("rare"), AlleleFreq::Unknown);
    assert_eq!(classify_frequency("no data"), AlleleFreq::Unknown);
}

#[test]
fn motif_and_freq_text() {
    assert_eq!(LigandMotif::Bw4_80I.as_text(), "Bw4-80I");
    assert_eq!(LigandMotif::Unclassified.as_text(), "Unclassified");
    assert_eq!(AlleleFreq::Unknown.as_text(), "Unknown");
    assert_eq!(AlleleFreq::Common.as_text(), "Common");
}

#[test]
fn class_i_parsing() {
    let a = ClassI::parse("C*01:02:01:01").unwrap();
    assert_eq!(a.gene(), 'C');
    assert_eq!(a.fields(), &vec![1u16, 2, 1, 1]);
    let b = ClassI::parse("C01:02:01:01").unwrap();
    assert_eq!(a, b);
    assert!(ClassI::parse("C*1:2:1:1").unwrap() == a);
    assert!(ClassI::parse("").is_none());
    assert!(ClassI::parse("X*01:02").is_none());
    assert!(ClassI::parse("C*01:02:01:01:01").is_none());
    assert!(ClassI::parse("C*01:ab").is_none());
    assert!(ClassI::parse("C*").is_none());
    assert!(ClassI::parse("C*01234").is_none());
}

#[test]
fn class_i_canonical_text() {
    assert_eq!(ClassI::parse("C*1:2").unwrap().as_text(), "C*01:02");
    assert_eq!(ClassI::parse("C01:02:01:01").unwrap().as_text(), "C*01:02:01:01");
    assert_eq!(ClassI::parse("A*02:101").unwrap().as_text(), "A*02:101");
    assert_eq!(ClassI::parse("B*57").unwrap().as_text(), "B*57");
}

#[test]
fn row_to_record() {
    let rows = vec![vec![
        "C*01:02:01:01".to_string(),
        "C1".to_string(),
        "Common".to_string(),
    ]];
    let recs = extract_records(&rows, 0).unwrap();
    assert_eq!(recs.len(), 1);
    let expected = KirLigandInfo::new(
        ClassI::parse("C*01:02:01:01").unwrap(),
        LigandMotif::C1,
        AlleleFreq::Common,
    );
    assert_eq!(recs[0], expected);
    assert_eq!(*recs[0].motif(), LigandMotif::C1);
    assert_eq!(*recs[0].freq(), AlleleFreq::Common);
}

#[test]
fn row_shape_two_fragments_fails() {
    let rows = vec![vec!["C*01:02".to_string(), "C1".to_string()]];
    match extract_records(&rows, 0) {
        Err(ExtractionError::UnexpectedRowShape(n, text)) => {
            assert_eq!(n, 2);
            assert_eq!(text, "C*01:02C1");
        },
        other => panic!("expected a row-shape failure, got {:?}", other),
    }
}

#[test]
fn row_shape_four_fragments_fails() {
    let rows = vec![vec![
        "C*01:02".to_string(),
        "C1".to_string(),
        "Common".to_string(),
        "extra".to_string(),
    ]];
    match extract_records(&rows, 0) {
        Err(ExtractionError::UnexpectedRowShape(n, _)) => assert_eq!(n, 4),
        other => panic!("expected a row-shape failure, got {:?}", other),
    }
}

#[test]
fn bad_fragments_fail_distinctly() {
    let rows = vec![vec![
        "not-an-allele".to_string(),
        "C1".to_string(),
        "Common".to_string(),
    ]];
    match extract_records(&rows, 0) {
        Err(ExtractionError::UnparseableAllele(t)) => assert_eq!(t, "not-an-allele"),
        other => panic!("expected an allele failure, got {:?}", other),
    }
    let rows = vec![vec![
        "C*01:02".to_string(),
        "Bw9".to_string(),
        "Common".to_string(),
    ]];
    match extract_records(&rows, 0) {
        Err(ExtractionError::UnparseableMotif(t)) => assert_eq!(t, "Bw9"),
        other => panic!("expected a motif failure, got {:?}", other),
    }
}

#[test]
fn extraction_skips_header_rows() {
    let rows = vec![
        vec!["Allele".to_string(), "Motif".to_string(), "Freq".to_string(), "x".to_string()],
        vec!["B*57:01".to_string(), "Bw4-80I".to_string(), "Rare".to_string()],
    ];
    let recs = extract_records(&rows, 1).unwrap();
    assert_eq!(recs.len(), 1);
    assert_eq!(*recs[0].motif(), LigandMotif::Bw4_80I);
    assert_eq!(*recs[0].freq(), AlleleFreq::Rare);
}

#[test]
fn read_table_from_html() {
    let html = "<html><body><table>\
<tr><th>Allele</th><th>Motif</th><th>Freq</th></tr>\
<tr><td>C*01:02:01:01</td><td>C1</td><td>Common</td></tr>\
<tr><td>B*57:01</td><td>Bw4-80I</td><td>Rare</td></tr>\
</table></body></html>";
    let recs = read_table(html, 1).unwrap();
    assert_eq!(recs.len(), 2);
    assert_eq!(recs[0].allele().gene(), 'C');
    assert_eq!(recs[0].allele().fields(), &vec![1u16, 2, 1, 1]);
    assert_eq!(*recs[0].motif(), LigandMotif::C1);
    assert_eq!(*recs[1].motif(), LigandMotif::Bw4_80I);
    assert_eq!(*recs[1].freq(), AlleleFreq::Rare);
}
