use immunoprot::classifier::{AlleleFreq, LigandMotif};
use immunoprot::hla::ClassI;
use immunoprot::kir_ligand::ExtractionError;
use immunoprot::ligand_map::KirLigandMap;

fn page(rows: &[(&str, &str, &str)]) -> String {
    let mut body = String::from(
        "<html><body><table><tr><th>Allele</th><th>Motif</th><th>Freq</th></tr>",
    );
    for (allele, motif, freq) in rows {
        body.push_str(&format!(
            "<tr><td>{}</td><td>{}</td><td>{}</td></tr>",
            allele, motif, freq
        ));
    }
    body.push_str("</table></body></html>");
    body
}

#[test]
fn build_over_loci_and_lookup() {
    let pages = vec![
        page(&[("A*02:07", "Unclassified", "Common"), ("A*03:01", "A3", "Common")]),
        page(&[("B*57:01", "Bw4-80I", "Common")]),
        page(&[("C*01:02", "C1", "Common")]),
    ];
    let map = KirLigandMap::new(&pages).unwrap();
    assert_eq!(map.alleles.len(), 4);
    assert_eq!(map.cache.len(), 4);

    let hit = map.get_allele_info(&ClassI::parse("B*57:01").unwrap());
    assert_eq!(hit.len(), 1);
    assert_eq!(*hit[0].motif(), LigandMotif::Bw4_80I);
}

#[test]
fn last_write_wins_across_loci() {
    let pages = vec![
        page(&[("A*03:01", "A3", "Common")]),
        page(&[("B*57:01", "Bw4-80I", "Common")]),
        page(&[("C*01:02", "C1", "Common")]),
        page(&[("C*01:02", "C2", "Rare"), ("A*11:01", "A11", "Common")]),
    ];
    let map = KirLigandMap::new(&pages).unwrap();
    // The allele set is the union across all loci.
    assert_eq!(map.alleles.len(), 4);

    // The duplicate allele keeps only the record of the last processed page.
    let hit = map.get_allele_info(&ClassI::parse("C*01:02").unwrap());
    assert_eq!(hit.len(), 1);
    assert_eq!(*hit[0].motif(), LigandMotif::C2);
    assert_eq!(*hit[0].freq(), AlleleFreq::Rare);

    let earlier = map.get_allele_info(&ClassI::parse("A*03:01").unwrap());
    assert_eq!(earlier.len(), 1);
    assert_eq!(*earlier[0].motif(), LigandMotif::A3);
}

#[test]
fn lookup_absent_allele_is_empty() {
    let pages = vec![page(&[("C*01:02", "C1", "Common")])];
    let map = KirLigandMap::new(&pages).unwrap();
    let miss = map.get_allele_info(&ClassI::parse("B*44:02").unwrap());
    assert!(miss.is_empty());
}

#[test]
fn build_fails_fast_on_malformed_page() {
    let bad = "<html><body><table><tr><th>h</th></tr>\
<tr><td>C*01:02</td><td>C1</td></tr></table></body></html>";
    let pages = vec![
        page(&[("A*03:01", "A3", "Common")]),
        bad.to_string(),
        page(&[("C*01:02", "C1", "Common")]),
    ];
    match KirLigandMap::new(&pages) {
        Err(ExtractionError::UnexpectedRowShape(n, _)) => assert_eq!(n, 2),
        other => panic!("expected a fail-fast row-shape error, got {:?}", other),
    }
}
