use immunoprot::retrieve::{
    clean_hla, is_ipd_search_safe, retrieve_ligand_group_from_text, LigandInfo,
    RetrieveLigandError,
};

#[test]
fn invalid_hla() {
    let hla = "C*01:02";
    clean_hla(&hla).unwrap();
}

#[test]
fn search_safety() {
    assert!(is_ipd_search_safe("A"));
    assert!(is_ipd_search_safe("B"));
    assert!(is_ipd_search_safe("C"));
    assert!(!is_ipd_search_safe("D"));
    assert!(is_ipd_search_safe("A*1"));
    assert!(is_ipd_search_safe("C*01:02"));
    assert!(!is_ipd_search_safe("C01:02"));
    assert!(!is_ipd_search_safe("A*0102"));
}

#[test]
fn clean_hla_strips_prefix() {
    assert_eq!(clean_hla("HLA-C*01:02").unwrap(), "C*01:02");
    assert_eq!(clean_hla("C*01:02").unwrap(), "C*01:02");
    match clean_hla("garbage") {
        Err(RetrieveLigandError::InvalidHLA(t)) => assert_eq!(t, "garbage"),
        other => panic!("expected an invalid-query error, got {:?}", other),
    }
}

#[test]
fn ligand_group_from_table() {
    let html = "<html><body><table>\
<tr><th>Allele</th><th>Motif</th><th>Freq</th></tr>\
<tr><td>C*01:102</td><td>C1</td><td>Unknown</td></tr>\
<tr><td>C*01:02</td><td>C1</td></tr>\
</table></body></html>";
    let url = "https://www.ebi.ac.uk/cgi-bin/ipd/kir/retrieve_ligands.cgi?C*01:102";
    let infos = retrieve_ligand_group_from_text(html, url).unwrap();
    assert_eq!(infos.len(), 2);
    assert_eq!(
        infos[0],
        LigandInfo(
            "C*01:102".to_string(),
            "C1".to_string(),
            "Unknown".to_string()
        )
    );
    // A two-fragment row reads as frequency Unknown.
    assert_eq!(infos[1].2, "Unknown");
}

#[test]
fn ligand_group_without_table() {
    let html = "<html><body><p>no results</p></body></html>";
    let url = "https://www.ebi.ac.uk/cgi-bin/ipd/kir/retrieve_ligands.cgi?C";
    match retrieve_ligand_group_from_text(html, url) {
        Err(RetrieveLigandError::NoLigandTableFound(u)) => assert_eq!(u, url),
        other => panic!("expected a no-table error, got {:?}", other),
    }
}

#[test]
fn ligand_group_short_row() {
    let html = "<html><body><table>\
<tr><th>h</th></tr>\
<tr><td>C*01:02</td></tr>\
</table></body></html>";
    let url = "https://www.ebi.ac.uk/cgi-bin/ipd/kir/retrieve_ligands.cgi?C";
    match retrieve_ligand_group_from_text(html, url) {
        Err(RetrieveLigandError::MissingFragments(n)) => assert_eq!(n, 1),
        other => panic!("expected a missing-fragment error, got {:?}", other),
    }
}

#[test]
fn ligand_info_display() {
    let info = LigandInfo(
        "C*01:02".to_string(),
        "C1".to_string(),
        "Common".to_string(),
    );
    assert_eq!(
        info.display_text(),
        "HLA: C*01:02, LigandGroup: C1, Frequency: Common\n"
    );
}
