//! Resolution of HLA class I nomenclature into KIR ligand classifications.
//!
//! The crate normalises free-text nomenclature tokens into closed
//! classifications (`LigandMotif`, `AlleleFreq`), extracts classification
//! records from the row text of a fetched ligand table, and aggregates the
//! records of several query loci into an allele-keyed lookup cache with
//! last-write-wins semantics.  Fetching the table text over the network is
//! left to the caller; everything from text to records is specified and
//! verified here.

pub mod text;
pub mod classifier;
pub mod hla;
pub mod scrape;
pub mod kir_ligand;
pub mod ligand_map;
pub mod retrieve;
