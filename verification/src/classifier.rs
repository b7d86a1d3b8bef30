//! Nomenclature classifier: the closed `LigandMotif` and `AlleleFreq`
//! classifications and the two functions that produce them — a fallible
//! exact-token parser for motifs and a total, best-effort heuristic for
//! frequencies.

use vstd::prelude::*;
use vstd::string::*;
use crate::text::{
    chars_eq_str, contains_seq, is_ws_char, range_contains_str, range_eq_str, strip_ws,
    string_from_chars, trim, trim_bounds,
};

verus! {

/// The KIR ligand motif of an HLA class I allele.
#[derive(Debug, PartialEq, Eq, Structural, Hash, Clone, Copy)]
pub enum LigandMotif {
    A11,
    A3,
    Bw4_80T,
    Bw4_80I,
    Bw6,
    C1,
    C2,
    Unclassified,
}

/// The observed population frequency tier of an allele.
#[derive(Debug, PartialEq, Eq, Structural, Hash, Clone, Copy)]
pub enum AlleleFreq {
    Rare,
    Common,
    Unknown,
}

/// A nomenclature token that names no known motif.
#[derive(Debug, PartialEq, Eq, Hash, Clone)]
pub enum NomenclatureError {
    UnknownLigandMotif(String),
}

/// Motif named by `s` once every white-space character is removed: an exact
/// match against the canonical tokens and their legacy zero-padded synonyms.
/// `Err` carries the stripped text that matched no token.
pub open spec fn spec_parse_motif(s: Seq<char>) -> Result<LigandMotif, Seq<char>> {
    let t = strip_ws(s);
    if t == "A11"@ {
        Ok(LigandMotif::A11)
    } else if t == "A3"@ || t == "A03"@ {
        Ok(LigandMotif::A3)
    } else if t == "Bw4-80T"@ {
        Ok(LigandMotif::Bw4_80T)
    } else if t == "Bw4-80I"@ {
        Ok(LigandMotif::Bw4_80I)
    } else if t == "Bw6"@ {
        Ok(LigandMotif::Bw6)
    } else if t == "C1"@ || t == "C01"@ {
        Ok(LigandMotif::C1)
    } else if t == "C2"@ || t == "C02"@ {
        Ok(LigandMotif::C2)
    } else if t == "Unclassified"@ {
        Ok(LigandMotif::Unclassified)
    } else {
        Err(t)
    }
}

/// Parses a free-text motif token.  No partial or fuzzy matching: any text
/// whose white-space-stripped form is not a canonical or legacy token is a
/// hard failure carrying that stripped form.
pub fn parse_motif(s: &str) -> (r: Result<LigandMotif, NomenclatureError>)
    ensures
        match r {
            Ok(m) => spec_parse_motif(s@) == Ok::<LigandMotif, Seq<char>>(m),
            Err(e) => match e {
                NomenclatureError::UnknownLigandMotif(t) => spec_parse_motif(s@) == Err::<
                    LigandMotif,
                    Seq<char>,
                >(t@),
            },
        },
{
    let n = s.unicode_len();
    let mut stripped: Vec<char> = Vec::new();
    let mut i: usize = 0;
    proof {
        assert(s@.take(0) =~= Seq::<char>::empty());
    }
    while i < n
        invariant
            i <= n,
            n == s@.len(),
            stripped@ == strip_ws(s@.take(i as int)),
        decreases n - i,
    {
        let c = s.get_char(i);
        proof {
            assert(s@.take(i as int + 1).drop_last() =~= s@.take(i as int));
            assert(s@.take(i as int + 1).last() == s@[i as int]);
        }
        if !is_ws_char(c) {
            stripped.push(c);
        }
        i = i + 1;
    }
    proof {
        assert(s@.take(n as int) =~= s@);
    }
    if chars_eq_str(&stripped, "A11") {
        Ok(LigandMotif::A11)
    } else if chars_eq_str(&stripped, "A3") || chars_eq_str(&stripped, "A03") {
        Ok(LigandMotif::A3)
    } else if chars_eq_str(&stripped, "Bw4-80T") {
        Ok(LigandMotif::Bw4_80T)
    } else if chars_eq_str(&stripped, "Bw4-80I") {
        Ok(LigandMotif::Bw4_80I)
    } else if chars_eq_str(&stripped, "Bw6") {
        Ok(LigandMotif::Bw6)
    } else if chars_eq_str(&stripped, "C1") || chars_eq_str(&stripped, "C01") {
        Ok(LigandMotif::C1)
    } else if chars_eq_str(&stripped, "C2") || chars_eq_str(&stripped, "C02") {
        Ok(LigandMotif::C2)
    } else if chars_eq_str(&stripped, "Unclassified") {
        Ok(LigandMotif::Unclassified)
    } else {
        Err(NomenclatureError::UnknownLigandMotif(string_from_chars(&stripped)))
    }
}

impl core::str::FromStr for LigandMotif {
    type Err = NomenclatureError;

    fn from_str(s: &str) -> Result<LigandMotif, NomenclatureError> {
        parse_motif(s)
    }
}

/// The canonical token of a motif, as the source table writes it.
pub open spec fn motif_text(m: LigandMotif) -> Seq<char> {
    match m {
        LigandMotif::A11 => "A11"@,
        LigandMotif::A3 => "A3"@,
        LigandMotif::Bw4_80T => "Bw4-80T"@,
        LigandMotif::Bw4_80I => "Bw4-80I"@,
        LigandMotif::Bw6 => "Bw6"@,
        LigandMotif::C1 => "C1"@,
        LigandMotif::C2 => "C2"@,
        LigandMotif::Unclassified => "Unclassified"@,
    }
}

impl LigandMotif {
    /// The canonical token for this motif.
    pub fn as_text(&self) -> (r: String)
        ensures
            r@ == motif_text(*self),
    {
        match self {
            LigandMotif::A11 => String::from_str("A11"),
            LigandMotif::A3 => String::from_str("A3"),
            LigandMotif::Bw4_80T => String::from_str("Bw4-80T"),
            LigandMotif::Bw4_80I => String::from_str("Bw4-80I"),
            LigandMotif::Bw6 => String::from_str("Bw6"),
            LigandMotif::C1 => String::from_str("C1"),
            LigandMotif::C2 => String::from_str("C2"),
            LigandMotif::Unclassified => String::from_str("Unclassified"),
        }
    }
}

/// Frequency tier read from `s`: after trimming, any text containing the
/// literal `Common` is Common, the exact text `Rare` is Rare, and everything
/// else — empty, malformed or unexpected — is Unknown.
pub open spec fn spec_classify_frequency(s: Seq<char>) -> AlleleFreq {
    let t = trim(s);
    if contains_seq(t, "Common"@) {
        AlleleFreq::Common
    } else if t == "Rare"@ {
        AlleleFreq::Rare
    } else {
        AlleleFreq::Unknown
    }
}

/// Classifies free text into a frequency tier.  Total: never fails, whatever
/// the input; unknown frequency is an expected outcome, not an error.
pub fn classify_frequency(s: &str) -> (r: AlleleFreq)
    ensures
        r == spec_classify_frequency(s@),
{
    let (start, end) = trim_bounds(s);
    if range_contains_str(s, start, end, "Common") {
        AlleleFreq::Common
    } else if range_eq_str(s, start, end, "Rare") {
        AlleleFreq::Rare
    } else {
        AlleleFreq::Unknown
    }
}

/// The tier's name as text.
pub open spec fn freq_text(f: AlleleFreq) -> Seq<char> {
    match f {
        AlleleFreq::Rare => "Rare"@,
        AlleleFreq::Common => "Common"@,
        AlleleFreq::Unknown => "Unknown"@,
    }
}

impl AlleleFreq {
    /// The tier's name as text.
    pub fn as_text(&self) -> (r: String)
        ensures
            r@ == freq_text(*self),
    {
        match self {
            AlleleFreq::Rare => String::from_str("Rare"),
            AlleleFreq::Common => String::from_str("Common"),
            AlleleFreq::Unknown => String::from_str("Unknown"),
        }
    }
}

/// Frequency classification is total: every input falls in exactly one of
/// the three tiers, and garbage input falls in Unknown rather than failing.
pub proof fn lemma_classify_frequency_total(s: Seq<char>)
    ensures
        spec_classify_frequency(s) == AlleleFreq::Common || spec_classify_frequency(s)
            == AlleleFreq::Rare || spec_classify_frequency(s) == AlleleFreq::Unknown,
{
}

/// An unrecognised motif token fails, carrying its stripped text: the parser
/// never maps unknown text to some motif silently.
pub proof fn lemma_parse_motif_exact(s: Seq<char>)
    ensures
        spec_parse_motif(s) is Err ==> spec_parse_motif(s)->Err_0 == strip_ws(s),
        spec_parse_motif(s) is Ok <==> (strip_ws(s) == "A11"@ || strip_ws(s) == "A3"@ || strip_ws(
            s,
        ) == "A03"@ || strip_ws(s) == "Bw4-80T"@ || strip_ws(s) == "Bw4-80I"@ || strip_ws(s)
            == "Bw6"@ || strip_ws(s) == "C1"@ || strip_ws(s) == "C01"@ || strip_ws(s) == "C2"@
            || strip_ws(s) == "C02"@ || strip_ws(s) == "Unclassified"@),
{
}

} // verus!
