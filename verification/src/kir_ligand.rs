//! The ligand classification record and the table extractor: one record per
//! data row of the fetched ligand table, with strict shape validation and
//! all-or-nothing extraction.

use vstd::prelude::*;
use vstd::string::*;
use crate::classifier::{
    classify_frequency, parse_motif, spec_classify_frequency, spec_parse_motif, AlleleFreq,
    LigandMotif,
};
use crate::hla::{spec_parse_class_i, ClassI, ClassIView};
use crate::scrape::{doc_row_fragments, scrape_row_fragments};

verus! {

/// The canonical classification triple: allele, motif, frequency.
#[derive(Debug)]
pub struct KirLigandInfo(pub ClassI, pub LigandMotif, pub AlleleFreq);

/// The mathematical value of a record.
pub struct KirLigandInfoView {
    pub allele: ClassIView,
    pub motif: LigandMotif,
    pub freq: AlleleFreq,
}

impl View for KirLigandInfo {
    type V = KirLigandInfoView;

    open spec fn view(&self) -> KirLigandInfoView {
        KirLigandInfoView { allele: self.0@, motif: self.1, freq: self.2 }
    }
}

impl KirLigandInfo {
    /// Well-formed: the allele identifier is.
    pub open spec fn wf(self) -> bool {
        self.0.wf()
    }

    /// Builds a record from its three classifications.
    pub fn new(hla: ClassI, motif: LigandMotif, freq: AlleleFreq) -> (r: Self)
        ensures
            r@ == (KirLigandInfoView { allele: hla@, motif, freq }),
            hla.wf() ==> r.wf(),
    {
        KirLigandInfo(hla, motif, freq)
    }

    /// The record's allele.
    pub fn allele(&self) -> (r: &ClassI)
        ensures
            r@ == self@.allele,
            self.wf() ==> r.wf(),
    {
        &self.0
    }

    /// The record's ligand motif.
    pub fn motif(&self) -> (r: &LigandMotif)
        ensures
            *r == self@.motif,
    {
        &self.1
    }

    /// The record's frequency tier.
    pub fn freq(&self) -> (r: &AlleleFreq)
        ensures
            *r == self@.freq,
    {
        &self.2
    }
}

impl Clone for KirLigandInfo {
    /// An equal record, field for field.
    fn clone(&self) -> (r: Self)
        ensures
            r@ == self@,
    {
        KirLigandInfo(self.0.clone(), self.1, self.2)
    }
}

impl PartialEq for KirLigandInfo {
    fn eq(&self, other: &KirLigandInfo) -> (r: bool) {
        self.0 == other.0 && self.1 == other.1 && self.2 == other.2
    }
}

impl Eq for KirLigandInfo {

}

impl vstd::std_specs::cmp::PartialEqSpecImpl for KirLigandInfo {
    open spec fn obeys_eq_spec() -> bool {
        true
    }

    open spec fn eq_spec(&self, other: &KirLigandInfo) -> bool {
        self@ == other@
    }
}

/// Why an extraction failed: the first offending row or fragment.
#[derive(Debug, PartialEq, Eq, Clone)]
pub enum ExtractionError {
    /// A data row whose text did not form exactly three fragments: the
    /// actual fragment count and the concatenated row text.
    UnexpectedRowShape(usize, String),
    /// A first fragment that is no allele identifier.
    UnparseableAllele(String),
    /// A second fragment that names no known ligand motif.
    UnparseableMotif(String),
}

/// The mathematical value of an extraction error.
pub enum ExtractionErrorView {
    UnexpectedRowShape(nat, Seq<char>),
    UnparseableAllele(Seq<char>),
    UnparseableMotif(Seq<char>),
}

impl View for ExtractionError {
    type V = ExtractionErrorView;

    open spec fn view(&self) -> ExtractionErrorView {
        match self {
            ExtractionError::UnexpectedRowShape(n, t) => ExtractionErrorView::UnexpectedRowShape(
                *n as nat,
                t@,
            ),
            ExtractionError::UnparseableAllele(t) => ExtractionErrorView::UnparseableAllele(t@),
            ExtractionError::UnparseableMotif(t) => ExtractionErrorView::UnparseableMotif(t@),
        }
    }
}

/// The text of a row: its fragments concatenated, in order.
pub open spec fn concat_frags(row: Seq<Seq<char>>) -> Seq<char>
    decreases row.len(),
{
    if row.len() == 0 {
        Seq::empty()
    } else {
        concat_frags(row.drop_last()) + row.last()
    }
}

/// Joins a row's fragments into one string.
fn join_fragments(row: &Vec<String>) -> (r: String)
    ensures
        r@ == concat_frags(row.deep_view()),
{
    let mut out = String::new();
    let mut k: usize = 0;
    proof {
        assert(row.deep_view().take(0) =~= Seq::<Seq<char>>::empty());
    }
    while k < row.len()
        invariant
            k <= row@.len(),
            row.deep_view().len() == row@.len(),
            out@ == concat_frags(row.deep_view().take(k as int)),
        decreases row@.len() - k,
    {
        out.append(row[k].as_str());
        proof {
            assert(row.deep_view().take(k as int + 1).drop_last() =~= row.deep_view().take(
                k as int,
            ));
            assert(row.deep_view().take(k as int + 1).last() == row.deep_view()[k as int]);
        }
        k = k + 1;
    }
    proof {
        assert(row.deep_view().take(row@.len() as int) =~= row.deep_view());
    }
    out
}

/// The records read from the data rows, in row order, or the first error:
/// a row of other than three fragments stops extraction with its count and
/// concatenated text; an unparseable first or second fragment stops it
/// carrying that fragment; the third fragment is classified best-effort and
/// cannot fail.
pub open spec fn spec_extract_rows(rows: Seq<Seq<Seq<char>>>) -> Result<
    Seq<KirLigandInfoView>,
    ExtractionErrorView,
>
    decreases rows.len(),
{
    if rows.len() == 0 {
        Ok(Seq::empty())
    } else {
        let row = rows[0];
        if row.len() != 3 {
            Err(ExtractionErrorView::UnexpectedRowShape(row.len(), concat_frags(row)))
        } else {
            match spec_parse_class_i(row[0]) {
                None => Err(ExtractionErrorView::UnparseableAllele(row[0])),
                Some(allele) => match spec_parse_motif(row[1]) {
                    Err(_) => Err(ExtractionErrorView::UnparseableMotif(row[1])),
                    Ok(motif) => {
                        let rec = KirLigandInfoView {
                            allele,
                            motif,
                            freq: spec_classify_frequency(row[2]),
                        };
                        match spec_extract_rows(rows.drop_first()) {
                            Ok(rest) => Ok(seq![rec] + rest),
                            Err(e) => Err(e),
                        }
                    },
                },
            }
        }
    }
}

/// The views of a sequence of records.
pub open spec fn views_of(v: Seq<KirLigandInfo>) -> Seq<KirLigandInfoView> {
    v.map_values(|x: KirLigandInfo| x@)
}

/// The rows left once the first `skip` header rows are discarded.
pub open spec fn spec_data_rows(rows: Seq<Seq<Seq<char>>>, skip: nat) -> Seq<Seq<Seq<char>>> {
    if skip <= rows.len() {
        rows.skip(skip as int)
    } else {
        Seq::empty()
    }
}

/// Extracts one record per data row, discarding the first `skip_rows` rows.
/// All-or-nothing: the first malformed row or fragment aborts the whole
/// extraction with a descriptive error.
pub fn extract_records(rows: &Vec<Vec<String>>, skip_rows: usize) -> (r: Result<
    Vec<KirLigandInfo>,
    ExtractionError,
>)
    ensures
        ({
            let data = spec_data_rows(rows.deep_view(), skip_rows as nat);
            match r {
                Ok(v) => spec_extract_rows(data) == Ok::<_, ExtractionErrorView>(views_of(v@))
                    && forall|i: int| 0 <= i < v@.len() ==> (#[trigger] v@[i]).wf(),
                Err(e) => spec_extract_rows(data) == Err::<Seq<KirLigandInfoView>, _>(e@),
            }
        }),
{
    let ghost data = spec_data_rows(rows.deep_view(), skip_rows as nat);
    let total = rows.len();
    let start = if skip_rows < total {
        skip_rows
    } else {
        total
    };
    proof {
        if skip_rows as nat > rows.deep_view().len() {
            assert(rows.deep_view().skip(start as int) =~= Seq::<Seq<Seq<char>>>::empty());
        }
        assert(data == rows.deep_view().skip(start as int));
    }
    let mut result: Vec<KirLigandInfo> = Vec::new();
    let mut idx = start;
    proof {
        assert(views_of(result@) =~= Seq::<KirLigandInfoView>::empty());
    }
    while idx < total
        invariant
            start <= idx <= total,
            total == rows@.len(),
            rows.deep_view().len() == total,
            data == rows.deep_view().skip(start as int),
            data == spec_data_rows(rows.deep_view(), skip_rows as nat),
            match spec_extract_rows(rows.deep_view().skip(idx as int)) {
                Ok(rest) => spec_extract_rows(data) == Ok::<_, ExtractionErrorView>(
                    views_of(result@) + rest,
                ),
                Err(e) => spec_extract_rows(data) == Err::<Seq<KirLigandInfoView>, _>(e),
            },
            forall|i: int| 0 <= i < result@.len() ==> (#[trigger] result@[i]).wf(),
        decreases total - idx,
    {
        let ghost drows = rows.deep_view().skip(idx as int);
        proof {
            assert(drows[0] == rows.deep_view()[idx as int]);
            assert(drows.drop_first() =~= rows.deep_view().skip(idx as int + 1));
        }
        let row = &rows[idx];
        proof {
            assert(rows.deep_view()[idx as int] == row.deep_view());
            assert(row.deep_view().len() == row@.len());
        }
        if row.len() != 3 {
            let text = join_fragments(row);
            return Err(ExtractionError::UnexpectedRowShape(row.len(), text));
        }
        proof {
            assert(row.deep_view()[0] == row@[0]@);
            assert(row.deep_view()[1] == row@[1]@);
            assert(row.deep_view()[2] == row@[2]@);
        }
        let allele = match ClassI::parse(row[0].as_str()) {
            Some(a) => a,
            None => {
                return Err(ExtractionError::UnparseableAllele(row[0].clone()));
            },
        };
        let motif = match parse_motif(row[1].as_str()) {
            Ok(m) => m,
            Err(_) => {
                return Err(ExtractionError::UnparseableMotif(row[1].clone()));
            },
        };
        let freq = classify_frequency(row[2].as_str());
        let info = KirLigandInfo::new(allele, motif, freq);
        let ghost old_result = result@;
        result.push(info);
        proof {
            assert(views_of(result@) =~= views_of(old_result).push(info@));
            match spec_extract_rows(rows.deep_view().skip(idx as int + 1)) {
                Ok(rest) => {
                    assert(views_of(result@) + rest =~= views_of(old_result) + (seq![info@]
                        + rest));
                },
                Err(e) => {},
            }
        }
        idx = idx + 1;
    }
    proof {
        assert(rows.deep_view().skip(total as int) =~= Seq::<Seq<Seq<char>>>::empty());
        assert(views_of(result@) + Seq::<KirLigandInfoView>::empty() =~= views_of(result@));
    }
    Ok(result)
}

/// Reads the ligand table out of raw HTML text: every `<tr>` row of the
/// document in order, the first `skip_rows` discarded as header rows, each
/// data row validated and turned into a record.
pub fn read_table(text: &str, skip_rows: usize) -> (r: Result<Vec<KirLigandInfo>, ExtractionError>)
    ensures
        ({
            let data = spec_data_rows(doc_row_fragments(text@), skip_rows as nat);
            match r {
                Ok(v) => spec_extract_rows(data) == Ok::<_, ExtractionErrorView>(views_of(v@))
                    && forall|i: int| 0 <= i < v@.len() ==> (#[trigger] v@[i]).wf(),
                Err(e) => spec_extract_rows(data) == Err::<Seq<KirLigandInfoView>, _>(e@),
            }
        }),
{
    let rows = scrape_row_fragments(text);
    extract_records(&rows, skip_rows)
}

} // verus!
