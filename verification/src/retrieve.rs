//! Locus-query helpers around the ligand table: query-string validation,
//! the `HLA-` prefix strip, and the loose per-row triple read from the first
//! table of a fetched page.

use vstd::prelude::*;
use vstd::string::*;
use crate::kir_ligand::spec_data_rows;
use crate::scrape::{first_table_row_fragments, scrape_first_table_rows};
use crate::text::range_eq_str;

verus! {

/// `c` occurs in `s`.
pub open spec fn contains_char(s: Seq<char>, c: char) -> bool {
    exists|i: int| 0 <= i < s.len() && #[trigger] s[i] == c
}

/// Looks for one character.
fn str_contains_char(s: &str, c: char) -> (r: bool)
    ensures
        r == contains_char(s@, c),
{
    let n = s.unicode_len();
    let mut k: usize = 0;
    while k < n
        invariant
            k <= n,
            n == s@.len(),
            forall|m: int| 0 <= m < k ==> #[trigger] s@[m] != c,
        decreases n - k,
    {
        if s.get_char(k) == c {
            return true;
        }
        k = k + 1;
    }
    false
}

/// A query string the ligand service accepts: a bare gene letter, or a
/// starred allele query — short (`A*xx`) or carrying a field separator.
pub open spec fn spec_is_ipd_search_safe(s: Seq<char>) -> bool {
    if s.len() == 1 {
        s[0] == 'A' || s[0] == 'B' || s[0] == 'C'
    } else {
        (contains_char(s, '*') && s.len() <= 3) || (contains_char(s, '*') && contains_char(
            s,
            ':',
        ))
    }
}

/// Whether `hla` is safe to hand to the ligand service as a search string.
pub fn is_ipd_search_safe(hla: &str) -> (r: bool)
    ensures
        r == spec_is_ipd_search_safe(hla@),
{
    let n = hla.unicode_len();
    if n == 1 {
        let g = hla.get_char(0);
        g == 'A' || g == 'B' || g == 'C'
    } else {
        let star = str_contains_char(hla, '*');
        (star && n <= 3) || (star && str_contains_char(hla, ':'))
    }
}

/// `s` with every leading `HLA-` prefix removed.
pub open spec fn strip_hla_prefix(s: Seq<char>) -> Seq<char>
    decreases s.len(),
{
    if s.len() >= 4 && s.subrange(0, 4) == "HLA-"@ {
        strip_hla_prefix(s.skip(4))
    } else {
        s
    }
}

/// Why a locus query could not be served.
#[derive(Debug, PartialEq, Eq, Clone)]
pub enum RetrieveLigandError {
    /// A query string the service would not accept, as given.
    InvalidHLA(String),
    /// A fetched page without any table: the queried URL.
    NoLigandTableFound(String),
    /// A table row of fewer than two text fragments: the actual count.
    MissingFragments(usize),
}

/// Strips any `HLA-` prefix and accepts the rest only if it is a safe
/// search string; otherwise the original query comes back in the error.
pub fn clean_hla<'a>(hla: &'a str) -> (r: Result<&'a str, RetrieveLigandError>)
    ensures
        match r {
            Ok(t) => t@ == strip_hla_prefix(hla@) && spec_is_ipd_search_safe(strip_hla_prefix(hla@)),
            Err(e) => match e {
                RetrieveLigandError::InvalidHLA(orig) => orig@ == hla@ && !spec_is_ipd_search_safe(
                    strip_hla_prefix(hla@),
                ),
                _ => false,
            },
        },
{
    let n = hla.unicode_len();
    let mut idx: usize = 0;
    proof {
        assert(hla@.skip(0) =~= hla@);
    }
    while n - idx >= 4 && range_eq_str(hla, idx, idx + 4, "HLA-")
        invariant
            idx <= n,
            n == hla@.len(),
            strip_hla_prefix(hla@) == strip_hla_prefix(hla@.skip(idx as int)),
        decreases n - idx,
    {
        proof {
            assert(hla@.skip(idx as int).subrange(0, 4) =~= hla@.subrange(
                idx as int,
                idx as int + 4,
            ));
            assert(hla@.skip(idx as int).skip(4) =~= hla@.skip(idx as int + 4));
        }
        idx = idx + 4;
    }
    proof {
        if n - idx >= 4 {
            assert(hla@.skip(idx as int).subrange(0, 4) =~= hla@.subrange(
                idx as int,
                idx as int + 4,
            ));
        }
        assert(strip_hla_prefix(hla@.skip(idx as int)) == hla@.skip(idx as int));
        assert(hla@.skip(idx as int) =~= hla@.subrange(idx as int, n as int));
    }
    let rest = hla.substring_char(idx, n);
    if is_ipd_search_safe(rest) {
        Ok(rest)
    } else {
        Err(RetrieveLigandError::InvalidHLA(String::from_str(hla)))
    }
}

/// A loose per-row triple as the first ligand table writes it: allele text,
/// ligand group text, frequency text.
#[derive(Debug)]
pub struct LigandInfo(pub String, pub String, pub String);

impl PartialEq for LigandInfo {
    fn eq(&self, other: &LigandInfo) -> (r: bool) {
        self.0 == other.0 && self.1 == other.1 && self.2 == other.2
    }
}

impl Eq for LigandInfo {

}

impl vstd::std_specs::cmp::PartialEqSpecImpl for LigandInfo {
    open spec fn obeys_eq_spec() -> bool {
        true
    }

    open spec fn eq_spec(&self, other: &LigandInfo) -> bool {
        self@ == other@
    }
}

/// The mathematical value of a loose triple.
pub struct LigandInfoView {
    pub hla: Seq<char>,
    pub group: Seq<char>,
    pub freq: Seq<char>,
}

impl View for LigandInfo {
    type V = LigandInfoView;

    open spec fn view(&self) -> LigandInfoView {
        LigandInfoView { hla: self.0@, group: self.1@, freq: self.2@ }
    }
}

/// The views of a sequence of loose triples.
pub open spec fn ligand_info_views(v: Seq<LigandInfo>) -> Seq<LigandInfoView> {
    v.map_values(|x: LigandInfo| x@)
}

impl LigandInfo {
    /// Builds a triple from a row's fragments: a missing third fragment
    /// reads as the frequency `Unknown`.
    pub fn from_fragments(fragments: &Vec<String>) -> (r: LigandInfo)
        requires
            fragments@.len() >= 2,
        ensures
            r@.hla == fragments@[0]@,
            r@.group == fragments@[1]@,
            r@.freq == if fragments@.len() == 2 {
                "Unknown"@
            } else {
                fragments@[2]@
            },
    {
        let freq = if fragments.len() == 2 {
            String::from_str("Unknown")
        } else {
            fragments[2].clone()
        };
        LigandInfo(fragments[0].clone(), fragments[1].clone(), freq)
    }

    /// The triple written out on one line.
    pub fn display_text(&self) -> (r: String)
        ensures
            r@ == "HLA: "@ + self@.hla + ", LigandGroup: "@ + self@.group + ", Frequency: "@
                + self@.freq + "\n"@,
    {
        let mut out = String::from_str("HLA: ");
        out.append(self.0.as_str());
        out.append(", LigandGroup: ");
        out.append(self.1.as_str());
        out.append(", Frequency: ");
        out.append(self.2.as_str());
        out.append("\n");
        out
    }
}

/// The triples read from the data rows of the first table, or the fragment
/// count of the first row too short to carry one.
pub open spec fn spec_ligand_rows(rows: Seq<Seq<Seq<char>>>) -> Result<Seq<LigandInfoView>, nat>
    decreases rows.len(),
{
    if rows.len() == 0 {
        Ok(Seq::empty())
    } else if rows[0].len() < 2 {
        Err(rows[0].len())
    } else {
        let info = LigandInfoView {
            hla: rows[0][0],
            group: rows[0][1],
            freq: if rows[0].len() == 2 {
                "Unknown"@
            } else {
                rows[0][2]
            },
        };
        match spec_ligand_rows(rows.drop_first()) {
            Ok(rest) => Ok(seq![info] + rest),
            Err(e) => Err(e),
        }
    }
}

/// Reads the ligand triples for one locus query out of its fetched page:
/// the first table's rows, one header row skipped, each remaining row turned
/// into a triple.  `url` only names the query in the no-table error.
pub fn retrieve_ligand_group_from_text(text: &str, url: &str) -> (r: Result<
    Vec<LigandInfo>,
    RetrieveLigandError,
>)
    ensures
        match first_table_row_fragments(text@) {
            None => match r {
                Err(e) => match e {
                    RetrieveLigandError::NoLigandTableFound(u) => u@ == url@,
                    _ => false,
                },
                Ok(_) => false,
            },
            Some(rows) => {
                let data = spec_data_rows(rows, 1);
                match spec_ligand_rows(data) {
                    Ok(infos) => match r {
                        Ok(v) => ligand_info_views(v@) == infos,
                        Err(_) => false,
                    },
                    Err(cnt) => match r {
                        Err(e) => match e {
                            RetrieveLigandError::MissingFragments(c) => c as nat == cnt,
                            _ => false,
                        },
                        Ok(_) => false,
                    },
                }
            },
        },
{
    let rows = match scrape_first_table_rows(text) {
        Some(v) => v,
        None => {
            return Err(RetrieveLigandError::NoLigandTableFound(String::from_str(url)));
        },
    };
    let ghost drows = first_table_row_fragments(text@)->Some_0;
    proof {
        assert(rows.deep_view() == drows);
    }
    let ghost data = spec_data_rows(rows.deep_view(), 1);
    let total = rows.len();
    let start = if 1 < total {
        1
    } else {
        total
    };
    proof {
        if 1 as nat > rows.deep_view().len() {
            assert(rows.deep_view().skip(start as int) =~= Seq::<Seq<Seq<char>>>::empty());
        }
        assert(data == rows.deep_view().skip(start as int));
    }
    let mut result: Vec<LigandInfo> = Vec::new();
    let mut idx = start;
    proof {
        assert(ligand_info_views(result@) =~= Seq::<LigandInfoView>::empty());
    }
    while idx < total
        invariant
            start <= idx <= total,
            total == rows@.len(),
            rows.deep_view().len() == total,
            data == rows.deep_view().skip(start as int),
            data == spec_data_rows(rows.deep_view(), 1),
            rows.deep_view() == drows,
            first_table_row_fragments(text@) == Some(drows),
            match spec_ligand_rows(rows.deep_view().skip(idx as int)) {
                Ok(rest) => spec_ligand_rows(data) == Ok::<_, nat>(
                    ligand_info_views(result@) + rest,
                ),
                Err(e) => spec_ligand_rows(data) == Err::<Seq<LigandInfoView>, _>(e),
            },
        decreases total - idx,
    {
        let ghost dtail = rows.deep_view().skip(idx as int);
        proof {
            assert(dtail[0] == rows.deep_view()[idx as int]);
            assert(dtail.drop_first() =~= rows.deep_view().skip(idx as int + 1));
        }
        let row = &rows[idx];
        proof {
            assert(rows.deep_view()[idx as int] == row.deep_view());
            assert(row.deep_view().len() == row@.len());
        }
        if row.len() < 2 {
            return Err(RetrieveLigandError::MissingFragments(row.len()));
        }
        proof {
            assert(row.deep_view()[0] == row@[0]@);
            assert(row.deep_view()[1] == row@[1]@);
            if row@.len() > 2 {
                assert(row.deep_view()[2] == row@[2]@);
            }
        }
        let info = LigandInfo::from_fragments(row);
        let ghost old_result = result@;
        result.push(info);
        proof {
            assert(ligand_info_views(result@) =~= ligand_info_views(old_result).push(info@));
            match spec_ligand_rows(rows.deep_view().skip(idx as int + 1)) {
                Ok(rest) => {
                    assert(ligand_info_views(result@) + rest =~= ligand_info_views(old_result) + (
                    seq![info@] + rest));
                },
                Err(e) => {},
            }
        }
        idx = idx + 1;
    }
    proof {
        assert(rows.deep_view().skip(total as int) =~= Seq::<Seq<Seq<char>>>::empty());
        assert(ligand_info_views(result@) + Seq::<LigandInfoView>::empty() =~= ligand_info_views(
            result@,
        ));
    }
    Ok(result)
}

} // verus!
