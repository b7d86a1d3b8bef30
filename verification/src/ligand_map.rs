//! The ligand lookup cache: records of one or more query loci aggregated
//! into an allele-keyed mapping.  Duplicate alleles across loci resolve
//! last-write-wins; the build is fail-fast, so a partially built cache is
//! never handed out.

use vstd::prelude::*;
use crate::hla::{ClassI, ClassIView};
use crate::kir_ligand::{
    read_table, spec_data_rows, spec_extract_rows, views_of, ExtractionError, ExtractionErrorView,
    KirLigandInfo, KirLigandInfoView,
};
use crate::scrape::doc_row_fragments;

verus! {

/// Some record of `m` bears the allele `a`.
pub open spec fn has_allele(m: Seq<KirLigandInfoView>, a: ClassIView) -> bool {
    exists|i: int| 0 <= i < m.len() && #[trigger] m[i].allele == a
}

/// The index of the record of `m` bearing `a` (unique under `unique_keys`).
pub open spec fn index_of_allele(m: Seq<KirLigandInfoView>, a: ClassIView) -> int {
    choose|i: int| 0 <= i < m.len() && #[trigger] m[i].allele == a
}

/// The record of `m` bearing `a`, if any.
pub open spec fn lookup_allele(m: Seq<KirLigandInfoView>, a: ClassIView) -> Option<
    KirLigandInfoView,
> {
    if has_allele(m, a) {
        Some(m[index_of_allele(m, a)])
    } else {
        None
    }
}

/// No two records of `m` bear the same allele.
pub open spec fn unique_keys(m: Seq<KirLigandInfoView>) -> bool {
    forall|i: int, j: int|
        0 <= i < j < m.len() ==> (#[trigger] m[i].allele) != (#[trigger] m[j].allele)
}

/// `m` with `r` entered: the entry already bearing `r`'s allele is replaced
/// in place, or `r` is appended.
pub open spec fn spec_upsert(
    m: Seq<KirLigandInfoView>,
    r: KirLigandInfoView,
) -> Seq<KirLigandInfoView> {
    if has_allele(m, r.allele) {
        m.update(index_of_allele(m, r.allele), r)
    } else {
        m.push(r)
    }
}

/// `m` with every record of `rs` entered in order: later records shadow
/// earlier ones with the same allele.
pub open spec fn spec_insert_all(
    m: Seq<KirLigandInfoView>,
    rs: Seq<KirLigandInfoView>,
) -> Seq<KirLigandInfoView>
    decreases rs.len(),
{
    if rs.len() == 0 {
        m
    } else {
        spec_insert_all(spec_upsert(m, rs[0]), rs.drop_first())
    }
}

/// Some record of `rs` bears the allele `a`.
pub open spec fn has_record_for(rs: Seq<KirLigandInfoView>, a: ClassIView) -> bool {
    exists|i: int| 0 <= i < rs.len() && #[trigger] rs[i].allele == a
}

/// Of the records of `rs` bearing `a`, the one processed last.
pub open spec fn last_record_with(rs: Seq<KirLigandInfoView>, a: ClassIView) -> KirLigandInfoView
    decreases rs.len(),
{
    if rs.len() == 0 {
        vstd::pervasive::arbitrary()
    } else if has_record_for(rs.drop_first(), a) {
        last_record_with(rs.drop_first(), a)
    } else {
        rs[0]
    }
}

/// The cache built from the pages of the queried loci, in order: each page's
/// table is extracted with one header row skipped, and its records entered
/// into the accumulated mapping.  Fail-fast: the first failing page is the
/// build's error, and later pages are not reached.
pub open spec fn spec_build(
    m: Seq<KirLigandInfoView>,
    pages: Seq<Seq<char>>,
) -> Result<Seq<KirLigandInfoView>, ExtractionErrorView>
    decreases pages.len(),
{
    if pages.len() == 0 {
        Ok(m)
    } else {
        match spec_extract_rows(spec_data_rows(doc_row_fragments(pages[0]), 1)) {
            Err(e) => Err(e),
            Ok(recs) => spec_build(spec_insert_all(m, recs), pages.drop_first()),
        }
    }
}

/// The records of every page, concatenated in page order, or the first
/// page's extraction error.
pub open spec fn spec_pages_records(pages: Seq<Seq<char>>) -> Result<
    Seq<KirLigandInfoView>,
    ExtractionErrorView,
>
    decreases pages.len(),
{
    if pages.len() == 0 {
        Ok(Seq::empty())
    } else {
        match spec_extract_rows(spec_data_rows(doc_row_fragments(pages[0]), 1)) {
            Err(e) => Err(e),
            Ok(recs) => match spec_pages_records(pages.drop_first()) {
                Ok(rest) => Ok(recs + rest),
                Err(e) => Err(e),
            },
        }
    }
}

/// The allele-keyed lookup cache: the alleles encountered and, aligned with
/// them, the single record retained per allele.
#[derive(Debug)]
pub struct KirLigandMap {
    pub alleles: Vec<ClassI>,
    pub cache: Vec<KirLigandInfo>,
}

/// Entering a record preserves unique keys; afterwards its allele maps to it
/// and every other allele maps as before.
pub proof fn lemma_upsert(m: Seq<KirLigandInfoView>, r: KirLigandInfoView, a: ClassIView)
    requires
        unique_keys(m),
    ensures
        unique_keys(spec_upsert(m, r)),
        spec_upsert(m, r).len() <= m.len() + 1,
        has_allele(spec_upsert(m, r), a) <==> (has_allele(m, a) || r.allele == a),
        r.allele == a ==> lookup_allele(spec_upsert(m, r), a) == Some(r),
        r.allele != a ==> lookup_allele(spec_upsert(m, r), a) == lookup_allele(m, a),
{
    let out = spec_upsert(m, r);
    if has_allele(m, r.allele) {
        let k = index_of_allele(m, r.allele);
        assert(0 <= k < m.len() && m[k].allele == r.allele);
        assert(out == m.update(k, r));
        assert(unique_keys(out)) by {
            assert forall|i: int, j: int| 0 <= i < j < out.len() implies (#[trigger] out[i].allele)
                != (#[trigger] out[j].allele) by {
                if i == k {
                    assert(out[j] == m[j] && out[i] == r);
                    assert(m[k].allele != m[j].allele);
                } else if j == k {
                    assert(out[i] == m[i] && out[j] == r);
                    assert(m[i].allele != m[k].allele);
                } else {
                    assert(out[i] == m[i] && out[j] == m[j]);
                }
            }
        }
        if r.allele == a {
            assert(out[k].allele == a);
            assert(has_allele(out, a));
            let j = index_of_allele(out, a);
            assert(0 <= j < out.len() && out[j].allele == a);
            if j != k {
                assert(out[j] == m[j]);
                assert(m[j].allele == m[k].allele);
                assert(false);
            }
            assert(lookup_allele(out, a) == Some(r));
        } else {
            if has_allele(m, a) {
                let i = index_of_allele(m, a);
                assert(0 <= i < m.len() && m[i].allele == a);
                assert(i != k);
                assert(out[i] == m[i]);
                assert(has_allele(out, a));
                let j = index_of_allele(out, a);
                assert(0 <= j < out.len() && out[j].allele == a);
                if j == k {
                    assert(out[j] == r);
                    assert(false);
                }
                assert(out[j] == m[j]);
                if j != i {
                    assert(m[j].allele == m[i].allele);
                    assert(false);
                }
                assert(lookup_allele(out, a) == lookup_allele(m, a));
            } else {
                assert(!has_allele(out, a)) by {
                    if has_allele(out, a) {
                        let j = index_of_allele(out, a);
                        assert(0 <= j < out.len() && out[j].allele == a);
                        if j == k {
                            assert(out[j] == r);
                        } else {
                            assert(out[j] == m[j]);
                            assert(has_allele(m, a));
                        }
                    }
                }
            }
        }
    } else {
        assert(out == m.push(r));
        assert(out[m.len() as int] == r);
        assert(forall|i: int| 0 <= i < m.len() ==> out[i] == #[trigger] m[i]);
        assert(unique_keys(out)) by {
            assert forall|i: int, j: int| 0 <= i < j < out.len() implies (#[trigger] out[i].allele)
                != (#[trigger] out[j].allele) by {
                if j == m.len() {
                    assert(out[i] == m[i] && out[j] == r);
                    assert(!has_allele(m, r.allele));
                    assert(m[i].allele != r.allele);
                } else {
                    assert(out[i] == m[i] && out[j] == m[j]);
                }
            }
        }
        if r.allele == a {
            assert(has_allele(out, a));
            let j = index_of_allele(out, a);
            assert(0 <= j < out.len() && out[j].allele == a);
            if j != m.len() {
                assert(out[j] == m[j]);
                assert(has_allele(m, a));
                assert(false);
            }
            assert(lookup_allele(out, a) == Some(r));
        } else {
            if has_allele(m, a) {
                let i = index_of_allele(m, a);
                assert(0 <= i < m.len() && m[i].allele == a);
                assert(out[i].allele == a);
                assert(has_allele(out, a));
                let j = index_of_allele(out, a);
                assert(0 <= j < out.len() && out[j].allele == a);
                if j == m.len() {
                    assert(false);
                }
                assert(out[j] == m[j]);
                if j != i {
                    assert(m[j].allele == m[i].allele);
                    assert(false);
                }
                assert(lookup_allele(out, a) == lookup_allele(m, a));
            } else {
                assert(!has_allele(out, a)) by {
                    if has_allele(out, a) {
                        let j = index_of_allele(out, a);
                        assert(0 <= j < out.len() && out[j].allele == a);
                        if j == m.len() {
                            assert(out[j] == r);
                        } else {
                            assert(has_allele(m, a));
                        }
                    }
                }
            }
        }
    }
}

/// A non-empty record sequence bears `a` exactly when its head does or its
/// tail does.
pub proof fn lemma_has_record_unfold(rs: Seq<KirLigandInfoView>, a: ClassIView)
    requires
        rs.len() > 0,
    ensures
        has_record_for(rs, a) <==> (rs[0].allele == a || has_record_for(rs.drop_first(), a)),
{
    if has_record_for(rs, a) {
        let i = choose|i: int| 0 <= i < rs.len() && #[trigger] rs[i].allele == a;
        if i > 0 {
            assert(rs.drop_first()[i - 1] == rs[i]);
            assert(has_record_for(rs.drop_first(), a));
        }
    }
    if rs[0].allele == a {
        assert(has_record_for(rs, a));
    }
    if has_record_for(rs.drop_first(), a) {
        let i = choose|i: int|
            0 <= i < rs.drop_first().len() && #[trigger] rs.drop_first()[i].allele == a;
        assert(rs[i + 1] == rs.drop_first()[i]);
        assert(has_record_for(rs, a));
    }
}

/// Last write wins: entering the records `rs` into a well-keyed mapping `m`
/// leaves every allele of `rs` mapped to the last record of `rs` bearing it,
/// every other allele mapped as in `m`, and the key set the union of `m`'s
/// keys and `rs`'s alleles.
pub proof fn lemma_insert_all_last_wins(
    m: Seq<KirLigandInfoView>,
    rs: Seq<KirLigandInfoView>,
    a: ClassIView,
)
    requires
        unique_keys(m),
    ensures
        unique_keys(spec_insert_all(m, rs)),
        has_allele(spec_insert_all(m, rs), a) <==> (has_allele(m, a) || has_record_for(rs, a)),
        has_record_for(rs, a) ==> lookup_allele(spec_insert_all(m, rs), a) == Some(
            last_record_with(rs, a),
        ),
        !has_record_for(rs, a) ==> lookup_allele(spec_insert_all(m, rs), a) == lookup_allele(m, a),
    decreases rs.len(),
{
    if rs.len() == 0 {
    } else {
        let m1 = spec_upsert(m, rs[0]);
        lemma_upsert(m, rs[0], a);
        lemma_insert_all_last_wins(m1, rs.drop_first(), a);
        lemma_has_record_unfold(rs, a);
    }
}

/// Entering two runs of records one after the other enters their
/// concatenation.
pub proof fn lemma_insert_all_append(
    m: Seq<KirLigandInfoView>,
    a: Seq<KirLigandInfoView>,
    b: Seq<KirLigandInfoView>,
)
    ensures
        spec_insert_all(m, a + b) == spec_insert_all(spec_insert_all(m, a), b),
    decreases a.len(),
{
    if a.len() == 0 {
        assert(a + b =~= b);
    } else {
        assert((a + b)[0] == a[0]);
        assert((a + b).drop_first() =~= a.drop_first() + b);
        lemma_insert_all_append(spec_upsert(m, a[0]), a.drop_first(), b);
    }
}

/// A build is the records of all its pages, concatenated in page order and
/// entered into the starting mapping; it fails exactly when some page's
/// extraction does, with the first such error.
pub proof fn lemma_build_is_insert_all(m: Seq<KirLigandInfoView>, pages: Seq<Seq<char>>)
    ensures
        match spec_pages_records(pages) {
            Ok(all) => spec_build(m, pages) == Ok::<_, ExtractionErrorView>(
                spec_insert_all(m, all),
            ),
            Err(e) => spec_build(m, pages) == Err::<Seq<KirLigandInfoView>, _>(e),
        },
    decreases pages.len(),
{
    if pages.len() > 0 {
        match spec_extract_rows(spec_data_rows(doc_row_fragments(pages[0]), 1)) {
            Err(e) => {
            },
            Ok(recs) => {
                lemma_build_is_insert_all(spec_insert_all(m, recs), pages.drop_first());
                match spec_pages_records(pages.drop_first()) {
                    Ok(rest) => {
                        lemma_insert_all_append(m, recs, rest);
                    },
                    Err(_) => {
                    },
                }
            },
        }
    }
}

/// Last write wins across loci: a cache built over pages whose tables all
/// extract maps each allele occurring in any page's records to the last such
/// record in page order — records of later pages shadow those of earlier
/// ones — and holds exactly the alleles that occur.
pub proof fn lemma_build_last_wins(pages: Seq<Seq<char>>, a: ClassIView)
    requires
        spec_pages_records(pages) is Ok,
    ensures
        ({
            let all = spec_pages_records(pages)->Ok_0;
            let built = spec_build(Seq::empty(), pages);
            &&& built is Ok
            &&& (has_allele(built->Ok_0, a) <==> has_record_for(all, a))
            &&& has_record_for(all, a) ==> lookup_allele(built->Ok_0, a) == Some(
                last_record_with(all, a),
            )
            &&& !has_record_for(all, a) ==> lookup_allele(built->Ok_0, a) is None
        }),
{
    lemma_build_is_insert_all(Seq::empty(), pages);
    lemma_insert_all_last_wins(Seq::empty(), spec_pages_records(pages)->Ok_0, a);
}

/// Finds the entry bearing `a`, if any.
fn find_allele(cache: &Vec<KirLigandInfo>, a: &ClassI) -> (r: Option<usize>)
    ensures
        match r {
            Some(k) => k < cache@.len() && views_of(cache@)[k as int].allele == a@,
            None => !has_allele(views_of(cache@), a@),
        },
{
    let n = cache.len();
    let mut k: usize = 0;
    while k < n
        invariant
            k <= n,
            n == cache@.len(),
            forall|m: int| 0 <= m < k ==> (#[trigger] views_of(cache@)[m].allele) != a@,
        decreases n - k,
    {
        if cache[k].allele().same_allele(a) {
            proof {
                assert(views_of(cache@)[k as int] == cache@[k as int]@);
            }
            return Some(k);
        }
        proof {
            assert(views_of(cache@)[k as int] == cache@[k as int]@);
        }
        k = k + 1;
    }
    None
}

impl KirLigandMap {
    /// The cache's mathematical content: one record view per entry, in entry
    /// order.
    pub open spec fn model(self) -> Seq<KirLigandInfoView> {
        views_of(self.cache@)
    }

    /// Well-formed: alleles and records aligned one to one, every record
    /// well-formed, and no allele keyed twice.
    pub open spec fn wf(self) -> bool {
        &&& self.alleles@.len() == self.cache@.len()
        &&& forall|i: int|
            0 <= i < self.cache@.len() ==> (#[trigger] self.alleles@[i])@ == self.cache@[i]@.allele
        &&& forall|i: int| 0 <= i < self.cache@.len() ==> (#[trigger] self.cache@[i]).wf()
        &&& unique_keys(self.model())
    }

    /// Enters one record, replacing any entry with the same allele.
    fn upsert(&mut self, info: KirLigandInfo)
        requires
            old(self).wf(),
            info.wf(),
        ensures
            final(self).wf(),
            final(self).model() == spec_upsert(old(self).model(), info@),
    {
        proof {
            lemma_upsert(self.model(), info@, info@.allele);
        }
        match find_allele(&self.cache, info.allele()) {
            Some(k) => {
                proof {
                    assert(has_allele(self.model(), info@.allele));
                    let k0 = index_of_allele(self.model(), info@.allele);
                    assert(0 <= k0 < self.model().len() && self.model()[k0].allele
                        == info@.allele);
                    if k0 != k as int {
                        assert(self.model()[k as int].allele == self.model()[k0].allele);
                        assert(false);
                    }
                }
                let ghost old_cache = self.cache@;
                self.cache[k] = info;
                proof {
                    assert(views_of(self.cache@) =~= views_of(old_cache).update(
                        k as int,
                        info@,
                    ));
                    assert(forall|i: int|
                        0 <= i < self.cache@.len() && i != k ==> self.cache@[i]
                            == #[trigger] old_cache[i]);
                }
            },
            None => {
                self.alleles.push(info.allele().clone());
                self.cache.push(info);
                proof {
                    let oldm = old(self).model();
                    assert(views_of(self.cache@) =~= views_of(self.cache@.drop_last()).push(
                        self.cache@.last()@,
                    ));
                    assert(self.cache@.drop_last() =~= old(self).cache@);
                    assert(forall|i: int|
                        0 <= i < old(self).cache@.len() ==> self.cache@[i] == #[trigger] old(
                            self,
                        ).cache@[i]);
                    assert(forall|i: int|
                        0 <= i < old(self).alleles@.len() ==> self.alleles@[i] == #[trigger] old(
                            self,
                        ).alleles@[i]);
                }
            },
        }
    }

    /// Builds the cache from the fetched page of each queried locus, in
    /// query order, skipping one header row per table.  Fail-fast: the first
    /// page whose extraction fails aborts the whole build with that error,
    /// and no partial cache is returned.
    pub fn new(pages: &Vec<String>) -> (r: Result<KirLigandMap, ExtractionError>)
        ensures
            match r {
                Ok(map) => map.wf() && spec_build(Seq::empty(), pages.deep_view()) == Ok::<
                    _,
                    ExtractionErrorView,
                >(map.model()),
                Err(e) => spec_build(Seq::empty(), pages.deep_view()) == Err::<
                    Seq<KirLigandInfoView>,
                    _,
                >(e@),
            },
    {
        let mut map = KirLigandMap { alleles: Vec::new(), cache: Vec::new() };
        let n = pages.len();
        let mut p: usize = 0;
        proof {
            assert(views_of(map.cache@) =~= Seq::<KirLigandInfoView>::empty());
            assert(pages.deep_view().skip(0) =~= pages.deep_view());
        }
        while p < n
            invariant
                p <= n,
                n == pages@.len(),
                pages.deep_view().len() == n,
                map.wf(),
                spec_build(Seq::empty(), pages.deep_view()) == spec_build(
                    map.model(),
                    pages.deep_view().skip(p as int),
                ),
            decreases n - p,
        {
            let ghost dpages = pages.deep_view().skip(p as int);
            proof {
                assert(dpages[0] == pages.deep_view()[p as int]);
                assert(pages.deep_view()[p as int] == pages@[p as int]@);
                assert(dpages.drop_first() =~= pages.deep_view().skip(p as int + 1));
            }
            let recs = match read_table(pages[p].as_str(), 1) {
                Ok(v) => v,
                Err(e) => {
                    return Err(e);
                },
            };
            let ghost rviews = views_of(recs@);
            let ghost model_before = map.model();
            let m = recs.len();
            let mut q: usize = 0;
            proof {
                assert(rviews.skip(0) =~= rviews);
            }
            while q < m
                invariant
                    q <= m,
                    m == recs@.len(),
                    rviews == views_of(recs@),
                    rviews.len() == m,
                    map.wf(),
                    forall|i: int| 0 <= i < recs@.len() ==> (#[trigger] recs@[i]).wf(),
                    spec_insert_all(model_before, rviews) == spec_insert_all(
                        map.model(),
                        rviews.skip(q as int),
                    ),
                decreases m - q,
            {
                proof {
                    assert(rviews.skip(q as int)[0] == rviews[q as int]);
                    assert(rviews[q as int] == recs@[q as int]@);
                    assert(rviews.skip(q as int).drop_first() =~= rviews.skip(q as int + 1));
                }
                let info = recs[q].clone();
                map.upsert(info);
                q = q + 1;
            }
            proof {
                assert(rviews.skip(m as int) =~= Seq::<KirLigandInfoView>::empty());
            }
            p = p + 1;
        }
        proof {
            assert(pages.deep_view().skip(n as int) =~= Seq::<Seq<char>>::empty());
        }
        Ok(map)
    }

    /// Looks an allele up: at most one record, and none — not an error —
    /// for an allele never seen.
    pub fn get_allele_info(&self, allele: &ClassI) -> (r: Vec<KirLigandInfo>)
        requires
            self.wf(),
        ensures
            match lookup_allele(self.model(), allele@) {
                Some(rec) => r@.len() == 1 && r@[0]@ == rec && r@[0].wf(),
                None => r@.len() == 0,
            },
    {
        let mut out: Vec<KirLigandInfo> = Vec::new();
        match find_allele(&self.cache, allele) {
            Some(k) => {
                proof {
                    assert(has_allele(self.model(), allele@));
                    let k0 = index_of_allele(self.model(), allele@);
                    assert(0 <= k0 < self.model().len() && self.model()[k0].allele == allele@);
                    if k0 != k as int {
                        assert(self.model()[k as int].allele == self.model()[k0].allele);
                        assert(false);
                    }
                    assert(views_of(self.cache@)[k as int] == self.cache@[k as int]@);
                }
                out.push(self.cache[k].clone());
            },
            None => {
            },
        }
        out
    }
}

} // verus!
