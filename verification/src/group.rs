//! The variant grouper: which staged files become candidates, how
//! candidates group by base name, and which group member is canonical.

use vstd::prelude::*;
use crate::font::{FontFormat, FontMeta, format_of_ext, rank_spec, rank_of, classify_ext};
use crate::text::{is_hidden_name, is_hidden_exec, ext_of, stem_of, split_name, str_eq_exec};

verus! {

/// One file found in the staging directory, with what the run learned
/// about it from the filesystem and the parser: the resolved real path,
/// whether the file itself is a symbolic link, and its metadata where
/// extraction succeeded.
pub struct ScanEntry {
    pub file_name: String,
    pub real_path: String,
    pub is_symlink: bool,
    pub meta: Option<FontMeta>,
}

/// One accepted candidate source file.
pub struct Candidate {
    pub file_name: String,
    pub base: String,
    pub format: FontFormat,
    pub meta: FontMeta,
    pub rank: u32,
}

/// A candidate reduced to plain values.
pub ghost struct CandView {
    pub file_name: Seq<char>,
    pub base: Seq<char>,
    pub format: FontFormat,
    pub family: Seq<char>,
    pub style: Seq<char>,
    pub variable: bool,
    pub rank: int,
}

pub open spec fn view_of_cand(c: Candidate) -> CandView {
    CandView {
        file_name: c.file_name@,
        base: c.base@,
        format: c.format,
        family: c.meta.family@,
        style: c.meta.style@,
        variable: c.meta.is_variable,
        rank: c.rank as int,
    }
}

/// The format of an entry, by its file extension.
pub open spec fn entry_format(e: ScanEntry) -> Option<FontFormat> {
    match ext_of(e.file_name@) {
        Some(x) => format_of_ext(x),
        None => None,
    }
}

/// The name checks alone: not hidden, and a supported extension.
pub open spec fn passes_basic(e: ScanEntry) -> bool {
    !is_hidden_name(e.file_name@) && entry_format(e) is Some
}

/// Some earlier name-passing entry resolved to this real path.
pub open spec fn path_seen(entries: Seq<ScanEntry>, i: int, p: Seq<char>) -> bool {
    exists|j: int| 0 <= j < i && passes_basic(#[trigger] entries[j]) && entries[j].real_path@ == p
}

/// An entry is accepted when it passes the name checks, no earlier
/// name-passing entry resolved to the same real path, it is not itself a
/// symbolic link, and its metadata parsed. Everything else is skipped,
/// never fatal.
pub open spec fn accepted(entries: Seq<ScanEntry>, i: int) -> bool {
    &&& passes_basic(entries[i])
    &&& !path_seen(entries, i, entries[i].real_path@)
    &&& !entries[i].is_symlink
    &&& entries[i].meta is Some
}

pub open spec fn view_of_entry(e: ScanEntry) -> CandView {
    CandView {
        file_name: e.file_name@,
        base: stem_of(e.file_name@),
        format: entry_format(e).unwrap(),
        family: e.meta.unwrap().family@,
        style: e.meta.unwrap().style@,
        variable: e.meta.unwrap().is_variable,
        rank: rank_spec(entry_format(e).unwrap(), e.meta.unwrap().is_variable),
    }
}

/// The candidates the first n entries yield, in discovery order.
pub open spec fn scan_spec(entries: Seq<ScanEntry>, n: int) -> Seq<CandView>
    decreases n,
{
    if n <= 0 {
        Seq::empty()
    } else if accepted(entries, n - 1) {
        scan_spec(entries, n - 1).push(view_of_entry(entries[n - 1]))
    } else {
        scan_spec(entries, n - 1)
    }
}

/// A symbolic link is excluded entirely, whatever else holds of it.
pub proof fn lemma_symlink_excluded(entries: Seq<ScanEntry>, i: int)
    requires
        0 <= i < entries.len(),
        entries[i].is_symlink,
    ensures
        !accepted(entries, i),
{
}

/// A duplicate by real path is excluded: once any name-passing entry
/// carried a real path, no later entry with that real path is accepted,
/// so an aliased font never produces a second candidate.
pub proof fn lemma_duplicate_excluded(entries: Seq<ScanEntry>, i: int, j: int)
    requires
        0 <= j < i < entries.len(),
        passes_basic(entries[j]),
        entries[j].real_path@ == entries[i].real_path@,
    ensures
        !accepted(entries, i),
{
    assert(path_seen(entries, i, entries[i].real_path@));
}

fn clone_meta(m: &FontMeta) -> (r: FontMeta)
    ensures
        r.family@ == m.family@,
        r.style@ == m.style@,
        r.is_variable == m.is_variable,
{
    FontMeta { family: m.family.clone(), style: m.style.clone(), is_variable: m.is_variable }
}

fn clone_cand(c: &Candidate) -> (r: Candidate)
    ensures
        view_of_cand(r) == view_of_cand(*c),
{
    Candidate {
        file_name: c.file_name.clone(),
        base: c.base.clone(),
        format: c.format,
        meta: clone_meta(&c.meta),
        rank: c.rank,
    }
}

/// One string of the list holds these characters.
pub open spec fn list_has(l: Seq<String>, p: Seq<char>) -> bool {
    exists|t: int| 0 <= t < l.len() && (#[trigger] l[t])@ == p
}

fn list_has_exec(l: &Vec<String>, p: &str) -> (r: bool)
    ensures
        r == list_has(l@, p@),
{
    let m = l.len();
    let mut k: usize = 0;
    while k < m
        invariant
            k <= m,
            m == l@.len(),
            forall|t: int| 0 <= t < k ==> (#[trigger] l@[t])@ != p@,
        decreases m - k,
    {
        if str_eq_exec(l[k].as_str(), p) {
            proof {
                assert(list_has(l@, p@));
            }
            return true;
        }
        k = k + 1;
    }
    false
}

/// The format a file name carries, by its extension.
pub open spec fn name_format(name: Seq<char>) -> Option<FontFormat> {
    match ext_of(name) {
        Some(x) => format_of_ext(x),
        None => None,
    }
}

/// The name checks, the stem, and the format of one file name.
pub fn classify_basic(name: &str) -> (r: (bool, String, Option<FontFormat>))
    ensures
        r.0 == (!is_hidden_name(name@) && name_format(name@) is Some),
        r.1@ == stem_of(name@),
        r.2 == name_format(name@),
{
    let hidden = is_hidden_exec(name);
    let split = split_name(name);
    let fmt: Option<FontFormat> = match &split.1 {
        Some(x) => classify_ext(x.as_str()),
        None => None,
    };
    let basic = !hidden && fmt.is_some();
    (basic, split.0, fmt)
}

/// The name checks, the stem, and the format of one entry.
fn classify_entry(e: &ScanEntry) -> (r: (bool, String, Option<FontFormat>))
    ensures
        r.0 == passes_basic(*e),
        r.1@ == stem_of(e.file_name@),
        r.2 == entry_format(*e),
{
    classify_basic(e.file_name.as_str())
}

/// Walks the staged entries in discovery order and keeps the accepted
/// candidates: the grouper's skip rules, exactly.
#[verifier::rlimit(100)]
pub fn accept_candidates(entries: &Vec<ScanEntry>) -> (r: Vec<Candidate>)
    ensures
        r@.map_values(|c: Candidate| view_of_cand(c)) == scan_spec(
            entries@,
            entries@.len() as int,
        ),
{
    let n = entries.len();
    let mut r: Vec<Candidate> = Vec::new();
    let mut seen: Vec<String> = Vec::new();
    let mut i: usize = 0;
    while i < n
        invariant
            i <= n,
            n == entries@.len(),
            r@.map_values(|c: Candidate| view_of_cand(c)) == scan_spec(entries@, i as int),
            forall|k: int| 0 <= k < seen@.len() ==> path_seen(
                entries@,
                i as int,
                (#[trigger] seen@[k])@,
            ),
            forall|j: int| 0 <= j < i && passes_basic(#[trigger] entries@[j]) ==> list_has(
                seen@,
                entries@[j].real_path@,
            ),
        decreases n - i,
    {
        let e = &entries[i];
        let ghost oldseen = seen@;
        let (basic, stem, fmt) = classify_entry(e);
        let dup = if basic {
            list_has_exec(&seen, e.real_path.as_str())
        } else {
            false
        };
        proof {
            if basic {
                if dup {
                    let t = choose|t: int| 0 <= t < seen@.len() && (#[trigger] seen@[t])@
                        == e.real_path@;
                    assert(path_seen(entries@, i as int, entries@[i as int].real_path@));
                } else {
                    if path_seen(entries@, i as int, entries@[i as int].real_path@) {
                        let j = choose|j: int|
                            0 <= j < i && passes_basic(#[trigger] entries@[j])
                                && entries@[j].real_path@ == entries@[i as int].real_path@;
                        assert(list_has(seen@, entries@[j].real_path@));
                        assert(false);
                    }
                }
            }
        }
        if basic && !dup {
            seen.push(e.real_path.clone());
        }
        proof {
            assert forall|k: int| 0 <= k < seen@.len() implies path_seen(
                entries@,
                i + 1,
                (#[trigger] seen@[k])@,
            ) by {
                if k < oldseen.len() {
                    assert(seen@[k] == oldseen[k]);
                    assert(path_seen(entries@, i as int, oldseen[k]@));
                    let j = choose|j: int|
                        0 <= j < i && passes_basic(#[trigger] entries@[j])
                            && entries@[j].real_path@ == oldseen[k]@;
                    assert(0 <= j < i + 1 && passes_basic(entries@[j]) && entries@[j].real_path@
                        == seen@[k]@);
                } else {
                    assert(seen@[k]@ == entries@[i as int].real_path@);
                    assert(0 <= i < i + 1 && passes_basic(entries@[i as int])
                        && entries@[i as int].real_path@ == seen@[k]@);
                }
            }
            assert forall|j: int|
                0 <= j < i + 1 && passes_basic(#[trigger] entries@[j]) implies list_has(
                seen@,
                entries@[j].real_path@,
            ) by {
                if j < i {
                    let k = choose|k: int|
                        0 <= k < oldseen.len() && (#[trigger] oldseen[k])@
                            == entries@[j].real_path@;
                    assert(seen@[k] == oldseen[k]);
                    assert(0 <= k < seen@.len() && seen@[k]@ == entries@[j].real_path@);
                } else {
                    if seen@.len() > oldseen.len() {
                        assert(seen@[seen@.len() - 1]@ == entries@[j].real_path@);
                    } else {
                        let t = choose|t: int|
                            0 <= t < seen@.len() && (#[trigger] seen@[t])@ == e.real_path@;
                        assert(seen@[t]@ == entries@[j].real_path@);
                    }
                }
            }
        }
        let ghost prevr = r@;
        if basic && !dup && !e.is_symlink {
            match &e.meta {
                Some(m) => {
                    let fmtv = match fmt {
                        Some(f) => f,
                        None => FontFormat::Ttf,
                    };
                    let rank = rank_of(fmtv, m.is_variable);
                    let cand = Candidate {
                        file_name: e.file_name.clone(),
                        base: stem,
                        format: fmtv,
                        meta: clone_meta(m),
                        rank,
                    };
                    proof {
                        assert(accepted(entries@, i as int));
                        assert(view_of_cand(cand) == view_of_entry(entries@[i as int]));
                    }
                    r.push(cand);
                    proof {
                        assert(r@.map_values(|c: Candidate| view_of_cand(c)) =~= prevr.map_values(
                            |c: Candidate| view_of_cand(c),
                        ).push(view_of_cand(r@.last())));
                    }
                },
                None => {
                    proof {
                        assert(!accepted(entries@, i as int));
                    }
                },
            }
        } else {
            proof {
                assert(!accepted(entries@, i as int));
            }
        }
        i = i + 1;
    }
    r
}

/// Every candidate the scan yields carries the rank its format and
/// variable flag demand.
pub proof fn lemma_scan_ranks(entries: Seq<ScanEntry>, n: int, k: int)
    requires
        0 <= k < scan_spec(entries, n).len(),
    ensures
        scan_spec(entries, n)[k].rank == rank_spec(
            scan_spec(entries, n)[k].format,
            scan_spec(entries, n)[k].variable,
        ),
    decreases n,
{
    if n > 0 {
        if accepted(entries, n - 1) && k == scan_spec(entries, n).len() - 1 {
        } else {
            lemma_scan_ranks(entries, n - 1, k);
        }
    }
}

/// All candidates sharing one base name.
pub struct FontGroup {
    pub base: String,
    pub members: Vec<Candidate>,
}

pub open spec fn views_of_cands(s: Seq<Candidate>) -> Seq<CandView> {
    s.map_values(|c: Candidate| view_of_cand(c))
}

/// Some group carries this base name.
pub open spec fn has_base(r: Seq<FontGroup>, b: Seq<char>) -> bool {
    exists|gi: int| 0 <= gi < r.len() && (#[trigger] r[gi]).base@ == b
}

proof fn lemma_filter_empty_when_none(s: Seq<CandView>, b: Seq<char>)
    requires
        forall|i: int| 0 <= i < s.len() ==> (#[trigger] s[i]).base != b,
    ensures
        s.filter(|v: CandView| v.base == b) =~= Seq::<CandView>::empty(),
    decreases s.len(),
{
    reveal(Seq::filter);
    if s.len() > 0 {
        assert(forall|i: int| 0 <= i < s.len() - 1 ==> #[trigger] s.drop_last()[i] == s[i]);
        lemma_filter_empty_when_none(s.drop_last(), b);
    }
}

proof fn lemma_filter_push(s: Seq<CandView>, v: CandView, b: Seq<char>)
    ensures
        v.base == b ==> s.push(v).filter(|x: CandView| x.base == b) == s.filter(
            |x: CandView| x.base == b,
        ).push(v),
        v.base != b ==> s.push(v).filter(|x: CandView| x.base == b) == s.filter(
            |x: CandView| x.base == b,
        ),
{
    reveal(Seq::filter);
    assert(s.push(v).drop_last() =~= s);
    assert(s.push(v).last() == v);
}

/// Groups candidates by base name: each group holds, in discovery order,
/// exactly the candidates whose base is the group's, no two groups share
/// a base, and every candidate's base has its group.
#[verifier::rlimit(100)]
pub fn group_by_base(cands: &Vec<Candidate>) -> (r: Vec<FontGroup>)
    ensures
        forall|gi: int| 0 <= gi < r@.len() ==> views_of_cands(
            (#[trigger] r@[gi]).members@,
        ) == views_of_cands(cands@).filter(|v: CandView| v.base == r@[gi].base@),
        forall|gi: int, gj: int| 0 <= gi < gj < r@.len() ==> (#[trigger] r@[gi]).base@ != (
        #[trigger] r@[gj]).base@,
        forall|i: int| 0 <= i < cands@.len() ==> has_base(r@, (#[trigger] cands@[i]).base@),
{
    let n = cands.len();
    let mut r: Vec<FontGroup> = Vec::new();
    let mut i: usize = 0;
    while i < n
        invariant
            i <= n,
            n == cands@.len(),
            forall|gi: int| 0 <= gi < r@.len() ==> views_of_cands(
                (#[trigger] r@[gi]).members@,
            ) == views_of_cands(cands@.take(i as int)).filter(
                |v: CandView| v.base == r@[gi].base@,
            ),
            forall|gi: int, gj: int| 0 <= gi < gj < r@.len() ==> (#[trigger] r@[gi]).base@ != (
            #[trigger] r@[gj]).base@,
            forall|j: int| 0 <= j < i ==> has_base(r@, (#[trigger] cands@[j]).base@),
        decreases n - i,
    {
        let c = clone_cand(&cands[i]);
        let ghost cv = view_of_cand(cands@[i as int]);
        proof {
            assert(views_of_cands(cands@.take(i + 1)) =~= views_of_cands(
                cands@.take(i as int),
            ).push(cv));
        }
        let m = r.len();
        let mut gi: usize = 0;
        loop
            invariant
                gi <= m,
                m == r@.len(),
                forall|t: int| 0 <= t < gi ==> (#[trigger] r@[t]).base@ != c.base@,
            ensures
                gi <= m,
                forall|t: int| 0 <= t < gi ==> (#[trigger] r@[t]).base@ != c.base@,
                gi < m ==> r@[gi as int].base@ == c.base@,
                gi == m ==> forall|t: int| 0 <= t < m ==> (#[trigger] r@[t]).base@ != c.base@,
            decreases m - gi,
        {
            if gi == m {
                break;
            }
            if str_eq_exec(r[gi].base.as_str(), c.base.as_str()) {
                break;
            }
            gi = gi + 1;
        }
        let ghost oldr = r@;
        if gi < m {
            let mut grp = r.remove(gi);
            grp.members.push(c);
            r.insert(gi, grp);
            proof {
                assert(r@ =~= oldr.update(gi as int, r@[gi as int]));
                assert(r@[gi as int].base@ == oldr[gi as int].base@);
                assert(forall|t: int| 0 <= t < r@.len() ==> (#[trigger] r@[t]).base@
                    == oldr[t].base@);
                assert forall|t: int| 0 <= t < r@.len() implies views_of_cands(
                    (#[trigger] r@[t]).members@,
                ) == views_of_cands(cands@.take(i + 1)).filter(
                    |v: CandView| v.base == r@[t].base@,
                ) by {
                    lemma_filter_push(views_of_cands(cands@.take(i as int)), cv, r@[t].base@);
                    if t == gi {
                        assert(views_of_cands(r@[t].members@) =~= views_of_cands(
                            oldr[t].members@,
                        ).push(cv));
                    } else {
                        assert(r@[t] == oldr[t]);
                        assert(cv.base != r@[t].base@);
                    }
                }
                assert forall|j: int| 0 <= j < i + 1 implies has_base(
                    r@,
                    (#[trigger] cands@[j]).base@,
                ) by {
                    if j < i {
                        assert(has_base(oldr, cands@[j].base@));
                        let g2 = choose|g2: int|
                            0 <= g2 < oldr.len() && (#[trigger] oldr[g2]).base@
                                == cands@[j].base@;
                        assert(r@[g2].base@ == cands@[j].base@);
                    } else {
                        assert(r@[gi as int].base@ == cands@[i as int].base@);
                    }
                }
            }
        } else {
            let mut members: Vec<Candidate> = Vec::new();
            let base = c.base.clone();
            members.push(c);
            let grp = FontGroup { base, members };
            r.push(grp);
            proof {
                assert forall|t: int| 0 <= t < r@.len() implies views_of_cands(
                    (#[trigger] r@[t]).members@,
                ) == views_of_cands(cands@.take(i + 1)).filter(
                    |v: CandView| v.base == r@[t].base@,
                ) by {
                    lemma_filter_push(views_of_cands(cands@.take(i as int)), cv, r@[t].base@);
                    if t == r@.len() - 1 {
                        assert forall|q: int|
                            0 <= q < views_of_cands(cands@.take(i as int)).len() implies (
                        #[trigger] views_of_cands(cands@.take(i as int))[q]).base != r@[t].base@ by {
                            assert(views_of_cands(cands@.take(i as int))[q] == view_of_cand(
                                cands@[q],
                            ));
                            assert(has_base(oldr, cands@[q].base@));
                            let g2 = choose|g2: int|
                                0 <= g2 < oldr.len() && (#[trigger] oldr[g2]).base@
                                    == cands@[q].base@;
                            assert(oldr[g2].base@ != c.base@);
                        }
                        lemma_filter_empty_when_none(
                            views_of_cands(cands@.take(i as int)),
                            r@[t].base@,
                        );
                        assert(views_of_cands(r@[t].members@) =~= Seq::<CandView>::empty().push(
                            cv,
                        ));
                    } else {
                        assert(r@[t] == oldr[t]);
                        assert(cv.base != r@[t].base@);
                    }
                }
                assert forall|j: int| 0 <= j < i + 1 implies has_base(
                    r@,
                    (#[trigger] cands@[j]).base@,
                ) by {
                    if j < i {
                        assert(has_base(oldr, cands@[j].base@));
                        let g2 = choose|g2: int|
                            0 <= g2 < oldr.len() && (#[trigger] oldr[g2]).base@
                                == cands@[j].base@;
                        assert(r@[g2] == oldr[g2]);
                        assert(r@[g2].base@ == cands@[j].base@);
                    } else {
                        assert(r@[r@.len() - 1].base@ == cands@[i as int].base@);
                    }
                }
            }
        }
        i = i + 1;
    }
    proof {
        assert(cands@.take(n as int) =~= cands@);
    }
    r
}

/// Selects the canonical member of a group: the first member with the
/// lowest rank, so ties keep discovery order.
pub fn select_canonical(members: &Vec<Candidate>) -> (idx: usize)
    requires
        members@.len() > 0,
    ensures
        idx < members@.len(),
        forall|j: int| 0 <= j < members@.len() ==> members@[idx as int].rank <= (
        #[trigger] members@[j]).rank,
        forall|j: int| 0 <= j < idx ==> (#[trigger] members@[j]).rank > members@[idx as int].rank,
{
    let n = members.len();
    let mut best: usize = 0;
    let mut i: usize = 1;
    while i < n
        invariant
            best < i <= n,
            n == members@.len(),
            forall|j: int| 0 <= j < i ==> members@[best as int].rank <= (
            #[trigger] members@[j]).rank,
            forall|j: int| 0 <= j < best ==> (#[trigger] members@[j]).rank
                > members@[best as int].rank,
        decreases n - i,
    {
        if members[i].rank < members[best].rank {
            best = i;
        }
        i = i + 1;
    }
    best
}

/// Format priority: wherever a group holds a static WOFF2 candidate, the
/// selected canonical member is a static WOFF2, never a static TTF or
/// OTF and never a variable font.
pub proof fn lemma_format_priority(members: Seq<Candidate>, idx: int, i: int)
    requires
        forall|k: int| 0 <= k < members.len() ==> (#[trigger] members[k]).rank as int == rank_spec(
            members[k].format,
            members[k].meta.is_variable,
        ),
        0 <= idx < members.len(),
        0 <= i < members.len(),
        forall|j: int| 0 <= j < members.len() ==> members[idx].rank <= (#[trigger] members[j]).rank,
        members[i].format == FontFormat::Woff2,
        !members[i].meta.is_variable,
    ensures
        members[idx].format == FontFormat::Woff2,
        !members[idx].meta.is_variable,
{
    assert(members[idx].rank <= members[i].rank);
    assert(members[i].rank as int == 0);
}

} // verus!
