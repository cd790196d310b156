//! The subset pipeline: the per-group staleness decision, the per-task
//! subsetting computation, and the stale-sibling sweep.

use vstd::prelude::*;
use crate::cache::CacheRecord;
use crate::digest::hash_sentinel;
use crate::font::{decompressed_of, decompress_call};
use crate::text::{stem_of, str_eq_exec, split_name};

verus! {

/// What the run does with one font group.
#[derive(Clone, Copy, PartialEq, Eq, Structural, Debug)]
pub enum GroupDecision {
    /// The canonical source could not be hashed; the group is left alone
    /// this run and retried on the next.
    Dropped,
    /// The cached output is still valid: no work, but the entry is kept.
    UpToDate,
    /// The group is stale and a processing task is scheduled.
    Process,
}

/// The per-group decision: a pure function of the cache, the candidate
/// digest, the character-set digest, and output existence.
pub open spec fn decide_spec(
    cache: CacheRecord,
    text_hash: Seq<char>,
    base: Seq<char>,
    input_hash: Seq<char>,
    output_exists: bool,
) -> GroupDecision {
    if input_hash == hash_sentinel() {
        GroupDecision::Dropped
    } else if cache.entry_fresh(base, input_hash, text_hash, output_exists) {
        GroupDecision::UpToDate
    } else {
        GroupDecision::Process
    }
}

/// Decides one group.
pub fn decide_group(
    cache: &CacheRecord,
    text_hash: &String,
    base: &String,
    input_hash: &String,
    output_exists: bool,
) -> (r: GroupDecision)
    requires
        cache.wf(),
    ensures
        r == decide_spec(*cache, text_hash@, base@, input_hash@, output_exists),
{
    if crate::digest::is_sentinel(input_hash) {
        GroupDecision::Dropped
    } else if cache.is_up_to_date(base, input_hash, text_hash, output_exists) {
        GroupDecision::UpToDate
    } else {
        GroupDecision::Process
    }
}

/// Idempotence: when the cache already records a group's digest under
/// the current character-set digest and the output file exists, the
/// group is decided up to date, so a second run over unchanged sources
/// schedules no work; and since the rebuilt per-font map and manifest
/// are serialized from sorted entries, the files written again are
/// byte-identical.
pub proof fn lemma_second_run_idempotent(
    cache: CacheRecord,
    text_hash: Seq<char>,
    base: Seq<char>,
    input_hash: Seq<char>,
)
    requires
        cache.fonts@.contains_key(base),
        cache.fonts@[base] == input_hash,
        cache.text_hash@ == text_hash,
        input_hash != hash_sentinel(),
    ensures
        decide_spec(cache, text_hash, base, input_hash, true) == GroupDecision::UpToDate,
{
}

/// The output file name of a base name.
pub fn output_name(base: &String) -> (r: String)
    ensures
        r@ == base@ + ".woff2"@,
{
    base.clone().concat(".woff2")
}

/// The temporary path the output is written to before the atomic rename.
pub fn temp_name(out: &String) -> (r: String)
    ensures
        r@ == out@ + ".tmp"@,
{
    out.clone().concat(".tmp")
}

/// The OpenType layout feature tags preserved through subsetting:
/// composition, localized forms, kerning, ligatures, mark attachment,
/// and mark-to-mark attachment. Dropping these breaks text shaping for
/// most scripts even though they are not glyph-set-driven.
pub fn feature_tags() -> (r: Vec<[u8; 4]>)
    ensures
        r@.len() == 6,
        r@[0] == [0x63u8, 0x63u8, 0x6du8, 0x70u8],
        r@[1] == [0x6cu8, 0x6fu8, 0x63u8, 0x6cu8],
        r@[2] == [0x6bu8, 0x65u8, 0x72u8, 0x6eu8],
        r@[3] == [0x6cu8, 0x69u8, 0x67u8, 0x61u8],
        r@[4] == [0x6du8, 0x61u8, 0x72u8, 0x6bu8],
        r@[5] == [0x6du8, 0x6bu8, 0x6du8, 0x6bu8],
{
    let mut v: Vec<[u8; 4]> = Vec::new();
    v.push([0x63, 0x63, 0x6d, 0x70]);
    v.push([0x6c, 0x6f, 0x63, 0x6c]);
    v.push([0x6b, 0x65, 0x72, 0x6e]);
    v.push([0x6c, 0x69, 0x67, 0x61]);
    v.push([0x6d, 0x61, 0x72, 0x6b]);
    v.push([0x6d, 0x6b, 0x6d, 0x6b]);
    v
}

/// What subsetting and recompression yield on given inputs: a function
/// of the raw font data, the character set, and the feature tags alone;
/// the character order cannot matter, only the set is passed on.
pub uninterp spec fn subset_woff2_of(
    data: Seq<u8>,
    chars: Set<char>,
    features: Seq<[u8; 4]>,
) -> Option<Seq<u8>>;

/// Relies on fontcull::subset_font_to_woff2: subsets the font to the
/// character set, preserving the named layout features, and compresses
/// the result to WOFF2; deterministic in its inputs.
#[verifier::external_body]
fn subset_call(data: &Vec<u8>, chars: &Vec<char>, features: &Vec<[u8; 4]>) -> (r: Result<
    Vec<u8>,
    String,
>)
    ensures
        r matches Ok(o) ==> subset_woff2_of(data@, chars@.to_set(), features@) == Some(o@),
        r is Err ==> subset_woff2_of(data@, chars@.to_set(), features@) is None,
{
    let cs: std::collections::HashSet<char> = chars.iter().copied().collect();
    fontcull::subset_font_to_woff2(data.as_slice(), &cs, features.as_slice()).map_err(
        |e| format!("{e}"),
    )
}

/// Where a task failed, with the collaborator's message.
pub enum TaskFailure {
    /// The compressed source would not decompress.
    Decompress(String),
    /// Subsetting or recompression failed.
    Subset(String),
}

/// The stage a failure names.
#[derive(Clone, Copy, PartialEq, Eq, Structural, Debug)]
pub enum FailedStage {
    Decompress,
    Subset,
}

pub open spec fn stage_of(f: TaskFailure) -> FailedStage {
    match f {
        TaskFailure::Decompress(_) => FailedStage::Decompress,
        TaskFailure::Subset(_) => FailedStage::Subset,
    }
}

/// The per-task computation: decompress a compressed source, subset to
/// the character set, compress to the output bytes.
pub open spec fn process_spec(
    data: Seq<u8>,
    source_is_woff2: bool,
    chars: Set<char>,
    features: Seq<[u8; 4]>,
) -> Result<Seq<u8>, FailedStage> {
    let raw = if source_is_woff2 {
        decompressed_of(data)
    } else {
        Some(data)
    };
    match raw {
        None => Err(FailedStage::Decompress),
        Some(rawd) => match subset_woff2_of(rawd, chars, features) {
            None => Err(FailedStage::Subset),
            Some(o) => Ok(o),
        },
    }
}

/// Turns one task's source bytes into the optimized output bytes. A
/// source staged under a WOFF2 extension is decompressed first. Failure
/// drops the task, never the run, and the original files stay untouched.
pub fn process_font_bytes(
    data: &Vec<u8>,
    source_is_woff2: bool,
    chars: &Vec<char>,
    features: &Vec<[u8; 4]>,
) -> (r: Result<Vec<u8>, TaskFailure>)
    ensures
        match r {
            Ok(o) => process_spec(data@, source_is_woff2, chars@.to_set(), features@) == Ok::<
                _,
                FailedStage,
            >(o@),
            Err(f) => process_spec(data@, source_is_woff2, chars@.to_set(), features@) == Err::<
                Seq<u8>,
                _,
            >(stage_of(f)),
        },
{
    let raw: Vec<u8>;
    if source_is_woff2 {
        match decompress_call(data) {
            Ok(d) => {
                raw = d;
            },
            Err(msg) => {
                return Err(TaskFailure::Decompress(msg));
            },
        }
    } else {
        raw = data.clone();
    }
    match subset_call(&raw, chars, features) {
        Ok(o) => Ok(o),
        Err(msg) => Err(TaskFailure::Subset(msg)),
    }
}

/// The stale siblings swept after publishing: every listed name whose
/// stem is the task's base name but which is not the fresh output.
pub open spec fn sweep_spec(listing: Seq<Seq<char>>, base: Seq<char>, keep: Seq<char>) -> Seq<
    Seq<char>,
> {
    listing.filter(|n: Seq<char>| n != keep && stem_of(n) == base)
}

proof fn lemma_sweep_push(s: Seq<Seq<char>>, v: Seq<char>, base: Seq<char>, keep: Seq<char>)
    ensures
        (v != keep && stem_of(v) == base) ==> sweep_spec(s.push(v), base, keep) == sweep_spec(
            s,
            base,
            keep,
        ).push(v),
        !(v != keep && stem_of(v) == base) ==> sweep_spec(s.push(v), base, keep) == sweep_spec(
            s,
            base,
            keep,
        ),
{
    reveal(Seq::filter);
    assert(s.push(v).drop_last() =~= s);
    assert(s.push(v).last() == v);
}

/// Picks from a directory listing the names the sweep deletes: scoped to
/// the task's own base name only, so concurrent tasks touch disjoint
/// files.
pub fn sweep_targets(listing: &Vec<String>, base: &String, keep: &String) -> (r: Vec<String>)
    ensures
        r@.map_values(|s: String| s@) == sweep_spec(
            listing@.map_values(|s: String| s@),
            base@,
            keep@,
        ),
{
    let n = listing.len();
    let mut r: Vec<String> = Vec::new();
    let mut i: usize = 0;
    proof {
        assert(listing@.map_values(|s: String| s@).take(0) =~= Seq::<Seq<char>>::empty());
        reveal(Seq::filter);
    }
    while i < n
        invariant
            i <= n,
            n == listing@.len(),
            r@.map_values(|s: String| s@) == sweep_spec(
                listing@.map_values(|s: String| s@).take(i as int),
                base@,
                keep@,
            ),
        decreases n - i,
    {
        let name = &listing[i];
        let split = split_name(name.as_str());
        let is_keep = str_eq_exec(name.as_str(), keep.as_str());
        let same_base = str_eq_exec(split.0.as_str(), base.as_str());
        let ghost lv = listing@.map_values(|s: String| s@);
        proof {
            assert(lv.take(i + 1) =~= lv.take(i as int).push(lv[i as int]));
            lemma_sweep_push(lv.take(i as int), lv[i as int], base@, keep@);
        }
        if !is_keep && same_base {
            r.push(name.clone());
            proof {
                assert(r@.map_values(|s: String| s@) =~= sweep_spec(
                    lv.take(i as int),
                    base@,
                    keep@,
                ).push(lv[i as int]));
            }
        }
        i = i + 1;
    }
    proof {
        assert(listing@.map_values(|s: String| s@).take(n as int) =~= listing@.map_values(
            |s: String| s@,
        ));
    }
    r
}

} // verus!
