//! The persisted cache record and the per-font staleness decision.

use vstd::prelude::*;
use crate::strmap::StrMap;
use crate::text::str_eq_exec;

verus! {

/// The tool and schema tag stored with every cache.
pub open spec fn current_version_spec() -> Seq<char> {
    "fontcull-2"@
}

/// The tool and schema tag of this build.
pub fn current_version() -> (r: String)
    ensures
        r@ == current_version_spec(),
{
    let s = "fontcull-2";
    s.to_owned()
}

/// The persisted record: the version tag, the digest of the character set
/// the current outputs were built from, and one source digest per font
/// base name.
pub struct CacheRecord {
    pub version: String,
    pub text_hash: String,
    pub fonts: StrMap,
}

impl CacheRecord {
    pub open spec fn wf(self) -> bool {
        self.fonts.wf()
    }

    /// The empty cache: what a missing or unreadable cache file denotes.
    pub fn empty() -> (r: CacheRecord)
        ensures
            r.wf(),
            r.version@ == current_version_spec(),
            r.text_hash@ =~= Seq::<char>::empty(),
            r.fonts@ == Map::<Seq<char>, Seq<char>>::empty(),
    {
        let e = "";
        proof {
            reveal_strlit("");
        }
        CacheRecord { version: current_version(), text_hash: e.to_owned(), fonts: StrMap::new() }
    }

    /// True when the stored version tag is the current one.
    pub fn version_matches(&self) -> (r: bool)
        ensures
            r == (self.version@ == current_version_spec()),
    {
        str_eq_exec(self.version.as_str(), "fontcull-2")
    }

    /// A version-tag mismatch invalidates the whole cache: every per-font
    /// entry is dropped before any staleness decision, so every font is
    /// reprocessed. Returns whether the clearing happened.
    pub fn apply_version_policy(&mut self) -> (cleared: bool)
        requires
            old(self).wf(),
        ensures
            final(self).wf(),
            cleared == (old(self).version@ != current_version_spec()),
            cleared ==> final(self).fonts@ == Map::<Seq<char>, Seq<char>>::empty(),
            !cleared ==> final(self).fonts@ == old(self).fonts@,
            final(self).version@ == old(self).version@,
            final(self).text_hash@ == old(self).text_hash@,
    {
        if !self.version_matches() {
            self.fonts.clear();
            true
        } else {
            false
        }
    }

    /// A font group is up to date exactly when the cache holds its base
    /// name with the freshly computed source digest, the stored
    /// character-set digest equals the current one, and the output file
    /// still exists. Any single mismatch forces reprocessing.
    pub open spec fn entry_fresh(
        self,
        base: Seq<char>,
        input_hash: Seq<char>,
        text_hash: Seq<char>,
        output_exists: bool,
    ) -> bool {
        &&& self.fonts@.contains_key(base)
        &&& self.fonts@[base] == input_hash
        &&& self.text_hash@ == text_hash
        &&& output_exists
    }

    /// The staleness decision of one font group, a pure function of the
    /// cache, the candidate digest, the character-set digest, and output
    /// existence.
    pub fn is_up_to_date(
        &self,
        base: &String,
        input_hash: &String,
        text_hash: &String,
        output_exists: bool,
    ) -> (r: bool)
        requires
            self.wf(),
        ensures
            r == self.entry_fresh(base@, input_hash@, text_hash@, output_exists),
    {
        if !output_exists {
            return false;
        }
        if !str_eq_exec(self.text_hash.as_str(), text_hash.as_str()) {
            return false;
        }
        match self.fonts.get(base.as_str()) {
            Some(h) => str_eq_exec(h.as_str(), input_hash.as_str()),
            None => false,
        }
    }
}

/// With every per-font entry cleared, no font is up to date: a version
/// bump forces full reprocessing even of fonts whose bytes are unchanged.
pub proof fn lemma_cleared_cache_is_stale(
    c: CacheRecord,
    base: Seq<char>,
    input_hash: Seq<char>,
    text_hash: Seq<char>,
    output_exists: bool,
)
    requires
        c.fonts@ == Map::<Seq<char>, Seq<char>>::empty(),
    ensures
        !c.entry_fresh(base, input_hash, text_hash, output_exists),
{
}

/// A changed character-set digest invalidates every font entry at once.
pub proof fn lemma_text_change_invalidates(
    c: CacheRecord,
    base: Seq<char>,
    input_hash: Seq<char>,
    text_hash: Seq<char>,
    output_exists: bool,
)
    requires
        c.text_hash@ != text_hash,
    ensures
        !c.entry_fresh(base, input_hash, text_hash, output_exists),
{
}

/// A source-digest change invalidates exactly the changed font: the
/// freshness of any base name depends only on that base name's own cache
/// entry, so two caches that differ in one entry decide every other font
/// alike.
pub proof fn lemma_invalidation_localized(
    c1: CacheRecord,
    c2: CacheRecord,
    changed: Seq<char>,
    base: Seq<char>,
    input_hash: Seq<char>,
    text_hash: Seq<char>,
    output_exists: bool,
)
    requires
        c1.text_hash@ == c2.text_hash@,
        forall|k: Seq<char>| k != changed ==> (c1.fonts@.contains_key(k) <==> c2.fonts@.contains_key(
            k,
        )),
        forall|k: Seq<char>|
            k != changed && c1.fonts@.contains_key(k) && c2.fonts@.contains_key(k)
                ==> c1.fonts@[k] == c2.fonts@[k],
        base != changed,
    ensures
        c1.entry_fresh(base, input_hash, text_hash, output_exists) == c2.entry_fresh(
            base,
            input_hash,
            text_hash,
            output_exists,
        ),
{
    assert(c1.fonts@.contains_key(base) <==> c2.fonts@.contains_key(base));
}

/// And the changed font itself is stale as soon as its fresh digest
/// differs from the stored one.
pub proof fn lemma_changed_digest_is_stale(
    c: CacheRecord,
    base: Seq<char>,
    input_hash: Seq<char>,
    text_hash: Seq<char>,
    output_exists: bool,
)
    requires
        c.fonts@.contains_key(base) ==> c.fonts@[base] != input_hash,
    ensures
        !c.entry_fresh(base, input_hash, text_hash, output_exists),
{
}

} // verus!
