//! Staging: which files under the font directory are copied into the
//! staging area, a small content-addressed sync.

use vstd::prelude::*;
use crate::cache::CacheRecord;
use crate::font::FontFormat;
use crate::group::classify_basic;
use crate::text::{is_hidden_name, stem_of, str_eq_exec};

verus! {

/// How the stager treats one file of the font directory.
#[derive(Clone, Copy, PartialEq, Eq, Structural, Debug)]
pub enum StageClass {
    /// Hidden files are ignored.
    Hidden,
    /// Only the supported font extensions are staged.
    Unsupported,
    /// An output this tool manages: a WOFF2 whose base name the cache
    /// tracks is never copied back into staging.
    Managed,
    /// A candidate for the content-addressed copy.
    Candidate,
}

pub open spec fn stage_class_spec(cache: CacheRecord, name: Seq<char>) -> StageClass {
    if is_hidden_name(name) {
        StageClass::Hidden
    } else if crate::group::name_format(name) is None {
        StageClass::Unsupported
    } else if crate::group::name_format(name) == Some(FontFormat::Woff2)
        && cache.fonts@.contains_key(stem_of(name)) {
        StageClass::Managed
    } else {
        StageClass::Candidate
    }
}

/// Classifies one file of the font directory against the cache.
pub fn stage_class(cache: &CacheRecord, name: &str) -> (r: StageClass)
    requires
        cache.wf(),
    ensures
        r == stage_class_spec(*cache, name@),
{
    let (_basic, stem, fmt) = classify_basic(name);
    if crate::text::is_hidden_exec(name) {
        return StageClass::Hidden;
    }
    match fmt {
        None => StageClass::Unsupported,
        Some(f) => {
            if matches!(f, FontFormat::Woff2) && cache.fonts.contains(stem.as_str()) {
                StageClass::Managed
            } else {
                StageClass::Candidate
            }
        },
    }
}

/// Whether a candidate is copied into staging: only when its digest
/// differs from the staged copy's, a missing copy standing in with a
/// fixed marker, exactly as compared.
pub open spec fn should_copy_spec(src_hash: Seq<char>, dst_hash: Option<Seq<char>>) -> bool {
    match dst_hash {
        Some(d) => src_hash != d,
        None => src_hash != "no_file"@,
    }
}

pub fn should_copy(src_hash: &String, dst_hash: Option<&String>) -> (r: bool)
    ensures
        r == should_copy_spec(
            src_hash@,
            match dst_hash {
                Some(d) => Some(d@),
                None => None,
            },
        ),
{
    match dst_hash {
        Some(d) => !str_eq_exec(src_hash.as_str(), d.as_str()),
        None => !str_eq_exec(src_hash.as_str(), "no_file"),
    }
}

} // verus!
