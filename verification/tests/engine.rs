use subfont::cache::{current_version, CacheRecord};
use subfont::charset::{baseline_chars, canonical_chars, charset_digest, canonical_string, file_chars, is_scanned_name};
use subfont::digest::content_hash;
use subfont::font::{classify_ext, display_style, font_meta, rank_of, woff2_magic, FontFormat, MetaError};
use subfont::group::{accept_candidates, group_by_base, select_canonical, Candidate, ScanEntry};
use subfont::font::FontMeta;
use subfont::manifest::{alias_of, cache_json, manifest_json};
use subfont::pipeline::{
    decide_group, feature_tags, output_name, process_font_bytes, sweep_targets, temp_name,
    GroupDecision, TaskFailure,
};
use subfont::stage::{should_copy, stage_class, StageClass};
use subfont::strmap::StrMap;
use subfont::text::str_lt_exec;

fn meta(family: &str, style: &str, variable: bool) -> FontMeta {
    FontMeta { family: family.to_string(), style: style.to_string(), is_variable: variable }
}

fn entry(name: &str, real: &str, symlink: bool, m: Option<FontMeta>) -> ScanEntry {
    ScanEntry {
        file_name: name.to_string(),
        real_path: real.to_string(),
        is_symlink: symlink,
        meta: m,
    }
}

const PRINTABLE_ASCII: &str = " !\"#$%&'()*+,-./0123456789:;<=>?@ABCDEFGHIJKLMNOPQRSTUVWXYZ[\\]^_`abcdefghijklmnopqrstuvwxyz{|}~";

#[test]
fn md5_of_known_bytes() {
    let empty: Vec<u8> = Vec::new();
    assert_eq!(content_hash(Some(&empty)), "d41d8cd98f00b204e9800998ecf8427e");
    let abc: Vec<u8> = vec![b'a', b'b', b'c'];
    assert_eq!(content_hash(Some(&abc)), "900150983cd24fb0d6963f7d28e17f72");
    assert_eq!(content_hash(None), "hash_error");
}

#[test]
fn baseline_is_printable_ascii() {
    let b = baseline_chars();
    let s = canonical_string(&b);
    assert_eq!(s, PRINTABLE_ASCII);
}

#[test]
fn charset_of_ascii_source_is_baseline() {
    // A source tree whose one file holds "Hi!" adds nothing beyond the
    // printable-ASCII baseline.
    let files: Vec<Vec<u8>> = vec![b"Hi!".to_vec()];
    let canon = canonical_chars(&files);
    assert_eq!(canonical_string(&canon), PRINTABLE_ASCII);
}

#[test]
fn charset_ignores_discovery_order() {
    let a: Vec<u8> = "héllo".bytes().collect();
    let b: Vec<u8> = vec![0xff, 0x00];
    let c: Vec<u8> = b"plain".to_vec();
    let one = canonical_chars(&vec![a.clone(), b.clone(), c.clone()]);
    let two = canonical_chars(&vec![c, b, a]);
    assert_eq!(canonical_string(&one), canonical_string(&two));
    let d1 = charset_digest(&canonical_string(&one));
    let d2 = charset_digest(&canonical_string(&two));
    assert_eq!(d1, d2);
}

#[test]
fn file_chars_strips_byte_order_mark() {
    let with_bom: Vec<u8> = vec![0xef, 0xbb, 0xbf, b'a', b'b'];
    let chars = file_chars(&with_bom);
    assert_eq!(chars, vec!['a', 'b']);
}

#[test]
fn file_chars_falls_back_per_byte() {
    // 0xff alone is not valid UTF-8; each byte becomes its own character.
    let bad: Vec<u8> = vec![0xff, b'x'];
    let chars = file_chars(&bad);
    assert_eq!(chars, vec!['\u{ff}', 'x']);
}

#[test]
fn extension_classification_is_case_insensitive() {
    assert_eq!(classify_ext("ttf"), Some(FontFormat::Ttf));
    assert_eq!(classify_ext("TTF"), Some(FontFormat::Ttf));
    assert_eq!(classify_ext("WofF2"), Some(FontFormat::Woff2));
    assert_eq!(classify_ext("otf"), Some(FontFormat::Otf));
    assert_eq!(classify_ext("woff"), None);
    assert_eq!(classify_ext("txt"), None);
}

#[test]
fn ranks_follow_format_priority() {
    assert_eq!(rank_of(FontFormat::Woff2, false), 0);
    assert_eq!(rank_of(FontFormat::Ttf, false), 2);
    assert_eq!(rank_of(FontFormat::Otf, false), 3);
    assert_eq!(rank_of(FontFormat::Woff2, true), 10);
    assert_eq!(rank_of(FontFormat::Ttf, true), 12);
    assert_eq!(rank_of(FontFormat::Otf, true), 13);
}

#[test]
fn static_woff2_beats_ttf_and_variable_otf() {
    // A group with a static WOFF2, a static TTF, and a variable OTF:
    // the WOFF2 is always canonical.
    let entries = vec![
        entry("Inter.ttf", "/real/Inter.ttf", false, Some(meta("Inter", "Regular", false))),
        entry("Inter.otf", "/real/Inter.otf", false, Some(meta("Inter", "Regular", true))),
        entry("Inter.woff2", "/real/Inter.woff2", false, Some(meta("Inter", "Regular", false))),
    ];
    let cands = accept_candidates(&entries);
    assert_eq!(cands.len(), 3);
    let groups = group_by_base(&cands);
    assert_eq!(groups.len(), 1);
    let idx = select_canonical(&groups[0].members);
    assert_eq!(groups[0].members[idx].file_name, "Inter.woff2");
    assert_eq!(groups[0].members[idx].format, FontFormat::Woff2);
}

#[test]
fn ties_keep_discovery_order() {
    let entries = vec![
        entry("A.ttf", "/r/1", false, Some(meta("A", "Regular", false))),
        entry("A.TTF", "/r/2", false, Some(meta("A", "Bold", false))),
    ];
    let cands = accept_candidates(&entries);
    assert_eq!(cands.len(), 2);
    let groups = group_by_base(&cands);
    assert_eq!(groups.len(), 1);
    let first = select_canonical(&groups[0].members);
    assert_eq!(groups[0].members[first].file_name, "A.ttf");
    let same = vec![
        entries_to_cand("B.ttf", 2),
        entries_to_cand("B.otf", 3),
    ];
    let groups2 = group_by_base(&same);
    assert_eq!(groups2.len(), 1);
    let idx = select_canonical(&groups2[0].members);
    assert_eq!(groups2[0].members[idx].file_name, "B.ttf");
}

fn entries_to_cand(name: &str, rank: u32) -> Candidate {
    let base: String = name.split('.').next().unwrap().to_string();
    Candidate {
        file_name: name.to_string(),
        base,
        format: if rank == 2 { FontFormat::Ttf } else { FontFormat::Otf },
        meta: meta("B", "Regular", false),
        rank,
    }
}

#[test]
fn symlinks_and_duplicates_are_excluded() {
    // A symlinked duplicate of an already-seen font never becomes a
    // candidate, and a font that is itself a symlink is excluded.
    let entries = vec![
        entry("Real.ttf", "/real/Real.ttf", false, Some(meta("Real", "Regular", false))),
        entry("Alias.ttf", "/real/Real.ttf", true, Some(meta("Real", "Regular", false))),
        entry("Link.ttf", "/real/Other.ttf", true, Some(meta("Other", "Regular", false))),
    ];
    let cands = accept_candidates(&entries);
    assert_eq!(cands.len(), 1);
    assert_eq!(cands[0].file_name, "Real.ttf");
}

#[test]
fn hidden_unsupported_and_unparsable_are_skipped() {
    let entries = vec![
        entry(".hidden.ttf", "/r/h", false, Some(meta("X", "Regular", false))),
        entry("notes.txt", "/r/t", false, Some(meta("X", "Regular", false))),
        entry("font.woff", "/r/w", false, Some(meta("X", "Regular", false))),
        entry("broken.ttf", "/r/b", false, None),
        entry("Good.ttf", "/r/g", false, Some(meta("Good", "Regular", false))),
    ];
    let cands = accept_candidates(&entries);
    assert_eq!(cands.len(), 1);
    assert_eq!(cands[0].base, "Good");
}

#[test]
fn up_to_date_needs_all_four_conditions() {
    let mut cache = CacheRecord::empty();
    cache.text_hash = "t1".to_string();
    cache.fonts.insert("Inter".to_string(), "h1".to_string());
    let t1 = "t1".to_string();
    let t2 = "t2".to_string();
    let base = "Inter".to_string();
    let h1 = "h1".to_string();
    let h2 = "h2".to_string();
    assert_eq!(decide_group(&cache, &t1, &base, &h1, true), GroupDecision::UpToDate);
    // output missing
    assert_eq!(decide_group(&cache, &t1, &base, &h1, false), GroupDecision::Process);
    // source digest changed
    assert_eq!(decide_group(&cache, &t1, &base, &h2, true), GroupDecision::Process);
    // character-set digest changed: invalidates even with matching font digest
    assert_eq!(decide_group(&cache, &t2, &base, &h1, true), GroupDecision::Process);
    // unknown base name
    assert_eq!(decide_group(&cache, &t1, &"Other".to_string(), &h1, true), GroupDecision::Process);
    // unreadable source is dropped, not processed
    assert_eq!(
        decide_group(&cache, &t1, &base, &"hash_error".to_string(), true),
        GroupDecision::Dropped
    );
}

#[test]
fn source_change_invalidates_only_that_font() {
    let mut cache = CacheRecord::empty();
    cache.text_hash = "t".to_string();
    cache.fonts.insert("A".to_string(), "ha".to_string());
    cache.fonts.insert("B".to_string(), "hb".to_string());
    let t = "t".to_string();
    // A's bytes changed: A reprocesses, B stays up to date.
    assert_eq!(
        decide_group(&cache, &t, &"A".to_string(), &"ha-changed".to_string(), true),
        GroupDecision::Process
    );
    assert_eq!(
        decide_group(&cache, &t, &"B".to_string(), &"hb".to_string(), true),
        GroupDecision::UpToDate
    );
}

#[test]
fn version_bump_forces_full_reprocessing() {
    // cache.json carries the previous version tag; every entry clears and
    // every font reprocesses even with unchanged bytes.
    let mut cache = CacheRecord::empty();
    cache.version = "fontcull-1".to_string();
    cache.text_hash = "t".to_string();
    cache.fonts.insert("Inter".to_string(), "h1".to_string());
    assert_eq!(current_version(), "fontcull-2");
    let cleared = cache.apply_version_policy();
    assert!(cleared);
    assert_eq!(cache.fonts.len(), 0);
    assert_eq!(
        decide_group(&cache, &"t".to_string(), &"Inter".to_string(), &"h1".to_string(), true),
        GroupDecision::Process
    );
}

#[test]
fn matching_version_keeps_entries() {
    let mut cache = CacheRecord::empty();
    cache.text_hash = "t".to_string();
    cache.fonts.insert("Inter".to_string(), "h1".to_string());
    let cleared = cache.apply_version_policy();
    assert!(!cleared);
    assert_eq!(cache.fonts.len(), 1);
}

#[test]
fn second_run_is_byte_identical() {
    // Build the same cache twice, inserting in different orders: the
    // serialized bytes agree, so an unchanged second run rewrites
    // identical files.
    let mut one = CacheRecord::empty();
    one.text_hash = "t".to_string();
    one.fonts.insert("B".to_string(), "hb".to_string());
    one.fonts.insert("A".to_string(), "ha".to_string());
    let mut two = CacheRecord::empty();
    two.text_hash = "t".to_string();
    two.fonts.insert("A".to_string(), "ha".to_string());
    two.fonts.insert("B".to_string(), "hb".to_string());
    assert_eq!(cache_json(&one), cache_json(&two));
}

#[test]
fn manifest_is_sorted_and_pretty() {
    let mut m = StrMap::new();
    m.insert("inter-regular".to_string(), "Inter-Regular.woff2".to_string());
    assert_eq!(manifest_json(&m), "{\n  \"inter-regular\": \"Inter-Regular.woff2\"\n}");
    let mut m2 = StrMap::new();
    m2.insert("b".to_string(), "B.woff2".to_string());
    m2.insert("a".to_string(), "A.woff2".to_string());
    assert_eq!(manifest_json(&m2), "{\n  \"a\": \"A.woff2\",\n  \"b\": \"B.woff2\"\n}");
    let empty = StrMap::new();
    assert_eq!(manifest_json(&empty), "{}");
}

#[test]
fn json_escapes_specials() {
    let mut m = StrMap::new();
    m.insert("qu\"ote".to_string(), "back\\slash\nnl".to_string());
    assert_eq!(
        manifest_json(&m),
        "{\n  \"qu\\\"ote\": \"back\\\\slash\\u000anl\"\n}"
    );
}

#[test]
fn cache_json_shape() {
    let mut c = CacheRecord::empty();
    c.text_hash = "abc".to_string();
    c.fonts.insert("Inter".to_string(), "h1".to_string());
    assert_eq!(
        cache_json(&c),
        "{\n  \"text_hash\": \"abc\",\n  \"version\": \"fontcull-2\",\n  \"fonts\": {\n  \"Inter\": \"h1\"\n}\n}"
    );
}

#[test]
fn alias_lowers_and_strips_spaces() {
    assert_eq!(alias_of(&"Inter-Regular".to_string()), "inter-regular");
    assert_eq!(alias_of(&"My Font Bold".to_string()), "myfontbold");
}

#[test]
fn output_and_temp_names() {
    let base = "Inter-Regular".to_string();
    let out = output_name(&base);
    assert_eq!(out, "Inter-Regular.woff2");
    assert_eq!(temp_name(&out), "Inter-Regular.woff2.tmp");
}

#[test]
fn sweep_keeps_only_the_fresh_output() {
    let listing = vec![
        "Inter.woff2".to_string(),
        "Inter.ttf".to_string(),
        "Inter.otf".to_string(),
        "Other.ttf".to_string(),
    ];
    let targets = sweep_targets(&listing, &"Inter".to_string(), &"Inter.woff2".to_string());
    assert_eq!(targets, vec!["Inter.ttf".to_string(), "Inter.otf".to_string()]);
}

#[test]
fn stage_classes() {
    let mut cache = CacheRecord::empty();
    cache.fonts.insert("Managed".to_string(), "h".to_string());
    assert_eq!(stage_class(&cache, ".DS_Store"), StageClass::Hidden);
    assert_eq!(stage_class(&cache, "readme.md"), StageClass::Unsupported);
    assert_eq!(stage_class(&cache, "font.woff"), StageClass::Unsupported);
    assert_eq!(stage_class(&cache, "Managed.woff2"), StageClass::Managed);
    assert_eq!(stage_class(&cache, "Managed.ttf"), StageClass::Candidate);
    assert_eq!(stage_class(&cache, "Fresh.woff2"), StageClass::Candidate);
}

#[test]
fn copy_only_on_digest_change() {
    let src = "aaaa".to_string();
    let same = "aaaa".to_string();
    let differ = "bbbb".to_string();
    assert!(!should_copy(&src, Some(&same)));
    assert!(should_copy(&src, Some(&differ)));
    assert!(should_copy(&src, None));
}

#[test]
fn woff2_magic_detection() {
    let woff2: Vec<u8> = vec![0x77, 0x4f, 0x46, 0x32, 0x00];
    let ttf: Vec<u8> = vec![0x00, 0x01, 0x00, 0x00];
    let short: Vec<u8> = vec![0x77];
    assert!(woff2_magic(&woff2));
    assert!(!woff2_magic(&ttf));
    assert!(!woff2_magic(&short));
}

#[test]
fn corrupt_fonts_are_skipped_not_fatal() {
    // Garbage that is not a WOFF2 container passes decompression
    // unchanged and then fails face parsing.
    let garbage: Vec<u8> = vec![1, 2, 3, 4, 5, 6, 7, 8];
    assert_eq!(font_meta(&garbage).err(), Some(MetaError::Parse));
    // Garbage behind a WOFF2 magic fails decompression itself.
    let bad_woff2: Vec<u8> = vec![0x77, 0x4f, 0x46, 0x32, 9, 9, 9, 9];
    assert_eq!(font_meta(&bad_woff2).err(), Some(MetaError::Decompress));
}

#[test]
fn failed_subsetting_drops_the_task() {
    let chars = baseline_chars();
    let feats = feature_tags();
    let garbage: Vec<u8> = vec![1, 2, 3, 4, 5, 6, 7, 8];
    match process_font_bytes(&garbage, false, &chars, &feats) {
        Err(TaskFailure::Subset(_)) => {},
        _ => panic!("garbage must fail at the subsetting stage"),
    }
    let bad_woff2: Vec<u8> = vec![0x77, 0x4f, 0x46, 0x32, 9, 9, 9, 9];
    match process_font_bytes(&bad_woff2, true, &chars, &feats) {
        Err(TaskFailure::Decompress(_)) => {},
        _ => panic!("a corrupt container must fail at decompression"),
    }
}

#[test]
fn display_style_hides_the_default() {
    assert_eq!(display_style(&"Regular".to_string()), "");
    assert_eq!(display_style(&"Bold Italic".to_string()), "Bold Italic");
}

#[test]
fn string_order_is_by_code_point() {
    assert!(str_lt_exec("A", "B"));
    assert!(str_lt_exec("A", "AB"));
    assert!(!str_lt_exec("AB", "A"));
    assert!(!str_lt_exec("A", "A"));
    assert!(str_lt_exec("Z", "a"));
}

#[test]
fn strmap_replaces_and_sorts() {
    let mut m = StrMap::new();
    m.insert("k".to_string(), "v1".to_string());
    m.insert("k".to_string(), "v2".to_string());
    assert_eq!(m.len(), 1);
    assert_eq!(m.get("k"), Some(&"v2".to_string()));
    assert_eq!(m.get("missing"), None);
}

#[test]
fn scan_allow_list_is_exact() {
    assert!(is_scanned_name("hello.tsx"));
    assert!(is_scanned_name("page.astro"));
    assert!(is_scanned_name("doc.md"));
    assert!(is_scanned_name("data.json"));
    assert!(is_scanned_name("view.svelte"));
    assert!(!is_scanned_name("hello.TSX"), "the walk compares extensions exactly");
    assert!(!is_scanned_name("style.css"));
    assert!(!is_scanned_name("noext"));
}

#[test]
fn scenario_single_font_first_run() {
    // A project whose only text is "Hi!" and whose font directory holds
    // one TTF: the character set is the baseline, the font is processed
    // on the first run, and the manifest maps its alias to the WOFF2.
    let files: Vec<Vec<u8>> = vec![b"Hi!".to_vec()];
    let chars = canonical_chars(&files);
    let text = canonical_string(&chars);
    let text_hash = charset_digest(&text);
    assert_eq!(text, PRINTABLE_ASCII);

    let cache = CacheRecord::empty();
    let base = "Inter-Regular".to_string();
    let input_hash = content_hash(Some(&vec![0u8, 1, 0, 0]));
    assert_eq!(
        decide_group(&cache, &text_hash, &base, &input_hash, false),
        GroupDecision::Process
    );

    let out = output_name(&base);
    assert_eq!(out, "Inter-Regular.woff2");
    let mut manifest = StrMap::new();
    manifest.insert(alias_of(&base), out);
    assert_eq!(
        manifest_json(&manifest),
        "{\n  \"inter-regular\": \"Inter-Regular.woff2\"\n}"
    );

    // The second run with the entry recorded and the output present
    // schedules nothing.
    let mut next = CacheRecord::empty();
    next.text_hash = text_hash.clone();
    next.fonts.insert(base.clone(), input_hash.clone());
    assert_eq!(
        decide_group(&next, &text_hash, &base, &input_hash, true),
        GroupDecision::UpToDate
    );
}
