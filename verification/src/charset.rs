//! Character-set extraction: what each scanned file contributes, the
//! always-present ASCII baseline, and the canonical sorted sequence whose
//! digest identifies a run's character set.

use vstd::prelude::*;
use vstd::utf8::{valid_utf8, decode_utf8, encode_utf8};
use crate::text::{char_lt, lemma_char_scalar_eq, ext_of, str_eq_exec, split_name};
use crate::digest::{digest_of, md5_hex};

verus! {

/// The extension allow-list of the tree walk: text-bearing source and
/// content files, compared exactly.
pub open spec fn scanned_ext(e: Seq<char>) -> bool {
    ||| e == "astro"@
    ||| e == "md"@
    ||| e == "mdx"@
    ||| e == "ts"@
    ||| e == "tsx"@
    ||| e == "js"@
    ||| e == "jsx"@
    ||| e == "json"@
    ||| e == "html"@
    ||| e == "vue"@
    ||| e == "svelte"@
}

/// Whether a file name is visited by the character scan.
pub open spec fn scanned_name(name: Seq<char>) -> bool {
    match ext_of(name) {
        Some(e) => scanned_ext(e),
        None => false,
    }
}

pub fn is_scanned_name(name: &str) -> (r: bool)
    ensures
        r == scanned_name(name@),
{
    let split = split_name(name);
    match &split.1 {
        None => false,
        Some(e) => {
            let s = e.as_str();
            str_eq_exec(s, "astro") || str_eq_exec(s, "md") || str_eq_exec(s, "mdx")
                || str_eq_exec(s, "ts") || str_eq_exec(s, "tsx") || str_eq_exec(s, "js")
                || str_eq_exec(s, "jsx") || str_eq_exec(s, "json") || str_eq_exec(s, "html")
                || str_eq_exec(s, "vue") || str_eq_exec(s, "svelte")
        },
    }
}

/// The baseline kept in every character set: printable ASCII.
pub open spec fn baseline_char(c: char) -> bool {
    0x20 <= c as u32 <= 0x7e
}

/// Strictly ascending by scalar value, hence duplicate-free.
pub open spec fn sorted_unique(s: Seq<char>) -> bool {
    forall|i: int, j: int| 0 <= i < j < s.len() ==> char_lt(s[i], s[j])
}

/// A leading byte-order mark is dropped from decoded text.
pub open spec fn strip_bom(s: Seq<char>) -> Seq<char> {
    if s.len() > 0 && s[0] == '\u{feff}' {
        s.skip(1)
    } else {
        s
    }
}

/// Bytes that are not valid UTF-8 contribute one character per byte,
/// lossy but deterministic, so no file can fail the extraction.
pub open spec fn latin1_chars(b: Seq<u8>) -> Seq<char> {
    Seq::new(b.len(), |i: int| b[i] as char)
}

/// What one scanned file contributes to the character set.
pub open spec fn file_chars_spec(b: Seq<u8>) -> Seq<char> {
    if valid_utf8(b) {
        strip_bom(decode_utf8(b))
    } else {
        latin1_chars(b)
    }
}

/// Relies on String::from_utf8: it succeeds exactly on valid UTF-8 and
/// yields the decoded characters.
#[verifier::external_body]
fn utf8_string(bytes: &Vec<u8>) -> (r: Option<String>)
    ensures
        (r is Some) == valid_utf8(bytes@),
        r matches Some(s) ==> s@ == decode_utf8(bytes@),
{
    String::from_utf8(bytes.clone()).ok()
}

/// Decodes one file's bytes into the characters it contributes.
pub fn file_chars(bytes: &Vec<u8>) -> (r: Vec<char>)
    ensures
        r@ == file_chars_spec(bytes@),
{
    match utf8_string(bytes) {
        Some(s) => {
            let n = s.as_str().unicode_len();
            let start: usize = if n > 0 && s.as_str().get_char(0) == '\u{feff}' {
                1
            } else {
                0
            };
            let mut v: Vec<char> = Vec::new();
            let mut i: usize = start;
            while i < n
                invariant
                    start <= i <= n,
                    n == s@.len(),
                    v@ == s@.subrange(start as int, i as int),
                decreases n - i,
            {
                let c = s.as_str().get_char(i);
                v.push(c);
                proof {
                    assert(v@ =~= s@.subrange(start as int, i + 1));
                }
                i = i + 1;
            }
            proof {
                if start == 1 {
                    assert(v@ =~= s@.skip(1));
                } else {
                    assert(v@ =~= s@);
                }
            }
            v
        },
        None => {
            let n = bytes.len();
            let mut v: Vec<char> = Vec::new();
            let mut i: usize = 0;
            while i < n
                invariant
                    i <= n,
                    n == bytes@.len(),
                    v@.len() == i,
                    forall|j: int| 0 <= j < i ==> v@[j] == bytes@[j] as char,
                decreases n - i,
            {
                let b = bytes[i];
                v.push(b as char);
                i = i + 1;
            }
            proof {
                assert(v@ =~= latin1_chars(bytes@));
            }
            v
        },
    }
}

/// Adds one character to a sorted set, keeping it sorted and
/// duplicate-free.
pub fn add_char(set: &mut Vec<char>, c: char)
    requires
        sorted_unique(old(set)@),
    ensures
        sorted_unique(final(set)@),
        forall|x: char| #![trigger final(set)@.contains(x)]
            final(set)@.contains(x) <==> (old(set)@.contains(x) || x == c),
{
    let n = set.len();
    let mut i: usize = 0;
    loop
        invariant
            i <= n,
            n == set@.len(),
            set == old(set),
            forall|j: int| 0 <= j < i ==> char_lt(#[trigger] set@[j], c),
        ensures
            i <= n,
            set == old(set),
            forall|j: int| 0 <= j < i ==> char_lt(#[trigger] set@[j], c),
            i < n ==> !char_lt(set@[i as int], c),
        decreases n - i,
    {
        if i == n {
            break;
        }
        if !((set[i] as u32) < (c as u32)) {
            break;
        }
        i = i + 1;
    }
    if i < n && set[i] == c {
        proof {
            assert(old(set)@.contains(c));
        }
        return;
    }
    let ghost olds = set@;
    proof {
        if i < n {
            assert((c as u32) < (olds[i as int] as u32)) by {
                if olds[i as int] as u32 == c as u32 {
                    lemma_char_scalar_eq(olds[i as int], c);
                }
            }
        }
    }
    set.insert(i, c);
    proof {
        assert forall|p: int, q: int| 0 <= p < q < set@.len() implies char_lt(
            set@[p],
            set@[q],
        ) by {
            if p < i && q > i {
                assert(set@[p] == olds[p] && set@[q] == olds[q - 1]);
                if q - 1 == i {
                } else {
                    assert(char_lt(olds[p], olds[q - 1]));
                }
            } else if p == i {
                assert(set@[q] == olds[q - 1]);
                if q - 1 > i {
                    assert(char_lt(olds[i as int], olds[q - 1]));
                }
            } else if q == i {
                assert(set@[p] == olds[p]);
            } else if q < i {
                assert(set@[p] == olds[p] && set@[q] == olds[q]);
                assert(char_lt(olds[p], olds[q]));
            } else {
                assert(set@[p] == olds[p - 1] && set@[q] == olds[q - 1]);
                assert(char_lt(olds[p - 1], olds[q - 1]));
            }
        }
        assert forall|x: char| #![trigger set@.contains(x)]
            set@.contains(x) <==> (olds.contains(x) || x == c) by {
            assert(set@[i as int] == c);
            if set@.contains(x) {
                let k = choose|k: int| 0 <= k < set@.len() && set@[k] == x;
                if k < i {
                    assert(olds[k] == x);
                } else if k > i {
                    assert(olds[k - 1] == x);
                }
            }
            if olds.contains(x) {
                let k = choose|k: int| 0 <= k < olds.len() && olds[k] == x;
                if k < i {
                    assert(set@[k] == x);
                } else {
                    assert(set@[k + 1] == x);
                }
            }
        }
    }
}

/// Adds every character of a sequence to a sorted set.
pub fn add_chars(set: &mut Vec<char>, items: &Vec<char>)
    requires
        sorted_unique(old(set)@),
    ensures
        sorted_unique(final(set)@),
        forall|x: char| #![trigger final(set)@.contains(x)]
            final(set)@.contains(x) <==> (old(set)@.contains(x) || items@.contains(x)),
{
    let n = items.len();
    let mut i: usize = 0;
    while i < n
        invariant
            i <= n,
            n == items@.len(),
            sorted_unique(set@),
            forall|x: char| #![trigger set@.contains(x)]
                set@.contains(x) <==> (old(set)@.contains(x) || exists|j: int|
                    0 <= j < i && items@[j] == x),
        decreases n - i,
    {
        let c = items[i];
        let ghost bset = set@;
        add_char(set, c);
        proof {
            assert forall|x: char| #![trigger set@.contains(x)]
                set@.contains(x) <==> (old(set)@.contains(x) || exists|j: int|
                    0 <= j < i + 1 && items@[j] == x) by {
                assert(set@.contains(x) <==> (bset.contains(x) || x == c));
                if x == c {
                    assert(items@[i as int] == x);
                }
                if exists|j: int| 0 <= j < i + 1 && items@[j] == x {
                    let j = choose|j: int| 0 <= j < i + 1 && items@[j] == x;
                    if j < i {
                        assert(exists|jj: int| 0 <= jj < i && items@[jj] == x) by {
                            assert(0 <= j < i && items@[j] == x);
                        }
                    }
                }
            }
        }
        i = i + 1;
    }
    proof {
        assert forall|x: char| #![trigger final(set)@.contains(x)]
            set@.contains(x) <==> (old(set)@.contains(x) || items@.contains(x)) by {
            assert(set@.contains(x) <==> (old(set)@.contains(x) || exists|j: int|
                0 <= j < n && items@[j] == x));
        }
    }
}

/// The printable-ASCII baseline as a sorted set.
pub fn baseline_chars() -> (r: Vec<char>)
    ensures
        sorted_unique(r@),
        forall|c: char| r@.contains(c) <==> baseline_char(c),
{
    let mut v: Vec<char> = Vec::new();
    let mut b: u8 = 0x20;
    while b <= 0x7e
        invariant
            0x20 <= b <= 0x7f,
            v@.len() == b - 0x20,
            forall|j: int| 0 <= j < v@.len() ==> #[trigger] v@[j] as u32 == 0x20 + j,
        decreases 0x7f - b,
    {
        v.push(b as char);
        b = b + 1;
    }
    proof {
        assert forall|c: char| v@.contains(c) <==> baseline_char(c) by {
            if v@.contains(c) {
                let k = choose|k: int| 0 <= k < v@.len() && v@[k] == c;
                assert(v@[k] as u32 == 0x20 + k);
            }
            if baseline_char(c) {
                let k = c as u32 - 0x20;
                assert(v@[k as int] as u32 == 0x20 + k);
                lemma_char_scalar_eq(v@[k as int], c);
                assert(v@[k as int] == c);
            }
        }
    }
    v
}

/// The characters a run subsets for: the baseline plus every character of
/// every scanned file.
pub open spec fn charset_spec(files: Seq<Seq<u8>>) -> Set<char> {
    Set::new(
        |c: char|
            baseline_char(c) || exists|i: int|
                0 <= i < files.len() && #[trigger] file_chars_spec(files[i]).contains(c),
    )
}

pub open spec fn views_of(files: Seq<Vec<u8>>) -> Seq<Seq<u8>> {
    files.map_values(|f: Vec<u8>| f@)
}

/// Accumulates the character set of a run as a sorted sequence: the
/// canonical form, independent of the order the files arrive in.
pub fn canonical_chars(files: &Vec<Vec<u8>>) -> (r: Vec<char>)
    ensures
        sorted_unique(r@),
        forall|c: char| r@.contains(c) <==> charset_spec(views_of(files@)).contains(c),
{
    let mut set = baseline_chars();
    let n = files.len();
    let mut i: usize = 0;
    while i < n
        invariant
            i <= n,
            n == files@.len(),
            sorted_unique(set@),
            forall|c: char| #![trigger set@.contains(c)]
                set@.contains(c) <==> (baseline_char(c) || exists|j: int|
                    0 <= j < i && #[trigger] file_chars_spec(files@[j]@).contains(c)),
        decreases n - i,
    {
        let fc = file_chars(&files[i]);
        let ghost before = set@;
        add_chars(&mut set, &fc);
        proof {
            assert forall|c: char| #![trigger set@.contains(c)]
                set@.contains(c) <==> (baseline_char(c) || exists|j: int|
                    0 <= j < i + 1 && #[trigger] file_chars_spec(files@[j]@).contains(c)) by {
                assert(set@.contains(c) <==> (before.contains(c) || fc@.contains(c)));
                assert(before.contains(c) <==> (baseline_char(c) || exists|j: int|
                    0 <= j < i && #[trigger] file_chars_spec(files@[j]@).contains(c)));
                if fc@.contains(c) {
                    assert(file_chars_spec(files@[i as int]@).contains(c));
                }
                if exists|j: int| 0 <= j < i + 1 && #[trigger] file_chars_spec(
                    files@[j]@,
                ).contains(c) {
                    let j = choose|j: int| 0 <= j < i + 1 && #[trigger] file_chars_spec(
                        files@[j]@,
                    ).contains(c);
                    if j == i {
                        assert(fc@.contains(c));
                    } else {
                        assert(exists|jj: int| 0 <= jj < i && #[trigger] file_chars_spec(
                            files@[jj]@,
                        ).contains(c)) by {
                            assert(0 <= j < i && file_chars_spec(files@[j]@).contains(c));
                        }
                    }
                }
            }
        }
        i = i + 1;
    }
    proof {
        assert(views_of(files@).len() == files@.len());
        assert(forall|j: int| 0 <= j < files@.len() ==> views_of(files@)[j] == files@[j]@);
        assert forall|c: char| set@.contains(c) <==> charset_spec(views_of(files@)).contains(
            c,
        ) by {
            if set@.contains(c) && !baseline_char(c) {
                let j = choose|j: int| 0 <= j < files@.len() && #[trigger] file_chars_spec(
                    files@[j]@,
                ).contains(c);
                assert(file_chars_spec(views_of(files@)[j]).contains(c));
            }
            if charset_spec(views_of(files@)).contains(c) && !baseline_char(c) {
                let j = choose|j: int| 0 <= j < views_of(files@).len() && #[trigger] file_chars_spec(
                    views_of(files@)[j],
                ).contains(c);
                assert(file_chars_spec(files@[j]@).contains(c));
            }
        }
    }
    set
}

/// Relies on String as FromIterator<char>: collecting characters yields
/// the string of exactly those characters, in order.
#[verifier::external_body]
pub(crate) fn chars_to_string(v: &Vec<char>) -> (r: String)
    ensures
        r@ == v@,
{
    v.iter().collect()
}

/// The canonical character sequence as the string it is hashed as.
pub fn canonical_string(chars: &Vec<char>) -> (r: String)
    ensures
        r@ == chars@,
{
    chars_to_string(chars)
}

/// The digest of the canonical character sequence: the digest of its
/// UTF-8 byte encoding.
pub fn charset_digest(text: &String) -> (r: String)
    ensures
        r@ == digest_of(encode_utf8(text@)),
        r@.len() == 32,
{
    md5_hex(text.as_str().as_bytes())
}

/// Two sorted duplicate-free sequences holding the same characters are
/// the same sequence: the canonical form of a character set is unique.
pub proof fn lemma_canonical_unique(a: Seq<char>, b: Seq<char>)
    requires
        sorted_unique(a),
        sorted_unique(b),
        forall|c: char| a.contains(c) <==> b.contains(c),
    ensures
        a == b,
    decreases a.len(),
{
    if a.len() == 0 {
        if b.len() > 0 {
            assert(b.contains(b[0]));
        }
        assert(a =~= b);
    } else if b.len() == 0 {
        assert(a.contains(a[0]));
    } else {
        assert(a.contains(a[0]));
        assert(b.contains(b[0]));
        let ia = choose|k: int| 0 <= k < b.len() && b[k] == a[0];
        let ib = choose|k: int| 0 <= k < a.len() && a[k] == b[0];
        assert(a[0] == b[0]) by {
            if ia > 0 {
                assert(char_lt(b[0], b[ia]));
            }
            if ib > 0 {
                assert(char_lt(a[0], a[ib]));
            }
            lemma_char_scalar_eq(a[0], b[0]);
        }
        assert forall|c: char| a.skip(1).contains(c) <==> b.skip(1).contains(c) by {
            lemma_head_membership(a, c);
            lemma_head_membership(b, c);
            assert(a.contains(c) <==> b.contains(c));
        }
        lemma_canonical_unique(a.skip(1), b.skip(1));
        assert(a =~= seq![a[0]] + a.skip(1));
        assert(b =~= seq![b[0]] + b.skip(1));
    }
}

proof fn lemma_head_membership(a: Seq<char>, c: char)
    requires
        sorted_unique(a),
        a.len() > 0,
    ensures
        a.skip(1).contains(c) <==> (a.contains(c) && c != a[0]),
{
    if a.skip(1).contains(c) {
        let k = choose|k: int| 0 <= k < a.skip(1).len() && a.skip(1)[k] == c;
        assert(a[k + 1] == c);
        assert(char_lt(a[0], a[k + 1]));
    }
    if a.contains(c) && c != a[0] {
        let k = choose|k: int| 0 <= k < a.len() && a[k] == c;
        assert(k > 0);
        assert(a.skip(1)[k - 1] == c);
    }
}

/// Determinism of extraction: the character set depends only on which
/// file contents were scanned, not on the order the walk found them in
/// or how the work was split among workers.
pub proof fn lemma_charset_order_independent(files1: Seq<Seq<u8>>, files2: Seq<Seq<u8>>)
    requires
        forall|f: Seq<u8>| files1.contains(f) <==> files2.contains(f),
    ensures
        charset_spec(files1) == charset_spec(files2),
{
    assert forall|c: char|
        charset_spec(files1).contains(c) <==> charset_spec(files2).contains(c) by {
        if exists|i: int| 0 <= i < files1.len() && #[trigger] file_chars_spec(
            files1[i],
        ).contains(c) {
            let i = choose|i: int| 0 <= i < files1.len() && #[trigger] file_chars_spec(
                files1[i],
            ).contains(c);
            assert(files1.contains(files1[i]));
            let j = choose|j: int| 0 <= j < files2.len() && files2[j] == files1[i];
            assert(file_chars_spec(files2[j]).contains(c));
        }
        if exists|i: int| 0 <= i < files2.len() && #[trigger] file_chars_spec(
            files2[i],
        ).contains(c) {
            let i = choose|i: int| 0 <= i < files2.len() && #[trigger] file_chars_spec(
                files2[i],
            ).contains(c);
            assert(files2.contains(files2[i]));
            let j = choose|j: int| 0 <= j < files1.len() && files1[j] == files2[i];
            assert(file_chars_spec(files1[j]).contains(c));
        }
    }
    assert(charset_spec(files1) =~= charset_spec(files2));
}

} // verus!
