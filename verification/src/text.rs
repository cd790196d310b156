//! Characters, code-point ordering, and file-name handling.

use vstd::prelude::*;

verus! {

/// Strict order on characters by Unicode scalar value.
pub open spec fn char_lt(a: char, b: char) -> bool {
    (a as u32) < (b as u32)
}

/// Strict lexicographic order on character sequences by scalar value.
pub open spec fn str_lt(a: Seq<char>, b: Seq<char>) -> bool
    decreases a.len(),
{
    if b.len() == 0 {
        false
    } else if a.len() == 0 {
        true
    } else if char_lt(a[0], b[0]) {
        true
    } else if a[0] == b[0] {
        str_lt(a.skip(1), b.skip(1))
    } else {
        false
    }
}

pub proof fn lemma_str_lt_irreflexive(a: Seq<char>)
    ensures
        !str_lt(a, a),
    decreases a.len(),
{
    if a.len() > 0 {
        lemma_str_lt_irreflexive(a.skip(1));
    }
}

pub proof fn lemma_char_scalar_eq(a: char, b: char)
    requires
        a as u32 == b as u32,
    ensures
        a == b,
{
}

pub proof fn lemma_str_lt_total(a: Seq<char>, b: Seq<char>)
    ensures
        str_lt(a, b) || str_lt(b, a) || a == b,
    decreases a.len(),
{
    if a.len() == 0 && b.len() == 0 {
        assert(a =~= b);
    } else if a.len() > 0 && b.len() > 0 {
        if !char_lt(a[0], b[0]) && !char_lt(b[0], a[0]) {
            lemma_char_scalar_eq(a[0], b[0]);
        }
        if a[0] == b[0] {
            lemma_str_lt_total(a.skip(1), b.skip(1));
            if !str_lt(a, b) && !str_lt(b, a) {
                assert(a.skip(1) == b.skip(1));
                assert(a =~= seq![a[0]] + a.skip(1));
                assert(b =~= seq![b[0]] + b.skip(1));
            }
        }
    }
}

pub proof fn lemma_str_lt_asymmetric(a: Seq<char>, b: Seq<char>)
    ensures
        !(str_lt(a, b) && str_lt(b, a)),
    decreases a.len(),
{
    if a.len() > 0 && b.len() > 0 && a[0] == b[0] {
        lemma_str_lt_asymmetric(a.skip(1), b.skip(1));
    }
}

pub proof fn lemma_str_lt_transitive(a: Seq<char>, b: Seq<char>, c: Seq<char>)
    requires
        str_lt(a, b),
        str_lt(b, c),
    ensures
        str_lt(a, c),
    decreases a.len(),
{
    if a.len() > 0 && b.len() > 0 && c.len() > 0 {
        if a[0] == b[0] && b[0] == c[0] {
            lemma_str_lt_transitive(a.skip(1), b.skip(1), c.skip(1));
        }
    }
}

/// Compares two strings lexicographically by Unicode scalar value.
pub fn str_lt_exec(a: &str, b: &str) -> (r: bool)
    ensures
        r == str_lt(a@, b@),
{
    let la = a.unicode_len();
    let lb = b.unicode_len();
    let mut i: usize = 0;
    proof {
        assert(a@.skip(0) =~= a@);
        assert(b@.skip(0) =~= b@);
    }
    loop
        invariant
            i <= la,
            i <= lb,
            la == a@.len(),
            lb == b@.len(),
            str_lt(a@, b@) == str_lt(a@.skip(i as int), b@.skip(i as int)),
        decreases la - i,
    {
        if i == lb {
            return false;
        }
        if i == la {
            return true;
        }
        let ca = a.get_char(i);
        let cb = b.get_char(i);
        if (ca as u32) < (cb as u32) {
            return true;
        }
        if (cb as u32) < (ca as u32) {
            return false;
        }
        proof {
            assert(a@.skip(i as int)[0] == ca);
            assert(b@.skip(i as int)[0] == cb);
            assert(a@.skip(i as int).skip(1) =~= a@.skip(i + 1));
            assert(b@.skip(i as int).skip(1) =~= b@.skip(i + 1));
        }
        i = i + 1;
    }
}

/// True when the two strings hold the same characters.
pub fn str_eq_exec(a: &str, b: &str) -> (r: bool)
    ensures
        r == (a@ == b@),
{
    let la = a.unicode_len();
    let lb = b.unicode_len();
    if la != lb {
        proof {
            assert(a@.len() != b@.len());
        }
        return false;
    }
    let mut i: usize = 0;
    loop
        invariant
            i <= la,
            la == a@.len(),
            la == b@.len(),
            forall|j: int| 0 <= j < i ==> a@[j] == b@[j],
        decreases la - i,
    {
        if i == la {
            proof {
                assert(a@ =~= b@);
            }
            return true;
        }
        let ca = a.get_char(i);
        let cb = b.get_char(i);
        if ca != cb {
            return false;
        }
        i = i + 1;
    }
}

/// A hidden file name: one that starts with a dot.
pub open spec fn is_hidden_name(s: Seq<char>) -> bool {
    s.len() > 0 && s[0] == '.'
}

pub fn is_hidden_exec(name: &str) -> (r: bool)
    ensures
        r == is_hidden_name(name@),
{
    let l = name.unicode_len();
    if l == 0 {
        false
    } else {
        name.get_char(0) == '.'
    }
}

/// The position of the last dot of a file name, provided it does not lead,
/// matching how a path's stem and extension split.
pub open spec fn last_dot(s: Seq<char>) -> Option<int> {
    if exists|i: int| 1 <= i < s.len() && s[i] == '.' {
        Some(choose|i: int| 1 <= i < s.len() && s[i] == '.' && (forall|j: int|
            i < j < s.len() ==> s[j] != '.'))
    } else {
        None
    }
}

/// The stem of a file name: everything before the last non-leading dot.
pub open spec fn stem_of(s: Seq<char>) -> Seq<char> {
    match last_dot(s) {
        Some(i) => s.take(i),
        None => s,
    }
}

/// The extension of a file name: everything after the last non-leading dot.
pub open spec fn ext_of(s: Seq<char>) -> Option<Seq<char>> {
    match last_dot(s) {
        Some(i) => Some(s.skip(i + 1)),
        None => None,
    }
}

proof fn lemma_last_dot_is(s: Seq<char>, i: int)
    requires
        1 <= i < s.len(),
        s[i] == '.',
        forall|j: int| i < j < s.len() ==> s[j] != '.',
    ensures
        last_dot(s) == Some(i),
{
    let k = choose|k: int| 1 <= k < s.len() && s[k] == '.' && (forall|j: int|
        k < j < s.len() ==> s[j] != '.');
    assert(1 <= i < s.len() && s[i] == '.' && (forall|j: int| i < j < s.len() ==> s[j] != '.'));
    if k < i {
        assert(s[i] == '.');
        assert(false);
    } else if i < k {
        assert(s[k] == '.');
        assert(false);
    }
}

proof fn lemma_no_dot(s: Seq<char>)
    requires
        forall|i: int| 1 <= i < s.len() ==> s[i] != '.',
    ensures
        last_dot(s) is None,
{
}

/// Splits a file name into its stem and its extension.
pub fn split_name(name: &str) -> (r: (String, Option<String>))
    ensures
        r.0@ == stem_of(name@),
        match r.1 {
            Some(e) => ext_of(name@) == Some(e@),
            None => ext_of(name@) is None,
        },
{
    let l = name.unicode_len();
    let mut i: usize = l;
    loop
        invariant
            i <= l,
            l == name@.len(),
            forall|j: int| i <= j < l ==> name@[j] != '.',
        decreases i,
    {
        if i <= 1 {
            proof {
                lemma_no_dot(name@);
            }
            return (name.to_owned(), None);
        }
        i = i - 1;
        let c = name.get_char(i);
        if c == '.' {
            proof {
                lemma_last_dot_is(name@, i as int);
            }
            let stem = name.substring_char(0, i);
            let ext = name.substring_char(i + 1, l);
            proof {
                assert(stem@ =~= stem_of(name@));
                assert(ext@ =~= ext_of(name@).unwrap());
            }
            return (stem.to_owned(), Some(ext.to_owned()));
        }
    }
}

/// What lower-casing, as the standard library performs it, turns a string
/// into; the result depends on the characters alone.
pub uninterp spec fn lower_of(s: Seq<char>) -> Seq<char>;

/// Relies on str::to_lowercase: the result depends on the input characters
/// alone, by the Unicode case-mapping tables.
#[verifier::external_body]
pub(crate) fn lowercase(s: &str) -> (r: String)
    ensures
        r@ == lower_of(s@),
{
    s.to_lowercase()
}

/// Removes every space character, keeping the rest in order.
pub open spec fn strip_spaces(s: Seq<char>) -> Seq<char> {
    s.filter(|c: char| c != ' ')
}

/// Removes every space character from a string.
pub fn strip_spaces_exec(s: &str) -> (r: Vec<char>)
    ensures
        r@ == strip_spaces(s@),
{
    let l = s.unicode_len();
    let mut out: Vec<char> = Vec::new();
    let mut i: usize = 0;
    proof {
        assert(s@.take(0).filter(|c: char| c != ' ') =~= Seq::<char>::empty());
    }
    while i < l
        invariant
            i <= l,
            l == s@.len(),
            out@ == s@.take(i as int).filter(|c: char| c != ' '),
        decreases l - i,
    {
        let c = s.get_char(i);
        proof {
            reveal_with_fuel(Seq::filter, 2);
            assert(s@.take(i + 1).drop_last() =~= s@.take(i as int));
            assert(s@.take(i + 1).last() == s@[i as int]);
        }
        if c != ' ' {
            out.push(c);
        }
        i = i + 1;
    }
    proof {
        assert(s@.take(l as int) =~= s@);
    }
    out
}

} // verus!
