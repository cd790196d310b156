//! The manifest: alias construction and the deterministic JSON form of
//! the manifest and the cache.

use vstd::prelude::*;
use crate::cache::CacheRecord;
use crate::strmap::StrMap;
use crate::text::{lower_of, lowercase, strip_spaces, strip_spaces_exec};
use crate::charset::chars_to_string;

verus! {

/// The manifest alias of a base name: lower-cased, spaces removed.
pub open spec fn alias_spec(base: Seq<char>) -> Seq<char> {
    strip_spaces(lower_of(base))
}

pub fn alias_of(base: &String) -> (r: String)
    ensures
        r@ == alias_spec(base@),
{
    let low = lowercase(base.as_str());
    let stripped = strip_spaces_exec(low.as_str());
    chars_to_string(&stripped)
}

/// One hexadecimal digit.
pub open spec fn hex_digit(n: int) -> char {
    if n < 10 {
        ((0x30 + n) as u8) as char
    } else {
        ((0x57 + n) as u8) as char
    }
}

fn hex_digit_exec(n: u32) -> (d: char)
    requires
        n < 16,
    ensures
        d == hex_digit(n as int),
{
    if n < 10 {
        let b: u8 = 0x30 + (n as u8);
        b as char
    } else {
        let b: u8 = 0x57 + (n as u8);
        b as char
    }
}

/// How one character stands inside a JSON string literal: quotes and
/// backslashes are escaped, control characters take the unicode form.
pub open spec fn escape_char(c: char) -> Seq<char> {
    if c == '"' {
        seq!['\\', '"']
    } else if c == '\\' {
        seq!['\\', '\\']
    } else if (c as u32) < 0x20 {
        seq!['\\', 'u', '0', '0', hex_digit(c as u32 as int / 16), hex_digit(c as u32 as int % 16)]
    } else {
        seq![c]
    }
}

pub open spec fn escape_prefix(s: Seq<char>, n: int) -> Seq<char>
    decreases n,
{
    if n <= 0 {
        Seq::empty()
    } else {
        escape_prefix(s, n - 1) + escape_char(s[n - 1])
    }
}

/// A string escaped for a JSON string literal.
pub open spec fn json_escape(s: Seq<char>) -> Seq<char> {
    escape_prefix(s, s.len() as int)
}

/// Appends the escaped form of a string.
fn push_escaped(out: &mut Vec<char>, s: &str)
    ensures
        final(out)@ == old(out)@ + json_escape(s@),
{
    let l = s.unicode_len();
    let mut i: usize = 0;
    proof {
        assert(out@ =~= old(out)@ + escape_prefix(s@, 0));
    }
    while i < l
        invariant
            i <= l,
            l == s@.len(),
            out@ == old(out)@ + escape_prefix(s@, i as int),
        decreases l - i,
    {
        let c = s.get_char(i);
        if c == '"' {
            out.push('\\');
            out.push('"');
        } else if c == '\\' {
            out.push('\\');
            out.push('\\');
        } else if (c as u32) < 0x20 {
            out.push('\\');
            out.push('u');
            out.push('0');
            out.push('0');
            out.push(hex_digit_exec((c as u32) / 16));
            out.push(hex_digit_exec((c as u32) % 16));
        } else {
            out.push(c);
        }
        proof {
            assert(out@ =~= old(out)@ + escape_prefix(s@, i + 1));
        }
        i = i + 1;
    }
}

/// One indented `"key": "value"` line.
pub open spec fn json_pair(k: Seq<char>, v: Seq<char>) -> Seq<char> {
    seq![' ', ' ', '"'] + json_escape(k) + seq!['"', ':', ' ', '"'] + json_escape(v) + seq!['"']
}

fn push_pair(out: &mut Vec<char>, k: &str, v: &str)
    ensures
        final(out)@ == old(out)@ + json_pair(k@, v@),
{
    out.push(' ');
    out.push(' ');
    out.push('"');
    push_escaped(out, k);
    out.push('"');
    out.push(':');
    out.push(' ');
    out.push('"');
    push_escaped(out, v);
    out.push('"');
    proof {
        assert(out@ =~= old(out)@ + json_pair(k@, v@));
    }
}

/// The first n entries as an object body, comma-separated lines.
pub open spec fn body_prefix(entries: Seq<(Seq<char>, Seq<char>)>, n: int) -> Seq<char>
    decreases n,
{
    if n <= 0 {
        Seq::empty()
    } else {
        body_prefix(entries, n - 1) + (if n == 1 {
            Seq::<char>::empty()
        } else {
            seq![',', '\n']
        }) + json_pair(entries[n - 1].0, entries[n - 1].1)
    }
}

/// A whole object, keys in the entry order: since entries are sorted,
/// the rendering is a function of the mapping alone.
pub open spec fn json_object(entries: Seq<(Seq<char>, Seq<char>)>) -> Seq<char> {
    if entries.len() == 0 {
        seq!['{', '}']
    } else {
        seq!['{', '\n'] + body_prefix(entries, entries.len() as int) + seq!['\n', '}']
    }
}

fn push_object(out: &mut Vec<char>, m: &StrMap)
    ensures
        final(out)@ == old(out)@ + json_object(m.entries()),
{
    let n = m.len();
    if n == 0 {
        out.push('{');
        out.push('}');
        proof {
            assert(out@ =~= old(out)@ + json_object(m.entries()));
        }
        return;
    }
    out.push('{');
    out.push('\n');
    let ghost head = old(out)@ + seq!['{', '\n'];
    proof {
        assert(out@ =~= head + body_prefix(m.entries(), 0));
    }
    let mut i: usize = 0;
    while i < n
        invariant
            i <= n,
            n == m.entries().len(),
            out@ == head + body_prefix(m.entries(), i as int),
        decreases n - i,
    {
        if i > 0 {
            out.push(',');
            out.push('\n');
        }
        let (k, v) = m.entry_at(i);
        let ks = k.clone();
        let vs = v.clone();
        push_pair(out, ks.as_str(), vs.as_str());
        proof {
            assert(out@ =~= head + body_prefix(m.entries(), i + 1));
        }
        i = i + 1;
    }
    out.push('\n');
    out.push('}');
    proof {
        assert(out@ =~= old(out)@ + json_object(m.entries()));
    }
}

/// The manifest file: the alias mapping as a JSON object, keys sorted,
/// fully regenerated each run.
pub fn manifest_json(m: &StrMap) -> (r: String)
    ensures
        r@ == json_object(m.entries()),
{
    let mut out: Vec<char> = Vec::new();
    push_object(&mut out, m);
    proof {
        assert(out@ =~= json_object(m.entries()));
    }
    chars_to_string(&out)
}

/// The cache file: the character-set digest, the version tag, and the
/// per-font digests, rendered deterministically.
pub open spec fn cache_json_spec(
    th: Seq<char>,
    ver: Seq<char>,
    fonts: Seq<(Seq<char>, Seq<char>)>,
) -> Seq<char> {
    seq!['{', '\n'] + json_pair("text_hash"@, th) + seq![',', '\n'] + json_pair("version"@, ver)
        + seq![',', '\n', ' ', ' ', '"'] + json_escape("fonts"@) + seq!['"', ':', ' ']
        + json_object(fonts) + seq!['\n', '}']
}

pub fn cache_json(c: &CacheRecord) -> (r: String)
    ensures
        r@ == cache_json_spec(c.text_hash@, c.version@, c.fonts.entries()),
{
    let mut out: Vec<char> = Vec::new();
    out.push('{');
    out.push('\n');
    push_pair(&mut out, "text_hash", c.text_hash.as_str());
    out.push(',');
    out.push('\n');
    push_pair(&mut out, "version", c.version.as_str());
    out.push(',');
    out.push('\n');
    out.push(' ');
    out.push(' ');
    out.push('"');
    push_escaped(&mut out, "fonts");
    out.push('"');
    out.push(':');
    out.push(' ');
    push_object(&mut out, &c.fonts);
    out.push('\n');
    out.push('}');
    proof {
        assert(out@ =~= cache_json_spec(c.text_hash@, c.version@, c.fonts.entries()));
    }
    chars_to_string(&out)
}

} // verus!
