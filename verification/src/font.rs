//! Container formats, the priority ranking, and font metadata.

use vstd::prelude::*;
use crate::text::{lower_of, lowercase, str_eq_exec};

verus! {

/// The accepted container formats. WOFF version 1 is recognized by
/// extension but refused, and anything else is skipped.
#[derive(Clone, Copy, PartialEq, Eq, Structural, Debug)]
pub enum FontFormat {
    Ttf,
    Otf,
    Woff2,
}

/// The format an extension names, compared after lower-casing.
pub open spec fn format_of_ext(e: Seq<char>) -> Option<FontFormat> {
    if lower_of(e) == "ttf"@ {
        Some(FontFormat::Ttf)
    } else if lower_of(e) == "otf"@ {
        Some(FontFormat::Otf)
    } else if lower_of(e) == "woff2"@ {
        Some(FontFormat::Woff2)
    } else {
        None
    }
}

/// Classifies a file extension.
pub fn classify_ext(e: &str) -> (r: Option<FontFormat>)
    ensures
        r == format_of_ext(e@),
{
    let low = lowercase(e);
    if str_eq_exec(low.as_str(), "ttf") {
        Some(FontFormat::Ttf)
    } else if str_eq_exec(low.as_str(), "otf") {
        Some(FontFormat::Otf)
    } else if str_eq_exec(low.as_str(), "woff2") {
        Some(FontFormat::Woff2)
    } else {
        None
    }
}

/// The priority rank of a candidate: WOFF2 ranks best, OTF worst among
/// the static formats, and a fixed penalty moves every variable font
/// behind every static one, so a prebuilt static instance is preferred
/// as the subsetting source.
pub open spec fn rank_spec(f: FontFormat, variable: bool) -> int {
    (match f {
        FontFormat::Woff2 => 0int,
        FontFormat::Ttf => 2int,
        FontFormat::Otf => 3int,
    }) + if variable {
        10int
    } else {
        0int
    }
}

pub fn rank_of(f: FontFormat, variable: bool) -> (r: u32)
    ensures
        r as int == rank_spec(f, variable),
{
    let base: u32 = match f {
        FontFormat::Woff2 => 0,
        FontFormat::Ttf => 2,
        FontFormat::Otf => 3,
    };
    if variable {
        base + 10
    } else {
        base
    }
}

/// Only a static WOFF2 ranks zero; the rank order encodes the format
/// priority exactly.
pub proof fn lemma_rank_zero_is_static_woff2(f: FontFormat, variable: bool)
    ensures
        rank_spec(f, variable) == 0 <==> (f == FontFormat::Woff2 && !variable),
        rank_spec(FontFormat::Woff2, false) < rank_spec(FontFormat::Ttf, false),
        rank_spec(FontFormat::Ttf, false) < rank_spec(FontFormat::Otf, false),
        rank_spec(FontFormat::Otf, false) < rank_spec(FontFormat::Woff2, true),
{
}

/// The WOFF2 container magic.
pub open spec fn is_woff2_bytes(b: Seq<u8>) -> bool {
    b.len() >= 4 && b[0] == 0x77 && b[1] == 0x4f && b[2] == 0x46 && b[3] == 0x32
}

/// True when the bytes carry the WOFF2 magic.
pub fn woff2_magic(b: &Vec<u8>) -> (r: bool)
    ensures
        r == is_woff2_bytes(b@),
{
    b.len() >= 4 && b[0] == 0x77 && b[1] == 0x4f && b[2] == 0x46 && b[3] == 0x32
}

/// What decompression yields on given bytes; a function of the bytes
/// alone, with no outcome promised for corrupted input.
pub uninterp spec fn decompressed_of(data: Seq<u8>) -> Option<Seq<u8>>;

/// Relies on fontcull::decompress_font: turns a WOFF2 container into raw
/// font data, passes raw data through, and fails on anything it cannot
/// decompress; deterministic in its input bytes.
#[verifier::external_body]
pub(crate) fn decompress_call(data: &Vec<u8>) -> (r: Result<Vec<u8>, String>)
    ensures
        r matches Ok(o) ==> decompressed_of(data@) == Some(o@),
        r is Err ==> decompressed_of(data@) is None,
{
    fontcull::decompress_font(data.as_slice()).map_err(|e| format!("{e}"))
}

/// A name-table record: its numeric identifier with its decoded value,
/// where decoding may fail per record.
pub open spec fn names_view(ns: Seq<(u16, Option<String>)>) -> Seq<(u16, Option<Seq<char>>)> {
    ns.map_values(
        |p: (u16, Option<String>)|
            (
                p.0,
                match p.1 {
                    Some(s) => Some(s@),
                    None => None,
                },
            ),
    )
}

/// What face parsing yields on given bytes: the name records in table
/// order and the variable-font flag; a function of the bytes alone.
pub uninterp spec fn parsed_face_of(data: Seq<u8>) -> Option<(Seq<(u16, Option<Seq<char>>)>, bool)>;

/// Relies on ttf_parser::Face::parse, Face::names with Name::to_string,
/// and Face::is_variable: deterministic reads of the font's tables.
#[verifier::external_body]
fn parse_face(data: &Vec<u8>) -> (r: Option<(Vec<(u16, Option<String>)>, bool)>)
    ensures
        match r {
            Some(p) => parsed_face_of(data@) == Some((names_view(p.0@), p.1)),
            None => parsed_face_of(data@) is None,
        },
{
    let face = match ttf_parser::Face::parse(data.as_slice(), 0) {
        Ok(f) => f,
        Err(_) => return None,
    };
    let mut names: Vec<(u16, Option<String>)> = Vec::new();
    for n in face.names() {
        names.push((n.name_id, n.to_string()));
    }
    Some((names, face.is_variable()))
}

/// The name identifiers consulted, in the order of preference the
/// OpenType name table defines for display purposes.
pub const NAME_ID_FAMILY: u16 = 1;
pub const NAME_ID_SUBFAMILY: u16 = 2;
pub const NAME_ID_TYPOGRAPHIC_FAMILY: u16 = 16;
pub const NAME_ID_TYPOGRAPHIC_SUBFAMILY: u16 = 17;

/// The first record carrying an identifier, if any.
pub open spec fn first_with_id(ns: Seq<(u16, Option<Seq<char>>)>, id: u16) -> Option<
    Option<Seq<char>>,
>
    decreases ns.len(),
{
    if ns.len() == 0 {
        None
    } else if ns[0].0 == id {
        Some(ns[0].1)
    } else {
        first_with_id(ns.skip(1), id)
    }
}

/// The selected name: the first record with the primary identifier, else
/// the first with the fallback identifier; a present record whose value
/// failed to decode yields the default, as does absence.
pub open spec fn picked_name(
    ns: Seq<(u16, Option<Seq<char>>)>,
    primary: u16,
    fallback: u16,
    default: Seq<char>,
) -> Seq<char> {
    match first_with_id(ns, primary) {
        Some(v) => match v {
            Some(s) => s,
            None => default,
        },
        None => match first_with_id(ns, fallback) {
            Some(v) => match v {
                Some(s) => s,
                None => default,
            },
            None => default,
        },
    }
}

proof fn lemma_first_with_id_at(ns: Seq<(u16, Option<Seq<char>>)>, id: u16, i: int)
    requires
        0 <= i < ns.len(),
        ns[i].0 == id,
        forall|j: int| 0 <= j < i ==> (#[trigger] ns[j]).0 != id,
    ensures
        first_with_id(ns, id) == Some(ns[i].1),
    decreases i,
{
    if i == 0 {
    } else {
        assert(ns[0].0 != id);
        assert(forall|j: int| 0 <= j < i - 1 ==> #[trigger] ns.skip(1)[j] == ns[j + 1]);
        lemma_first_with_id_at(ns.skip(1), id, i - 1);
    }
}

proof fn lemma_first_with_id_none(ns: Seq<(u16, Option<Seq<char>>)>, id: u16)
    requires
        forall|j: int| 0 <= j < ns.len() ==> (#[trigger] ns[j]).0 != id,
    ensures
        first_with_id(ns, id) is None,
    decreases ns.len(),
{
    if ns.len() > 0 {
        assert(forall|j: int| 0 <= j < ns.len() - 1 ==> #[trigger] ns.skip(1)[j] == ns[j + 1]);
        lemma_first_with_id_none(ns.skip(1), id);
    }
}

/// Finds the first record with an identifier.
fn find_name(ns: &Vec<(u16, Option<String>)>, id: u16) -> (r: Option<usize>)
    ensures
        match r {
            Some(i) => i < ns@.len() && first_with_id(names_view(ns@), id) == Some(
                names_view(ns@)[i as int].1,
            ),
            None => first_with_id(names_view(ns@), id) is None,
        },
{
    let n = ns.len();
    let mut i: usize = 0;
    while i < n
        invariant
            i <= n,
            n == ns@.len(),
            forall|j: int| 0 <= j < i ==> (#[trigger] ns@[j]).0 != id,
        decreases n - i,
    {
        if ns[i].0 == id {
            proof {
                assert(forall|j: int| 0 <= j < ns@.len() ==> names_view(ns@)[j].0 == (
                #[trigger] ns@[j]).0);
                lemma_first_with_id_at(names_view(ns@), id, i as int);
            }
            return Some(i);
        }
        i = i + 1;
    }
    proof {
        assert(forall|j: int| 0 <= j < ns@.len() ==> names_view(ns@)[j].0 == (
        #[trigger] ns@[j]).0);
        lemma_first_with_id_none(names_view(ns@), id);
    }
    None
}

/// Selects a name with a fallback identifier and a default value.
fn pick_name(ns: &Vec<(u16, Option<String>)>, primary: u16, fallback: u16, default: &str) -> (r:
    String)
    ensures
        r@ == picked_name(names_view(ns@), primary, fallback, default@),
{
    let found = match find_name(ns, primary) {
        Some(i) => Some(i),
        None => find_name(ns, fallback),
    };
    match found {
        Some(i) => match &ns[i].1 {
            Some(s) => {
                proof {
                    assert(names_view(ns@)[i as int].1 == Some(s@));
                }
                s.clone()
            },
            None => {
                proof {
                    assert(names_view(ns@)[i as int].1 is None);
                }
                default.to_owned()
            },
        },
        None => default.to_owned(),
    }
}

/// One font's metadata: the family name, the subfamily style, and the
/// variable-font flag.
pub struct FontMeta {
    pub family: String,
    pub style: String,
    pub is_variable: bool,
}

/// Why metadata extraction failed: the container would not decompress,
/// or the face would not parse.
#[derive(Clone, Copy, PartialEq, Eq, Structural, Debug)]
pub enum MetaError {
    Decompress,
    Parse,
}

/// The bytes handed to the parser: a WOFF2 container is decompressed
/// first, anything else is parsed as it is.
pub open spec fn meta_bytes_spec(data: Seq<u8>) -> Option<Seq<u8>> {
    if is_woff2_bytes(data) {
        decompressed_of(data)
    } else {
        Some(data)
    }
}

/// The metadata extraction, a function of the source bytes alone.
pub open spec fn font_meta_spec(data: Seq<u8>) -> Result<(Seq<char>, Seq<char>, bool), MetaError> {
    match meta_bytes_spec(data) {
        None => Err(MetaError::Decompress),
        Some(raw) => match parsed_face_of(raw) {
            None => Err(MetaError::Parse),
            Some(p) => Ok(
                (
                    picked_name(p.0, NAME_ID_TYPOGRAPHIC_FAMILY, NAME_ID_FAMILY, "UnknownFamily"@),
                    picked_name(p.0, NAME_ID_TYPOGRAPHIC_SUBFAMILY, NAME_ID_SUBFAMILY, "Regular"@),
                    p.1,
                ),
            ),
        },
    }
}

/// Extracts one candidate's metadata: decompress when compressed, parse
/// the face, and select the family and style names, falling back from
/// the typographic identifiers to the plain ones and then to fixed
/// defaults. A font that fails here is skipped, never fatal.
pub fn font_meta(data: &Vec<u8>) -> (r: Result<FontMeta, MetaError>)
    ensures
        match r {
            Ok(m) => font_meta_spec(data@) == Ok::<_, MetaError>((m.family@, m.style@, m.is_variable)),
            Err(e) => font_meta_spec(data@) == Err::<(Seq<char>, Seq<char>, bool), _>(e),
        },
{
    let raw: Vec<u8>;
    if woff2_magic(data) {
        match decompress_call(data) {
            Ok(d) => {
                raw = d;
            },
            Err(_) => {
                return Err(MetaError::Decompress);
            },
        }
    } else {
        let copy = data.clone();
        raw = copy;
    }
    match parse_face(&raw) {
        None => Err(MetaError::Parse),
        Some(p) => {
            let family = pick_name(&p.0, NAME_ID_TYPOGRAPHIC_FAMILY, NAME_ID_FAMILY, "UnknownFamily");
            let style = pick_name(&p.0, NAME_ID_TYPOGRAPHIC_SUBFAMILY, NAME_ID_SUBFAMILY, "Regular");
            Ok(FontMeta { family, style, is_variable: p.1 })
        },
    }
}

/// The style shown beside a family: the subfamily name, except that the
/// default style shows as nothing.
pub open spec fn display_style_spec(style: Seq<char>) -> Seq<char> {
    if style == "Regular"@ {
        Seq::empty()
    } else {
        style
    }
}

pub fn display_style(style: &String) -> (r: String)
    ensures
        r@ == display_style_spec(style@),
{
    if str_eq_exec(style.as_str(), "Regular") {
        proof {
            reveal_strlit("");
        }
        let e = "";
        e.to_owned()
    } else {
        style.clone()
    }
}

} // verus!
