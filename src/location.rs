use vstd::prelude::*;
use crate::model::{Location, LocationType, LocationV, ScenePartV};
use crate::text::{has_prefix, starts_with};

verus! {

/// A character of Unicode's White_Space property.
pub open spec fn is_space(c: char) -> bool {
    ('\u{9}' <= c <= '\u{D}') || c == '\u{20}' || c == '\u{85}' || c == '\u{A0}' || c
        == '\u{1680}' || ('\u{2000}' <= c <= '\u{200A}') || c == '\u{2028}' || c == '\u{2029}'
        || c == '\u{202F}' || c == '\u{205F}' || c == '\u{3000}'
}

/// The first index at or after `i` that does not hold whitespace.
pub open spec fn skip_spaces(s: Seq<char>, i: int) -> int
    decreases s.len() - i,
{
    if 0 <= i < s.len() && is_space(s[i]) {
        skip_spaces(s, i + 1)
    } else {
        i
    }
}

/// Where `s` is `marker`, whitespace and a name, that name.
pub open spec fn name_after(s: Seq<char>, marker: Seq<char>) -> Option<Seq<char>> {
    let start = skip_spaces(s, marker.len() as int);
    if has_prefix(s, marker) && marker.len() < s.len() && is_space(s[marker.len() as int]) && start
        < s.len() {
        Some(s.subrange(start, s.len() as int))
    } else {
        None
    }
}

pub open spec fn int_ext_marker() -> Seq<char> {
    seq!['I', 'N', 'T', '.', '/', 'E', 'X', 'T', '.']
}

pub open spec fn int_marker() -> Seq<char> {
    seq!['I', 'N', 'T', '.']
}

pub open spec fn ext_marker() -> Seq<char> {
    seq!['E', 'X', 'T', '.']
}

/// The location that a heading describes: an optional kind marker (`INT.`,
/// `EXT.` or `INT./EXT.`) followed by whitespace, then the name. Without a
/// marker the whole heading is the name and the kind is undefined.
pub open spec fn location_of(s: Seq<char>) -> LocationV {
    let (kind, name) = if let Some(n) = name_after(s, int_ext_marker()) {
        (LocationType::InternalExternal, n)
    } else if let Some(n) = name_after(s, int_marker()) {
        (LocationType::Internal, n)
    } else if let Some(n) = name_after(s, ext_marker()) {
        (LocationType::External, n)
    } else {
        (LocationType::Undefined, s)
    };
    LocationV { kind, name, parts: Seq::empty() }
}

fn is_space_char(c: char) -> (r: bool)
    ensures
        r == is_space(c),
{
    ('\u{9}' <= c && c <= '\u{D}') || c == '\u{20}' || c == '\u{85}' || c == '\u{A0}' || c
        == '\u{1680}' || ('\u{2000}' <= c && c <= '\u{200A}') || c == '\u{2028}' || c
        == '\u{2029}' || c == '\u{202F}' || c == '\u{205F}' || c == '\u{3000}'
}

fn marked_name(s: &str, marker: &str) -> (r: Option<String>)
    ensures
        r matches Some(n) ==> name_after(s@, marker@) == Some(n@),
        r is None ==> name_after(s@, marker@) is None,
{
    if !starts_with(s, marker) {
        return None;
    }
    let n = s.unicode_len();
    let m = marker.unicode_len();
    if m >= n || !is_space_char(s.get_char(m)) {
        return None;
    }
    let mut i: usize = m;
    while i < n && is_space_char(s.get_char(i))
        invariant
            m <= i <= n,
            n == s@.len(),
            skip_spaces(s@, m as int) == skip_spaces(s@, i as int),
        decreases n - i,
    {
        i = i + 1;
    }
    if i < n {
        Some(s.substring_char(i, n).to_owned())
    } else {
        None
    }
}

/// Reads a location heading into a location with no parts yet.
pub fn extract_location(name: &str) -> (r: Location)
    ensures
        r@ == location_of(name@),
{
    proof {
        reveal_strlit("INT./EXT.");
        reveal_strlit("INT.");
        reveal_strlit("EXT.");
        assert("INT./EXT."@ =~= int_ext_marker());
        assert("INT."@ =~= int_marker());
        assert("EXT."@ =~= ext_marker());
    }
    let (kind, text) = match marked_name(name, "INT./EXT.") {
        Some(n) => (LocationType::InternalExternal, n),
        None => match marked_name(name, "INT.") {
            Some(n) => (LocationType::Internal, n),
            None => match marked_name(name, "EXT.") {
                Some(n) => (LocationType::External, n),
                None => (LocationType::Undefined, name.to_owned()),
            },
        },
    };
    let r = Location { kind, name: text, parts: Vec::new() };
    assert(r@.parts =~= Seq::<ScenePartV>::empty());
    r
}

} // verus!
