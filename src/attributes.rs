use vstd::prelude::*;
use crate::layout::ParseError;
use crate::range::{digits_value, is_number, read_number};
use crate::text::same_text;

verus! {

/// A signed number as an `i32` is read: an optional `+` or `-`, then the
/// digits, with a value that fits.
pub open spec fn signed_number(s: Seq<char>) -> Option<i32> {
    let negative = s.len() > 0 && s[0] == '-';
    let d = if s.len() > 0 && (s[0] == '-' || s[0] == '+') {
        s.drop_first()
    } else {
        s
    };
    let limit = if negative {
        0x8000_0000int
    } else {
        0x7fff_ffffint
    };
    if is_number(d) && digits_value(d) <= limit {
        Some(
            (if negative {
                -digits_value(d)
            } else {
                digits_value(d)
            }) as i32,
        )
    } else {
        None
    }
}

/// The value of the last attribute called `name`, if there is one.
pub open spec fn attribute(attrs: Seq<(Seq<char>, Seq<char>)>, name: Seq<char>) -> Option<
    Seq<char>,
>
    decreases attrs.len(),
{
    if attrs.len() == 0 {
        None
    } else if attrs.last().0 == name {
        Some(attrs.last().1)
    } else {
        attribute(attrs.drop_last(), name)
    }
}

/// The named attribute, read as a number.
pub open spec fn numeric_attribute(attrs: Seq<(Seq<char>, Seq<char>)>, name: Seq<char>) -> Option<
    i32,
> {
    match attribute(attrs, name) {
        Some(v) => signed_number(v),
        None => None,
    }
}

pub open spec fn attrs_view(attrs: Seq<(String, String)>) -> Seq<(Seq<char>, Seq<char>)> {
    attrs.map_values(|a: (String, String)| (a.0@, a.1@))
}

/// Reads a signed decimal number.
pub fn parse_number(s: &str) -> (r: Option<i32>)
    ensures
        r == signed_number(s@),
{
    let n = s.unicode_len();
    let signed = n > 0 && (s.get_char(0) == '-' || s.get_char(0) == '+');
    let negative = n > 0 && s.get_char(0) == '-';
    let start: usize = if signed {
        1
    } else {
        0
    };
    proof {
        if signed {
            assert(s@.drop_first() =~= s@.subrange(1, n as int));
        } else {
            assert(s@ =~= s@.subrange(0, n as int));
        }
    }
    match read_number(s, start, n) {
        Some(v) => {
            if negative && v <= 0x8000_0000 {
                Some((0 - v as i64) as i32)
            } else if !negative && v <= 0x7fff_ffff {
                Some(v as i32)
            } else {
                None
            }
        },
        None => None,
    }
}

fn find_attribute(attrs: &Vec<(String, String)>, name: &str) -> (r: Option<i32>)
    ensures
        r == numeric_attribute(attrs_view(attrs@), name@),
{
    let ghost av = attrs_view(attrs@);
    let mut i: usize = attrs.len();
    assert(av.subrange(0, i as int) =~= av);
    while i > 0 && !same_text(attrs[i - 1].0.as_str(), name)
        invariant
            i <= attrs.len(),
            av == attrs_view(attrs@),
            attribute(av, name@) == attribute(av.subrange(0, i as int), name@),
        decreases i,
    {
        let ghost prefix = av.subrange(0, i as int);
        assert(prefix.drop_last() =~= av.subrange(0, i - 1));
        assert(prefix.last() == av[i - 1]);
        assert(av[i - 1].0 == attrs@[i - 1].0@);
        i = i - 1;
    }
    if i == 0 {
        assert(av.subrange(0, 0) =~= Seq::<(Seq<char>, Seq<char>)>::empty());
        None
    } else {
        let ghost prefix = av.subrange(0, i as int);
        assert(prefix.last() == av[i - 1]);
        assert(av[i - 1] == (attrs@[i - 1].0@, attrs@[i - 1].1@));
        parse_number(attrs[i - 1].1.as_str())
    }
}

/// Reads the `top`, `left` and `height` attributes of a line. Fails where one
/// of them is missing or is not a number.
pub fn read_attributes(attrs: &Vec<(String, String)>) -> (r: Result<(i32, i32, i32), ParseError>)
    ensures
        ({
            let av = attrs_view(attrs@);
            let (top, left, height) = (
                numeric_attribute(av, seq!['t', 'o', 'p']),
                numeric_attribute(av, seq!['l', 'e', 'f', 't']),
                numeric_attribute(av, seq!['h', 'e', 'i', 'g', 'h', 't']),
            );
            &&& r is Ok <==> (top is Some && left is Some && height is Some)
            &&& r matches Ok(v) ==> v == (top->Some_0, left->Some_0, height->Some_0)
            &&& r matches Err(e) ==> e == ParseError::MalformedInput
        }),
{
    proof {
        reveal_strlit("top");
        reveal_strlit("left");
        reveal_strlit("height");
        assert("top"@ =~= seq!['t', 'o', 'p']);
        assert("left"@ =~= seq!['l', 'e', 'f', 't']);
        assert("height"@ =~= seq!['h', 'e', 'i', 'g', 'h', 't']);
    }
    match (find_attribute(attrs, "top"), find_attribute(attrs, "left"), find_attribute(attrs, "height")) {
        (Some(top), Some(left), Some(height)) => Ok((top, left, height)),
        _ => Err(ParseError::MalformedInput),
    }
}

} // verus!
