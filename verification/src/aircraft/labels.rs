//! The names shown for an aircraft: the text of its map label and the
//! identity line of its hover card.

use vstd::prelude::*;

use crate::text::{chars_of, dec_int, push_decimal_i64};

verus! {

/// Unicode `White_Space`, the property `char::is_whitespace` tests.
pub open spec fn is_white_space(c: char) -> bool {
    ||| ('\u{9}' <= c <= '\u{D}')
    ||| c == ' '
    ||| c == '\u{85}'
    ||| c == '\u{A0}'
    ||| c == '\u{1680}'
    ||| ('\u{2000}' <= c <= '\u{200A}')
    ||| c == '\u{2028}'
    ||| c == '\u{2029}'
    ||| c == '\u{202F}'
    ||| c == '\u{205F}'
    ||| c == '\u{3000}'
}

/// `char::is_whitespace`.
pub fn is_whitespace_char(c: char) -> (r: bool)
    ensures
        r == is_white_space(c),
{
    ('\u{9}' <= c && c <= '\u{D}') || c == ' ' || c == '\u{85}' || c == '\u{A0}' || c == '\u{1680}'
        || ('\u{2000}' <= c && c <= '\u{200A}') || c == '\u{2028}' || c == '\u{2029}' || c
        == '\u{202F}' || c == '\u{205F}' || c == '\u{3000}'
}

/// Whether a text is empty once trimmed: all of it is white space.
pub open spec fn is_blank(s: Seq<char>) -> bool {
    forall|i: int| 0 <= i < s.len() ==> is_white_space(#[trigger] s[i])
}

/// Whether `s.trim().is_empty()`.
pub fn blank(s: &str) -> (r: bool)
    ensures
        r == is_blank(s@),
{
    let chars = chars_of(s);
    let mut i: usize = 0;
    while i < chars.len()
        invariant
            i <= chars@.len(),
            chars@ == s@,
            forall|j: int| 0 <= j < i ==> is_white_space(#[trigger] s@[j]),
        decreases chars@.len() - i,
    {
        if !is_whitespace_char(chars[i]) {
            return false;
        }
        i = i + 1;
    }
    true
}

/// Number of white space characters at the start of `s`.
pub open spec fn leading_space(s: Seq<char>) -> nat
    decreases s.len(),
{
    if s.len() > 0 && is_white_space(s[0]) {
        1 + leading_space(s.drop_first())
    } else {
        0
    }
}

/// Number of white space characters at the end of `s`.
pub open spec fn trailing_space(s: Seq<char>) -> nat
    decreases s.len(),
{
    if s.len() > 0 && is_white_space(s.last()) {
        1 + trailing_space(s.drop_last())
    } else {
        0
    }
}

/// `s` without leading and trailing white space, as `str::trim` gives it.
pub open spec fn trimmed(s: Seq<char>) -> Seq<char> {
    let rest = s.skip(leading_space(s) as int);
    rest.take(rest.len() - trailing_space(rest))
}

proof fn lemma_leading_space_bound(s: Seq<char>)
    ensures
        leading_space(s) <= s.len(),
    decreases s.len(),
{
    if s.len() > 0 && is_white_space(s[0]) {
        lemma_leading_space_bound(s.drop_first());
    }
}

proof fn lemma_trailing_space_bound(s: Seq<char>)
    ensures
        trailing_space(s) <= s.len(),
    decreases s.len(),
{
    if s.len() > 0 && is_white_space(s.last()) {
        lemma_trailing_space_bound(s.drop_last());
    }
}

/// `str::trim`.
pub fn trim_chars(s: &str) -> (r: Vec<char>)
    ensures
        r@ == trimmed(s@),
{
    let chars = chars_of(s);
    let n = chars.len();
    let mut a: usize = 0;
    assert(s@.skip(0) =~= s@);
    while a < n && is_whitespace_char(chars[a])
        invariant
            a <= n,
            n == s@.len(),
            chars@ == s@,
            leading_space(s@) == a + leading_space(s@.skip(a as int)),
        decreases n - a,
    {
        proof {
            assert(s@.skip(a as int).drop_first() =~= s@.skip(a + 1));
        }
        a = a + 1;
    }
    proof {
        if a < n {
            assert(s@.skip(a as int)[0] == chars@[a as int]);
        }
        assert(leading_space(s@.skip(a as int)) == 0);
        lemma_leading_space_bound(s@);
    }
    let ghost rest = s@.skip(a as int);
    let mut b: usize = n;
    assert(rest.take(n - a) =~= rest);
    while b > a && is_whitespace_char(chars[b - 1])
        invariant
            a <= b <= n,
            n == s@.len(),
            chars@ == s@,
            rest == s@.skip(a as int),
            trailing_space(rest) == (n - b) + trailing_space(rest.take(b - a)),
        decreases b - a,
    {
        proof {
            assert(rest.take(b - a).drop_last() =~= rest.take(b - a - 1));
            assert(rest.take(b - a).last() == chars@[b - 1]);
        }
        b = b - 1;
    }
    proof {
        if b > a {
            assert(rest.take(b - a).last() == chars@[b - 1]);
        }
        assert(trailing_space(rest.take(b - a)) == 0);
    }
    let mut out: Vec<char> = Vec::new();
    let mut i: usize = a;
    while i < b
        invariant
            a <= i <= b <= n,
            chars@ == s@,
            n == s@.len(),
            out@ == s@.subrange(a as int, i as int),
        decreases b - i,
    {
        out.push(chars[i]);
        assert(out@ =~= s@.subrange(a as int, i + 1));
        i = i + 1;
    }
    assert(out@ =~= trimmed(s@));
    out
}

/// The name on an aircraft's map label: its callsign unless that is blank,
/// else its registration, else its ICAO address.
pub open spec fn label_name(icao: Seq<char>, callsign: Option<Seq<char>>, registration: Option<Seq<char>>) -> Seq<char> {
    match callsign {
        Some(c) if !is_blank(c) => c,
        _ => match registration {
            Some(r) => r,
            None => icao,
        },
    }
}

/// The text of an aircraft's map label: its name, a line break, and its
/// altitude as `{alt} ft` when known.
pub open spec fn label_text(
    icao: Seq<char>,
    callsign: Option<Seq<char>>,
    registration: Option<Seq<char>>,
    altitude: Option<i32>,
) -> Seq<char> {
    label_name(icao, callsign, registration) + "\n"@ + match altitude {
        Some(a) => dec_int(a as int) + " ft"@,
        None => Seq::empty(),
    }
}

/// The view of an optional string.
pub open spec fn opt_view(s: Option<&str>) -> Option<Seq<char>> {
    match s {
        Some(t) => Some(t@),
        None => None,
    }
}

/// Label text for an aircraft.
pub fn aircraft_label_text(icao: &str, callsign: Option<&str>, registration: Option<&str>, altitude: Option<i32>) -> (r: String)
    ensures
        r@ == label_text(icao@, opt_view(callsign), opt_view(registration), altitude),
{
    let name: &str = match callsign {
        Some(c) if !blank(c) => c,
        _ => match registration {
            Some(reg) => reg,
            None => icao,
        },
    };
    let mut s = String::from_str(name);
    s.append("\n");
    match altitude {
        Some(a) => {
            push_decimal_i64(&mut s, a as i64);
            s.append(" ft");
        },
        None => {},
    }
    s
}

/// The identity line of the hover card: the registration, else the trimmed
/// callsign, else the ICAO address, where an empty choice falls back to the
/// ICAO address.
pub open spec fn hover_id_text(icao: Seq<char>, callsign: Option<Seq<char>>, registration: Option<Seq<char>>) -> Seq<char> {
    let pick = match registration {
        Some(r) => Some(r),
        None => match callsign {
            Some(c) => Some(trimmed(c)),
            None => None,
        },
    };
    match pick {
        Some(p) if p.len() > 0 => p,
        _ => icao,
    }
}

/// Identity line for the hover card of an aircraft.
pub fn hover_id_label(icao: &str, callsign: Option<&str>, registration: Option<&str>) -> (r: Vec<char>)
    ensures
        r@ == hover_id_text(icao@, opt_view(callsign), opt_view(registration)),
{
    let pick: Option<Vec<char>> = match registration {
        Some(reg) => Some(chars_of(reg)),
        None => match callsign {
            Some(c) => Some(trim_chars(c)),
            None => None,
        },
    };
    match pick {
        Some(p) if p.len() > 0 => p,
        _ => chars_of(icao),
    }
}

/// How the label picks its name, stated by how calls relate: a blank or
/// absent callsign counts for nothing; a callsign that is not blank names
/// the aircraft as if it were the only thing known; without a usable
/// callsign a known registration names it in the same way; and with
/// neither, the label starts with the ICAO address and a line break (and is
/// just that when the altitude is unknown).
pub proof fn lemma_label_name_priority(
    icao: Seq<char>,
    callsign: Option<Seq<char>>,
    registration: Option<Seq<char>>,
    altitude: Option<i32>,
)
    ensures
        (match callsign {
            Some(c) => is_blank(c),
            None => true,
        }) ==> label_text(icao, callsign, registration, altitude) == label_text(
            icao,
            None,
            registration,
            altitude,
        ),
        (match callsign {
            Some(c) => !is_blank(c),
            None => false,
        }) ==> label_text(icao, callsign, registration, altitude) == label_text(
            callsign->0,
            None,
            None,
            altitude,
        ),
        (match registration {
            Some(r) => label_text(icao, None, registration, altitude) == label_text(r, None, None, altitude),
            None => true,
        }),
        label_text(icao, None, None, altitude).subrange(0, icao.len() as int) == icao,
        label_text(icao, None, None, altitude)[icao.len() as int] == '\n',
        label_text(icao, None, None, None) == icao.push('\n'),
{
    reveal_strlit("\n");
    let t = label_text(icao, None, None, altitude);
    assert(t.subrange(0, icao.len() as int) =~= icao);
    assert(label_text(icao, None, None, None) =~= icao.push('\n'));
}

} // verus!
