//! Parsing free-form quantity text into exact mixed numbers. Text may hold a
//! single quantity or a range ("2-3"); unicode vulgar-fraction glyphs are
//! expanded to ASCII fractions first, everything outside a fixed allow-list
//! of characters is dropped, and malformed text degrades to an integer zero
//! rather than failing: quantity text is adversarial scraped input.

use vstd::prelude::*;
use vstd::string::{StringExecFns, StrSliceExecFns};
use crate::mixed_rational::MixedRational;
use crate::mixed_rational::spec_simplify;
use crate::approx::pow10;

verus! {

/// Whether `c` is an ASCII decimal digit.
pub open spec fn is_digit(c: char) -> bool {
    48 <= c as u32 && c as u32 <= 57
}

/// The numeric value of an ASCII digit.
pub open spec fn dval(c: char) -> nat {
    (c as u32 - 48) as nat
}

/// What one input character contributes to the canonical text: digits and
/// the structural characters pass through, a vulgar-fraction glyph expands
/// to a space and its ASCII fraction, and everything else is dropped.
pub open spec fn expand_char(c: char) -> Seq<char> {
    if is_digit(c) || c == ' ' || c == '/' || c == '-' || c == '.' {
        seq![c]
    } else if c == '¼' {
        seq![' ', '1', '/', '4']
    } else if c == '½' {
        seq![' ', '1', '/', '2']
    } else if c == '¾' {
        seq![' ', '3', '/', '4']
    } else if c == '⅐' {
        seq![' ', '1', '/', '7']
    } else if c == '⅑' {
        seq![' ', '1', '/', '9']
    } else if c == '⅒' {
        seq![' ', '1', '/', '1', '0']
    } else if c == '⅓' {
        seq![' ', '1', '/', '3']
    } else if c == '⅔' {
        seq![' ', '2', '/', '3']
    } else if c == '⅕' {
        seq![' ', '1', '/', '5']
    } else if c == '⅖' {
        seq![' ', '2', '/', '5']
    } else if c == '⅗' {
        seq![' ', '3', '/', '5']
    } else if c == '⅘' {
        seq![' ', '4', '/', '5']
    } else if c == '⅙' {
        seq![' ', '1', '/', '6']
    } else if c == '⅚' {
        seq![' ', '5', '/', '6']
    } else if c == '⅛' {
        seq![' ', '1', '/', '8']
    } else if c == '⅜' {
        seq![' ', '3', '/', '8']
    } else if c == '⅝' {
        seq![' ', '5', '/', '8']
    } else if c == '⅞' {
        seq![' ', '7', '/', '8']
    } else {
        Seq::empty()
    }
}

/// The canonical form of the input: every character expanded or dropped.
pub open spec fn canon(s: Seq<char>) -> Seq<char>
    decreases s.len(),
{
    if s.len() == 0 {
        Seq::empty()
    } else {
        canon(s.drop_last()) + expand_char(s.last())
    }
}

/// Separator squeezing as a left-to-right pass: `started` records whether
/// anything was emitted yet, `pending` whether one owed separator stands
/// before the next ordinary character. Leading, trailing and doubled
/// separators all disappear.
pub open spec fn squeeze_go(s: Seq<char>, sep: char, started: bool, pending: bool) -> Seq<char>
    decreases s.len(),
{
    if s.len() == 0 {
        Seq::empty()
    } else if s[0] == sep {
        squeeze_go(s.drop_first(), sep, started, started)
    } else {
        (if pending {
            seq![sep]
        } else {
            Seq::empty()
        }) + seq![s[0]] + squeeze_go(s.drop_first(), sep, true, false)
    }
}

/// The text with runs of `sep` squeezed to one and edges trimmed of it.
pub open spec fn squeeze(s: Seq<char>, sep: char) -> Seq<char> {
    squeeze_go(s, sep, false, false)
}

/// The text with runs of spaces collapsed and edges trimmed.
pub open spec fn collapse(s: Seq<char>) -> Seq<char> {
    squeeze(s, ' ')
}

/// The ASCII digits of the text, in order, everything else dropped.
pub open spec fn digits_of(s: Seq<char>) -> Seq<char>
    decreases s.len(),
{
    if s.len() == 0 {
        Seq::empty()
    } else {
        digits_of(s.drop_last()) + (if is_digit(s.last()) {
            seq![s.last()]
        } else {
            Seq::empty()
        })
    }
}

/// The text with every space dropped.
pub open spec fn spec_despace(s: Seq<char>) -> Seq<char>
    decreases s.len(),
{
    if s.len() == 0 {
        Seq::empty()
    } else {
        spec_despace(s.drop_last()) + (if s.last() == ' ' {
            Seq::<char>::empty()
        } else {
            seq![s.last()]
        })
    }
}

/// The number a digit string denotes.
pub open spec fn dec_val(ds: Seq<char>) -> nat
    decreases ds.len(),
{
    if ds.len() == 0 {
        0
    } else {
        dec_val(ds.drop_last()) * 10 + dval(ds.last())
    }
}

/// Integer parsing of a field: non-digits are stripped first, and an empty
/// or too-large digit string fails.
pub open spec fn spec_parse_uint(s: Seq<char>, limit: nat) -> Option<nat> {
    let ds = digits_of(s);
    if ds.len() == 0 || dec_val(ds) > limit {
        None
    } else {
        Some(dec_val(ds))
    }
}

/// The position of the first occurrence of `c`.
pub open spec fn spec_find(s: Seq<char>, c: char) -> Option<int>
    decreases s.len(),
{
    if s.len() == 0 {
        None
    } else if s[0] == c {
        Some(0)
    } else {
        match spec_find(s.drop_first(), c) {
            Some(i) => Some(i + 1),
            None => None,
        }
    }
}

/// The position of the first occurrence of the two-character range word
/// "to".
pub open spec fn spec_find_to(s: Seq<char>) -> Option<int>
    decreases s.len(),
{
    if s.len() < 2 {
        None
    } else if s[0] == 't' && s[1] == 'o' {
        Some(0)
    } else {
        match spec_find_to(s.drop_first()) {
            Some(i) => Some(i + 1),
            None => None,
        }
    }
}

/// `spec_find` returns the first occurrence, or `None` when there is none.
pub proof fn lemma_find_props(s: Seq<char>, c: char)
    ensures
        match spec_find(s, c) {
            Some(i) => 0 <= i < s.len() && s[i] == c && (forall|j: int| 0 <= j < i ==> s[j] != c),
            None => forall|j: int| 0 <= j < s.len() ==> s[j] != c,
        },
    decreases s.len(),
{
    if s.len() == 0 {
    } else if s[0] == c {
    } else {
        lemma_find_props(s.drop_first(), c);
        assert forall|j: int| 1 <= j < s.len() implies s.drop_first()[j - 1] == s[j] by {}
    }
}

/// `spec_find_to` returns the first window holding "to", or `None`.
pub proof fn lemma_find_to_props(s: Seq<char>)
    ensures
        match spec_find_to(s) {
            Some(i) => 0 <= i && i + 1 < s.len() && s[i] == 't' && s[i + 1] == 'o' && (forall|
                j: int,
            |
                0 <= j < i ==> !(#[trigger] s[j] == 't' && s[j + 1] == 'o')),
            None => forall|j: int| 0 <= j && j + 1 < s.len() ==> !(#[trigger] s[j] == 't' && s[j + 1] == 'o'),
        },
    decreases s.len(),
{
    if s.len() < 2 {
    } else if s[0] == 't' && s[1] == 'o' {
    } else {
        lemma_find_to_props(s.drop_first());
        assert forall|j: int| 1 <= j < s.len() implies s.drop_first()[j - 1] == s[j] by {}
    }
}

/// An index with the first-occurrence properties over a window of `v` is
/// exactly what `spec_find` returns on that window.
pub(crate) proof fn lemma_find_char_abs(v: Seq<char>, from: int, to: int, c: char, r: Option<int>)
    requires
        0 <= from <= to <= v.len(),
        match r {
            Some(j) => from <= j < to && v[j] == c && (forall|k: int| from <= k < j ==> v[k] != c),
            None => forall|k: int| from <= k < to ==> v[k] != c,
        },
    ensures
        spec_find(v.subrange(from, to), c) == match r {
            Some(j) => Some(j - from),
            None => None::<int>,
        },
{
    let s = v.subrange(from, to);
    lemma_find_props(s, c);
    match r {
        Some(j) => {
            assert(s[j - from] == c);
            assert forall|x: int| 0 <= x < j - from implies s[x] != c by {
                assert(s[x] == v[from + x]);
            }
            match spec_find(s, c) {
                Some(i1) => {
                    if i1 < j - from {
                        assert(s[i1] != c);
                    } else if i1 > j - from {
                        assert(s[j - from] != c);
                    }
                },
                None => {
                    assert(s[j - from] != c);
                },
            }
        },
        None => {
            assert forall|x: int| 0 <= x < s.len() implies s[x] != c by {
                assert(s[x] == v[from + x]);
            }
            match spec_find(s, c) {
                Some(i1) => {
                    assert(s[i1] != c);
                },
                None => {},
            }
        },
    }
}

/// An index with the first-window properties is exactly what
/// `spec_find_to` returns.
proof fn lemma_find_to_abs(s: Seq<char>, r: Option<int>)
    requires
        match r {
            Some(j) => 0 <= j && j + 1 < s.len() && s[j] == 't' && s[j + 1] == 'o' && (forall|
                k: int,
            |
                0 <= k < j ==> !(#[trigger] s[k] == 't' && s[k + 1] == 'o')),
            None => forall|k: int|
                0 <= k && k + 1 < s.len() ==> !(#[trigger] s[k] == 't' && s[k + 1] == 'o'),
        },
    ensures
        spec_find_to(s) == r,
{
    lemma_find_to_props(s);
    match r {
        Some(j) => {
            match spec_find_to(s) {
                Some(i1) => {
                    if i1 < j {
                        assert(!(s[i1] == 't' && s[i1 + 1] == 'o'));
                    } else if i1 > j {
                        assert(!(s[j] == 't' && s[j + 1] == 'o'));
                    }
                },
                None => {
                    assert(!(s[j] == 't' && s[j + 1] == 'o'));
                },
            }
        },
        None => {
            match spec_find_to(s) {
                Some(i1) => {
                    assert(!(s[i1] == 't' && s[i1 + 1] == 'o'));
                },
                None => {},
            }
        },
    }
}

/// What the fraction sub-parser accepts: `"v n/d"` (a space before the
/// slash), `"n/d"`, or a bare integer, each field stripped of non-digits
/// before parsing. The result carries the raw fields; no normalization
/// happens here. Anything else is no value.
pub open spec fn spec_parse_fract(t: Seq<char>) -> Option<MixedRational> {
    match spec_find(t, '/') {
        Some(slash) => match spec_parse_uint(t.skip(slash), u32::MAX as nat) {
            Some(d) => {
                let space = spec_find(t, ' ');
                if space is Some && space->0 < slash {
                    let sp = space->0;
                    match (
                        spec_parse_uint(t.take(sp), i32::MAX as nat),
                        spec_parse_uint(t.subrange(sp, slash), i32::MAX as nat),
                    ) {
                        (Some(v), Some(n)) => Some(
                            MixedRational { value: v as i32, num: n as i32, den: d as u32 },
                        ),
                        _ => None,
                    }
                } else {
                    match spec_parse_uint(t.take(slash), i32::MAX as nat) {
                        Some(n) => Some(MixedRational { value: 0, num: n as i32, den: d as u32 }),
                        None => None,
                    }
                }
            },
            None => None,
        },
        None => match spec_parse_uint(t, i32::MAX as nat) {
            Some(v) => Some(MixedRational { value: v as i32, num: 0, den: 0 }),
            None => None,
        },
    }
}

/// The zero quantity, the fallback for text that parses to nothing.
pub open spec fn zero_quantity() -> MixedRational {
    MixedRational { value: 0, num: 0, den: 0 }
}

/// What `from_string` returns. The canonical text is checked for a decimal
/// point first (whole digits left of it, fractional digits right of it,
/// denominator a power of ten); otherwise whitespace is collapsed, the text
/// is split at the first `-` or "to" into a primary and an optional upper
/// bound, and each side goes through the fraction sub-parser. Empty or
/// unparseable text is an integer zero with no upper bound, and so is a
/// decimal whose fields do not fit the fixed-width parts.
pub open spec fn spec_from_string(s: Seq<char>) -> (MixedRational, Option<MixedRational>) {
    let txt = canon(s);
    match spec_find(txt, '.') {
        Some(dot) => {
            let whole = spec_parse_uint(txt.take(dot), i32::MAX as nat);
            let frac = spec_parse_uint(txt.skip(dot), i32::MAX as nat);
            let fcount = digits_of(txt.skip(dot)).len();
            if whole is Some && frac is Some && fcount <= 9 {
                (
                    spec_simplify(
                        MixedRational {
                            value: whole->0 as i32,
                            num: frac->0 as i32,
                            den: pow10(fcount) as u32,
                        },
                    ),
                    None,
                )
            } else {
                (zero_quantity(), None)
            }
        },
        None => {
            let t = collapse(txt);
            if t.len() == 0 {
                (zero_quantity(), None)
            } else {
                let split = if spec_find(t, '-') is Some {
                    let dash = spec_find(t, '-')->0;
                    (t.take(dash), t.skip(dash + 1))
                } else if spec_find_to(t) is Some {
                    let to = spec_find_to(t)->0;
                    (t.take(to), t.skip(to + 2))
                } else {
                    (t, Seq::<char>::empty())
                };
                match spec_parse_fract(split.0) {
                    Some(f) => (f, spec_parse_fract(split.1)),
                    None => (MixedRational { value: 0, num: 0, den: 0 }, None),
                }
            }
        },
    }
}

impl MixedRational {
    /// The characters quantity text may use: digits, space, slash, dash,
    /// dot and the vulgar-fraction glyphs. Everything else is dropped
    /// before parsing.
    pub fn valid_chars() -> (s: String)
        ensures
            s@ == "-1234567890 /¼½¾⅐⅑⅒⅓⅔⅕⅖⅗⅘⅙⅚⅛⅜⅝⅞."@,
    {
        "-1234567890 /¼½¾⅐⅑⅒⅓⅔⅕⅖⅗⅘⅙⅚⅛⅜⅝⅞.".to_owned()
    }
}

/// The canonical character form of the input (see `canon`).
fn canonical_chars(s: &str) -> (v: Vec<char>)
    ensures
        v@ == canon(s@),
{
    let n = s.unicode_len();
    let mut v: Vec<char> = Vec::new();
    let mut i: usize = 0;
    while i < n
        invariant
            0 <= i <= n,
            n == s@.len(),
            v@ == canon(s@.take(i as int)),
        decreases n - i,
    {
        let c = s.get_char(i);
        proof {
            assert(s@.take(i + 1).drop_last() =~= s@.take(i as int));
            assert(s@.take(i + 1).last() == s@[i as int]);
        }
        if (c as u32 >= 48 && c as u32 <= 57) || c == ' ' || c == '/' || c == '-' || c == '.' {
            v.push(c);
        } else if c == '¼' {
            v.push(' ');
            v.push('1');
            v.push('/');
            v.push('4');
        } else if c == '½' {
            v.push(' ');
            v.push('1');
            v.push('/');
            v.push('2');
        } else if c == '¾' {
            v.push(' ');
            v.push('3');
            v.push('/');
            v.push('4');
        } else if c == '⅐' {
            v.push(' ');
            v.push('1');
            v.push('/');
            v.push('7');
        } else if c == '⅑' {
            v.push(' ');
            v.push('1');
            v.push('/');
            v.push('9');
        } else if c == '⅒' {
            v.push(' ');
            v.push('1');
            v.push('/');
            v.push('1');
            v.push('0');
        } else if c == '⅓' {
            v.push(' ');
            v.push('1');
            v.push('/');
            v.push('3');
        } else if c == '⅔' {
            v.push(' ');
            v.push('2');
            v.push('/');
            v.push('3');
        } else if c == '⅕' {
            v.push(' ');
            v.push('1');
            v.push('/');
            v.push('5');
        } else if c == '⅖' {
            v.push(' ');
            v.push('2');
            v.push('/');
            v.push('5');
        } else if c == '⅗' {
            v.push(' ');
            v.push('3');
            v.push('/');
            v.push('5');
        } else if c == '⅘' {
            v.push(' ');
            v.push('4');
            v.push('/');
            v.push('5');
        } else if c == '⅙' {
            v.push(' ');
            v.push('1');
            v.push('/');
            v.push('6');
        } else if c == '⅚' {
            v.push(' ');
            v.push('5');
            v.push('/');
            v.push('6');
        } else if c == '⅛' {
            v.push(' ');
            v.push('1');
            v.push('/');
            v.push('8');
        } else if c == '⅜' {
            v.push(' ');
            v.push('3');
            v.push('/');
            v.push('8');
        } else if c == '⅝' {
            v.push(' ');
            v.push('5');
            v.push('/');
            v.push('8');
        } else if c == '⅞' {
            v.push(' ');
            v.push('7');
            v.push('/');
            v.push('8');
        }
        proof {
            assert(v@ =~= canon(s@.take(i + 1)));
        }
        i += 1;
    }
    proof {
        assert(s@.take(n as int) =~= s@);
    }
    v
}

/// Every character of the text, as a vector.
pub(crate) fn chars_vec(s: &str) -> (v: Vec<char>)
    ensures
        v@ == s@,
{
    let n = s.unicode_len();
    let mut v: Vec<char> = Vec::new();
    let mut i: usize = 0;
    while i < n
        invariant
            0 <= i <= n,
            n == s@.len(),
            v@ == s@.take(i as int),
        decreases n - i,
    {
        v.push(s.get_char(i));
        proof {
            assert(v@ =~= s@.take(i + 1));
        }
        i += 1;
    }
    proof {
        assert(s@.take(n as int) =~= s@);
    }
    v
}

/// The characters within `[from, to)` with every space dropped.
pub(crate) fn despace(s: &str, from: usize, to: usize) -> (r: String)
    requires
        from <= to <= s@.len(),
    ensures
        r@ == spec_despace(s@.subrange(from as int, to as int)),
{
    let ghost t = s@.subrange(from as int, to as int);
    let mut r = String::new();
    let mut i: usize = from;
    while i < to
        invariant
            from <= i <= to <= s@.len(),
            t == s@.subrange(from as int, to as int),
            r@ == spec_despace(t.take(i - from)),
        decreases to - i,
    {
        proof {
            assert(t.take(i - from + 1).drop_last() =~= t.take(i - from));
            assert(t.take(i - from + 1).last() == s@[i as int]);
        }
        let c = s.get_char(i);
        if c != ' ' {
            let piece = s.substring_char(i, i + 1);
            proof {
                assert(piece@ =~= seq![s@[i as int]]);
            }
            r.append(piece);
        }
        i += 1;
    }
    proof {
        assert(t.take(to - from) =~= t);
    }
    r
}

/// Whitespace collapsing (see `collapse`).
fn collapse_spaces(v: &Vec<char>) -> (r: Vec<char>)
    ensures
        r@ == collapse(v@),
{
    let mut out: Vec<char> = Vec::new();
    let mut started = false;
    let mut pending = false;
    let mut i: usize = 0;
    proof {
        assert(v@.skip(0) =~= v@);
    }
    while i < v.len()
        invariant
            0 <= i <= v@.len(),
            collapse(v@) == out@ + squeeze_go(v@.skip(i as int), ' ', started, pending),
        decreases v@.len() - i,
    {
        let c = v[i];
        proof {
            assert(v@.skip(i as int)[0] == v@[i as int]);
            assert(v@.skip(i as int).drop_first() =~= v@.skip(i + 1));
        }
        if c == ' ' {
            pending = started;
        } else {
            if pending {
                out.push(' ');
            }
            out.push(c);
            started = true;
            pending = false;
        }
        i += 1;
    }
    proof {
        assert(v@.skip(v@.len() as int) =~= Seq::<char>::empty());
        assert(out@ =~= collapse(v@));
    }
    out
}

/// First occurrence of `c` within `[from, to)`.
pub(crate) fn find_char(v: &Vec<char>, from: usize, to: usize, c: char) -> (r: Option<usize>)
    requires
        from <= to <= v@.len(),
    ensures
        match r {
            Some(j) => from <= j < to && v@[j as int] == c && (forall|k: int|
                from <= k < j ==> v@[k] != c),
            None => forall|k: int| from <= k < to ==> v@[k] != c,
        },
{
    let mut i: usize = from;
    while i < to
        invariant
            from <= i <= to <= v@.len(),
            forall|k: int| from <= k < i ==> v@[k] != c,
        decreases to - i,
    {
        if v[i] == c {
            return Some(i);
        }
        i += 1;
    }
    None
}

/// First "to" window within the text.
fn find_to(v: &Vec<char>) -> (r: Option<usize>)
    ensures
        match r {
            Some(j) => j + 1 < v@.len() && v@[j as int] == 't' && v@[j + 1] == 'o' && (forall|
                k: int,
            |
                0 <= k < j ==> !(#[trigger] v@[k] == 't' && v@[k + 1] == 'o')),
            None => forall|k: int| 0 <= k && k + 1 < v@.len() ==> !(#[trigger] v@[k] == 't' && v@[k + 1]
                == 'o'),
        },
{
    if v.len() < 2 {
        return None;
    }
    let mut i: usize = 0;
    while i < v.len() - 1
        invariant
            2 <= v@.len(),
            0 <= i <= v@.len(),
            forall|k: int| 0 <= k < i ==> !(#[trigger] v@[k] == 't' && v@[k + 1] == 'o'),
        decreases v@.len() - i,
    {
        if v[i] == 't' && v[i + 1] == 'o' {
            return Some(i);
        }
        i += 1;
    }
    None
}

/// Parses the digit characters within `[from, to)` as an unsigned number,
/// failing on an empty digit string or one above `limit`.
pub(crate) fn parse_uint(v: &Vec<char>, from: usize, to: usize, limit: u64) -> (r: Option<u64>)
    requires
        from <= to <= v@.len(),
        limit <= 0xFFFF_FFFF,
    ensures
        match r {
            Some(x) => spec_parse_uint(v@.subrange(from as int, to as int), limit as nat)
                == Some(x as nat),
            None => spec_parse_uint(v@.subrange(from as int, to as int), limit as nat)
                is None,
        },
{
    let ghost t = v@.subrange(from as int, to as int);
    let mut acc: u64 = 0;
    let mut over = false;
    let mut seen = false;
    let mut i: usize = from;
    while i < to
        invariant
            from <= i <= to <= v@.len(),
            t == v@.subrange(from as int, to as int),
            limit <= 0xFFFF_FFFF,
            seen == (digits_of(t.take(i - from)).len() > 0),
            !over ==> acc as nat == dec_val(digits_of(t.take(i - from))) && acc <= limit,
            over ==> dec_val(digits_of(t.take(i - from))) > limit,
        decreases to - i,
    {
        let c = v[i];
        proof {
            assert(t.take(i - from + 1).drop_last() =~= t.take(i - from));
            assert(t.take(i - from + 1).last() == v@[i as int]);
            let ds0 = digits_of(t.take(i - from));
            let ds1 = digits_of(t.take(i - from + 1));
            if is_digit(v@[i as int]) {
                assert(ds1 =~= ds0 + seq![v@[i as int]]);
                assert(ds1.drop_last() =~= ds0);
                assert(dec_val(ds1) == dec_val(ds0) * 10 + dval(v@[i as int]));
            } else {
                assert(ds1 =~= ds0);
            }
        }
        if c as u32 >= 48 && c as u32 <= 57 {
            let d = (c as u32 - 48) as u64;
            seen = true;
            if !over {
                let next = acc * 10 + d;
                if next > limit {
                    over = true;
                } else {
                    acc = next;
                }
            } else {
                proof {
                    assert(dec_val(digits_of(t.take(i - from))) * 10 + dval(v@[i as int])
                        > limit) by (nonlinear_arith)
                        requires
                            dec_val(digits_of(t.take(i - from))) > limit,
                            limit >= 0,
                            dval(v@[i as int]) >= 0,
                    ;
                }
            }
        }
        i += 1;
    }
    proof {
        assert(t.take(to - from) =~= t);
    }
    if over || !seen {
        None
    } else {
        Some(acc)
    }
}

/// Count of the ASCII digits within `[from, to)`.
fn count_digits(v: &Vec<char>, from: usize, to: usize) -> (n: usize)
    requires
        from <= to <= v@.len(),
    ensures
        n == digits_of(v@.subrange(from as int, to as int)).len(),
{
    let ghost t = v@.subrange(from as int, to as int);
    let mut n: usize = 0;
    let mut i: usize = from;
    while i < to
        invariant
            from <= i <= to <= v@.len(),
            t == v@.subrange(from as int, to as int),
            n == digits_of(t.take(i - from)).len(),
            n <= i - from,
        decreases to - i,
    {
        proof {
            assert(t.take(i - from + 1).drop_last() =~= t.take(i - from));
            assert(t.take(i - from + 1).last() == v@[i as int]);
        }
        let c = v[i];
        if c as u32 >= 48 && c as u32 <= 57 {
            n += 1;
        }
        i += 1;
    }
    proof {
        assert(t.take(to - from) =~= t);
    }
    n
}

/// Ten to the `k`-th, for small `k`.
fn pow10_u32(k: usize) -> (r: u32)
    requires
        k <= 9,
    ensures
        r as nat == pow10(k as nat),
{
    proof {
        reveal_with_fuel(pow10, 11);
    }
    if k == 0 {
        1
    } else if k == 1 {
        10
    } else if k == 2 {
        100
    } else if k == 3 {
        1000
    } else if k == 4 {
        10000
    } else if k == 5 {
        100000
    } else if k == 6 {
        1000000
    } else if k == 7 {
        10000000
    } else if k == 8 {
        100000000
    } else {
        1000000000
    }
}

/// The fraction sub-parser over a character range (see `spec_parse_fract`).
fn parse_fract_chars(v: &Vec<char>, from: usize, to: usize) -> (r: Option<MixedRational>)
    requires
        from <= to <= v@.len(),
    ensures
        r == spec_parse_fract(v@.subrange(from as int, to as int)),
{
    let ghost t = v@.subrange(from as int, to as int);
    proof {
        lemma_find_props(t, '/');
        lemma_find_props(t, ' ');
    }
    let slash_abs = find_char(v, from, to, '/');
    match slash_abs {
        Some(slash) => {
            proof {
                lemma_find_char_abs(v@, from as int, to as int, '/', Some(slash as int));
            }
            let den = parse_uint(v, slash, to, 4294967295);
            proof {
                assert(t.skip(slash - from as int) =~= v@.subrange(slash as int, to as int));
            }
            match den {
                Some(d) => {
                    let space_abs = find_char(v, from, to, ' ');
                    match space_abs {
                        Some(space) => {
                            proof {
                                lemma_find_char_abs(v@, from as int, to as int, ' ', Some(
                                    space as int,
                                ));
                            }
                            if space < slash {
                                let whole = parse_uint(v, from, space, 2147483647);
                                let num = parse_uint(v, space, slash, 2147483647);
                                proof {
                                    assert(t.take(space - from as int) =~= v@.subrange(
                                        from as int,
                                        space as int,
                                    ));
                                    assert(t.subrange(space - from as int, slash - from as int)
                                        =~= v@.subrange(space as int, slash as int));
                                }
                                match (whole, num) {
                                    (Some(w), Some(n)) => Some(
                                        MixedRational {
                                            value: w as i32,
                                            num: n as i32,
                                            den: d as u32,
                                        },
                                    ),
                                    _ => None,
                                }
                            } else {
                                let num = parse_uint(v, from, slash, 2147483647);
                                proof {
                                    assert(t.take(slash - from as int) =~= v@.subrange(
                                        from as int,
                                        slash as int,
                                    ));
                                }
                                match num {
                                    Some(n) => Some(
                                        MixedRational { value: 0, num: n as i32, den: d as u32 },
                                    ),
                                    None => None,
                                }
                            }
                        },
                        None => {
                            proof {
                                lemma_find_char_abs(v@, from as int, to as int, ' ', None);
                            }
                            let num = parse_uint(v, from, slash, 2147483647);
                            proof {
                                assert(t.take(slash - from as int) =~= v@.subrange(
                                    from as int,
                                    slash as int,
                                ));
                            }
                            match num {
                                Some(n) => Some(
                                    MixedRational { value: 0, num: n as i32, den: d as u32 },
                                ),
                                None => None,
                            }
                        },
                    }
                },
                None => None,
            }
        },
        None => {
            proof {
                lemma_find_char_abs(v@, from as int, to as int, '/', None);
            }
            let whole = parse_uint(v, from, to, 2147483647);
            proof {
                assert(t.take(to - from) =~= t);
                assert(t =~= v@.subrange(from as int, to as int));
            }
            match whole {
                Some(w) => Some(MixedRational { value: w as i32, num: 0, den: 0 }),
                None => None,
            }
        },
    }
}

/// The fraction sub-parser over free text: `"v n/d"`, `"n/d"` or a bare
/// integer, fields stripped of non-digits first; the raw fields are
/// returned without normalization, and unmatched text is no value.
pub fn parse_fract(txt: String) -> (r: Option<MixedRational>)
    ensures
        r == spec_parse_fract(txt@),
{
    let v = chars_vec(txt.as_str());
    proof {
        assert(v@.subrange(0, v@.len() as int) =~= v@);
    }
    parse_fract_chars(&v, 0, v.len())
}

impl MixedRational {
    /// Parses free quantity text into a primary value and, for range text
    /// such as "2-3", an optional upper bound. Vulgar-fraction glyphs are
    /// expanded first, unknown characters dropped, decimals read as a
    /// power-of-ten fraction, and malformed text degrades to an integer
    /// zero with no upper bound.
    pub fn from_string(s: String) -> (r: (Self, Option<Self>))
        ensures
            r == spec_from_string(s@),
    {
        let txt = canonical_chars(s.as_str());
        match find_char(&txt, 0, txt.len(), '.') {
            Some(dot) => {
                proof {
                    lemma_find_char_abs(txt@, 0, txt@.len() as int, '.', Some(dot as int));
                    assert(txt@.subrange(0, txt@.len() as int) =~= txt@);
                    assert(txt@.take(dot as int) =~= txt@.subrange(0, dot as int));
                    assert(txt@.skip(dot as int) =~= txt@.subrange(dot as int, txt@.len() as int));
                }
                let whole = parse_uint(&txt, 0, dot, 2147483647);
                let frac = parse_uint(&txt, dot, txt.len(), 2147483647);
                let fcount = count_digits(&txt, dot, txt.len());
                match (whole, frac) {
                    (Some(w), Some(f)) => {
                        if fcount <= 9 {
                            (MixedRational::new(w as i32, f as i32, pow10_u32(fcount)), None)
                        } else {
                            (MixedRational::zero(), None)
                        }
                    },
                    _ => (MixedRational::zero(), None),
                }
            },
            None => {
                proof {
                    lemma_find_char_abs(txt@, 0, txt@.len() as int, '.', None);
                    assert(txt@.subrange(0, txt@.len() as int) =~= txt@);
                }
                let t = collapse_spaces(&txt);
                if t.len() == 0 {
                    return (MixedRational::zero(), None);
                }
                let a_to: usize;
                let b_from: usize;
                match find_char(&t, 0, t.len(), '-') {
                    Some(dash) => {
                        proof {
                            lemma_find_char_abs(t@, 0, t@.len() as int, '-', Some(dash as int));
                            assert(t@.subrange(0, t@.len() as int) =~= t@);
                        }
                        a_to = dash;
                        b_from = dash + 1;
                    },
                    None => {
                        proof {
                            lemma_find_char_abs(t@, 0, t@.len() as int, '-', None);
                            assert(t@.subrange(0, t@.len() as int) =~= t@);
                        }
                        match find_to(&t) {
                            Some(toi) => {
                                proof {
                                    lemma_find_to_abs(t@, Some(toi as int));
                                }
                                a_to = toi;
                                b_from = toi + 2;
                            },
                            None => {
                                proof {
                                    lemma_find_to_abs(t@, None);
                                }
                                a_to = t.len();
                                b_from = t.len();
                            },
                        }
                    },
                }
                proof {
                    assert(t@.take(a_to as int) =~= t@.subrange(0, a_to as int));
                    assert(t@.skip(b_from as int) =~= t@.subrange(b_from as int, t@.len() as int));
                    assert(t@.take(t@.len() as int) =~= t@);
                    assert(Seq::<char>::empty() =~= t@.subrange(t@.len() as int, t@.len() as int));
                }
                match parse_fract_chars(&t, 0, a_to) {
                    Some(f) => (f, parse_fract_chars(&t, b_from, t.len())),
                    None => (MixedRational::whole(0), None),
                }
            },
        }
    }
}

} // verus!
