//! Parsing one ingredient line of a recipe into a measured item. A line is
//! tidied (whitespace and bracket runs squeezed, a parenthesized note split
//! off, punctuation dropped), and then read as quantity text, unit text and
//! the ingredient's name: the quantity goes through the mixed-number parser
//! and the unit text through the catalog lookup. A line that opens with
//! prose instead of a quantity keeps its whole text as the name, and the
//! JSON null placeholder is no ingredient at all.

use vstd::prelude::*;
use vstd::string::{StringExecFns, StrSliceExecFns};
use crate::measure::MeasureType;
use crate::mixed_rational::MixedRational;
use crate::parse::{
    chars_vec, find_char, is_digit, lemma_find_char_abs, spec_find, spec_from_string, squeeze,
    squeeze_go,
};
use crate::recipe::RecipeItem;
use crate::units::{other_measure, spec_unit_from_text, Measure, Unit};

verus! {

/// The whitespace trimmed off a line's edges.
pub open spec fn is_space(c: char) -> bool {
    c == ' ' || c == '\t' || c == '\n' || c == '\r'
}

/// Whether `c` may appear in quantity text (the parser's allow-list).
pub open spec fn is_quantity_char(c: char) -> bool {
    ||| is_digit(c)
    ||| c == '-'
    ||| c == ' '
    ||| c == '/'
    ||| c == '.'
    ||| c == '¼'
    ||| c == '½'
    ||| c == '¾'
    ||| c == '⅐'
    ||| c == '⅑'
    ||| c == '⅒'
    ||| c == '⅓'
    ||| c == '⅔'
    ||| c == '⅕'
    ||| c == '⅖'
    ||| c == '⅗'
    ||| c == '⅘'
    ||| c == '⅙'
    ||| c == '⅚'
    ||| c == '⅛'
    ||| c == '⅜'
    ||| c == '⅝'
    ||| c == '⅞'
}

pub open spec fn is_ascii_upper(c: char) -> bool {
    65 <= c as u32 && c as u32 <= 90
}

pub open spec fn is_ascii_lower(c: char) -> bool {
    97 <= c as u32 && c as u32 <= 122
}

pub open spec fn is_ascii_alpha(c: char) -> bool {
    is_ascii_upper(c) || is_ascii_lower(c)
}

/// The punctuation dropped from a tidied line before parsing.
pub open spec fn is_mark(c: char) -> bool {
    c == '"' || c == ',' || c == ';' || c == '(' || c == ')'
}

/// The text with leading whitespace removed.
pub open spec fn trim_front(s: Seq<char>) -> Seq<char>
    decreases s.len(),
{
    if s.len() > 0 && is_space(s[0]) {
        trim_front(s.drop_first())
    } else {
        s
    }
}

/// The text with trailing whitespace removed.
pub open spec fn trim_back(s: Seq<char>) -> Seq<char>
    decreases s.len(),
{
    if s.len() > 0 && is_space(s.last()) {
        trim_back(s.drop_last())
    } else {
        s
    }
}

/// The text with whitespace removed from both edges.
pub open spec fn spec_trim(s: Seq<char>) -> Seq<char> {
    trim_back(trim_front(s))
}

/// The text with the dropped punctuation stripped out.
pub open spec fn strip_marks(s: Seq<char>) -> Seq<char>
    decreases s.len(),
{
    if s.len() == 0 {
        Seq::empty()
    } else {
        strip_marks(s.drop_last()) + (if is_mark(s.last()) {
            Seq::<char>::empty()
        } else {
            seq![s.last()]
        })
    }
}

/// The ASCII lowercase form of a letter; anything else is unchanged.
pub open spec fn lower_char(c: char) -> char {
    if c == 'A' {
        'a'
    } else if c == 'B' {
        'b'
    } else if c == 'C' {
        'c'
    } else if c == 'D' {
        'd'
    } else if c == 'E' {
        'e'
    } else if c == 'F' {
        'f'
    } else if c == 'G' {
        'g'
    } else if c == 'H' {
        'h'
    } else if c == 'I' {
        'i'
    } else if c == 'J' {
        'j'
    } else if c == 'K' {
        'k'
    } else if c == 'L' {
        'l'
    } else if c == 'M' {
        'm'
    } else if c == 'N' {
        'n'
    } else if c == 'O' {
        'o'
    } else if c == 'P' {
        'p'
    } else if c == 'Q' {
        'q'
    } else if c == 'R' {
        'r'
    } else if c == 'S' {
        's'
    } else if c == 'T' {
        't'
    } else if c == 'U' {
        'u'
    } else if c == 'V' {
        'v'
    } else if c == 'W' {
        'w'
    } else if c == 'X' {
        'x'
    } else if c == 'Y' {
        'y'
    } else if c == 'Z' {
        'z'
    } else {
        c
    }
}

/// The lookup key a raw unit field becomes: its ASCII letters only, all
/// lowercased.
pub open spec fn spec_unit_key(s: Seq<char>) -> Seq<char>
    decreases s.len(),
{
    if s.len() == 0 {
        Seq::empty()
    } else {
        spec_unit_key(s.drop_last()) + (if is_ascii_alpha(s.last()) {
            seq![lower_char(s.last())]
        } else {
            Seq::<char>::empty()
        })
    }
}

/// The position of the first set flag.
pub open spec fn first_flag(b: Seq<bool>) -> Option<int>
    decreases b.len(),
{
    if b.len() == 0 {
        None
    } else if b[0] {
        Some(0)
    } else {
        match first_flag(b.drop_first()) {
            Some(i) => Some(i + 1),
            None => None,
        }
    }
}

/// `first_flag` returns the first set position, or `None` when none is set.
proof fn lemma_first_flag_props(b: Seq<bool>)
    ensures
        match first_flag(b) {
            Some(i) => 0 <= i < b.len() && b[i] && (forall|j: int| 0 <= j < i ==> !b[j]),
            None => forall|j: int| 0 <= j < b.len() ==> !b[j],
        },
    decreases b.len(),
{
    if b.len() == 0 {
    } else if b[0] {
    } else {
        lemma_first_flag_props(b.drop_first());
        assert forall|j: int| 1 <= j < b.len() implies b.drop_first()[j - 1] == b[j] by {}
    }
}

/// A position with the first-set properties is exactly what `first_flag`
/// returns.
proof fn lemma_first_flag_abs(b: Seq<bool>, r: Option<int>)
    requires
        match r {
            Some(i) => 0 <= i < b.len() && b[i] && (forall|j: int| 0 <= j < i ==> !b[j]),
            None => forall|j: int| 0 <= j < b.len() ==> !b[j],
        },
    ensures
        first_flag(b) == r,
{
    lemma_first_flag_props(b);
    match r {
        Some(i) => {
            match first_flag(b) {
                Some(i1) => {
                    if i1 < i {
                        assert(!b[i1]);
                    } else if i1 > i {
                        assert(!b[i]);
                    }
                },
                None => {
                    assert(!b[i]);
                },
            }
        },
        None => {
            match first_flag(b) {
                Some(i1) => {
                    assert(!b[i1]);
                },
                None => {},
            }
        },
    }
}

/// Where quantity-text characters stand in the line.
pub open spec fn quantity_flags(s: Seq<char>) -> Seq<bool> {
    s.map_values(|c: char| is_quantity_char(c))
}

/// Where characters outside the quantity allow-list stand in the line.
pub open spec fn other_flags(s: Seq<char>) -> Seq<bool> {
    s.map_values(|c: char| !is_quantity_char(c))
}

/// Where ASCII letters stand in the line.
pub open spec fn alpha_flags(s: Seq<char>) -> Seq<bool> {
    s.map_values(|c: char| is_ascii_alpha(c))
}

/// The position of the first " or " alternative separator.
pub open spec fn spec_find_or(s: Seq<char>) -> Option<int>
    decreases s.len(),
{
    if s.len() < 4 {
        None
    } else if s[0] == ' ' && s[1] == 'o' && s[2] == 'r' && s[3] == ' ' {
        Some(0)
    } else {
        match spec_find_or(s.drop_first()) {
            Some(i) => Some(i + 1),
            None => None,
        }
    }
}

/// Whether an " or " alternative separator starts at position `j`.
pub open spec fn or_window(s: Seq<char>, j: int) -> bool {
    s[j] == ' ' && s[j + 1] == 'o' && s[j + 2] == 'r' && s[j + 3] == ' '
}

/// `spec_find_or` returns the first " or " window, or `None`.
proof fn lemma_find_or_props(s: Seq<char>)
    ensures
        match spec_find_or(s) {
            Some(i) => 0 <= i && i + 3 < s.len() && or_window(s, i) && (forall|j: int|
                0 <= j < i ==> !#[trigger] or_window(s, j)),
            None => forall|j: int| 0 <= j && j + 3 < s.len() ==> !#[trigger] or_window(s, j),
        },
    decreases s.len(),
{
    if s.len() < 4 {
    } else if s[0] == ' ' && s[1] == 'o' && s[2] == 'r' && s[3] == ' ' {
        assert(or_window(s, 0));
    } else {
        lemma_find_or_props(s.drop_first());
        assert forall|j: int| 1 <= j < s.len() implies s.drop_first()[j - 1] == s[j] by {}
        let t = s.drop_first();
        assert forall|j: int| 0 <= j && j + 3 < t.len() implies (or_window(t, j) == or_window(
            s,
            j + 1,
        )) by {}
        match spec_find_or(t) {
            Some(i) => {
                assert(or_window(s, i + 1));
                assert forall|j: int| 0 <= j < i + 1 implies !#[trigger] or_window(s, j) by {
                    if j == 0 {
                        assert(!or_window(s, 0));
                    } else {
                        assert(!or_window(t, j - 1));
                    }
                }
            },
            None => {
                assert forall|j: int| 0 <= j && j + 3 < s.len() implies !#[trigger] or_window(
                    s,
                    j,
                ) by {
                    if j == 0 {
                        assert(!or_window(s, 0));
                    } else {
                        assert(!or_window(t, j - 1));
                    }
                }
            },
        }
    }
}

/// The tidied line and its parenthesized note: bracket runs squeezed, the
/// note taken from between the first bracket pair (unless it opens on a
/// comma, or the pair is inverted), the punctuation stripped.
pub open spec fn spec_clean_line(line: Seq<char>) -> (Seq<char>, Seq<char>) {
    let t = squeeze(squeeze(squeeze(spec_trim(line), ' '), '('), ')');
    let split = match (spec_find(t, '('), spec_find(t, ')')) {
        (Some(l), Some(r)) => {
            if l + 1 < t.len() && t[l + 1] == ',' {
                (t, Seq::<char>::empty())
            } else if l + 1 <= r {
                (t.take(l), t.subrange(l + 1, r))
            } else {
                (t, Seq::<char>::empty())
            }
        },
        _ => (t, Seq::<char>::empty()),
    };
    (strip_marks(split.0), split.1)
}

/// What a measured line (one that passed the null and prose checks) parses
/// to: the text before the first letter is the quantity (cut at an " or "
/// alternative first), the word after it is the unit key, the remainder the
/// name. An unrecognized unit keeps its raw text glued onto the name.
pub open spec fn spec_measured(s: Seq<char>, note: Seq<char>) -> (
    MixedRational,
    Option<MixedRational>,
    Measure,
    Seq<char>,
    Seq<char>,
    bool,
) {
    let s3 = match spec_find_or(s) {
        Some(p) => s.take(p),
        None => s,
    };
    let alpha = match first_flag(alpha_flags(s3)) {
        Some(i) => i,
        None => s3.len() as int,
    };
    let parsed = spec_from_string(s3.take(alpha));
    let rest = s3.skip(alpha);
    let (name, unit_txt) = match spec_find(rest, ' ') {
        Some(sp) => (rest.skip(sp + 1), spec_unit_key(rest.take(sp))),
        None => (Seq::<char>::empty(), rest),
    };
    let m = spec_unit_from_text(unit_txt);
    if m.unit == Unit::Other {
        (parsed.0, parsed.1, m, unit_txt + seq![' '] + name, note, false)
    } else {
        let plural = unit_txt.len() > 0 && unit_txt.last() == 's';
        (parsed.0, parsed.1, m, name, note, plural)
    }
}

/// What one ingredient line parses to: `None` for the null placeholder,
/// otherwise the quantity (with optional range upper bound), the unit, the
/// name, the note text (empty = none) and the plurality flag. A line whose
/// first character outside the quantity allow-list comes before any
/// quantity character is all prose: it keeps the sentinel unit and its
/// whole text as the name.
pub open spec fn spec_ingredient(line: Seq<char>) -> Option<
    (MixedRational, Option<MixedRational>, Measure, Seq<char>, Seq<char>, bool),
> {
    let (s, note) = spec_clean_line(line);
    if s == seq!['n', 'u', 'l', 'l'] {
        None
    } else {
        let fq = first_flag(quantity_flags(s));
        let fo = first_flag(other_flags(s));
        if fq is Some && fo is Some && fo->0 < fq->0 {
            Some(
                (
                    MixedRational { value: 0, num: 0, den: 0 },
                    None,
                    other_measure(),
                    s,
                    Seq::<char>::empty(),
                    false,
                ),
            )
        } else {
            Some(spec_measured(s, note))
        }
    }
}

/// The lowercase literal for an uppercase ASCII letter.
fn lower_lit(c: char) -> (s: &'static str)
    requires
        is_ascii_upper(c),
    ensures
        s@ == seq![lower_char(c)],
{
    if c == 'A' {
        proof {
            reveal_strlit("a");
            assert("a"@ =~= seq![lower_char('A')]);
        }
        "a"
    } else if c == 'B' {
        proof {
            reveal_strlit("b");
            assert("b"@ =~= seq![lower_char('B')]);
        }
        "b"
    } else if c == 'C' {
        proof {
            reveal_strlit("c");
            assert("c"@ =~= seq![lower_char('C')]);
        }
        "c"
    } else if c == 'D' {
        proof {
            reveal_strlit("d");
            assert("d"@ =~= seq![lower_char('D')]);
        }
        "d"
    } else if c == 'E' {
        proof {
            reveal_strlit("e");
            assert("e"@ =~= seq![lower_char('E')]);
        }
        "e"
    } else if c == 'F' {
        proof {
            reveal_strlit("f");
            assert("f"@ =~= seq![lower_char('F')]);
        }
        "f"
    } else if c == 'G' {
        proof {
            reveal_strlit("g");
            assert("g"@ =~= seq![lower_char('G')]);
        }
        "g"
    } else if c == 'H' {
        proof {
            reveal_strlit("h");
            assert("h"@ =~= seq![lower_char('H')]);
        }
        "h"
    } else if c == 'I' {
        proof {
            reveal_strlit("i");
            assert("i"@ =~= seq![lower_char('I')]);
        }
        "i"
    } else if c == 'J' {
        proof {
            reveal_strlit("j");
            assert("j"@ =~= seq![lower_char('J')]);
        }
        "j"
    } else if c == 'K' {
        proof {
            reveal_strlit("k");
            assert("k"@ =~= seq![lower_char('K')]);
        }
        "k"
    } else if c == 'L' {
        proof {
            reveal_strlit("l");
            assert("l"@ =~= seq![lower_char('L')]);
        }
        "l"
    } else if c == 'M' {
        proof {
            reveal_strlit("m");
            assert("m"@ =~= seq![lower_char('M')]);
        }
        "m"
    } else if c == 'N' {
        proof {
            reveal_strlit("n");
            assert("n"@ =~= seq![lower_char('N')]);
        }
        "n"
    } else if c == 'O' {
        proof {
            reveal_strlit("o");
            assert("o"@ =~= seq![lower_char('O')]);
        }
        "o"
    } else if c == 'P' {
        proof {
            reveal_strlit("p");
            assert("p"@ =~= seq![lower_char('P')]);
        }
        "p"
    } else if c == 'Q' {
        proof {
            reveal_strlit("q");
            assert("q"@ =~= seq![lower_char('Q')]);
        }
        "q"
    } else if c == 'R' {
        proof {
            reveal_strlit("r");
            assert("r"@ =~= seq![lower_char('R')]);
        }
        "r"
    } else if c == 'S' {
        proof {
            reveal_strlit("s");
            assert("s"@ =~= seq![lower_char('S')]);
        }
        "s"
    } else if c == 'T' {
        proof {
            reveal_strlit("t");
            assert("t"@ =~= seq![lower_char('T')]);
        }
        "t"
    } else if c == 'U' {
        proof {
            reveal_strlit("u");
            assert("u"@ =~= seq![lower_char('U')]);
        }
        "u"
    } else if c == 'V' {
        proof {
            reveal_strlit("v");
            assert("v"@ =~= seq![lower_char('V')]);
        }
        "v"
    } else if c == 'W' {
        proof {
            reveal_strlit("w");
            assert("w"@ =~= seq![lower_char('W')]);
        }
        "w"
    } else if c == 'X' {
        proof {
            reveal_strlit("x");
            assert("x"@ =~= seq![lower_char('X')]);
        }
        "x"
    } else if c == 'Y' {
        proof {
            reveal_strlit("y");
            assert("y"@ =~= seq![lower_char('Y')]);
        }
        "y"
    } else {
        proof {
            assert(c == 'Z');
            reveal_strlit("z");
            assert("z"@ =~= seq![lower_char('Z')]);
        }
        "z"
    }
}

fn is_space_char(c: char) -> (b: bool)
    ensures
        b == is_space(c),
{
    c == ' ' || c == '\t' || c == '\n' || c == '\r'
}

fn is_mark_char(c: char) -> (b: bool)
    ensures
        b == is_mark(c),
{
    c == '"' || c == ',' || c == ';' || c == '(' || c == ')'
}

fn is_quantity(c: char) -> (b: bool)
    ensures
        b == is_quantity_char(c),
{
    (c as u32 >= 48 && c as u32 <= 57) || c == '-' || c == ' ' || c == '/' || c == '.'
        || c == '¼' || c == '½' || c == '¾' || c == '⅐' || c == '⅑' || c == '⅒' || c == '⅓'
        || c == '⅔' || c == '⅕' || c == '⅖' || c == '⅗' || c == '⅘' || c == '⅙' || c == '⅚'
        || c == '⅛' || c == '⅜' || c == '⅝' || c == '⅞'
}

fn is_alpha(c: char) -> (b: bool)
    ensures
        b == is_ascii_alpha(c),
{
    (c as u32 >= 65 && c as u32 <= 90) || (c as u32 >= 97 && c as u32 <= 122)
}

/// The text with whitespace trimmed off both edges.
fn trim_str(s: &str) -> (r: String)
    ensures
        r@ == spec_trim(s@),
{
    let n = s.unicode_len();
    let mut start: usize = 0;
    while start < n && is_space_char(s.get_char(start))
        invariant
            0 <= start <= n,
            n == s@.len(),
            forall|k: int| 0 <= k < start ==> is_space(s@[k]),
        decreases n - start,
    {
        start += 1;
    }
    let mut end: usize = n;
    while end > start && is_space_char(s.get_char(end - 1))
        invariant
            start <= end <= n,
            n == s@.len(),
            forall|k: int| end <= k < n ==> is_space(s@[k]),
        decreases end,
    {
        end -= 1;
    }
    proof {
        lemma_trim_front_skip(s@, start as int);
        let u = s@.skip(start as int);
        assert forall|k: int| end - start <= k < u.len() implies is_space(u[k]) by {
            assert(u[k] == s@[start + k]);
        }
        lemma_trim_back_take(u, end - start);
        assert(u.take(end - start) =~= s@.subrange(start as int, end as int));
    }
    s.substring_char(start, end).to_owned()
}

proof fn lemma_trim_front_skip(s: Seq<char>, i: int)
    requires
        0 <= i <= s.len(),
        forall|k: int| 0 <= k < i ==> is_space(s[k]),
        i == s.len() || !is_space(s[i]),
    ensures
        trim_front(s) == s.skip(i),
    decreases i,
{
    if i == 0 {
        assert(s.skip(0) =~= s);
    } else {
        assert(is_space(s[0]));
        lemma_trim_front_skip(s.drop_first(), i - 1);
        assert(s.drop_first().skip(i - 1) =~= s.skip(i));
    }
}

proof fn lemma_trim_back_take(s: Seq<char>, e: int)
    requires
        0 <= e <= s.len(),
        forall|k: int| e <= k < s.len() ==> is_space(s[k]),
        e == 0 || !is_space(s[e - 1]),
    ensures
        trim_back(s) == s.take(e),
    decreases s.len() - e,
{
    if e == s.len() {
        assert(s.take(e) =~= s);
    } else {
        assert(is_space(s.last()));
        lemma_trim_back_take(s.drop_last(), e);
        assert(s.drop_last().take(e) =~= s.take(e));
    }
}

/// The text with runs of `sep` squeezed to one and edges trimmed of it.
fn squeeze_str(s: &str, sep: char, sep_lit: &'static str) -> (r: String)
    requires
        sep_lit@ == seq![sep],
    ensures
        r@ == squeeze(s@, sep),
{
    let n = s.unicode_len();
    let mut out = String::new();
    let mut started = false;
    let mut pending = false;
    let mut i: usize = 0;
    proof {
        assert(s@.skip(0) =~= s@);
    }
    while i < n
        invariant
            0 <= i <= n,
            n == s@.len(),
            sep_lit@ == seq![sep],
            squeeze(s@, sep) == out@ + squeeze_go(s@.skip(i as int), sep, started, pending),
        decreases n - i,
    {
        proof {
            assert(s@.skip(i as int)[0] == s@[i as int]);
            assert(s@.skip(i as int).drop_first() =~= s@.skip(i + 1));
        }
        let c = s.get_char(i);
        if c == sep {
            pending = started;
        } else {
            if pending {
                out.append(sep_lit);
            }
            let piece = s.substring_char(i, i + 1);
            proof {
                assert(piece@ =~= seq![s@[i as int]]);
            }
            out.append(piece);
            started = true;
            pending = false;
        }
        i += 1;
    }
    proof {
        assert(s@.skip(n as int) =~= Seq::<char>::empty());
        assert(out@ =~= squeeze(s@, sep));
    }
    out
}

/// The text with the dropped punctuation stripped out.
fn strip_marks_str(s: &str) -> (r: String)
    ensures
        r@ == strip_marks(s@),
{
    let n = s.unicode_len();
    let mut out = String::new();
    let mut i: usize = 0;
    while i < n
        invariant
            0 <= i <= n,
            n == s@.len(),
            out@ == strip_marks(s@.take(i as int)),
        decreases n - i,
    {
        proof {
            assert(s@.take(i + 1).drop_last() =~= s@.take(i as int));
            assert(s@.take(i + 1).last() == s@[i as int]);
        }
        let c = s.get_char(i);
        if !is_mark_char(c) {
            let piece = s.substring_char(i, i + 1);
            proof {
                assert(piece@ =~= seq![s@[i as int]]);
            }
            out.append(piece);
        }
        i += 1;
    }
    proof {
        assert(s@.take(n as int) =~= s@);
    }
    out
}

/// The lookup key of the unit field within `[from, to)`: ASCII letters
/// only, lowercased.
fn unit_key_str(s: &str, from: usize, to: usize) -> (r: String)
    requires
        from <= to <= s@.len(),
    ensures
        r@ == spec_unit_key(s@.subrange(from as int, to as int)),
{
    let ghost t = s@.subrange(from as int, to as int);
    let mut out = String::new();
    let mut i: usize = from;
    while i < to
        invariant
            from <= i <= to <= s@.len(),
            t == s@.subrange(from as int, to as int),
            out@ == spec_unit_key(t.take(i - from)),
        decreases to - i,
    {
        proof {
            assert(t.take(i - from + 1).drop_last() =~= t.take(i - from));
            assert(t.take(i - from + 1).last() == s@[i as int]);
        }
        let c = s.get_char(i);
        if c as u32 >= 65 && c as u32 <= 90 {
            out.append(lower_lit(c));
        } else if c as u32 >= 97 && c as u32 <= 122 {
            let piece = s.substring_char(i, i + 1);
            proof {
                assert(piece@ =~= seq![s@[i as int]]);
                assert(lower_char(s@[i as int]) == s@[i as int]);
            }
            out.append(piece);
        }
        i += 1;
    }
    proof {
        assert(t.take(to - from) =~= t);
    }
    out
}

/// First position in `[from, to)` whose character satisfies the quantity
/// allow-list, as `first_flag` over that window sees it.
fn first_quantity(v: &Vec<char>, from: usize, to: usize) -> (r: Option<usize>)
    requires
        from <= to <= v@.len(),
    ensures
        match r {
            Some(i) => from <= i < to && first_flag(
                quantity_flags(v@.subrange(from as int, to as int)),
            ) == Some(i - from as int),
            None => first_flag(quantity_flags(v@.subrange(from as int, to as int))) is None,
        },
{
    let ghost t = v@.subrange(from as int, to as int);
    let mut i: usize = from;
    while i < to
        invariant
            from <= i <= to <= v@.len(),
            t == v@.subrange(from as int, to as int),
            forall|k: int| from <= k < i ==> !is_quantity_char(v@[k]),
        decreases to - i,
    {
        if is_quantity(v[i]) {
            proof {
                assert forall|j: int| 0 <= j < i - from implies !quantity_flags(t)[j] by {
                    assert(t[j] == v@[from + j]);
                }
                assert(quantity_flags(t)[i - from as int] == is_quantity_char(t[i - from]));
                lemma_first_flag_abs(quantity_flags(t), Some(i - from as int));
            }
            return Some(i);
        }
        i += 1;
    }
    proof {
        assert forall|j: int| 0 <= j < t.len() implies !quantity_flags(t)[j] by {
            assert(t[j] == v@[from + j]);
        }
        lemma_first_flag_abs(quantity_flags(t), None);
    }
    None
}

/// First position in `[from, to)` whose character falls outside the
/// quantity allow-list.
fn first_nonquantity(v: &Vec<char>, from: usize, to: usize) -> (r: Option<usize>)
    requires
        from <= to <= v@.len(),
    ensures
        match r {
            Some(i) => from <= i < to && first_flag(
                other_flags(v@.subrange(from as int, to as int)),
            ) == Some(i - from as int),
            None => first_flag(other_flags(v@.subrange(from as int, to as int))) is None,
        },
{
    let ghost t = v@.subrange(from as int, to as int);
    let mut i: usize = from;
    while i < to
        invariant
            from <= i <= to <= v@.len(),
            t == v@.subrange(from as int, to as int),
            forall|k: int| from <= k < i ==> is_quantity_char(v@[k]),
        decreases to - i,
    {
        if !is_quantity(v[i]) {
            proof {
                assert forall|j: int| 0 <= j < i - from implies !other_flags(t)[j] by {
                    assert(t[j] == v@[from + j]);
                }
                assert(other_flags(t)[i - from as int] == !is_quantity_char(t[i - from]));
                lemma_first_flag_abs(other_flags(t), Some(i - from as int));
            }
            return Some(i);
        }
        i += 1;
    }
    proof {
        assert forall|j: int| 0 <= j < t.len() implies !other_flags(t)[j] by {
            assert(t[j] == v@[from + j]);
        }
        lemma_first_flag_abs(other_flags(t), None);
    }
    None
}

/// First ASCII letter in `[from, to)`.
fn first_alpha(v: &Vec<char>, from: usize, to: usize) -> (r: Option<usize>)
    requires
        from <= to <= v@.len(),
    ensures
        match r {
            Some(i) => from <= i < to && first_flag(
                alpha_flags(v@.subrange(from as int, to as int)),
            ) == Some(i - from as int),
            None => first_flag(alpha_flags(v@.subrange(from as int, to as int))) is None,
        },
{
    let ghost t = v@.subrange(from as int, to as int);
    let mut i: usize = from;
    while i < to
        invariant
            from <= i <= to <= v@.len(),
            t == v@.subrange(from as int, to as int),
            forall|k: int| from <= k < i ==> !is_ascii_alpha(v@[k]),
        decreases to - i,
    {
        if is_alpha(v[i]) {
            proof {
                assert forall|j: int| 0 <= j < i - from implies !alpha_flags(t)[j] by {
                    assert(t[j] == v@[from + j]);
                }
                assert(alpha_flags(t)[i - from as int] == is_ascii_alpha(t[i - from]));
                lemma_first_flag_abs(alpha_flags(t), Some(i - from as int));
            }
            return Some(i);
        }
        i += 1;
    }
    proof {
        assert forall|j: int| 0 <= j < t.len() implies !alpha_flags(t)[j] by {
            assert(t[j] == v@[from + j]);
        }
        lemma_first_flag_abs(alpha_flags(t), None);
    }
    None
}

/// A position with the first-window properties is exactly what
/// `spec_find_or` returns.
proof fn lemma_find_or_abs(s: Seq<char>, r: Option<int>)
    requires
        match r {
            Some(j) => 0 <= j && j + 3 < s.len() && or_window(s, j) && (forall|k: int|
                0 <= k < j ==> !#[trigger] or_window(s, k)),
            None => forall|k: int| 0 <= k && k + 3 < s.len() ==> !#[trigger] or_window(s, k),
        },
    ensures
        spec_find_or(s) == r,
{
    lemma_find_or_props(s);
    match r {
        Some(j) => {
            match spec_find_or(s) {
                Some(i1) => {
                    if i1 < j {
                        assert(!or_window(s, i1));
                    } else if i1 > j {
                        assert(!or_window(s, j));
                    }
                },
                None => {
                    assert(!or_window(s, j));
                },
            }
        },
        None => {
            match spec_find_or(s) {
                Some(i1) => {
                    assert(!or_window(s, i1));
                },
                None => {},
            }
        },
    }
}

/// First " or " separator in the text.
fn find_or(v: &Vec<char>) -> (r: Option<usize>)
    ensures
        match r {
            Some(j) => j + 3 < v@.len() && spec_find_or(v@) == Some(j as int),
            None => spec_find_or(v@) is None,
        },
{
    if v.len() < 4 {
        proof {
            lemma_find_or_abs(v@, None);
        }
        return None;
    }
    let mut i: usize = 0;
    while i < v.len() - 3
        invariant
            4 <= v@.len(),
            0 <= i <= v@.len(),
            forall|k: int| 0 <= k < i ==> !#[trigger] or_window(v@, k),
        decreases v@.len() - i,
    {
        if v[i] == ' ' && v[i + 1] == 'o' && v[i + 2] == 'r' && v[i + 3] == ' ' {
            proof {
                assert(or_window(v@, i as int));
                lemma_find_or_abs(v@, Some(i as int));
            }
            return Some(i);
        }
        proof {
            assert(!or_window(v@, i as int));
        }
        i += 1;
    }
    proof {
        lemma_find_or_abs(v@, None);
    }
    None
}

/// The tidied line and its parenthesized note (see `spec_clean_line`).
fn clean_line(line: &str) -> (r: (String, String))
    ensures
        (r.0@, r.1@) == spec_clean_line(line@),
{
    proof {
        reveal_strlit(" ");
        assert(" "@ =~= seq![' ']);
        reveal_strlit("(");
        assert("("@ =~= seq!['(']);
        reveal_strlit(")");
        assert(")"@ =~= seq![')']);
    }
    let t0 = trim_str(line);
    let t1 = squeeze_str(t0.as_str(), ' ', " ");
    let t2 = squeeze_str(t1.as_str(), '(', "(");
    let t3 = squeeze_str(t2.as_str(), ')', ")");
    let c3 = chars_vec(t3.as_str());
    proof {
        assert(c3@.subrange(0, c3@.len() as int) =~= t3@);
    }
    let lpos = find_char(&c3, 0, c3.len(), '(');
    let rpos = find_char(&c3, 0, c3.len(), ')');
    proof {
        lemma_find_char_abs(c3@, 0, c3@.len() as int, '(', match lpos {
            Some(l) => Some(l as int),
            None => None,
        });
        lemma_find_char_abs(c3@, 0, c3@.len() as int, ')', match rpos {
            Some(p) => Some(p as int),
            None => None,
        });
    }
    let s_str: String;
    let note: String;
    match (lpos, rpos) {
        (Some(l), Some(rp)) => {
            if l + 1 < c3.len() && *char_at(&c3, l + 1) == ',' {
                s_str = t3;
                note = String::new();
            } else if l + 1 <= rp {
                note = t3.as_str().substring_char(l + 1, rp).to_owned();
                s_str = t3.as_str().substring_char(0, l).to_owned();
                proof {
                    assert(s_str@ =~= t3@.take(l as int));
                }
            } else {
                s_str = t3;
                note = String::new();
            }
        },
        _ => {
            s_str = t3;
            note = String::new();
        },
    }
    let s2 = strip_marks_str(s_str.as_str());
    (s2, note)
}

/// Parses a measured line (one that passed the null and prose checks); see
/// `spec_measured`.
#[verifier::rlimit(50)]
fn measured_item(s2: String, note: String) -> (r: RecipeItem)
    ensures
        ({
            let p = spec_measured(s2@, note@);
            &&& r.measure.count == p.0
            &&& r.measure.unit == p.2
            &&& r.measure_b == match p.1 {
                Some(c) => Some(MeasureType { count: c, unit: p.2 }),
                None => None::<MeasureType>,
            }
            &&& r.name@ == p.3
            &&& ((r.note is Some) <==> p.4.len() > 0)
            &&& (p.4.len() > 0 ==> r.note->0@ == p.4)
            &&& r.plural == p.5
        }),
{
    let c2 = chars_vec(s2.as_str());
    proof {
        assert(c2@.subrange(0, c2@.len() as int) =~= s2@);
    }
    let cut: usize = match find_or(&c2) {
        Some(p) => p,
        None => c2.len(),
    };
    proof {
        assert(s2@.take(s2@.len() as int) =~= s2@);
    }
    let ghost s3 = match spec_find_or(s2@) {
        Some(p) => s2@.take(p),
        None => s2@,
    };
    proof {
        assert(s3 =~= s2@.take(cut as int));
        assert(c2@.subrange(0, cut as int) =~= s3);
    }
    let alpha: usize = match first_alpha(&c2, 0, cut) {
        Some(i) => i,
        None => cut,
    };
    let fract_string = s2.as_str().substring_char(0, alpha).to_owned();
    proof {
        assert(fract_string@ =~= s3.take(alpha as int));
    }
    let (count, count_b) = MixedRational::from_string(fract_string);
    let ghost rest = s3.skip(alpha as int);
    proof {
        assert(rest =~= c2@.subrange(alpha as int, cut as int));
    }
    let sp = find_char(&c2, alpha, cut, ' ');
    proof {
        lemma_find_char_abs(c2@, alpha as int, cut as int, ' ', match sp {
            Some(p) => Some(p as int),
            None => None,
        });
    }
    let name_string: String;
    let unit_string: String;
    match sp {
        Some(p) => {
            name_string = s2.as_str().substring_char(p + 1, cut).to_owned();
            unit_string = unit_key_str(s2.as_str(), alpha, p);
            proof {
                assert(name_string@ =~= rest.skip(p - alpha + 1));
                assert(s2@.subrange(alpha as int, p as int) =~= rest.take(p - alpha as int));
            }
        },
        None => {
            name_string = String::new();
            unit_string = s2.as_str().substring_char(alpha, cut).to_owned();
            proof {
                assert(unit_string@ =~= rest);
            }
        },
    }
    let un = unit_string.as_str().unicode_len();
    let plural = un > 0 && unit_string.as_str().get_char(un - 1) == 's';
    let m = Measure::new(unit_string.clone());
    let note_opt: Option<String> = if note.as_str().is_empty() {
        None
    } else {
        Some(note)
    };
    if matches!(m.unit, Unit::Other) {
        let mut nm = unit_string;
        proof {
            reveal_strlit(" ");
            assert(" "@ =~= seq![' ']);
        }
        nm.append(" ");
        nm.append(name_string.as_str());
        RecipeItem {
            measure: MeasureType { count, unit: m },
            measure_b: match count_b {
                Some(c) => Some(MeasureType { count: c, unit: m }),
                None => None,
            },
            name: nm,
            note: note_opt,
            plural: false,
        }
    } else {
        RecipeItem {
            measure: MeasureType { count, unit: m },
            measure_b: match count_b {
                Some(c) => Some(MeasureType { count: c, unit: m }),
                None => None,
            },
            name: name_string,
            note: note_opt,
            plural,
        }
    }
}

/// Parses one ingredient line into a measured item: the quantity text up to
/// the first letter goes through the mixed-number parser, the word after it
/// resolves against the unit catalog, and the rest is the ingredient's
/// name. A parenthesized remark becomes the note, a line of prose keeps its
/// whole text as the name under the sentinel unit, and the JSON null
/// placeholder yields nothing.
pub fn ingredient_from_text(line: String) -> (r: Option<RecipeItem>)
    ensures
        (r is None) <==> (spec_ingredient(line@) is None),
        r is Some ==> ({
            let p = spec_ingredient(line@)->0;
            &&& r->0.measure.count == p.0
            &&& r->0.measure.unit == p.2
            &&& r->0.measure_b == match p.1 {
                Some(c) => Some(MeasureType { count: c, unit: p.2 }),
                None => None::<MeasureType>,
            }
            &&& r->0.name@ == p.3
            &&& ((r->0.note is Some) <==> p.4.len() > 0)
            &&& (p.4.len() > 0 ==> r->0.note->0@ == p.4)
            &&& r->0.plural == p.5
        }),
{
    let (s2, note) = clean_line(line.as_str());
    let c2 = chars_vec(s2.as_str());
    proof {
        assert(c2@.subrange(0, c2@.len() as int) =~= s2@);
    }
    if c2.len() == 4 {
        if *char_at(&c2, 0) == 'n' && *char_at(&c2, 1) == 'u' && *char_at(&c2, 2) == 'l'
            && *char_at(&c2, 3) == 'l' {
            proof {
                assert(s2@ =~= seq!['n', 'u', 'l', 'l']);
            }
            return None;
        }
    }
    proof {
        if s2@.len() == 4 {
            assert(seq!['n', 'u', 'l', 'l'][0] == 'n' && seq!['n', 'u', 'l', 'l'][1] == 'u'
                && seq!['n', 'u', 'l', 'l'][2] == 'l' && seq!['n', 'u', 'l', 'l'][3] == 'l');
            assert(s2@ != seq!['n', 'u', 'l', 'l']);
        } else {
            assert(s2@.len() != seq!['n', 'u', 'l', 'l'].len());
        }
    }
    let fq = first_quantity(&c2, 0, c2.len());
    let fo = first_nonquantity(&c2, 0, c2.len());
    let prose = match (fq, fo) {
        (Some(q0), Some(o0)) => o0 < q0,
        _ => false,
    };
    if prose {
        return Some(
            RecipeItem {
                measure: MeasureType {
                    count: MixedRational::zero(),
                    unit: Measure { unit: Unit::Other, fluid: false },
                },
                measure_b: None,
                name: s2,
                note: None,
                plural: false,
            },
        );
    }
    Some(measured_item(s2, note))
}

/// One character of the text.
fn char_at(v: &Vec<char>, i: usize) -> (c: &char)
    requires
        i < v@.len(),
    ensures
        *c == v@[i as int],
{
    &v[i]
}

} // verus!
