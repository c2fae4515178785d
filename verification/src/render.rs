//! Lossless text rendering of a quantity: `"W N/D"`, `"N/D"`, `"W"`, or the
//! empty string, chosen by which of the whole part and the denominator are
//! nonzero.

use vstd::prelude::*;
use vstd::string::StringExecFns;
use crate::mixed_rational::MixedRational;

verus! {

/// The decimal digit character for `d`.
pub open spec fn digit_char(d: int) -> char {
    if d == 0 {
        '0'
    } else if d == 1 {
        '1'
    } else if d == 2 {
        '2'
    } else if d == 3 {
        '3'
    } else if d == 4 {
        '4'
    } else if d == 5 {
        '5'
    } else if d == 6 {
        '6'
    } else if d == 7 {
        '7'
    } else if d == 8 {
        '8'
    } else {
        '9'
    }
}

/// Decimal digits of an unsigned number, most significant first.
pub open spec fn spec_uint_str(n: nat) -> Seq<char>
    decreases n,
{
    if n < 10 {
        seq![digit_char(n as int)]
    } else {
        spec_uint_str(n / 10) + seq![digit_char((n % 10) as int)]
    }
}

/// Decimal rendering of a signed number.
pub open spec fn spec_int_str(v: int) -> Seq<char> {
    if v < 0 {
        seq!['-'] + spec_uint_str((-v) as nat)
    } else {
        spec_uint_str(v as nat)
    }
}

/// What `to_text` returns for each shape of the value.
pub open spec fn spec_text(q: MixedRational) -> Seq<char> {
    if q.den != 0 && q.value != 0 {
        spec_int_str(q.value as int) + seq![' '] + spec_int_str(q.num as int) + seq!['/']
            + spec_uint_str(q.den as nat)
    } else if q.den != 0 {
        spec_int_str(q.num as int) + seq!['/'] + spec_uint_str(q.den as nat)
    } else if q.value != 0 {
        spec_int_str(q.value as int)
    } else {
        Seq::empty()
    }
}

fn digit_str(d: u32) -> (s: &'static str)
    requires
        d < 10,
    ensures
        s@ == seq![digit_char(d as int)],
{
    if d == 0 {
        proof {
            reveal_strlit("0");
            assert("0"@ =~= seq![digit_char(0)]);
        }
        "0"
    } else if d == 1 {
        proof {
            reveal_strlit("1");
            assert("1"@ =~= seq![digit_char(1)]);
        }
        "1"
    } else if d == 2 {
        proof {
            reveal_strlit("2");
            assert("2"@ =~= seq![digit_char(2)]);
        }
        "2"
    } else if d == 3 {
        proof {
            reveal_strlit("3");
            assert("3"@ =~= seq![digit_char(3)]);
        }
        "3"
    } else if d == 4 {
        proof {
            reveal_strlit("4");
            assert("4"@ =~= seq![digit_char(4)]);
        }
        "4"
    } else if d == 5 {
        proof {
            reveal_strlit("5");
            assert("5"@ =~= seq![digit_char(5)]);
        }
        "5"
    } else if d == 6 {
        proof {
            reveal_strlit("6");
            assert("6"@ =~= seq![digit_char(6)]);
        }
        "6"
    } else if d == 7 {
        proof {
            reveal_strlit("7");
            assert("7"@ =~= seq![digit_char(7)]);
        }
        "7"
    } else if d == 8 {
        proof {
            reveal_strlit("8");
            assert("8"@ =~= seq![digit_char(8)]);
        }
        "8"
    } else {
        proof {
            reveal_strlit("9");
            assert("9"@ =~= seq![digit_char(9)]);
        }
        "9"
    }
}

/// Decimal rendering of a `u32`.
pub fn u32_str(n: u32) -> (s: String)
    ensures
        s@ == spec_uint_str(n as nat),
    decreases n,
{
    if n < 10 {
        let s: String = digit_str(n).to_owned();
        s
    } else {
        proof {
            assert(n / 10 < n && (n % 10) < 10) by (nonlinear_arith)
                requires n >= 10;
        }
        let mut s = u32_str(n / 10);
        s.append(digit_str(n % 10));
        s
    }
}

/// Decimal rendering of a `u64`.
pub fn u64_str(n: u64) -> (s: String)
    ensures
        s@ == spec_uint_str(n as nat),
    decreases n,
{
    if n < 10 {
        let s: String = digit_str(n as u32).to_owned();
        s
    } else {
        proof {
            assert(n / 10 < n && (n % 10) < 10) by (nonlinear_arith)
                requires n >= 10;
        }
        let mut s = u64_str(n / 10);
        s.append(digit_str((n % 10) as u32));
        s
    }
}

/// The hour wording of a duration: nothing for zero, singular for one.
pub open spec fn spec_hours_part(h: nat) -> Seq<char> {
    if h == 0 {
        Seq::empty()
    } else if h == 1 {
        spec_uint_str(h) + " hour"@
    } else {
        spec_uint_str(h) + " hours"@
    }
}

/// The minute wording of a duration: nothing for zero, singular for one.
pub open spec fn spec_minutes_part(m: nat) -> Seq<char> {
    if m == 0 {
        Seq::empty()
    } else if m == 1 {
        spec_uint_str(m) + " minute"@
    } else {
        spec_uint_str(m) + " minutes"@
    }
}

/// What `format_minutes` returns: the hour wording and the minute wording,
/// one space between them (the space stays even when a side is empty).
pub open spec fn spec_format_minutes(minutes: nat) -> Seq<char> {
    spec_hours_part(minutes / 60) + seq![' '] + spec_minutes_part(minutes % 60)
}

/// Spells a duration in minutes as hours and minutes, as recipe prep times
/// are shown.
pub fn format_minutes(minutes: usize) -> (s: String)
    ensures
        s@ == spec_format_minutes(minutes as nat),
{
    let h = (minutes / 60) as u64;
    let m = (minutes % 60) as u64;
    let mut s: String;
    if h == 0 {
        s = String::new();
    } else if h == 1 {
        s = u64_str(h);
        s.append(" hour");
    } else {
        s = u64_str(h);
        s.append(" hours");
    }
    proof {
        reveal_strlit(" ");
        assert(" "@ =~= seq![' ']);
    }
    s.append(" ");
    if m == 1 {
        let ms = u64_str(m);
        s.append(ms.as_str());
        s.append(" minute");
    } else if m != 0 {
        let ms = u64_str(m);
        s.append(ms.as_str());
        s.append(" minutes");
    }
    proof {
        assert(s@ =~= spec_format_minutes(minutes as nat));
    }
    s
}

/// Decimal rendering of an `i32`, with a leading minus for a negative value.
pub fn i32_str(v: i32) -> (s: String)
    ensures
        s@ == spec_int_str(v as int),
{
    if v >= 0 {
        u32_str(v as u32)
    } else {
        let mag: u32 = if v == i32::MIN {
            2147483648u32
        } else {
            (-v) as u32
        };
        let mut s: String = "-".to_owned();
        proof {
            reveal_strlit("-");
            assert("-"@ =~= seq!['-']);
        }
        let m = u32_str(mag);
        s.append(m.as_str());
        s
    }
}

impl MixedRational {
    /// Renders the value as `"W N/D"`, `"N/D"`, `"W"` or the empty string,
    /// by which of the whole part and the denominator are nonzero.
    pub fn to_text(&self) -> (s: String)
        ensures
            s@ == spec_text(*self),
    {
            if self.den != 0 && self.value != 0 {
            let mut s = i32_str(self.value);
            proof {
                reveal_strlit(" ");
                assert(" "@ =~= seq![' ']);
                reveal_strlit("/");
                assert("/"@ =~= seq!['/']);
            }
            s.append(" ");
            let ns = i32_str(self.num);
            s.append(ns.as_str());
            s.append("/");
            let ds = u32_str(self.den);
            s.append(ds.as_str());
            proof {
                assert(s@ =~= spec_text(*self));
            }
            s
        } else if self.den != 0 {
            let mut s = i32_str(self.num);
            proof {
                reveal_strlit("/");
                assert("/"@ =~= seq!['/']);
            }
            s.append("/");
            let ds = u32_str(self.den);
            s.append(ds.as_str());
            proof {
                assert(s@ =~= spec_text(*self));
            }
            s
        } else if self.value != 0 {
            i32_str(self.value)
        } else {
            let s = String::new();
            proof {
                assert(s@ =~= spec_text(*self));
            }
            s
        }
    }
}

} // verus!
