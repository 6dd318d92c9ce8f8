use vstd::prelude::*;
use vstd::string::*;
use chrono::Datelike;

verus! {

/// The decimal digit `d` as a character.
pub open spec fn digit_char(d: int) -> char {
    if d == 0 {
        '0'
    } else if d == 1 {
        '1'
    } else if d == 2 {
        '2'
    } else if d == 3 {
        '3'
    } else if d == 4 {
        '4'
    } else if d == 5 {
        '5'
    } else if d == 6 {
        '6'
    } else if d == 7 {
        '7'
    } else if d == 8 {
        '8'
    } else {
        '9'
    }
}

/// The decimal digits of `n`, most significant first, without leading
/// zeros (a lone zero for zero itself).
pub open spec fn dec_digits(n: nat) -> Seq<char>
    decreases n,
{
    if n < 10 {
        seq![digit_char(n as int)]
    } else {
        dec_digits(n / 10).push(digit_char((n % 10) as int))
    }
}

/// `s` left-padded with zeros to at least four characters.
pub open spec fn pad4(s: Seq<char>) -> Seq<char> {
    if s.len() >= 4 {
        s
    } else {
        Seq::new((4 - s.len()) as nat, |i: int| '0') + s
    }
}

/// The year as printed in a trash folder name: at least four digits,
/// zero-padded, with a leading minus sign for years before year zero.
pub open spec fn year_seq(y: int) -> Seq<char> {
    if y < 0 {
        seq!['-'] + pad4(dec_digits((-y) as nat))
    } else {
        pad4(dec_digits(y as nat))
    }
}

/// A two-digit zero-padded field (months and days never exceed 31).
pub open spec fn two_digits(n: int) -> Seq<char> {
    seq![digit_char(n / 10), digit_char(n % 10)]
}

/// The `YYYY-MM-DD` rendering of a calendar date.
pub open spec fn date_seq(y: int, m: int, d: int) -> Seq<char> {
    year_seq(y) + seq!['-'] + two_digits(m) + seq!['-'] + two_digits(d)
}

/// One day of the local calendar, as the deletion policy stamps the
/// trash folder.
#[derive(Clone, Copy, Debug)]
pub struct DateStamp {
    pub year: i32,
    pub month: u32,
    pub day: u32,
}

impl DateStamp {
    /// Month and day lie in the calendar ranges.
    pub open spec fn wf(&self) -> bool {
        1 <= self.month <= 12 && 1 <= self.day <= 31
    }
}

/// Relies on `chrono::Local::now` and `chrono::Datelike`: the local
/// calendar date of this moment; `month()` ranges over 1..=12 and
/// `day()` over 1..=31, whatever the clock and time zone say.
#[verifier::external_body]
pub fn today() -> (r: DateStamp)
    ensures
        r.wf(),
{
    let now = chrono::Local::now().date_naive();
    DateStamp { year: now.year(), month: now.month(), day: now.day() }
}

/// Relies on `chrono::Utc::now`: the Unix timestamp, in seconds, of
/// this moment. Nothing is promised of the value: the clock may say
/// anything.
#[verifier::external_body]
pub fn now_timestamp() -> (r: i64) {
    chrono::Utc::now().timestamp()
}

/// Appends one decimal digit.
fn push_digit(s: &mut String, d: u32)
    requires
        d < 10,
    ensures
        final(s)@ == old(s)@.push(digit_char(d as int)),
{
    let ghost s0 = old(s)@;
    if d == 0 {
        s.append("0");
        proof {
            reveal_strlit("0");
            assert(s@ =~= s0.push(digit_char(d as int)));
        }
    } else if d == 1 {
        s.append("1");
        proof {
            reveal_strlit("1");
            assert(s@ =~= s0.push(digit_char(d as int)));
        }
    } else if d == 2 {
        s.append("2");
        proof {
            reveal_strlit("2");
            assert(s@ =~= s0.push(digit_char(d as int)));
        }
    } else if d == 3 {
        s.append("3");
        proof {
            reveal_strlit("3");
            assert(s@ =~= s0.push(digit_char(d as int)));
        }
    } else if d == 4 {
        s.append("4");
        proof {
            reveal_strlit("4");
            assert(s@ =~= s0.push(digit_char(d as int)));
        }
    } else if d == 5 {
        s.append("5");
        proof {
            reveal_strlit("5");
            assert(s@ =~= s0.push(digit_char(d as int)));
        }
    } else if d == 6 {
        s.append("6");
        proof {
            reveal_strlit("6");
            assert(s@ =~= s0.push(digit_char(d as int)));
        }
    } else if d == 7 {
        s.append("7");
        proof {
            reveal_strlit("7");
            assert(s@ =~= s0.push(digit_char(d as int)));
        }
    } else if d == 8 {
        s.append("8");
        proof {
            reveal_strlit("8");
            assert(s@ =~= s0.push(digit_char(d as int)));
        }
    } else {
        s.append("9");
        proof {
            reveal_strlit("9");
            assert(s@ =~= s0.push(digit_char(d as int)));
        }
    }
}

/// Appends the decimal digits of `n`, most significant first.
fn push_decimal(s: &mut String, n: u32)
    ensures
        final(s)@ == old(s)@ + dec_digits(n as nat),
    decreases n,
{
    let ghost s0 = old(s)@;
    if n < 10 {
        push_digit(s, n);
        proof {
            assert(s@ =~= s0 + dec_digits(n as nat));
        }
    } else {
        push_decimal(s, n / 10);
        push_digit(s, n % 10);
        proof {
            assert(s@ =~= s0 + dec_digits(n as nat));
        }
    }
}

/// The digit count of a decimal rendering, for padding decisions.
proof fn lemma_dec_len(n: nat)
    ensures
        n < 10 ==> dec_digits(n).len() == 1,
        10 <= n < 100 ==> dec_digits(n).len() == 2,
        100 <= n < 1000 ==> dec_digits(n).len() == 3,
        n >= 1000 ==> dec_digits(n).len() >= 4,
    decreases n,
{
    if n >= 10 {
        lemma_dec_len(n / 10);
    }
}

/// Appends the decimal digits of `n`, zero-padded to at least four.
fn push_padded4(s: &mut String, n: u32)
    ensures
        final(s)@ == old(s)@ + pad4(dec_digits(n as nat)),
{
    let ghost s0 = old(s)@;
    proof {
        lemma_dec_len(n as nat);
    }
    if n < 10 {
        s.append("000");
    } else if n < 100 {
        s.append("00");
    } else if n < 1000 {
        s.append("0");
    }
    let ghost s1 = s@;
    push_decimal(s, n);
    proof {
        reveal_strlit("000");
        reveal_strlit("00");
        reveal_strlit("0");
        if n < 10 {
            assert(("000")@ =~= Seq::new(3, |i: int| '0'));
        } else if n < 100 {
            assert(("00")@ =~= Seq::new(2, |i: int| '0'));
        } else if n < 1000 {
            assert(("0")@ =~= Seq::new(1, |i: int| '0'));
        }
        assert(s@ =~= s0 + pad4(dec_digits(n as nat)));
    }
}

/// Renders a date as `YYYY-MM-DD`, the name of one day's trash folder.
pub fn format_ymd(date: &DateStamp) -> (r: String)
    requires
        date.wf(),
    ensures
        r@ == date_seq(date.year as int, date.month as int, date.day as int),
{
    let mut s = String::new();
    if date.year < 0 {
        s.append("-");
        let mag = (-(date.year as i64)) as u32;
        push_padded4(&mut s, mag);
        proof {
            reveal_strlit("-");
            assert(mag as nat == (-(date.year as int)) as nat);
            assert(s@ =~= year_seq(date.year as int));
        }
    } else {
        push_padded4(&mut s, date.year as u32);
        proof {
            assert(s@ =~= year_seq(date.year as int));
        }
    }
    let ghost sy = s@;
    s.append("-");
    push_digit(&mut s, date.month / 10);
    push_digit(&mut s, date.month % 10);
    let ghost sm = s@;
    s.append("-");
    push_digit(&mut s, date.day / 10);
    push_digit(&mut s, date.day % 10);
    proof {
        reveal_strlit("-");
        assert(sm =~= sy + seq!['-'] + two_digits(date.month as int));
        assert(s@ =~= date_seq(date.year as int, date.month as int, date.day as int));
    }
    s
}

} // verus!
