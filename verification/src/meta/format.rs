//! How a hero chip shows its value: birthdays as month and day.

use vstd::prelude::*;

use crate::i18n::{is_english, is_english_spec};
use crate::pattern::{captures_view, find_captures, group, group_text, group_views, opt_captures_view, regex_captures};
use crate::text::{chars_of, is_ascii_digit};

verus! {

/// An ISO date at the start of a value: year, month, day.
pub const ISO_DATE_PATTERN: &'static str = "^(\\d{4})-(\\d{2})-(\\d{2})";

/// The decimal digits of `n`, without leading zeros.
pub open spec fn decimal(n: nat) -> Seq<char>
    decreases n,
{
    if n < 10 {
        seq![digit_char(n)]
    } else {
        decimal(n / 10).push(digit_char(n % 10))
    }
}

pub open spec fn digit_char(d: nat) -> char {
    if d == 0 {
        '0'
    } else if d == 1 {
        '1'
    } else if d == 2 {
        '2'
    } else if d == 3 {
        '3'
    } else if d == 4 {
        '4'
    } else if d == 5 {
        '5'
    } else if d == 6 {
        '6'
    } else if d == 7 {
        '7'
    } else if d == 8 {
        '8'
    } else {
        '9'
    }
}

fn digit_of(d: u32) -> (c: char)
    requires
        d < 10,
    ensures
        c == digit_char(d as nat),
{
    if d == 0 {
        '0'
    } else if d == 1 {
        '1'
    } else if d == 2 {
        '2'
    } else if d == 3 {
        '3'
    } else if d == 4 {
        '4'
    } else if d == 5 {
        '5'
    } else if d == 6 {
        '6'
    } else if d == 7 {
        '7'
    } else if d == 8 {
        '8'
    } else {
        '9'
    }
}

/// `n` written in decimal.
pub fn decimal_string(n: u32) -> (r: String)
    ensures
        r@ == decimal(n as nat),
    decreases n,
{
    if n < 10 {
        let mut s = String::new();
        s.push(digit_of(n));
        s
    } else {
        let mut s = decimal_string(n / 10);
        s.push(digit_of(n % 10));
        s
    }
}

/// The value of a string of ASCII digits, or 0 when it is anything else
/// (`str::parse::<u32>` on a two-digit capture, with failure read as 0).
pub open spec fn two_digit_value(s: Seq<char>) -> nat {
    if s.len() == 2 && is_ascii_digit(s[0]) && is_ascii_digit(s[1]) {
        ((s[0] as u32 - '0' as u32) * 10 + (s[1] as u32 - '0' as u32)) as nat
    } else {
        0
    }
}

fn two_digit_value_of(s: &str) -> (r: u32)
    ensures
        r == two_digit_value(s@),
        r < 100,
{
    let cs = chars_of(s);
    if cs.len() == 2 && cs[0] >= '0' && cs[0] <= '9' && cs[1] >= '0' && cs[1] <= '9' {
        ((cs[0] as u32) - ('0' as u32)) * 10 + ((cs[1] as u32) - ('0' as u32))
    } else {
        0
    }
}

pub open spec fn month_name(m: nat) -> Seq<char> {
    if m == 1 {
        "January"@
    } else if m == 2 {
        "February"@
    } else if m == 3 {
        "March"@
    } else if m == 4 {
        "April"@
    } else if m == 5 {
        "May"@
    } else if m == 6 {
        "June"@
    } else if m == 7 {
        "July"@
    } else if m == 8 {
        "August"@
    } else if m == 9 {
        "September"@
    } else if m == 10 {
        "October"@
    } else if m == 11 {
        "November"@
    } else {
        "December"@
    }
}

fn month_name_of(m: u32) -> (r: &'static str)
    requires
        1 <= m <= 12,
    ensures
        r@ == month_name(m as nat),
{
    if m == 1 {
        "January"
    } else if m == 2 {
        "February"
    } else if m == 3 {
        "March"
    } else if m == 4 {
        "April"
    } else if m == 5 {
        "May"
    } else if m == 6 {
        "June"
    } else if m == 7 {
        "July"
    } else if m == 8 {
        "August"
    } else if m == 9 {
        "September"
    } else if m == 10 {
        "October"
    } else if m == 11 {
        "November"
    } else {
        "December"
    }
}

/// How a chip shows `val`: with the `birthday` format, an ISO date at its
/// start becomes `April 9` in an English book and `4月9日` otherwise; any
/// other value, or format, is shown as it is.
pub open spec fn chip_value_spec(val: Seq<char>, format: Option<Seq<char>>, lang: Option<Seq<char>>) -> Seq<char> {
    if format == Some("birthday"@) {
        birthday_spec(regex_captures(ISO_DATE_PATTERN@, val), val, lang)
    } else {
        val
    }
}

/// A birthday chip's text, from what the ISO-date search of `val` found:
/// the month and day of the first match, or `val` as it is.
pub open spec fn birthday_spec(ms: Option<Seq<Seq<Option<Seq<char>>>>>, val: Seq<char>, lang: Option<Seq<char>>) -> Seq<char> {
    match ms {
        Some(ms) => if ms.len() > 0 {
            let m = two_digit_value(group(ms[0], 2));
            let d = two_digit_value(group(ms[0], 3));
            if lang matches Some(l) && is_english_spec(l) && 1 <= m <= 12 {
                month_name(m) + " "@ + decimal(d)
            } else {
                decimal(m) + "月"@ + decimal(d) + "日"@
            }
        } else {
            val
        },
        None => val,
    }
}

/// Format a hero chip's value.
pub fn format_chip_value(val: &str, format: Option<&str>, lang: Option<&str>) -> (r: String)
    ensures
        r@ == chip_value_spec(val@, crate::icon::opt_str(format), crate::icon::opt_str(lang)),
{
    let is_birthday = match format {
        Some(f) => crate::text::str_eq(f, "birthday"),
        None => false,
    };
    if !is_birthday {
        return val.to_owned();
    }
    birthday_text(&find_captures(ISO_DATE_PATTERN, val), val, lang)
}

/// A birthday chip's text, given what the ISO-date search of `val` found.
pub fn birthday_text(ms: &Option<Vec<Vec<Option<String>>>>, val: &str, lang: Option<&str>) -> (r: String)
    ensures
        r@ == birthday_spec(opt_captures_view(*ms), val@, crate::icon::opt_str(lang)),
{
    match ms {
        Some(ms) => {
            if ms.len() == 0 {
                return val.to_owned();
            }
            let ghost g = captures_view(ms@)[0];
            assert(g == group_views(ms@[0]@));
            let m = two_digit_value_of(group_text(&ms[0], 2).as_str());
            let d = two_digit_value_of(group_text(&ms[0], 3).as_str());
            let english = match lang {
                Some(l) => is_english(l),
                None => false,
            };
            if english && 1 <= m && m <= 12 {
                let mut out = month_name_of(m).to_owned();
                out.push_str(" ");
                out.push_str(decimal_string(d).as_str());
                return out;
            }
            let mut out = decimal_string(m);
            out.push_str("月");
            out.push_str(decimal_string(d).as_str());
            out.push_str("日");
            out
        },
        None => val.to_owned(),
    }
}

} // verus!
