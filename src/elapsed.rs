//! Phrases for how long ago something happened.
use vstd::prelude::*;
use crate::date::digit;

verus! {

/// `n` in decimal, without leading zeros.
pub open spec fn decimal(n: nat) -> Seq<char>
    decreases n,
{
    if n < 10 {
        seq![digit(n as int)]
    } else {
        decimal(n / 10).push(digit((n % 10) as int))
    }
}

/// `v` in decimal, with a minus sign when negative.
pub open spec fn signed_decimal(v: int) -> Seq<char> {
    if v < 0 {
        seq!['-'] + decimal((-v) as nat)
    } else {
        decimal(v as nat)
    }
}

/// `a / d` rounded toward zero.
pub open spec fn div_toward_zero(a: int, d: int) -> int {
    if a >= 0 {
        a / d
    } else {
        -((-a) / d)
    }
}

/// The phrase for a span of `seconds`: whole days if there is at least one,
/// else whole hours if there is at least one, else whole minutes.
pub open spec fn elapsed_phrase(seconds: int) -> Seq<char> {
    let days = div_toward_zero(seconds, 86400);
    let hours = div_toward_zero(seconds, 3600);
    if days != 0 {
        signed_decimal(days) + " day(s) ago"@
    } else if hours != 0 {
        signed_decimal(hours) + " hour(s) ago"@
    } else {
        signed_decimal(div_toward_zero(seconds, 60)) + " min(s) ago"@
    }
}

/// `n` in decimal, without leading zeros.
fn decimal_text(n: u64) -> (r: String)
    ensures
        r@ == decimal(n as nat),
    decreases n,
{
    let digits = "0123456789";
    let d = (n % 10) as usize;
    proof {
        reveal_strlit("0123456789");
    }
    let last = digits.substring_char(d, d + 1);
    assert(last@ =~= seq![digit(d as int)]);
    if n < 10 {
        last.to_owned()
    } else {
        let mut text = decimal_text(n / 10);
        text.append(last);
        assert(text@ =~= decimal((n / 10) as nat).push(digit((n % 10) as int)));
        text
    }
}

/// `q` with a minus sign in front where `negative` holds and `q` is not zero.
fn quotient_text(q: u64, negative: bool) -> (r: String)
    ensures
        r@ == signed_decimal(if negative { -(q as int) } else { q as int }),
{
    let digits = decimal_text(q);
    if negative && q > 0 {
        let mut s = "-".to_owned();
        s.append(digits.as_str());
        proof {
            reveal_strlit("-");
        }
        assert(s@ =~= seq!['-'] + decimal(q as nat));
        s
    } else {
        digits
    }
}

/// How long ago something happened that lies `seconds` in the past, as the
/// interface shows it: "N day(s) ago", "N hour(s) ago" or "N min(s) ago".
pub fn format_elapsed(seconds: i64) -> (r: String)
    ensures
        r@ == elapsed_phrase(seconds as int),
{
    let negative = seconds < 0;
    let magnitude: u64 = if negative { ((-(seconds + 1)) as u64) + 1 } else { seconds as u64 };
    assert(magnitude as int == if negative { -(seconds as int) } else { seconds as int });
    let days = magnitude / 86400;
    let hours = magnitude / 3600;
    let mut text: String;
    if days != 0 {
        text = quotient_text(days, negative);
        text.append(" day(s) ago");
    } else if hours != 0 {
        text = quotient_text(hours, negative);
        text.append(" hour(s) ago");
    } else {
        text = quotient_text(magnitude / 60, negative);
        text.append(" min(s) ago");
    }
    text
}

} // verus!
