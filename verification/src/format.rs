//! Text formatting of integers, clock times and project labels.

use vstd::prelude::*;

use crate::ids::{DataSourceId, string_from_chars};
use crate::text::{chars_of, decimal, digit, digit_char, push_decimal};

verus! {

/// Decimal digits grouped in threes from the right with commas.
pub open spec fn grouped(digits: Seq<char>) -> Seq<char>
    decreases digits.len(),
{
    if digits.len() <= 3 {
        digits
    } else {
        grouped(digits.take(digits.len() - 3)) + seq![','] + digits.skip(digits.len() - 3)
    }
}

/// The magnitude `i128::saturating_abs` gives: `|v|`, except that the most
/// negative value maps to the largest positive one.
pub open spec fn saturating_magnitude(value: i128) -> nat {
    if value == i128::MIN {
        i128::MAX as nat
    } else if value < 0 {
        (-value) as nat
    } else {
        value as nat
    }
}

/// The minus sign used for negative numbers (U+2212).
pub open spec fn minus_sign() -> char {
    '\u{2212}'
}

/// An integer with thousands separators, negative values led by a minus sign.
pub open spec fn grouped_integer(value: i128) -> Seq<char> {
    let body = grouped(decimal(saturating_magnitude(value)));
    if value < 0 {
        seq![minus_sign()] + body
    } else {
        body
    }
}

/// An integer with thousands separators and an explicit sign.
pub open spec fn signed_integer(value: i128) -> Seq<char> {
    if value < 0 {
        seq![minus_sign()] + grouped(decimal(saturating_magnitude(value)))
    } else {
        seq!['+'] + grouped(decimal(value as nat))
    }
}

fn push_slice(out: &mut Vec<char>, chars: &Vec<char>, start: usize, end: usize)
    requires
        start <= end <= chars@.len(),
    ensures
        final(out)@ == old(out)@ + chars@.subrange(start as int, end as int),
{
    let mut i = start;
    while i < end
        invariant
            start <= i <= end,
            end <= chars@.len(),
            out@ == old(out)@ + chars@.subrange(start as int, i as int),
        decreases end - i,
    {
        out.push(chars[i]);
        proof {
            assert(chars@.subrange(start as int, i + 1) =~= chars@.subrange(start as int, i as int).push(
                chars@[i as int],
            ));
        }
        i = i + 1;
    }
}

fn push_grouped(out: &mut Vec<char>, digits: &Vec<char>, end: usize)
    requires
        end <= digits@.len(),
    ensures
        final(out)@ == old(out)@ + grouped(digits@.take(end as int)),
    decreases end,
{
    if end <= 3 {
        push_slice(out, digits, 0, end);
        proof {
            assert(digits@.subrange(0, end as int) =~= digits@.take(end as int));
        }
    } else {
        push_grouped(out, digits, end - 3);
        out.push(',');
        push_slice(out, digits, end - 3, end);
        proof {
            let d = digits@.take(end as int);
            assert(d.take(d.len() - 3) =~= digits@.take(end - 3));
            assert(d.skip(d.len() - 3) =~= digits@.subrange(end - 3, end as int));
            assert(grouped(d) == grouped(d.take(d.len() - 3)) + seq![','] + d.skip(d.len() - 3));
        }
    }
}

fn magnitude(value: i128) -> (m: u128)
    ensures
        m == saturating_magnitude(value),
{
    if value == i128::MIN {
        i128::MAX as u128
    } else if value < 0 {
        (-value) as u128
    } else {
        value as u128
    }
}

fn grouped_digits_of(m: u128) -> (chars: Vec<char>)
    ensures
        chars@ == grouped(decimal(m as nat)),
{
    let mut digits: Vec<char> = Vec::new();
    push_decimal(&mut digits, m);
    proof {
        assert(digits@ =~= decimal(m as nat));
        assert(digits@.take(digits@.len() as int) =~= digits@);
    }
    let mut out: Vec<char> = Vec::new();
    push_grouped(&mut out, &digits, digits.len());
    proof {
        assert(out@ =~= grouped(decimal(m as nat)));
    }
    out
}

/// An integer with thousands separators, e.g. `−20,512`.
pub fn format_grouped_integer(value: i128) -> (text: String)
    ensures
        text@ == grouped_integer(value),
{
    let body = grouped_digits_of(magnitude(value));
    let mut out: Vec<char> = Vec::new();
    if value < 0 {
        out.push('\u{2212}');
    }
    push_slice(&mut out, &body, 0, body.len());
    proof {
        assert(body@.subrange(0, body@.len() as int) =~= body@);
        assert(out@ =~= grouped_integer(value));
    }
    string_from_chars(&out)
}

/// An integer with thousands separators and an explicit sign, e.g. `+1,000`.
pub fn format_signed_integer(value: i128) -> (text: String)
    ensures
        text@ == signed_integer(value),
{
    let body = grouped_digits_of(magnitude(value));
    let mut out: Vec<char> = Vec::new();
    if value < 0 {
        out.push('\u{2212}');
    } else {
        out.push('+');
    }
    push_slice(&mut out, &body, 0, body.len());
    proof {
        assert(body@.subrange(0, body@.len() as int) =~= body@);
        assert(out@ =~= signed_integer(value));
    }
    string_from_chars(&out)
}

/// An inspector count cell: empty without a value; the grouped value for
/// the baseline row or without a baseline; otherwise the grouped value
/// followed by the signed difference to the baseline in parentheses.
pub open spec fn inspector_integer_text(value: Option<i128>, baseline: Option<i128>, is_baseline: bool) -> Seq<char> {
    match value {
        None => Seq::empty(),
        Some(v) => if is_baseline || baseline is None {
            grouped_integer(v)
        } else {
            grouped_integer(v) + " ("@ + signed_integer((v - baseline->0) as i128) + ")"@
        },
    }
}

/// Formats an inspector count cell.
pub fn inspector_integer(value: Option<i128>, baseline: Option<i128>, is_baseline: bool) -> (text: String)
    requires
        value is Some && baseline is Some ==> i128::MIN <= value->0 - baseline->0 <= i128::MAX,
    ensures
        text@ == inspector_integer_text(value, baseline, is_baseline),
{
    match value {
        None => String::new(),
        Some(v) => {
            let label = format_grouped_integer(v);
            if is_baseline {
                return label;
            }
            match baseline {
                None => label,
                Some(b) => {
                    let mut out = chars_of(label.as_str());
                    out.push(' ');
                    out.push('(');
                    let delta = format_signed_integer(v - b);
                    let delta_chars = chars_of(delta.as_str());
                    push_slice(&mut out, &delta_chars, 0, delta_chars.len());
                    out.push(')');
                    proof {
                        reveal_strlit(" (");
                        reveal_strlit(")");
                        assert(delta_chars@.subrange(0, delta_chars@.len() as int) =~= delta_chars@);
                        assert(out@ =~= inspector_integer_text(value, baseline, is_baseline));
                    }
                    string_from_chars(&out)
                },
            }
        },
    }
}

/// A project's name in the project tree, qualified by its source when another
/// project has the same name.
pub open spec fn project_label(name: Seq<char>, source: Seq<char>, duplicate: bool) -> Seq<char> {
    if duplicate {
        name + " \u{2014} "@ + source
    } else {
        name
    }
}

/// Labels one project in the project tree.
pub fn project_tree_label(name: &str, source_id: &DataSourceId, duplicate: bool) -> (label: String)
    ensures
        label@ == project_label(name@, source_id@, duplicate),
{
    let mut out = chars_of(name);
    if duplicate {
        out.push(' ');
        out.push('\u{2014}');
        out.push(' ');
        let source = chars_of(source_id.as_str());
        push_slice(&mut out, &source, 0, source.len());
        proof {
            reveal_strlit(" \u{2014} ");
            assert(source@.subrange(0, source@.len() as int) =~= source@);
            assert(out@ =~= project_label(name@, source_id@, duplicate));
        }
    }
    string_from_chars(&out)
}

// ----- Clock times -----

/// Milliseconds in one day.
pub const MILLIS_PER_DAY: i64 = 86_400_000;

/// Two decimal digits of `n < 100`.
pub open spec fn pad2(n: int) -> Seq<char> {
    seq![digit_char((n / 10) as nat), digit_char((n % 10) as nat)]
}

/// Three decimal digits of `n < 1000`.
pub open spec fn pad3(n: int) -> Seq<char> {
    seq![digit_char((n / 100) as nat), digit_char((n / 10 % 10) as nat), digit_char((n % 10) as nat)]
}

/// The UTC time of day of a millisecond timestamp: `HH:MM`, with `:SS` when
/// seconds are not zero or milliseconds are, and `.mmm` when milliseconds
/// are not zero.
pub open spec fn clock_text(millis: int) -> Seq<char> {
    let within_day = millis % (MILLIS_PER_DAY as int);
    let hour = within_day / 3_600_000;
    let minute = within_day / 60_000 % 60;
    let second = within_day / 1_000 % 60;
    let millisecond = within_day % 1_000;
    if second == 0 && millisecond == 0 {
        pad2(hour) + seq![':'] + pad2(minute)
    } else if millisecond == 0 {
        pad2(hour) + seq![':'] + pad2(minute) + seq![':'] + pad2(second)
    } else {
        pad2(hour) + seq![':'] + pad2(minute) + seq![':'] + pad2(second) + seq!['.'] + pad3(millisecond)
    }
}

fn push_pad2(out: &mut Vec<char>, n: u64)
    requires
        n < 100,
    ensures
        final(out)@ == old(out)@ + pad2(n as int),
{
    out.push(digit((n / 10) as u128));
    out.push(digit((n % 10) as u128));
    proof {
        assert(final(out)@ =~= old(out)@ + pad2(n as int));
    }
}

/// Formats the UTC time of day of a millisecond timestamp.
pub fn format_utc_clock_millis(millis: i64) -> (text: String)
    ensures
        text@ == clock_text(millis as int),
{
    let day = MILLIS_PER_DAY as u64;
    let within_day: u64 = if millis >= 0 {
        (millis as u64) % day
    } else {
        let magnitude = ((-(millis as i128)) as u128 % (day as u128)) as u64;
        if magnitude == 0 {
            0
        } else {
            day - magnitude
        }
    };
    assert(within_day == millis as int % (MILLIS_PER_DAY as int)) by (nonlinear_arith)
        requires
            day == 86_400_000,
            millis >= 0 ==> within_day == (millis as int) % (day as int),
            millis < 0 ==> within_day == if (-(millis as int)) % (day as int) == 0 {
                0
            } else {
                day - (-(millis as int)) % (day as int)
            },
    {
        if millis < 0 {
            let q = (-(millis as int)) / (day as int);
            let r = (-(millis as int)) % (day as int);
            assert(-(millis as int) == q * (day as int) + r);
            if r == 0 {
                assert(millis as int == (-q) * (day as int));
            } else {
                assert(millis as int == (-q - 1) * (day as int) + ((day as int) - r));
            }
        }
    }
    let hour = within_day / 3_600_000;
    let minute = within_day / 60_000 % 60;
    let second = within_day / 1_000 % 60;
    let millisecond = within_day % 1_000;
    let mut out: Vec<char> = Vec::new();
    push_pad2(&mut out, hour);
    out.push(':');
    push_pad2(&mut out, minute);
    if second != 0 || millisecond != 0 {
        out.push(':');
        push_pad2(&mut out, second);
        if millisecond != 0 {
            out.push('.');
            out.push(digit((millisecond / 100) as u128));
            out.push(digit((millisecond / 10 % 10) as u128));
            out.push(digit((millisecond % 10) as u128));
        }
    }
    proof {
        assert(out@ =~= clock_text(millis as int));
    }
    string_from_chars(&out)
}

} // verus!
