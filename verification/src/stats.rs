//! Statistics about one run, and the duration formatting rule.

use vstd::prelude::*;

verus! {

/// Relies on String::push: appends the given character to the end of the
/// string.
pub assume_specification[ String::push ](s: &mut String, c: char)
    ensures
        final(s)@ == old(s)@.push(c),
;

/// The decimal digit character for `d`.
pub open spec fn spec_digit(d: nat) -> char {
    if d == 0 {
        '0'
    } else if d == 1 {
        '1'
    } else if d == 2 {
        '2'
    } else if d == 3 {
        '3'
    } else if d == 4 {
        '4'
    } else if d == 5 {
        '5'
    } else if d == 6 {
        '6'
    } else if d == 7 {
        '7'
    } else if d == 8 {
        '8'
    } else {
        '9'
    }
}

/// The decimal rendering of `n`, without sign or padding.
pub open spec fn spec_decimal(n: nat) -> Seq<char>
    decreases n,
{
    if n < 10 {
        seq![spec_digit(n)]
    } else {
        spec_decimal(n / 10).push(spec_digit(n % 10))
    }
}

/// Milliseconds rounded to centiseconds, half away from zero.
pub open spec fn spec_centis(millis: nat) -> nat {
    millis / 10 + if millis % 10 >= 5 {
        1nat
    } else {
        0nat
    }
}

/// The formatted duration: plain milliseconds under one second, else
/// seconds with two decimal places, rounded to the nearest centisecond.
pub open spec fn spec_formatted_duration(millis: nat) -> Seq<char> {
    if millis < 1000 {
        spec_decimal(millis) + seq!['m', 's']
    } else {
        spec_decimal(spec_centis(millis) / 100) + seq![
            '.',
            spec_digit((spec_centis(millis) % 100) / 10),
            spec_digit(spec_centis(millis) % 10),
            's',
        ]
    }
}

fn digit_char(d: u64) -> (c: char)
    requires
        d < 10,
    ensures
        c == spec_digit(d as nat),
{
    if d == 0 {
        '0'
    } else if d == 1 {
        '1'
    } else if d == 2 {
        '2'
    } else if d == 3 {
        '3'
    } else if d == 4 {
        '4'
    } else if d == 5 {
        '5'
    } else if d == 6 {
        '6'
    } else if d == 7 {
        '7'
    } else if d == 8 {
        '8'
    } else {
        '9'
    }
}

/// Appends the decimal rendering of `n` to `out`.
pub(crate) fn push_decimal(n: u64, out: &mut String)
    ensures
        final(out)@ == old(out)@ + spec_decimal(n as nat),
    decreases n,
{
    if n < 10 {
        out.push(digit_char(n));
        proof {
            assert(old(out)@.push(spec_digit(n as nat)) =~= old(out)@ + spec_decimal(n as nat));
        }
    } else {
        push_decimal(n / 10, out);
        out.push(digit_char(n % 10));
        proof {
            assert((old(out)@ + spec_decimal((n / 10) as nat)).push(spec_digit((n % 10) as nat))
                =~= old(out)@ + spec_decimal(n as nat));
        }
    }
}

/// Statistics about one run: how many files were scanned, how many keys
/// were checked, how many came out unused, and how long the run took, in
/// milliseconds.
pub struct HuntStats {
    pub files_total: usize,
    pub keys_total: usize,
    pub unused_keys_count: usize,
    pub duration_millis: u64,
}

impl HuntStats {
    /// The elapsed time as text: plain milliseconds under one second, else
    /// seconds with two decimal places, rounded to the nearest centisecond.
    pub fn formatted_duration(&self) -> (r: String)
        ensures
            r@ == spec_formatted_duration(self.duration_millis as nat),
    {
        let m = self.duration_millis;
        let mut out = String::new();
        if m < 1000 {
            push_decimal(m, &mut out);
            out.push('m');
            out.push('s');
            proof {
                assert(out@ =~= spec_formatted_duration(m as nat));
            }
        } else {
            let c = m / 10 + if m % 10 >= 5 {
                1
            } else {
                0
            };
            proof {
                assert(c as nat == spec_centis(m as nat));
            }
            push_decimal(c / 100, &mut out);
            out.push('.');
            out.push(digit_char((c % 100) / 10));
            out.push(digit_char(c % 10));
            out.push('s');
            proof {
                assert((c % 100) / 10 == (c as nat % 100) / 10);
                assert(out@ =~= spec_formatted_duration(m as nat));
            }
        }
        out
    }
}

} // verus!
