//! Launch configuration: the window mode chosen from command-line switches,
//! and the validators those switches run on their raw string values.

use vstd::prelude::*;

verus! {

/// How the window is to be created.
#[derive(Clone, Copy, Debug, PartialEq, Eq)]
pub enum WindowState {
    Windowed(u16, u16),
    Maximized,
    Fullscreen,
}

/// The launch flags the host passes on.
#[derive(Clone, Copy)]
pub struct Flags {
    pub vsync: bool,
    pub state: WindowState,
}

/// Which window mode the switches select: fullscreen wins, then maximized,
/// then an explicit size, and otherwise an 800x600 window.
pub open spec fn chosen_window_state(
    fullscreen: bool,
    maximized: bool,
    width: Option<u16>,
    height: Option<u16>,
) -> WindowState {
    if fullscreen {
        WindowState::Fullscreen
    } else if maximized {
        WindowState::Maximized
    } else {
        match (width, height) {
            (Some(w), Some(h)) => WindowState::Windowed(w, h),
            _ => WindowState::Windowed(800, 600),
        }
    }
}

/// Picks the window mode for the given switches.
pub fn window_state(
    fullscreen: bool,
    maximized: bool,
    width: Option<u16>,
    height: Option<u16>,
) -> (r: WindowState)
    ensures
        r == chosen_window_state(fullscreen, maximized, width, height),
{
    if fullscreen {
        WindowState::Fullscreen
    } else if maximized {
        WindowState::Maximized
    } else {
        match (width, height) {
            (Some(w), Some(h)) => WindowState::Windowed(w, h),
            _ => WindowState::Windowed(800, 600),
        }
    }
}

/// Validates a boolean switch value: exactly `true` or `false`.
pub fn is_bool(v: String) -> (r: Result<(), String>)
    ensures
        (r is Ok) <==> (v@ == "true"@ || v@ == "false"@),
        r matches Err(e) ==> e@ == "Must be boolean"@,
{
    let t: String = "true".to_owned();
    let f: String = "false".to_owned();
    if v == t || v == f {
        Ok(())
    } else {
        Err("Must be boolean".to_owned())
    }
}

/// The digit part of a numeral: everything after an optional leading plus.
pub open spec fn numeral_digits(s: Seq<char>) -> Seq<char> {
    if s.len() > 0 && s[0] == '+' {
        s.subrange(1, s.len() as int)
    } else {
        s
    }
}

/// Whether every character is an ASCII decimal digit.
pub open spec fn all_digits(s: Seq<char>) -> bool {
    forall|i: int| 0 <= i < s.len() ==> 48 <= (#[trigger] s[i]) as int <= 57
}

/// The value of a string of decimal digits, most significant first.
pub open spec fn dec_val(s: Seq<char>) -> int
    decreases s.len(),
{
    if s.len() == 0 {
        0
    } else {
        dec_val(s.drop_last()) * 10 + (s.last() as int - 48)
    }
}

/// What `u16` parsing accepts: an optional plus sign, then at least one
/// decimal digit, with a value that fits in 16 bits.
pub open spec fn is_u16_numeral(s: Seq<char>) -> bool {
    &&& numeral_digits(s).len() > 0
    &&& all_digits(numeral_digits(s))
    &&& dec_val(numeral_digits(s)) <= 65535
}

/// A digit string's value is never negative.
proof fn lemma_dec_val_nonneg(s: Seq<char>)
    requires
        all_digits(s),
    ensures
        dec_val(s) >= 0,
    decreases s.len(),
{
    if s.len() > 0 {
        assert(forall|i: int|
            0 <= i < s.drop_last().len() ==> 48 <= (#[trigger] s.drop_last()[i]) as int <= 57);
        lemma_dec_val_nonneg(s.drop_last());
    }
}

/// A digit string is worth at least any of its prefixes.
proof fn lemma_dec_val_prefix_le(s: Seq<char>, n: int)
    requires
        all_digits(s),
        0 <= n <= s.len(),
    ensures
        dec_val(s.take(n)) <= dec_val(s),
    decreases s.len() - n,
{
    if n < s.len() {
        assert(s.take(n + 1).drop_last() =~= s.take(n));
        assert(forall|i: int|
            0 <= i < s.take(n).len() ==> 48 <= (#[trigger] s.take(n)[i]) as int <= 57);
        lemma_dec_val_nonneg(s.take(n));
        assert(dec_val(s.take(n + 1)) == dec_val(s.take(n)) * 10 + (s[n] as int - 48));
        assert(dec_val(s.take(n)) * 10 >= dec_val(s.take(n))) by (nonlinear_arith)
            requires
                dec_val(s.take(n)) >= 0,
        ;
        lemma_dec_val_prefix_le(s, n + 1);
        assert(s.take(s.len() as int) =~= s);
    } else {
        assert(s.take(n) =~= s);
    }
}

/// Validates a numeric switch value: what parsing as `u16` accepts.
#[verifier::loop_isolation(false)]
pub fn is_num(v: String) -> (r: Result<(), String>)
    ensures
        (r is Ok) <==> is_u16_numeral(v@),
        r matches Err(e) ==> e@ == "Must be integer"@,
{
    let s: &str = v.as_str();
    let n: usize = s.unicode_len();
    let start: usize = if n > 0 && s.get_char(0) == '+' {
        1
    } else {
        0
    };
    let ghost digits = numeral_digits(v@);
    proof {
        assert(digits =~= v@.subrange(start as int, n as int));
    }
    if n == start {
        return Err("Must be integer".to_owned());
    }
    let mut acc: u32 = 0;
    let mut k: usize = start;
    while k < n
        invariant
            start <= k <= n,
            forall|i: int| start <= i < k ==> 48 <= (#[trigger] v@[i]) as int <= 57,
            acc == dec_val(v@.subrange(start as int, k as int)),
            acc <= 65535,
        decreases n - k,
    {
        let c: char = s.get_char(k);
        let cu: u32 = c as u32;
        if cu < 48 || cu > 57 {
            proof {
                assert(digits[k as int - start] == v@[k as int]);
                assert(!all_digits(digits));
            }
            return Err("Must be integer".to_owned());
        }
        proof {
            assert(v@.subrange(start as int, k as int + 1).drop_last() =~= v@.subrange(
                start as int,
                k as int,
            ));
        }
        acc = acc * 10 + (cu - 48);
        if acc > 65535 {
            proof {
                if all_digits(digits) {
                    assert(digits.take(k as int + 1 - start) =~= v@.subrange(
                        start as int,
                        k as int + 1,
                    ));
                    lemma_dec_val_prefix_le(digits, k as int + 1 - start);
                }
            }
            return Err("Must be integer".to_owned());
        }
        k = k + 1;
    }
    proof {
        assert(digits =~= v@.subrange(start as int, n as int));
    }
    Ok(())
}

} // verus!
