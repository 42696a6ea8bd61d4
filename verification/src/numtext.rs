//! Numeric text: the grammar of floating-point literals and a canonical
//! rendering.
//!
//! A measurement value is carried as validated numeric text.  The accepted
//! grammar is `sign? (inf | infinity | nan | number)` with `inf`, `infinity`
//! and `nan` case-insensitive, and `number` a run of digits with at most one
//! dot and at least one digit, optionally followed by an exponent
//! `e|E sign? digits`.  The canonical rendering drops a leading plus sign
//! and, on a plain decimal containing a dot, strips redundant trailing
//! fractional zeros and a bare trailing dot, and restores a leading zero
//! before a bare dot; every other spelling is preserved.

use vstd::prelude::*;

use crate::scan::lemma_scan_while;
use crate::scan::lemma_scan_while_is;
use crate::scan::scan_while;

verus! {

/// Failure of numeric-text validation, wrapped by the measurement error.
#[derive(Debug, Clone, Copy, PartialEq, Eq, Structural)]
pub enum ParseNumberError {
    Invalid,
}

pub open spec fn is_digit(c: char) -> bool {
    '0' as u32 <= c as u32 && c as u32 <= '9' as u32
}

pub open spec fn all_digits(s: Seq<char>) -> bool {
    forall|i: int| 0 <= i < s.len() ==> is_digit(s[i])
}

pub open spec fn is_sign_char(c: char) -> bool {
    c == '+' || c == '-'
}

pub open spec fn is_exp_char(c: char) -> bool {
    c == 'e' || c == 'E'
}

pub open spec fn strip_sign(s: Seq<char>) -> Seq<char> {
    if s.len() > 0 && is_sign_char(s[0]) {
        s.subrange(1, s.len() as int)
    } else {
        s
    }
}

/// Case-insensitive match of `c` against the lowercase letter `l`.
pub open spec fn eq_ic(c: char, l: char) -> bool {
    c as u32 == l as u32 || c as u32 == l as u32 - 32
}

pub open spec fn is_inf_text(s: Seq<char>) -> bool {
    ||| (s.len() == 3 && eq_ic(s[0], 'i') && eq_ic(s[1], 'n') && eq_ic(s[2], 'f'))
    ||| (s.len() == 8 && eq_ic(s[0], 'i') && eq_ic(s[1], 'n') && eq_ic(s[2], 'f') && eq_ic(
        s[3],
        'i',
    ) && eq_ic(s[4], 'n') && eq_ic(s[5], 'i') && eq_ic(s[6], 't') && eq_ic(s[7], 'y'))
}

pub open spec fn is_nan_text(s: Seq<char>) -> bool {
    s.len() == 3 && eq_ic(s[0], 'n') && eq_ic(s[1], 'a') && eq_ic(s[2], 'n')
}

/// Digits with at most one dot and at least one digit.
pub open spec fn is_mantissa(s: Seq<char>) -> bool {
    &&& s.len() > 0
    &&& forall|i: int| 0 <= i < s.len() ==> is_digit(s[i]) || s[i] == '.'
    &&& forall|i: int, j: int|
        0 <= i < s.len() && 0 <= j < s.len() && s[i] == '.' && s[j] == '.' ==> i == j
    &&& exists|i: int| 0 <= i < s.len() && is_digit(s[i])
}

pub open spec fn is_exp_digits(t: Seq<char>) -> bool {
    t.len() > 0 && all_digits(t)
}

pub open spec fn not_exp_pred() -> spec_fn(char) -> bool {
    |c: char| !is_exp_char(c)
}

/// A mantissa, optionally followed by `e|E sign? digits`; the split point is
/// the first exponent marker, which a mantissa cannot contain.
pub open spec fn is_number_text(b: Seq<char>) -> bool {
    let e = scan_while(b, 0, not_exp_pred());
    if e == b.len() {
        is_mantissa(b)
    } else {
        is_mantissa(b.subrange(0, e)) && is_exp_digits(
            strip_sign(b.subrange(e + 1, b.len() as int)),
        )
    }
}

/// The texts that `Measurement` accepts as a value.
pub open spec fn is_float_text(s: Seq<char>) -> bool {
    ||| is_inf_text(strip_sign(s))
    ||| is_nan_text(strip_sign(s))
    ||| is_number_text(strip_sign(s))
}

/// The shapes that canonicalization rewrites: digits and dots only, with at
/// least one dot.
pub open spec fn is_dotted_decimal(b: Seq<char>) -> bool {
    &&& b.len() > 0
    &&& forall|i: int| 0 <= i < b.len() ==> is_digit(b[i]) || b[i] == '.'
    &&& exists|i: int| 0 <= i < b.len() && b[i] == '.'
}

/// Start of the maximal run of trailing `'0'` characters.
pub open spec fn nz_end(s: Seq<char>) -> int
    decreases s.len(),
{
    if s.len() > 0 && s[s.len() - 1] == '0' {
        nz_end(s.drop_last())
    } else {
        s.len() as int
    }
}

pub proof fn lemma_nz_end(s: Seq<char>)
    ensures
        0 <= nz_end(s) <= s.len(),
        forall|k: int| nz_end(s) <= k < s.len() ==> s[k] == '0',
        nz_end(s) > 0 ==> s[nz_end(s) - 1] != '0',
    decreases s.len(),
{
    if s.len() > 0 && s[s.len() - 1] == '0' {
        lemma_nz_end(s.drop_last());
        assert(forall|k: int| 0 <= k < s.len() - 1 ==> s.drop_last()[k] == s[k]);
    }
}

pub proof fn lemma_nz_end_is(s: Seq<char>, z: int)
    requires
        0 <= z <= s.len(),
        forall|k: int| z <= k < s.len() ==> s[k] == '0',
        z > 0 ==> s[z - 1] != '0',
    ensures
        nz_end(s) == z,
    decreases s.len(),
{
    if s.len() > z {
        assert(s[s.len() - 1] == '0');
        assert(forall|k: int| 0 <= k < s.len() - 1 ==> s.drop_last()[k] == s[k]);
        lemma_nz_end_is(s.drop_last(), z);
    }
}

/// Canonical body of a dotted decimal: strip trailing zeros, then a bare
/// trailing dot, and restore a leading zero before a bare dot.
pub open spec fn canon_body(b: Seq<char>) -> Seq<char> {
    let z = nz_end(b);
    let e = if z > 0 && b[z - 1] == '.' {
        z - 1
    } else {
        z
    };
    let core = b.subrange(0, e);
    if b.len() > 0 && b[0] == '.' {
        seq!['0'] + core
    } else {
        core
    }
}

/// Canonical rendering of accepted numeric text.
pub open spec fn canon_float(s: Seq<char>) -> Seq<char> {
    let neg = s.len() > 0 && s[0] == '-';
    let b = strip_sign(s);
    let body = if is_dotted_decimal(b) {
        canon_body(b)
    } else {
        b
    };
    if neg {
        seq!['-'] + body
    } else {
        body
    }
}

/// Characterization of the canonical body of a valid dotted mantissa: it is
/// again a mantissa, starts with a digit, and if a dot remains the text ends
/// in a nonzero digit, so a second pass leaves it unchanged.
proof fn lemma_canon_body(b: Seq<char>)
    requires
        is_mantissa(b),
        is_dotted_decimal(b),
    ensures
        is_mantissa(canon_body(b)),
        is_digit(canon_body(b)[0]),
        (exists|i: int| 0 <= i < canon_body(b).len() && canon_body(b)[i] == '.') ==> {
            &&& canon_body(b)[canon_body(b).len() - 1] != '0'
            &&& is_digit(canon_body(b)[canon_body(b).len() - 1])
            &&& canon_body(b) == canon_body(canon_body(b))
        },
{
    let c = canon_body(b);
    let z = nz_end(b);
    lemma_nz_end(b);
    let dp = choose|i: int| 0 <= i < b.len() && b[i] == '.';
    // the unique dot is never a trailing zero, so the zero run starts after it
    assert(dp < z);
    if z > 0 && b[z - 1] == '.' {
        // the dot itself ends the stripped text; what is left is all digits
        assert(z - 1 == dp);
        let core = b.subrange(0, dp);
        assert(forall|k: int| 0 <= k < dp ==> core[k] == b[k]);
        assert(all_digits(core)) by {
            assert forall|k: int| 0 <= k < dp implies is_digit(core[k]) by {
                if core[k] == '.' {
                    assert(b[k] == '.');
                }
            }
        }
        if b[0] == '.' {
            assert(dp == 0);
            assert(c =~= seq!['0']);
            assert(is_digit(c[0]));
            assert(forall|i: int| 0 <= i < c.len() ==> c[i] != '.');
        } else {
            assert(c == core);
            assert(dp > 0) by {
                if dp == 0 {
                    assert(b[0] == '.');
                }
            }
            assert(is_digit(c[0]));
            assert(forall|i: int| 0 <= i < c.len() ==> c[i] != '.');
        }
    } else {
        // a nonzero digit ends the stripped text and the dot stays inside
        assert(z > 0) by {
            if z == 0 {
                assert(b[dp] == '0');
            }
        }
        assert(is_digit(b[z - 1]) && b[z - 1] != '0');
        let core = b.subrange(0, z);
        assert(forall|k: int| 0 <= k < z ==> core[k] == b[k]);
        if b[0] == '.' {
            assert(dp == 0);
            assert(c == seq!['0'] + core);
            assert(c[0] == '0' && is_digit(c[0]));
            assert(c[c.len() - 1] == b[z - 1]);
            assert forall|i: int, j: int|
                0 <= i < c.len() && 0 <= j < c.len() && c[i] == '.' && c[j] == '.' implies i
                == j by {
                assert(c[i] == b[i - 1] && c[j] == b[j - 1]);
            }
            assert(c[dp + 1] == '.');
        } else {
            assert(c == core);
            assert(c[0] == b[0] && is_digit(c[0]));
            assert(c[c.len() - 1] == b[z - 1]);
            assert(c[dp] == '.');
        }
        // a second pass finds nothing to strip
        assert(c == canon_body(c)) by {
            lemma_nz_end_is(c, c.len() as int);
            assert(canon_body(c) == c.subrange(0, c.len() as int));
            assert(c.subrange(0, c.len() as int) =~= c);
        }
    }
}

/// Canonicalizing accepted numeric text yields accepted numeric text.
pub proof fn lemma_canon_valid(s: Seq<char>)
    requires
        is_float_text(s),
    ensures
        is_float_text(canon_float(s)),
{
    let b = strip_sign(s);
    let neg = s.len() > 0 && s[0] == '-';
    let t = canon_float(s);
    if is_dotted_decimal(b) {
        lemma_dotted_valid_is_mantissa(b);
        lemma_canon_body(b);
        let c = canon_body(b);
        assert(strip_sign(t) == c) by {
            if neg {
                assert(t == seq!['-'] + c);
                assert(t[0] == '-');
                assert(t.subrange(1, t.len() as int) =~= c);
            } else {
                assert(t == c);
                assert(!is_sign_char(t[0]));
            }
        }
        lemma_scan_while_is(c, 0, c.len() as int, not_exp_pred());
        assert(is_number_text(c));
    } else {
        assert(strip_sign(t) == b) by {
            if neg {
                assert(t == seq!['-'] + b);
                assert(t[0] == '-');
                assert(t.subrange(1, t.len() as int) =~= b);
            } else {
                assert(t == b);
                if t.len() > 0 && is_sign_char(t[0]) {
                    lemma_first_char_not_sign(b);
                }
            }
        }
    }
}

/// Canonicalization is idempotent on accepted numeric text.
pub proof fn lemma_canon_idempotent(s: Seq<char>)
    requires
        is_float_text(s),
    ensures
        canon_float(canon_float(s)) == canon_float(s),
{
    let b = strip_sign(s);
    let neg = s.len() > 0 && s[0] == '-';
    let t = canon_float(s);
    if is_dotted_decimal(b) {
        lemma_dotted_valid_is_mantissa(b);
        lemma_canon_body(b);
        let c = canon_body(b);
        assert(strip_sign(t) == c) by {
            if neg {
                assert(t == seq!['-'] + c);
                assert(t[0] == '-');
                assert(t.subrange(1, t.len() as int) =~= c);
            } else {
                assert(t == c);
                assert(!is_sign_char(t[0]));
            }
        }
        assert(t.len() > 0 && t[0] == '-' ==> neg) by {
            if t.len() > 0 && t[0] == '-' && !neg {
                assert(t == c && is_digit(c[0]));
            }
        }
        if is_dotted_decimal(c) {
            assert(c == canon_body(c));
            assert(canon_float(t) =~= t);
        } else {
            assert(canon_float(t) =~= t);
        }
    } else {
        assert(strip_sign(t) == b && (t.len() > 0 && t[0] == '-' ==> neg)) by {
            if neg {
                assert(t == seq!['-'] + b);
                assert(t[0] == '-');
                assert(t.subrange(1, t.len() as int) =~= b);
            } else {
                assert(t == b);
                if t.len() > 0 && is_sign_char(t[0]) {
                    lemma_first_char_not_sign(b);
                }
            }
        }
        assert(canon_float(t) =~= t);
    }
}

/// On a valid unsigned body, a dotted-decimal shape means the body is a
/// mantissa: the letters of `inf` and `nan` and the exponent marker are
/// neither digits nor dots.
proof fn lemma_dotted_valid_is_mantissa(b: Seq<char>)
    requires
        is_dotted_decimal(b),
        is_inf_text(b) || is_nan_text(b) || is_number_text(b),
    ensures
        is_mantissa(b),
{
    if is_inf_text(b) || is_nan_text(b) {
        assert(!(is_digit(b[0]) || b[0] == '.'));
    } else {
        lemma_scan_while_is(b, 0, b.len() as int, not_exp_pred());
    }
}

/// A valid unsigned body never starts with a sign character.
proof fn lemma_first_char_not_sign(b: Seq<char>)
    requires
        is_inf_text(b) || is_nan_text(b) || is_number_text(b),
        b.len() > 0,
    ensures
        !is_sign_char(b[0]),
{
    if is_number_text(b) {
        let e = scan_while(b, 0, not_exp_pred());
        lemma_scan_while(b, 0, not_exp_pred());
        if e == b.len() {
            assert(is_digit(b[0]) || b[0] == '.');
        } else {
            if e == 0 {
                assert(is_mantissa(b.subrange(0, 0)));
                assert(b.subrange(0, 0).len() == 0);
            }
            assert(b.subrange(0, e)[0] == b[0]);
            assert(is_digit(b[0]) || b[0] == '.');
        }
    }
}

/// Accepted numeric text never contains a space or a bracket, so a value
/// keeps the token shape that the measurement and list grammars expect.
pub proof fn lemma_float_text_chars(s: Seq<char>)
    requires
        is_float_text(s),
    ensures
        forall|i: int| 0 <= i < s.len() ==> s[i] != ' ' && s[i] != '[' && s[i] != ']',
{
    let b = strip_sign(s);
    let off: int = if s.len() > 0 && is_sign_char(s[0]) {
        1
    } else {
        0
    };
    assert(b.len() + off == s.len());
    assert(forall|k: int| 0 <= k < b.len() ==> s[k + off] == b[k]);
    assert forall|i: int| 0 <= i < s.len() implies s[i] != ' ' && s[i] != '[' && s[i] != ']' by {
        if i < off {
            assert(is_sign_char(s[i]));
        } else {
            lemma_body_chars(b);
            assert(s[i] == b[i - off]);
        }
    }
}

/// Every character of a valid unsigned body is a digit, dot, sign, exponent
/// marker, or a letter of `inf`/`infinity`/`nan` in either case.
proof fn lemma_body_chars(b: Seq<char>)
    requires
        is_inf_text(b) || is_nan_text(b) || is_number_text(b),
    ensures
        forall|k: int| 0 <= k < b.len() ==> b[k] != ' ' && b[k] != '[' && b[k] != ']',
{
    if is_inf_text(b) || is_nan_text(b) {
        assert forall|k: int| 0 <= k < b.len() implies b[k] != ' ' && b[k] != '[' && b[k]
            != ']' by {
            assert(eq_ic(b[k], 'i') || eq_ic(b[k], 'n') || eq_ic(b[k], 'f') || eq_ic(b[k], 't')
                || eq_ic(b[k], 'y') || eq_ic(b[k], 'a'));
        }
    } else {
        let e = scan_while(b, 0, not_exp_pred());
        lemma_scan_while(b, 0, not_exp_pred());
        assert forall|k: int| 0 <= k < b.len() implies b[k] != ' ' && b[k] != '[' && b[k]
            != ']' by {
            if e == b.len() {
                assert(is_digit(b[k]) || b[k] == '.');
            } else {
                let tail = b.subrange(e + 1, b.len() as int);
                if k < e {
                    assert(b.subrange(0, e)[k] == b[k]);
                    assert(is_digit(b[k]) || b[k] == '.');
                } else if k == e {
                    assert(is_exp_char(b[k]));
                } else {
                    assert(tail[k - e - 1] == b[k]);
                    if tail.len() > 0 && is_sign_char(tail[0]) {
                        if k == e + 1 {
                            assert(is_sign_char(b[k]));
                        } else {
                            assert(strip_sign(tail)[k - e - 2] == tail[k - e - 1]);
                            assert(is_digit(b[k]));
                        }
                    } else {
                        assert(strip_sign(tail) == tail);
                        assert(is_digit(b[k]));
                    }
                }
            }
        }
    }
}

fn digit_char(c: char) -> (r: bool)
    ensures
        r == is_digit(c),
{
    '0' as u32 <= c as u32 && c as u32 <= '9' as u32
}

fn not_exp_char(c: char) -> (r: bool)
    ensures
        r == !is_exp_char(c),
{
    c != 'e' && c != 'E'
}

fn ic_char(c: char, l: char) -> (r: bool)
    requires
        'a' as u32 <= l as u32 <= 'z' as u32,
    ensures
        r == eq_ic(c, l),
{
    c as u32 == l as u32 || c as u32 == l as u32 - 32
}

fn is_mantissa_str(m: &str) -> (r: bool)
    ensures
        r == is_mantissa(m@),
{
    let n = m.unicode_len();
    if n == 0 {
        return false;
    }
    let mut k: usize = 0;
    let mut seen_dot = false;
    let mut seen_digit = false;
    while k < n
        invariant
            n == m@.len(),
            0 <= k <= n,
            forall|i: int| 0 <= i < k ==> is_digit(m@[i]) || m@[i] == '.',
            seen_dot == exists|i: int| 0 <= i < k && m@[i] == '.',
            forall|i: int, j: int|
                0 <= i < k && 0 <= j < k && m@[i] == '.' && m@[j] == '.' ==> i == j,
            seen_digit == exists|i: int| 0 <= i < k && is_digit(m@[i]),
        decreases n - k,
    {
        let c = m.get_char(k);
        if c == '.' {
            if seen_dot {
                proof {
                    let i0 = choose|i: int| 0 <= i < k && m@[i] == '.';
                    assert(m@[i0] == '.' && m@[k as int] == '.' && i0 != k);
                }
                return false;
            }
            seen_dot = true;
        } else if digit_char(c) {
            seen_digit = true;
        } else {
            return false;
        }
        k = k + 1;
    }
    seen_digit
}

/// Whether the whole text is an accepted numeric literal.
pub fn check_float_text(s: &str) -> (r: bool)
    ensures
        r == is_float_text(s@),
{
    let n = s.unicode_len();
    let start: usize = if n > 0 {
        let c0 = s.get_char(0);
        if c0 == '+' || c0 == '-' {
            1
        } else {
            0
        }
    } else {
        0
    };
    let b = s.substring_char(start, n);
    proof {
        assert(b@ =~= strip_sign(s@));
    }
    check_unsigned_float(b)
}

fn is_inf_str(b: &str) -> (r: bool)
    ensures
        r == is_inf_text(b@),
{
    let n = b.unicode_len();
    if n == 3 {
        ic_char(b.get_char(0), 'i') && ic_char(b.get_char(1), 'n') && ic_char(b.get_char(2), 'f')
    } else if n == 8 {
        ic_char(b.get_char(0), 'i') && ic_char(b.get_char(1), 'n') && ic_char(b.get_char(2), 'f')
            && ic_char(b.get_char(3), 'i') && ic_char(b.get_char(4), 'n') && ic_char(
            b.get_char(5),
            'i',
        ) && ic_char(b.get_char(6), 't') && ic_char(b.get_char(7), 'y')
    } else {
        false
    }
}

fn is_nan_str(b: &str) -> (r: bool)
    ensures
        r == is_nan_text(b@),
{
    let n = b.unicode_len();
    n == 3 && ic_char(b.get_char(0), 'n') && ic_char(b.get_char(1), 'a') && ic_char(
        b.get_char(2),
        'n',
    )
}

fn check_unsigned_float(b: &str) -> (r: bool)
    ensures
        r == (is_inf_text(b@) || is_nan_text(b@) || is_number_text(b@)),
{
    if is_inf_str(b) || is_nan_str(b) {
        return true;
    }
    let n = b.unicode_len();
    let mut e: usize = 0;
    while e < n && not_exp_char(b.get_char(e))
        invariant
            n == b@.len(),
            0 <= e <= n,
            forall|i: int| 0 <= i < e ==> !is_exp_char(b@[i]),
        decreases n - e,
    {
        e = e + 1;
    }
    proof {
        lemma_scan_while_is(b@, 0, e as int, not_exp_pred());
    }
    if e == n {
        let r = is_mantissa_str(b);
        proof {
            assert(b@.subrange(0, n as int) =~= b@);
        }
        r
    } else {
        let mant = b.substring_char(0, e);
        if !is_mantissa_str(mant) {
            return false;
        }
        let t0 = e + 1;
        let tstart: usize = if t0 < n {
            let c = b.get_char(t0);
            if c == '+' || c == '-' {
                t0 + 1
            } else {
                t0
            }
        } else {
            t0
        };
        proof {
            let tail = b@.subrange(t0 as int, n as int);
            assert(b@.subrange(tstart as int, n as int) =~= strip_sign(tail));
        }
        if tstart >= n {
            return false;
        }
        let mut j: usize = tstart;
        while j < n && digit_char(b.get_char(j))
            invariant
                n == b@.len(),
                tstart <= j <= n,
                forall|i: int| tstart <= i < j ==> is_digit(b@[i]),
            decreases n - j,
        {
            j = j + 1;
        }
        proof {
            let digits = b@.subrange(tstart as int, n as int);
            if j == n {
                assert forall|i: int| 0 <= i < digits.len() implies is_digit(
                    #[trigger] digits[i],
                ) by {
                    assert(digits[i] == b@[tstart + i]);
                }
            } else {
                assert(digits[j - tstart] == b@[j as int]);
            }
        }
        j == n
    }
}

/// Canonical rendering of an accepted numeric literal, as `canon_float`
/// describes it.
pub fn canon_float_str(s: &str) -> (r: String)
    ensures
        r@ == canon_float(s@),
{
    let n = s.unicode_len();
    let neg = n > 0 && s.get_char(0) == '-';
    let start: usize = if n > 0 {
        let c0 = s.get_char(0);
        if c0 == '+' || c0 == '-' {
            1
        } else {
            0
        }
    } else {
        0
    };
    let b = s.substring_char(start, n);
    proof {
        assert(b@ =~= strip_sign(s@));
    }
    let bn = b.unicode_len();
    let mut all_dd = true;
    let mut has_dot = false;
    let mut k: usize = 0;
    while k < bn
        invariant
            bn == b@.len(),
            0 <= k <= bn,
            all_dd == forall|i: int| 0 <= i < k ==> is_digit(b@[i]) || b@[i] == '.',
            has_dot == exists|i: int| 0 <= i < k && b@[i] == '.',
        decreases bn - k,
    {
        let c = b.get_char(k);
        if c == '.' {
            has_dot = true;
        } else if !digit_char(c) {
            all_dd = false;
        }
        k = k + 1;
    }
    let mut out = String::new();
    if neg {
        out.append("-");
    }
    proof {
        reveal_strlit("-");
        if neg {
            assert(out@ =~= seq!['-']);
        }
    }
    if !(bn > 0 && all_dd && has_dot) {
        out.append(b);
        proof {
            assert(!is_dotted_decimal(b@));
            if neg {
                assert(out@ =~= canon_float(s@));
            } else {
                assert(out@ =~= canon_float(s@));
            }
        }
        return out;
    }
    let mut z = bn;
    while z > 0 && b.get_char(z - 1) == '0'
        invariant
            bn == b@.len(),
            0 <= z <= bn,
            forall|i: int| z <= i < bn ==> b@[i] == '0',
        decreases z,
    {
        z = z - 1;
    }
    proof {
        lemma_nz_end_is(b@, z as int);
    }
    let e: usize = if z > 0 && b.get_char(z - 1) == '.' {
        z - 1
    } else {
        z
    };
    if b.get_char(0) == '.' {
        out.append("0");
        proof {
            reveal_strlit("0");
        }
    }
    let core = b.substring_char(0, e);
    out.append(core);
    proof {
        assert(out@ =~= canon_float(s@));
    }
    out
}

} // verus!
