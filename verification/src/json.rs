//! Byte-level building blocks of the node's wire format.
//!
//! Every message of the node travels as one newline-terminated JSON record.
//! This module gives the pieces the records are built from and read with:
//! decimal numbers, fixed literals, tokens with the whitespace JSON allows
//! in front of them, and trailing whitespace. Each executable reader mirrors
//! a specification-level parser exactly, so the codecs above can state what
//! they accept as well as what they produce.

use vstd::arithmetic::div_mod::lemma_fundamental_div_mod;
use vstd::prelude::*;

verus! {

/// An ASCII decimal digit.
pub open spec fn is_digit(b: u8) -> bool {
    48 <= b && b <= 57
}

/// ASCII whitespace as the wire format tolerates it after a record: space,
/// tab, carriage return, line feed.
pub open spec fn is_ws(b: u8) -> bool {
    b == 32 || b == 9 || b == 13 || b == 10
}

/// Only whitespace from position `i` to the end.
pub open spec fn ws_only(s: Seq<u8>, i: int) -> bool {
    forall|j: int| i <= j < s.len() ==> is_ws(#[trigger] s[j])
}

/// The end of the whitespace run that starts at `i`.
pub open spec fn ws_end(s: Seq<u8>, i: int) -> int
    decreases s.len() - i,
{
    if i < 0 || i >= s.len() {
        i
    } else if is_ws(s[i]) {
        ws_end(s, i + 1)
    } else {
        i
    }
}

/// `ws_end` finds exactly the border of a whitespace run.
pub proof fn lemma_ws_end_at(s: Seq<u8>, i: int, j: int)
    requires
        0 <= i <= j <= s.len(),
        forall|k: int| i <= k < j ==> is_ws(#[trigger] s[k]),
        j == s.len() || !is_ws(s[j]),
    ensures
        ws_end(s, i) == j,
    decreases j - i,
{
    if i < j {
        lemma_ws_end_at(s, i + 1, j);
    }
}

/// The whitespace run's border lies between `i` and the end of `s`.
pub proof fn lemma_ws_end_bounds(s: Seq<u8>, i: int)
    requires
        0 <= i <= s.len(),
    ensures
        i <= ws_end(s, i) <= s.len(),
        ws_end(s, i) == s.len() || !is_ws(s[ws_end(s, i)]),
    decreases s.len() - i,
{
    if i < s.len() && is_ws(s[i]) {
        lemma_ws_end_bounds(s, i + 1);
    }
}

/// Step past the whitespace run that starts at `i`.
#[verifier::loop_isolation(false)]
pub fn skip_ws(s: &[u8], i: usize) -> (j: usize)
    requires
        i <= s@.len(),
    ensures
        j == ws_end(s@, i as int),
        i <= j <= s@.len(),
{
    proof {
        lemma_ws_end_bounds(s@, i as int);
    }
    let ghost end = ws_end(s@, i as int);
    let mut j: usize = i;
    while j < s.len() && (s[j] == 32 || s[j] == 9 || s[j] == 13 || s[j] == 10)
        invariant
            i <= j <= s@.len(),
            j <= end,
            forall|k: int| i <= k < j ==> is_ws(#[trigger] s@[k]),
        decreases s@.len() - j,
    {
        proof {
            if j + 1 > end {
                assert(is_ws(s@[end]));
            }
        }
        j = j + 1;
    }
    proof {
        lemma_ws_end_at(s@, i as int, j as int);
    }
    j
}

/// The decimal digits of `n`, most significant first, no leading zeros.
pub open spec fn dec_nat(n: nat) -> Seq<u8>
    decreases n,
{
    if n < 10 {
        seq![(48 + n) as u8]
    } else {
        dec_nat(n / 10).push((48 + n % 10) as u8)
    }
}

/// Every byte of a decimal rendering is a digit, and there is at least one.
pub proof fn lemma_dec_nat_digits(n: nat)
    ensures
        dec_nat(n).len() >= 1,
        forall|k: int| 0 <= k < dec_nat(n).len() ==> is_digit(#[trigger] dec_nat(n)[k]),
    decreases n,
{
    if n >= 10 {
        lemma_dec_nat_digits(n / 10);
    }
}

/// A decimal rendering of more than one digit never starts with a zero.
pub proof fn lemma_dec_nat_no_leading_zero(n: nat)
    ensures
        dec_nat(n).len() > 1 ==> dec_nat(n)[0] != 48,
    decreases n,
{
    if n >= 10 {
        lemma_dec_nat_no_leading_zero(n / 10);
        lemma_dec_nat_digits(n / 10);
        assert(dec_nat(n) == dec_nat(n / 10).push((48 + n % 10) as u8));
        assert(dec_nat(n)[0] == dec_nat(n / 10)[0]);
        if dec_nat(n / 10).len() == 1 {
            assert(n / 10 >= 1);
            if n / 10 >= 10 {
                lemma_dec_nat_digits((n / 10) / 10);
                assert(dec_nat(n / 10).len() > 1);
            }
            assert(n / 10 < 10);
            assert(dec_nat(n / 10)[0] == (48 + n / 10) as u8);
            assert((48 + n / 10) as u8 != 48);
        }
    }
}

/// The end of the digit run that starts at `i`.
pub open spec fn digits_end(s: Seq<u8>, i: int) -> int
    decreases s.len() - i,
{
    if i < 0 || i >= s.len() {
        i
    } else if is_digit(s[i]) {
        digits_end(s, i + 1)
    } else {
        i
    }
}

/// All bytes of `s` in `[i, j)` are digits.
pub open spec fn all_digits(s: Seq<u8>, i: int, j: int) -> bool {
    forall|k: int| i <= k < j ==> is_digit(#[trigger] s[k])
}

/// `digits_end` finds exactly the border of a digit run.
pub proof fn lemma_digits_end_at(s: Seq<u8>, i: int, j: int)
    requires
        0 <= i <= j <= s.len(),
        all_digits(s, i, j),
        j == s.len() || !is_digit(s[j]),
    ensures
        digits_end(s, i) == j,
    decreases j - i,
{
    if i < j {
        lemma_digits_end_at(s, i + 1, j);
    }
}

/// The digit run's border lies between `i` and the end of `s`, and the run
/// is all digits.
pub proof fn lemma_digits_end_bounds(s: Seq<u8>, i: int)
    requires
        0 <= i <= s.len(),
    ensures
        i <= digits_end(s, i) <= s.len(),
        all_digits(s, i, digits_end(s, i)),
        digits_end(s, i) == s.len() || !is_digit(s[digits_end(s, i)]),
    decreases s.len() - i,
{
    if i < s.len() && is_digit(s[i]) {
        lemma_digits_end_bounds(s, i + 1);
    }
}

/// The value of the digits of `s` in `[i, j)`, read as a decimal number.
pub open spec fn digits_val(s: Seq<u8>, i: int, j: int) -> int
    decreases j - i,
{
    if j <= i {
        0
    } else {
        digits_val(s, i, j - 1) * 10 + (s[j - 1] - 48)
    }
}

/// Reading more digits never shrinks the value.
pub proof fn lemma_digits_val_mono(s: Seq<u8>, i: int, j: int, k: int)
    requires
        i <= j <= k,
        all_digits(s, i, k),
    ensures
        0 <= digits_val(s, i, j) <= digits_val(s, i, k),
    decreases k - j,
{
    if j == k {
        lemma_digits_val_nonneg(s, i, j);
    } else {
        lemma_digits_val_mono(s, i, j, k - 1);
        assert(is_digit(s[k - 1]));
    }
}

/// A digit run's value is not negative.
pub proof fn lemma_digits_val_nonneg(s: Seq<u8>, i: int, j: int)
    requires
        all_digits(s, i, j),
    ensures
        0 <= digits_val(s, i, j),
    decreases j - i,
{
    if j > i {
        lemma_digits_val_nonneg(s, i, j - 1);
        assert(is_digit(s[j - 1]));
    }
}

/// Reading back the decimal rendering of `n` yields `n`.
pub proof fn lemma_digits_val_of_dec(s: Seq<u8>, i: int, j: int, n: nat)
    requires
        0 <= i <= j <= s.len(),
        s.subrange(i, j) == dec_nat(n),
    ensures
        digits_val(s, i, j) == n,
    decreases n,
{
    let d = dec_nat(n);
    if n < 10 {
        assert(d.len() == 1);
        assert(s.subrange(i, j)[0] == s[i]);
        assert(j - i == 1);
        assert(s[j - 1] == 48 + n);
        assert(digits_val(s, i, i) == 0);
        assert(digits_val(s, i, j) == digits_val(s, i, j - 1) * 10 + (s[j - 1] - 48));
    } else {
        assert(d == dec_nat(n / 10).push((48 + n % 10) as u8));
        assert(d.len() == dec_nat(n / 10).len() + 1);
        assert(j - i == d.len());
        assert(s.subrange(i, j - 1) =~= dec_nat(n / 10)) by {
            assert forall|k: int| 0 <= k < j - 1 - i implies #[trigger] s.subrange(i, j - 1)[k]
                == dec_nat(n / 10)[k] by {
                assert(s.subrange(i, j)[k] == d[k]);
            }
        }
        lemma_digits_val_of_dec(s, i, j - 1, n / 10);
        assert(s.subrange(i, j)[j - 1 - i] == d[d.len() - 1]);
        assert(s[j - 1] == 48 + n % 10);
        lemma_fundamental_div_mod(n as int, 10);
    }
}

/// A fixed literal at position `i`: the position after it, or nothing.
pub open spec fn sp_lit(s: Seq<u8>, i: int, lit: Seq<u8>) -> Option<int> {
    if 0 <= i && i + lit.len() <= s.len() && s.subrange(i, i + lit.len() as int) == lit {
        Some(i + lit.len() as int)
    } else {
        None
    }
}

/// A decimal `u64` at position `i`: its value and the position after its
/// digits, or nothing if no digit starts there, the run has a leading zero
/// (which JSON forbids), or the run overflows.
pub open spec fn sp_u64(s: Seq<u8>, i: int) -> Option<(u64, int)> {
    let j = digits_end(s, i);
    if j == i {
        None
    } else if j - i > 1 && s[i] == 48 {
        None
    } else if digits_val(s, i, j) > u64::MAX {
        None
    } else {
        Some((digits_val(s, i, j) as u64, j))
    }
}

/// A decimal byte value at position `i`: as [`sp_u64`], refused above 255.
pub open spec fn sp_u8(s: Seq<u8>, i: int) -> Option<(u8, int)> {
    match sp_u64(s, i) {
        Option::None => Option::None,
        Option::Some((v, j)) => if v <= 255 {
            Option::Some((v as u8, j))
        } else {
            Option::None
        },
    }
}

/// A decimal rendering placed in `s` parses back to its value, when the byte
/// after it (if any) is not a digit.
pub proof fn lemma_parse_dec(s: Seq<u8>, i: int, n: u64)
    requires
        0 <= i,
        i + dec_nat(n as nat).len() <= s.len(),
        s.subrange(i, i + dec_nat(n as nat).len() as int) == dec_nat(n as nat),
        i + dec_nat(n as nat).len() == s.len() || !is_digit(
            s[i + dec_nat(n as nat).len() as int],
        ),
    ensures
        sp_u64(s, i) == Some((n, i + dec_nat(n as nat).len() as int)),
{
    let d = dec_nat(n as nat);
    let j = i + d.len() as int;
    lemma_dec_nat_digits(n as nat);
    lemma_dec_nat_no_leading_zero(n as nat);
    assert forall|k: int| i <= k < j implies is_digit(#[trigger] s[k]) by {
        assert(s.subrange(i, j)[k - i] == d[k - i]);
    }
    lemma_digits_end_at(s, i, j);
    lemma_digits_val_of_dec(s, i, j, n as nat);
    if d.len() > 1 {
        assert(s[i] == s.subrange(i, j)[0]);
        assert(s[i] != 48);
    }
}

/// Append the decimal rendering of `n`.
pub fn push_dec_u64(out: &mut Vec<u8>, n: u64)
    ensures
        final(out)@ == old(out)@ + dec_nat(n as nat),
    decreases n,
{
    if n < 10 {
        out.push(48 + (n as u8));
        proof {
            assert(final(out)@ =~= old(out)@ + dec_nat(n as nat));
        }
    } else {
        push_dec_u64(out, n / 10);
        out.push(48 + ((n % 10) as u8));
        proof {
            assert(final(out)@ =~= old(out)@ + dec_nat(n as nat));
        }
    }
}

/// Match the fixed literal `lit` at position `i` of `s`.
#[verifier::loop_isolation(false)]
pub fn parse_lit(s: &[u8], i: usize, lit: &Vec<u8>) -> (r: Option<usize>)
    ensures
        match r {
            Some(j) => sp_lit(s@, i as int, lit@) == Some(j as int) && i <= j <= s@.len(),
            None => sp_lit(s@, i as int, lit@) is None,
        },
{
    let n = lit.len();
    if i > s.len() || n > s.len() - i {
        return None;
    }
    let mut k: usize = 0;
    while k < n
        invariant
            k <= n,
            forall|t: int| 0 <= t < k ==> s@[i + t] == lit@[t],
        decreases n - k,
    {
        if s[i + k] != lit[k] {
            assert(s@.subrange(i as int, i + n as int)[k as int] != lit@[k as int]);
            return None;
        }
        k = k + 1;
    }
    proof {
        assert(s@.subrange(i as int, i + n as int) =~= lit@);
    }
    Some(i + n)
}

/// Read a decimal `u64` starting at position `i` of `s`.
#[verifier::loop_isolation(false)]
pub fn parse_u64(s: &[u8], i: usize) -> (r: Option<(u64, usize)>)
    ensures
        match r {
            Some((v, j)) => sp_u64(s@, i as int) == Some((v, j as int)) && i < j <= s@.len(),
            None => sp_u64(s@, i as int) is None,
        },
{
    if i >= s.len() {
        return None;
    }
    proof {
        lemma_digits_end_bounds(s@, i as int);
    }
    let ghost end = digits_end(s@, i as int);
    let mut j: usize = i;
    let mut acc: u64 = 0;
    while j < s.len() && 48 <= s[j] && s[j] <= 57
        invariant
            i <= j <= s@.len(),
            j <= end,
            all_digits(s@, i as int, j as int),
            acc == digits_val(s@, i as int, j as int),
        decreases s@.len() - j,
    {
        proof {
            if j + 1 > end {
                assert(is_digit(s@[end]));
            }
        }
        let d = s[j] - 48;
        let step = match acc.checked_mul(10) {
            Some(t) => t.checked_add(d as u64),
            None => None,
        };
        match step {
            Some(next) => {
                acc = next;
            },
            None => {
                // The run's value already exceeds u64::MAX here, so the whole
                // run overflows and the number is refused.
                proof {
                    lemma_digits_val_mono(s@, i as int, j + 1, end);
                    assert(digits_val(s@, i as int, j + 1) > u64::MAX);
                }
                return None;
            },
        }
        j = j + 1;
    }
    proof {
        lemma_digits_end_at(s@, i as int, j as int);
    }
    if j == i {
        None
    } else if j - i > 1 && s[i] == 48 {
        // A leading zero is not a JSON number.
        None
    } else {
        Some((acc, j))
    }
}

/// Read a decimal byte value starting at position `i` of `s`.
pub fn parse_u8(s: &[u8], i: usize) -> (r: Option<(u8, usize)>)
    ensures
        match r {
            Some((v, j)) => sp_u8(s@, i as int) == Some((v, j as int)) && i < j <= s@.len(),
            None => sp_u8(s@, i as int) is None,
        },
{
    match parse_u64(s, i) {
        Some((v, j)) => {
            if v <= 255 {
                Some((v as u8, j))
            } else {
                None
            }
        },
        None => None,
    }
}

/// The bytes of `x` between double quotes: a JSON string token.
pub open spec fn quoted(x: Seq<u8>) -> Seq<u8> {
    seq![34u8] + x + seq![34u8]
}

/// A fixed token at position `i`: the whitespace JSON allows, then the
/// literal itself.
pub open spec fn sp_tok(s: Seq<u8>, i: int, lit: Seq<u8>) -> Option<int> {
    sp_lit(s, ws_end(s, i), lit)
}

/// A decimal `u64` token at position `i`: whitespace, then the number.
pub open spec fn sp_u64_tok(s: Seq<u8>, i: int) -> Option<(u64, int)> {
    sp_u64(s, ws_end(s, i))
}

/// A decimal byte-value token at position `i`: whitespace, then the number.
pub open spec fn sp_u8_tok(s: Seq<u8>, i: int) -> Option<(u8, int)> {
    sp_u8(s, ws_end(s, i))
}

/// A literal placed at position `i` with nothing in front of it parses as a
/// token, for every literal that does not begin with whitespace.
pub proof fn lemma_tok_at(s: Seq<u8>, i: int, lit: Seq<u8>)
    requires
        0 <= i,
        lit.len() >= 1,
        !is_ws(lit[0]),
        i + lit.len() <= s.len(),
        s.subrange(i, i + lit.len() as int) == lit,
    ensures
        sp_tok(s, i, lit) == Some(i + lit.len() as int),
{
    assert(s[i] == s.subrange(i, i + lit.len() as int)[0]);
    assert(!is_ws(s[i]));
    assert(ws_end(s, i) == i);
}

/// Build a one-byte literal.
pub fn byte_token(b: u8) -> (out: Vec<u8>)
    ensures
        out@ == seq![b],
{
    let mut out: Vec<u8> = Vec::new();
    out.push(b);
    proof {
        assert(out@ =~= seq![b]);
    }
    out
}

/// Match the fixed token `lit` at position `i` of `s`.
pub fn parse_tok(s: &[u8], i: usize, lit: &Vec<u8>) -> (r: Option<usize>)
    requires
        i <= s@.len(),
    ensures
        match r {
            Some(j) => sp_tok(s@, i as int, lit@) == Some(j as int) && i <= j <= s@.len() && i
                + lit@.len() <= j,
            None => sp_tok(s@, i as int, lit@) is None,
        },
{
    let j = skip_ws(s, i);
    parse_lit(s, j, lit)
}

/// Read a decimal `u64` token at position `i` of `s`.
pub fn parse_u64_tok(s: &[u8], i: usize) -> (r: Option<(u64, usize)>)
    requires
        i <= s@.len(),
    ensures
        match r {
            Some((v, j)) => sp_u64_tok(s@, i as int) == Some((v, j as int)) && i < j <= s@.len(),
            None => sp_u64_tok(s@, i as int) is None,
        },
{
    let j = skip_ws(s, i);
    parse_u64(s, j)
}

/// Read a decimal byte-value token at position `i` of `s`.
pub fn parse_u8_tok(s: &[u8], i: usize) -> (r: Option<(u8, usize)>)
    requires
        i <= s@.len(),
    ensures
        match r {
            Some((v, j)) => sp_u8_tok(s@, i as int) == Some((v, j as int)) && i < j <= s@.len(),
            None => sp_u8_tok(s@, i as int) is None,
        },
{
    let j = skip_ws(s, i);
    parse_u8(s, j)
}

/// True iff only whitespace remains from position `i` on.
#[verifier::loop_isolation(false)]
pub fn only_ws_from(s: &[u8], i: usize) -> (r: bool)
    requires
        i <= s@.len(),
    ensures
        r == ws_only(s@, i as int),
{
    let mut j: usize = i;
    while j < s.len()
        invariant
            i <= j <= s@.len(),
            forall|t: int| i <= t < j ==> is_ws(#[trigger] s@[t]),
        decreases s@.len() - j,
    {
        let b = s[j];
        if !(b == 32 || b == 9 || b == 13 || b == 10) {
            assert(!is_ws(s@[j as int]));
            return false;
        }
        j = j + 1;
    }
    true
}

} // verus!
