//! Inclusive ranges and the decimal parsing behind their message form.

use vstd::prelude::*;

verus! {

use crate::error::Error;
use crate::utility::Validate;

/// An inclusive range of values.
#[derive(Debug, Clone, Copy, PartialEq, Eq)]
pub struct Range<T> {
    pub low: T,
    pub high: T,
}

impl<T> Range<T> {
    /// Builds the range with the given endpoints.
    pub fn new(low: T, high: T) -> (r: Self)
        ensures
            r.low == low,
            r.high == high,
    {
        Range { low, high }
    }
}

/// The message form of a range: endpoints as decimal strings, to be parsed
/// and validated before use.
#[derive(Debug, Clone, PartialEq, Eq)]
pub struct RangeMsg {
    pub low: String,
    pub high: String,
}

/// A decimal digit.
pub open spec fn is_digit(c: char) -> bool {
    '0' <= c && c <= '9'
}

/// The numeric value of a digit; other characters count as zero.
pub open spec fn digit_val(c: char) -> int {
    match c {
        '0' => 0,
        '1' => 1,
        '2' => 2,
        '3' => 3,
        '4' => 4,
        '5' => 5,
        '6' => 6,
        '7' => 7,
        '8' => 8,
        '9' => 9,
        _ => 0,
    }
}

/// The digit rendering a value below ten.
fn digit_to_char(d: u8) -> (c: char)
    requires
        d < 10,
    ensures
        is_digit(c),
        digit_val(c) == d as int,
{
    match d {
        0 => '0',
        1 => '1',
        2 => '2',
        3 => '3',
        4 => '4',
        5 => '5',
        6 => '6',
        7 => '7',
        8 => '8',
        _ => '9',
    }
}

/// The value of a digit character.
fn char_to_digit(c: char) -> (d: u8)
    requires
        is_digit(c),
    ensures
        d as int == digit_val(c),
        d < 10,
{
    match c {
        '0' => 0,
        '1' => 1,
        '2' => 2,
        '3' => 3,
        '4' => 4,
        '5' => 5,
        '6' => 6,
        '7' => 7,
        '8' => 8,
        _ => 9,
    }
}

/// The value of a digit string, most significant digit first.
pub open spec fn dec_val(s: Seq<char>) -> int
    decreases s.len(),
{
    if s.len() == 0 {
        0
    } else {
        dec_val(s.drop_last()) * 10 + digit_val(s.last())
    }
}

/// A well-formed decimal rendering of a value that fits the word: nonempty,
/// digits only, value in range.
pub open spec fn valid_dec(s: Seq<char>) -> bool {
    &&& s.len() > 0
    &&& forall|i: int| 0 <= i < s.len() ==> is_digit(#[trigger] s[i])
    &&& dec_val(s) <= u128::MAX
}

proof fn lemma_dec_val_nonneg(s: Seq<char>)
    requires
        forall|i: int| 0 <= i < s.len() ==> is_digit(#[trigger] s[i]),
    ensures
        dec_val(s) >= 0,
    decreases s.len(),
{
    if s.len() > 0 {
        assert(forall|i: int| 0 <= i < s.drop_last().len() ==> is_digit(#[trigger] s.drop_last()[i]));
        lemma_dec_val_nonneg(s.drop_last());
        assert(is_digit(s.last()));
    }
}

/// Once a digit prefix exceeds the word, every longer digit string does.
proof fn lemma_dec_val_monotone(s: Seq<char>, i: int)
    requires
        0 <= i <= s.len(),
        forall|j: int| 0 <= j < s.len() ==> is_digit(#[trigger] s[j]),
    ensures
        dec_val(s) >= dec_val(s.take(i)),
    decreases s.len() - i,
{
    if i < s.len() {
        lemma_dec_val_monotone(s, i + 1);
        let t = s.take(i + 1);
        assert(t.drop_last() =~= s.take(i));
        assert(t.last() == s[i]);
        assert(forall|j: int| 0 <= j < s.take(i).len() ==> is_digit(#[trigger] s.take(i)[j]));
        lemma_dec_val_nonneg(s.take(i));
        assert(dec_val(t) == dec_val(s.take(i)) * 10 + digit_val(s[i]));
        assert(dec_val(s.take(i)) * 10 >= dec_val(s.take(i))) by (nonlinear_arith)
            requires
                dec_val(s.take(i)) >= 0,
        ;
    } else {
        assert(s.take(i) =~= s);
    }
}

/// Parses a decimal digit string. The value comes back exactly when the
/// string is a digit-only rendering of a value that fits the word.
pub fn parse_u128(s: &str) -> (r: Option<u128>)
    ensures
        match r {
            Option::Some(v) => valid_dec(s@) && v == dec_val(s@),
            Option::None => !valid_dec(s@),
        },
{
    let n = s.unicode_len();
    if n == 0 {
        return None;
    }
    let mut acc: u128 = 0;
    let mut i: usize = 0;
    while i < n
        invariant
            0 <= i <= n,
            n == s@.len(),
            forall|j: int| 0 <= j < i ==> is_digit(#[trigger] s@[j]),
            acc == dec_val(s@.take(i as int)),
        decreases n - i,
    {
        let c = s.get_char(i);
        if !('0' <= c && c <= '9') {
            return None;
        }
        let d: u128 = char_to_digit(c) as u128;
        proof {
            assert(d == digit_val(s@[i as int]));
        }
        if acc > (u128::MAX - d) / 10 {
            proof {
                assert(s@.take(i as int + 1).drop_last() =~= s@.take(i as int));
                assert(s@.take(i as int + 1).last() == s@[i as int]);
                assert(dec_val(s@.take(i as int + 1)) == acc * 10 + d);
                assert(acc * 10 + d > u128::MAX) by (nonlinear_arith)
                    requires
                        acc > (u128::MAX - d) / 10,
                        0 <= d <= 9,
                ;
                if valid_dec(s@) {
                    lemma_dec_val_monotone(s@, i as int + 1);
                    assert(false);
                }
            }
            return None;
        }
        proof {
            assert(acc * 10 + d <= u128::MAX) by (nonlinear_arith)
                requires
                    acc <= (u128::MAX - d) / 10,
                    0 <= d <= 9,
            ;
            assert(s@.take(i as int + 1).drop_last() =~= s@.take(i as int));
            assert(s@.take(i as int + 1).last() == s@[i as int]);
        }
        acc = acc * 10 + d;
        i += 1;
    }
    proof {
        assert(s@.take(n as int) =~= s@);
    }
    Some(acc)
}

/// The tail of a decimal input after its optional leading plus sign.
pub open spec fn sign_body(s: Seq<char>) -> Seq<char> {
    if s.len() > 0 && s[0] == '+' {
        s.drop_first()
    } else {
        s
    }
}

/// Whether the host integer parse accepts the string: an optional leading
/// plus sign, then a digit rendering of a value that fits the word.
pub open spec fn parses_u128(s: Seq<char>) -> bool {
    valid_dec(sign_body(s))
}

/// The text the host integer parse reports for a string it does not
/// accept: empty input, a stray character, or a value past the word.
pub open spec fn parse_error_text(s: Seq<char>) -> Seq<char> {
    if s.len() == 0 {
        "cannot parse integer from empty string"@
    } else if sign_body(s).len() == 0 || (exists|i: int|
        0 <= i < sign_body(s).len() && !is_digit(#[trigger] sign_body(s)[i])) {
        "invalid digit found in string"@
    } else {
        "number too large to fit in target type"@
    }
}

/// Parses a decimal as the host integer parse does: an optional leading
/// plus sign, then digits. A rejected string comes back with the host
/// parse's own report.
pub fn parse_decimal(s: &str) -> (r: Result<u128, String>)
    ensures
        match r {
            Ok(v) => parses_u128(s@) && v == dec_val(sign_body(s@)),
            Err(m) => !parses_u128(s@) && m@ == parse_error_text(s@),
        },
{
    let n = s.unicode_len();
    if n == 0 {
        return Err(String::from_str("cannot parse integer from empty string"));
    }
    let body = if s.get_char(0) == '+' {
        s.substring_char(1, n)
    } else {
        s
    };
    proof {
        assert(body@ =~= sign_body(s@));
    }
    match parse_u128(body) {
        Some(v) => Ok(v),
        None => {
            let blen = body.unicode_len();
            if blen == 0 {
                return Err(String::from_str("invalid digit found in string"));
            }
            let mut i: usize = 0;
            while i < blen
                invariant
                    0 <= i <= blen,
                    blen == body@.len(),
                    body@ == sign_body(s@),
                    0 < s@.len(),
                    forall|j: int| 0 <= j < i ==> is_digit(#[trigger] body@[j]),
                decreases blen - i,
            {
                let c = body.get_char(i);
                if !('0' <= c && c <= '9') {
                    return Err(String::from_str("invalid digit found in string"));
                }
                i += 1;
            }
            // digits only, yet the parse refused: the value is past the word
            Err(String::from_str("number too large to fit in target type"))
        },
    }
}

impl Validate<Range<u128>> for RangeMsg {
    /// Both endpoints must parse as the host integer parse accepts them.
    open spec fn spec_valid(&self) -> bool {
        parses_u128(self.low@) && parses_u128(self.high@)
    }

    /// The endpoints' parsed values carry over.
    open spec fn spec_validated(&self, t: &Range<u128>) -> bool {
        t.low == dec_val(sign_body(self.low@)) && t.high == dec_val(sign_body(self.high@))
    }

    /// Parses both endpoints, the high one first; the first endpoint the
    /// host parse rejects aborts validation with that parse's report
    /// wrapped into the generic error.
    fn validate(&self) -> (r: Result<Range<u128>, Error>)
        ensures
            r matches Err(e) ==> (e matches Error::Generic { msg } && msg@ == (
            if !parses_u128(self.high@) {
                parse_error_text(self.high@)
            } else {
                parse_error_text(self.low@)
            })),
    {
        let high = match parse_decimal(self.high.as_str()) {
            Ok(v) => v,
            Err(m) => {
                return Err(Error::Generic { msg: m });
            },
        };
        let low = match parse_decimal(self.low.as_str()) {
            Ok(v) => v,
            Err(m) => {
                return Err(Error::Generic { msg: m });
            },
        };
        Ok(Range::new(low, high))
    }
}

impl Range<u128> {
    /// The message form of the range, endpoints rendered in canonical
    /// decimal: no leading zero, so the text is the one `to_string` form.
    pub fn to_msg(&self) -> (r: RangeMsg)
        ensures
            valid_dec(r.low@) && dec_val(r.low@) == self.low,
            valid_dec(r.high@) && dec_val(r.high@) == self.high,
            r.low@.len() > 1 ==> r.low@[0] != '0',
            r.high@.len() > 1 ==> r.high@[0] != '0',
    {
        RangeMsg { low: render_u128(self.low), high: render_u128(self.high) }
    }
}

proof fn lemma_dec_val_append(a: Seq<char>, b: Seq<char>)
    ensures
        dec_val(a + b) == dec_val(a) * pow10(b.len() as nat) + dec_val(b),
    decreases b.len(),
{
    if b.len() == 0 {
        assert(a + b =~= a);
        assert(pow10(0) == 1);
    } else {
        lemma_dec_val_append(a, b.drop_last());
        assert((a + b).drop_last() =~= a + b.drop_last());
        assert((a + b).last() == b.last());
        assert(dec_val(a + b) == (dec_val(a) * pow10((b.len() - 1) as nat) + dec_val(b.drop_last()))
            * 10 + digit_val(b.last()));
        assert(dec_val(a) * pow10((b.len() - 1) as nat) * 10 == dec_val(a) * pow10(b.len() as nat))
            by (nonlinear_arith)
            requires
                pow10(b.len() as nat) == pow10((b.len() - 1) as nat) * 10,
        ;
        assert((dec_val(a) * pow10((b.len() - 1) as nat) + dec_val(b.drop_last())) * 10 == dec_val(
            a,
        ) * pow10((b.len() - 1) as nat) * 10 + dec_val(b.drop_last()) * 10) by (nonlinear_arith);
    }
}

/// Powers of ten.
pub open spec fn pow10(n: nat) -> int
    decreases n,
{
    if n == 0 {
        1
    } else {
        pow10((n - 1) as nat) * 10
    }
}

proof fn lemma_pow10_pos(n: nat)
    ensures
        pow10(n) >= 1,
    decreases n,
{
    if n > 0 {
        lemma_pow10_pos((n - 1) as nat);
    }
}

proof fn lemma_dec_val_rev_push(s: Seq<char>, c: char)
    ensures
        dec_val_rev(s.push(c)) == dec_val_rev(s) + digit_val(c) * pow10(s.len() as nat),
    decreases s.len(),
{
    if s.len() == 0 {
        assert(s.push(c)[0] == c);
        assert(s.push(c).drop_first() =~= Seq::<char>::empty());
        assert(dec_val_rev(s.push(c)) == digit_val(c) + 10 * dec_val_rev(
            Seq::<char>::empty(),
        ));
        assert(dec_val_rev(Seq::<char>::empty()) == 0);
        assert(pow10(0) == 1);
    } else {
        assert(s.push(c).drop_first() =~= s.drop_first().push(c));
        lemma_dec_val_rev_push(s.drop_first(), c);
        assert(s.push(c)[0] == s[0]);
        assert(dec_val_rev(s.push(c)) == digit_val(s[0]) + 10 * dec_val_rev(
            s.drop_first().push(c),
        ));
        assert(dec_val_rev(s.push(c)) == digit_val(s[0]) + 10 * (dec_val_rev(s.drop_first())
            + digit_val(c) * pow10((s.len() - 1) as nat)));
        assert(pow10(s.len() as nat) == pow10((s.len() - 1) as nat) * 10);
        assert(10 * (dec_val_rev(s.drop_first()) + digit_val(c) * pow10((s.len() - 1) as nat)) == 10
            * dec_val_rev(s.drop_first()) + digit_val(c) * pow10(s.len() as nat))
            by (nonlinear_arith)
            requires
                pow10(s.len() as nat) == pow10((s.len() - 1) as nat) * 10,
        ;
        assert(dec_val_rev(s) == digit_val(s[0]) + 10 * dec_val_rev(s.drop_first()));
    }
}

/// Renders a value in canonical decimal: most significant digit first, no
/// leading zero.
pub fn render_u128(v: u128) -> (r: String)
    ensures
        valid_dec(r@),
        dec_val(r@) == v,
        r@.len() > 1 ==> r@[0] != '0',
{
    let mut digits: Vec<char> = Vec::new();
    let mut rest: u128 = v;
    loop
        invariant_except_break
            digits@.len() == 0 || rest > 0,
        invariant
            forall|i: int| 0 <= i < digits@.len() ==> is_digit(#[trigger] digits@[i]),
            dec_val_rev(digits@) + rest * pow10(digits@.len() as nat) == v,
        ensures
            forall|i: int| 0 <= i < digits@.len() ==> is_digit(#[trigger] digits@[i]),
            digits@.len() > 0,
            dec_val_rev(digits@) == v,
            digits@.len() > 1 ==> digit_val(digits@.last()) > 0,
        decreases rest,
    {
        let ghost rest0 = rest;
        let d: u8 = (rest % 10) as u8;
        let c: char = digit_to_char(d);
        let ghost before = digits@;
        digits.push(c);
        let newrest = rest / 10;
        proof {
            lemma_dec_val_rev_push(before, c);
            lemma_pow10_pos(before.len() as nat);
            assert(digit_val(c) == rest % 10);
            assert(rest == 10 * newrest + rest % 10);
            assert(pow10(digits@.len() as nat) == pow10(before.len() as nat) * 10);
            assert(dec_val_rev(digits@) + newrest * pow10(digits@.len() as nat) == v)
                by (nonlinear_arith)
                requires
                    dec_val_rev(before) + rest * pow10(before.len() as nat) == v,
                    dec_val_rev(digits@) == dec_val_rev(before) + (rest % 10) * pow10(
                        before.len() as nat,
                    ),
                    rest == 10 * newrest + rest % 10,
                    pow10(digits@.len() as nat) == pow10(before.len() as nat) * 10,
                    rest >= 0,
                    pow10(before.len() as nat) >= 1,
            ;
        }
        rest = newrest;
        if rest == 0 {
            proof {
                if digits@.len() > 1 {
                    // a digit before this one means the value was not yet
                    // exhausted, so the digit just placed is the nonzero
                    // leading one
                    assert(before.len() > 0);
                    assert(rest0 > 0);
                    assert(rest0 == 10 * newrest + rest0 % 10);
                    assert(digit_val(c) == rest0 % 10);
                    assert(digits@.last() == c);
                    assert(digit_val(digits@.last()) > 0);
                }
            }
            break;
        }
    }
    let mut out = String::new();
    let n = digits.len();
    let mut i: usize = n;
    while i > 0
        invariant
            0 <= i <= n,
            n == digits@.len(),
            forall|j: int| 0 <= j < n ==> is_digit(#[trigger] digits@[j]),
            out@ =~= digits@.skip(i as int).reverse(),
        decreases i,
    {
        i -= 1;
        out.push(digits[i]);
        proof {
            assert(out@ =~= digits@.skip(i as int).reverse());
        }
    }
    proof {
        assert(out@ =~= digits@.reverse());
        lemma_dec_val_rev(digits@);
        assert(forall|j: int| 0 <= j < out@.len() ==> is_digit(#[trigger] out@[j]));
        if out@.len() > 1 {
            assert(out@[0] == digits@[digits@.len() - 1]);
            assert(digit_val(out@[0]) > 0);
            assert(out@[0] != '0');
        }
    }
    out
}

/// The value of a digit list, least significant digit first.
pub open spec fn dec_val_rev(s: Seq<char>) -> int
    decreases s.len(),
{
    if s.len() == 0 {
        0
    } else {
        digit_val(s[0]) + 10 * dec_val_rev(s.drop_first())
    }
}

proof fn lemma_dec_val_rev(s: Seq<char>)
    ensures
        dec_val(s.reverse()) == dec_val_rev(s),
    decreases s.len(),
{
    if s.len() > 0 {
        lemma_dec_val_rev(s.drop_first());
        assert(s.reverse().drop_last() =~= s.drop_first().reverse());
        assert(s.reverse().last() == s[0]);
        lemma_dec_val_append(s.drop_first().reverse(), seq![s[0]]);
    }
}

} // verus!
