//! Amounts: a locale-formatted amount string is read as a whole number of
//! cents, and cents are written back as a decimal with two fraction digits.

use vstd::prelude::*;

verus! {

/// A per-record error. It never leaves the mapper: an amount that cannot be
/// read is treated as absent.
#[derive(Debug, PartialEq, Eq, Structural)]
pub enum RecordError {
    AmountFormat,
}

pub open spec fn is_digit(c: char) -> bool {
    '0' <= c && c <= '9'
}

pub open spec fn digit_value(c: char) -> int {
    c as int - '0' as int
}

pub open spec fn digit_char(d: int) -> char {
    if d <= 0 {
        '0'
    } else if d == 1 {
        '1'
    } else if d == 2 {
        '2'
    } else if d == 3 {
        '3'
    } else if d == 4 {
        '4'
    } else if d == 5 {
        '5'
    } else if d == 6 {
        '6'
    } else if d == 7 {
        '7'
    } else if d == 8 {
        '8'
    } else {
        '9'
    }
}

proof fn lemma_digit_char(d: int)
    requires
        0 <= d < 10,
    ensures
        is_digit(digit_char(d)),
        digit_value(digit_char(d)) == d,
{
}

/// The characters of `s` that the amount reader keeps: ASCII digits, and a
/// `-` that comes before any other kept character.
pub open spec fn kept_chars(s: Seq<char>) -> Seq<char>
    decreases s.len(),
{
    if s.len() == 0 {
        seq![]
    } else if is_digit(s.last()) || (s.last() == '-' && kept_chars(s.drop_last()).len() == 0) {
        kept_chars(s.drop_last()).push(s.last())
    } else {
        kept_chars(s.drop_last())
    }
}

pub open spec fn all_digits(t: Seq<char>) -> bool {
    forall|i: int| 0 <= i < t.len() ==> is_digit(#[trigger] t[i])
}

/// The value of a string of decimal digits.
pub open spec fn digits_value(t: Seq<char>) -> int
    decreases t.len(),
{
    if t.len() == 0 {
        0
    } else {
        digits_value(t.drop_last()) * 10 + digit_value(t.last())
    }
}

/// A decimal integer: an optional leading `-`, then one or more digits.
pub open spec fn parse_int(t: Seq<char>) -> Option<int> {
    if t.len() > 0 && t[0] == '-' {
        let u = t.drop_first();
        if u.len() > 0 && all_digits(u) {
            Some(-digits_value(u))
        } else {
            None
        }
    } else if t.len() > 0 && all_digits(t) {
        Some(digits_value(t))
    } else {
        None
    }
}

/// The amount, in cents, that an amount string stands for: every character
/// but ASCII digits and a leading `-` is dropped, and what is left must be a
/// decimal integer that fits in an `i32`.
pub open spec fn amount_cents(s: Seq<char>) -> Option<int> {
    match parse_int(kept_chars(s)) {
        Some(v) => if i32::MIN <= v <= i32::MAX {
            Some(v)
        } else {
            None
        },
        None => None,
    }
}

/// The decimal digits of `n`, without leading zeros.
pub open spec fn nat_text(n: nat) -> Seq<char>
    decreases n,
{
    if n < 10 {
        seq![digit_char(n as int)]
    } else {
        nat_text(n / 10).push(digit_char((n % 10) as int))
    }
}

/// `n` cents written as units, a `.`, and exactly two digits of cents.
pub open spec fn cents_text(n: nat) -> Seq<char> {
    nat_text(n / 100) + seq!['.', digit_char(((n % 100) / 10) as int), digit_char((n % 10) as int)]
}

/// A signed amount of cents written with two fraction digits, `-` in front
/// when it is negative.
pub open spec fn signed_text(v: int) -> Seq<char> {
    if v < 0 {
        seq!['-'] + cents_text((-v) as nat)
    } else {
        cents_text(v as nat)
    }
}

proof fn lemma_digits_value_monotone(t: Seq<char>, k: int)
    requires
        0 <= k <= t.len(),
        all_digits(t),
    ensures
        digits_value(t.subrange(0, k)) <= digits_value(t),
    decreases t.len() - k,
{
    if k < t.len() {
        lemma_digits_value_monotone(t, k + 1);
        assert(t.subrange(0, k + 1).drop_last() =~= t.subrange(0, k));
        assert(is_digit(t[k]));
        let p = digits_value(t.subrange(0, k));
        assert(digits_value(t.subrange(0, k + 1)) == p * 10 + digit_value(t[k]));
        assert(0 <= p) by {
            lemma_digits_value_nonneg(t.subrange(0, k));
        }
    } else {
        assert(t.subrange(0, k) =~= t);
    }
}

proof fn lemma_digits_value_nonneg(t: Seq<char>)
    requires
        all_digits(t),
    ensures
        digits_value(t) >= 0,
    decreases t.len(),
{
    if t.len() > 0 {
        lemma_digits_value_nonneg(t.drop_last());
        assert(is_digit(t[t.len() - 1]));
    }
}

proof fn lemma_kept_chars_concat(a: Seq<char>, b: Seq<char>)
    requires
        forall|i: int| 0 <= i < b.len() ==> #[trigger] b[i] != '-',
    ensures
        kept_chars(a + b) == kept_chars(a) + kept_chars(b),
    decreases b.len(),
{
    if b.len() == 0 {
        assert(a + b =~= a);
        assert(kept_chars(a) + kept_chars(b) =~= kept_chars(a));
    } else {
        assert(b.last() != '-');
        lemma_kept_chars_concat(a, b.drop_last());
        assert((a + b).drop_last() =~= a + b.drop_last());
        assert((a + b).last() == b.last());
        if is_digit(b.last()) {
            assert(kept_chars(a) + kept_chars(b) =~= (kept_chars(a) + kept_chars(b.drop_last())).push(
                b.last(),
            ));
        }
    }
}

proof fn lemma_kept_digits(t: Seq<char>)
    requires
        all_digits(t),
    ensures
        kept_chars(t) == t,
    decreases t.len(),
{
    if t.len() > 0 {
        assert(is_digit(t[t.len() - 1]));
        lemma_kept_digits(t.drop_last());
        assert(t.drop_last().push(t.last()) =~= t);
    }
}

proof fn lemma_nat_text(n: nat)
    ensures
        nat_text(n).len() > 0,
        all_digits(nat_text(n)),
        digits_value(nat_text(n)) == n,
    decreases n,
{
    lemma_digit_char((n % 10) as int);
    if n < 10 {
        assert(nat_text(n).drop_last() =~= Seq::<char>::empty());
        assert(digits_value(Seq::<char>::empty()) == 0);
    } else {
        lemma_nat_text(n / 10);
        let t = nat_text(n);
        assert(t.drop_last() =~= nat_text(n / 10));
        assert((n / 10) * 10 + n % 10 == n);
        assert forall|i: int| 0 <= i < t.len() implies is_digit(#[trigger] t[i]) by {
            if i < t.len() - 1 {
                assert(t[i] == nat_text(n / 10)[i]);
            }
        }
    }
}

/// Writing an amount read from a string with two fraction digits, and
/// reading that text again, gives back the same amount.
pub proof fn lemma_amount_round_trip(s: Seq<char>)
    requires
        amount_cents(s) is Some,
    ensures
        amount_cents(signed_text(amount_cents(s)->0)) == amount_cents(s),
{
    let v = amount_cents(s)->0;
    let n: nat = if v < 0 {
        (-v) as nat
    } else {
        v as nat
    };
    let q: nat = n / 100;
    let c1 = digit_char(((n % 100) / 10) as int);
    let c0 = digit_char((n % 10) as int);
    lemma_nat_text(q);
    let w = nat_text(q);
    let tail = seq!['.', c1, c0];
    lemma_digit_char(((n % 100) / 10) as int);
    lemma_digit_char((n % 10) as int);
    assert(forall|i: int| 0 <= i < tail.len() ==> #[trigger] tail[i] != '-');
    lemma_kept_chars_concat(w, tail);
    lemma_kept_digits(w);
    let t1 = seq!['.'];
    let t2 = seq!['.', c1];
    assert(t1.drop_last() =~= Seq::<char>::empty());
    assert(kept_chars(Seq::<char>::empty()) == Seq::<char>::empty());
    assert(kept_chars(t1) =~= Seq::<char>::empty());
    assert(t2.drop_last() =~= t1);
    assert(kept_chars(t2) =~= seq![c1]);
    assert(tail.drop_last() =~= t2);
    assert(kept_chars(tail) =~= seq![c1, c0]);
    let d = w + seq![c1, c0];
    assert(kept_chars(cents_text(n)) == d);
    assert(all_digits(d)) by {
        assert forall|i: int| 0 <= i < d.len() implies is_digit(#[trigger] d[i]) by {
            if i < w.len() {
                assert(d[i] == w[i]);
            }
        }
    }
    assert(d.drop_last() =~= w.push(c1));
    assert(w.push(c1).drop_last() =~= w);
    assert(digits_value(w.push(c1)) == q * 10 + (n % 100) / 10);
    assert(digits_value(d) == (q * 10 + (n % 100) / 10) * 10 + n % 10);
    assert(q * 100 + ((n % 100) / 10) * 10 + n % 10 == n) by (nonlinear_arith)
        requires
            q == n / 100,
    ;
    assert(d[0] != '-') by {
        assert(d[0] == w[0]);
    }
    if v < 0 {
        assert forall|i: int| 0 <= i < cents_text(n).len() implies #[trigger] cents_text(n)[i] != '-' by {
            assert(cents_text(n) == w + tail);
            if i < w.len() {
                assert(cents_text(n)[i] == w[i]);
                assert(is_digit(w[i]));
            } else {
                assert(cents_text(n)[i] == tail[i - w.len()]);
            }
        }
        lemma_kept_chars_concat(seq!['-'], cents_text(n));
        assert(kept_chars(seq!['-']) =~= seq!['-']) by {
            assert(seq!['-'].drop_last() =~= Seq::<char>::empty());
        }
        assert((seq!['-'] + d).drop_first() =~= d);
    }
}

/// Reads an amount string as a whole number of cents.
pub fn convert_number_format(input: &str) -> (r: Result<i32, RecordError>)
    ensures
        r is Ok <==> amount_cents(input@) is Some,
        r is Ok ==> r->Ok_0 as int == amount_cents(input@)->0,
        r is Err ==> r == Err::<i32, RecordError>(RecordError::AmountFormat),
{
    let n = input.unicode_len();
    let mut kept: Vec<char> = Vec::new();
    let mut i: usize = 0;
    while i < n
        invariant
            n == input@.len(),
            i <= n,
            kept@ == kept_chars(input@.subrange(0, i as int)),
        decreases n - i,
    {
        let c = input.get_char(i);
        assert(input@.subrange(0, i as int + 1).drop_last() =~= input@.subrange(0, i as int));
        if ('0' <= c && c <= '9') || (c == '-' && kept.len() == 0) {
            kept.push(c);
        }
        i = i + 1;
    }
    assert(input@.subrange(0, n as int) =~= input@);
    let len = kept.len();
    let neg = len > 0 && kept[0] == '-';
    let start: usize = if neg {
        1
    } else {
        0
    };
    if start == len {
        return Err(RecordError::AmountFormat);
    }
    let ghost t = kept@;
    let ghost u = t.subrange(start as int, len as int);
    assert(neg ==> u =~= t.drop_first());
    assert(!neg ==> u =~= t);
    let mut acc: i64 = 0;
    let mut j: usize = start;
    while j < len
        invariant
            t == kept@,
            t == kept_chars(input@),
            neg == (t.len() > 0 && t[0] == '-'),
            start == (if neg { 1usize } else { 0usize }),
            neg ==> u == t.drop_first(),
            !neg ==> u == t,
            len == t.len(),
            u == t.subrange(start as int, len as int),
            start <= j <= len,
            0 <= acc <= 2147483648,
            all_digits(t.subrange(start as int, j as int)),
            acc as int == digits_value(t.subrange(start as int, j as int)),
        decreases len - j,
    {
        let c = kept[j];
        if !('0' <= c && c <= '9') {
            assert(u[j - start] == c);
            assert(!all_digits(u));
            return Err(RecordError::AmountFormat);
        }
        assert(t.subrange(start as int, j + 1).drop_last() =~= t.subrange(start as int, j as int));
        acc = acc * 10 + (c as u32 - '0' as u32) as i64;
        assert(acc as int == digits_value(t.subrange(start as int, j + 1)));
        assert(all_digits(t.subrange(start as int, j + 1))) by {
            assert forall|k: int| 0 <= k < j + 1 - start implies is_digit(
                #[trigger] t.subrange(start as int, j + 1)[k],
            ) by {
                if k < j - start {
                    assert(t.subrange(start as int, j + 1)[k] == t.subrange(
                        start as int,
                        j as int,
                    )[k]);
                }
            }
        }
        j = j + 1;
        if acc > 2147483648 {
            proof {
                if all_digits(u) {
                    assert(u.subrange(0, j - start) =~= t.subrange(start as int, j as int));
                    lemma_digits_value_monotone(u, j - start);
                }
            }
            return Err(RecordError::AmountFormat);
        }
    }
    assert(t.subrange(start as int, j as int) =~= u);
    if neg {
        Ok((-acc) as i32)
    } else if acc <= 2147483647 {
        Ok(acc as i32)
    } else {
        Err(RecordError::AmountFormat)
    }
}

fn digit_str(d: u64) -> (r: &'static str)
    requires
        d < 10,
    ensures
        r@ == seq![digit_char(d as int)],
{
    match d {
        0 => {
            proof {
                reveal_strlit("0");
            }
            "0"
        },
        1 => {
            proof {
                reveal_strlit("1");
            }
            "1"
        },
        2 => {
            proof {
                reveal_strlit("2");
            }
            "2"
        },
        3 => {
            proof {
                reveal_strlit("3");
            }
            "3"
        },
        4 => {
            proof {
                reveal_strlit("4");
            }
            "4"
        },
        5 => {
            proof {
                reveal_strlit("5");
            }
            "5"
        },
        6 => {
            proof {
                reveal_strlit("6");
            }
            "6"
        },
        7 => {
            proof {
                reveal_strlit("7");
            }
            "7"
        },
        8 => {
            proof {
                reveal_strlit("8");
            }
            "8"
        },
        _ => {
            proof {
                reveal_strlit("9");
            }
            "9"
        },
    }
}

/// Appends the decimal digits of `n` to `out`.
fn push_decimal(out: &mut String, n: u64)
    ensures
        final(out)@ == old(out)@ + nat_text(n as nat),
    decreases n,
{
    if n >= 10 {
        push_decimal(out, n / 10);
    }
    let d = digit_str(n % 10);
    out.append(d);
    proof {
        if n >= 10 {
            assert(final(out)@ =~= old(out)@ + nat_text(n as nat));
        } else {
            assert(n % 10 == n);
            assert(final(out)@ =~= old(out)@ + nat_text(n as nat));
        }
    }
}

/// Writes `n` cents as a decimal with two fraction digits (`995` as `9.95`).
pub fn format_cents(n: u64) -> (r: String)
    ensures
        r@ == cents_text(n as nat),
{
    let mut out = String::new();
    push_decimal(&mut out, n / 100);
    out.append(".");
    out.append(digit_str((n % 100) / 10));
    out.append(digit_str(n % 10));
    proof {
        reveal_strlit(".");
        assert(out@ =~= cents_text(n as nat));
    }
    out
}

/// What an amount becomes in the output: the outflow column holds it when it
/// is negative, the inflow column when it is not, and neither when it is
/// absent.
pub struct OutAndInflow {
    pub outflow: String,
    pub inflow: String,
}

pub open spec fn outflow_text(a: Option<int>) -> Seq<char> {
    match a {
        Some(v) => if v < 0 {
            cents_text((-v) as nat)
        } else {
            seq![]
        },
        None => seq![],
    }
}

pub open spec fn inflow_text(a: Option<int>) -> Seq<char> {
    match a {
        Some(v) => if v >= 0 {
            cents_text(v as nat)
        } else {
            seq![]
        },
        None => seq![],
    }
}

pub open spec fn opt_int(a: Option<i32>) -> Option<int> {
    match a {
        Some(v) => Some(v as int),
        None => None,
    }
}

impl OutAndInflow {
    /// Splits a signed amount of cents, if any, into outflow and inflow.
    pub fn from_cents(signed_amount: Option<i32>) -> (r: OutAndInflow)
        ensures
            r.outflow@ == outflow_text(opt_int(signed_amount)),
            r.inflow@ == inflow_text(opt_int(signed_amount)),
            r.outflow@.len() == 0 || r.inflow@.len() == 0,
    {
        match signed_amount {
            None => OutAndInflow { outflow: String::new(), inflow: String::new() },
            Some(v) => {
                if v < 0 {
                    let mag: u64 = (-(v as i64)) as u64;
                    OutAndInflow { outflow: format_cents(mag), inflow: String::new() }
                } else {
                    OutAndInflow { outflow: String::new(), inflow: format_cents(v as u64) }
                }
            },
        }
    }
}

} // verus!
