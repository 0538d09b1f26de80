//! Fixed-point decoding of the feed's string-decimal fields.
//!
//! The exchange transports prices, quantities and volumes as decimal
//! strings such as `"100.04"`. The engine stores them as integers scaled
//! by a configured number of decimal digits: `"100.04"` read at scale 2 is
//! `10004`. A field is accepted exactly when it matches `digits+ ('.' digits+)?`
//! with at most `scale` fractional digits and its scaled value fits in `u64`;
//! anything else is malformed and the caller skips just that record.

use vstd::prelude::*;

verus! {

/// True of an ASCII decimal digit byte.
pub open spec fn is_ascii_digit(b: u8) -> bool {
    48 <= b <= 57
}

/// True when every byte of `s` is an ASCII digit.
pub open spec fn all_digits(s: Seq<u8>) -> bool {
    forall|i: int| 0 <= i < s.len() ==> is_ascii_digit(#[trigger] s[i])
}

/// Ten to the power `e`.
pub open spec fn pow10(e: nat) -> nat
    decreases e,
{
    if e == 0 {
        1
    } else {
        10 * pow10((e - 1) as nat)
    }
}

/// Numeric value of a digit string, most significant digit first.
pub open spec fn digits_val(s: Seq<u8>) -> int
    decreases s.len(),
{
    if s.len() == 0 {
        0
    } else {
        digits_val(s.drop_last()) * 10 + (s.last() - 48)
    }
}

/// Index of the first `'.'` in `s`, or `s.len()` when there is none.
pub open spec fn dot_pos(s: Seq<u8>) -> int
    decreases s.len(),
{
    if s.len() == 0 {
        0
    } else if s[0] == 46 {
        0
    } else {
        1 + dot_pos(s.drop_first())
    }
}

/// The digits before the `'.'` (the whole string when there is no dot).
pub open spec fn int_part(s: Seq<u8>) -> Seq<u8> {
    s.take(dot_pos(s))
}

/// The digits after the `'.'`, empty when there is no dot.
pub open spec fn frac_part(s: Seq<u8>) -> Seq<u8> {
    if dot_pos(s) == s.len() {
        Seq::empty()
    } else {
        s.skip(dot_pos(s) + 1)
    }
}

/// `s` matches `digits+ ('.' digits+)?` with at most `scale` fractional digits.
pub open spec fn decimal_valid(s: Seq<u8>, scale: nat) -> bool {
    &&& int_part(s).len() > 0
    &&& all_digits(int_part(s))
    &&& (dot_pos(s) < s.len() ==> frac_part(s).len() > 0)
    &&& all_digits(frac_part(s))
    &&& frac_part(s).len() <= scale
}

/// The value of a valid decimal string scaled by `10^scale`.
pub open spec fn decimal_val(s: Seq<u8>, scale: nat) -> int {
    digits_val(int_part(s)) * pow10(scale) + digits_val(frac_part(s)) * pow10(
        (scale - frac_part(s).len()) as nat,
    )
}

/// The sequence of `n` ASCII zero bytes.
pub open spec fn zero_digits(n: nat) -> Seq<u8> {
    Seq::new(n, |i: int| 48u8)
}

proof fn lemma_dot_pos_range(s: Seq<u8>)
    ensures
        0 <= dot_pos(s) <= s.len(),
        dot_pos(s) < s.len() ==> s[dot_pos(s)] == 46,
        forall|i: int| 0 <= i < dot_pos(s) ==> s[i] != 46,
    decreases s.len(),
{
    if s.len() == 0 {
    } else if s[0] == 46 {
    } else {
        lemma_dot_pos_range(s.drop_first());
        assert forall|i: int| 0 <= i < dot_pos(s) implies s[i] != 46 by {
            if i > 0 {
                assert(s.drop_first()[i - 1] == s[i]);
            }
        }
        if dot_pos(s) < s.len() {
            assert(s.drop_first()[dot_pos(s) - 1] == s[dot_pos(s)]);
        }
    }
}

/// A position that is not a dot, with only non-dots before it, pins `dot_pos`.
proof fn lemma_dot_pos_unique(s: Seq<u8>, p: int)
    requires
        0 <= p <= s.len(),
        forall|i: int| 0 <= i < p ==> s[i] != 46,
        p < s.len() ==> s[p] == 46,
    ensures
        dot_pos(s) == p,
{
    lemma_dot_pos_range(s);
    if dot_pos(s) < p {
        assert(s[dot_pos(s)] != 46);
    }
    if p < dot_pos(s) {
        assert(s[p] != 46);
    }
}

proof fn lemma_digits_val_nonneg(s: Seq<u8>)
    requires
        all_digits(s),
    ensures
        digits_val(s) >= 0,
    decreases s.len(),
{
    if s.len() > 0 {
        assert(all_digits(s.drop_last()));
        lemma_digits_val_nonneg(s.drop_last());
        assert(digits_val(s.drop_last()) * 10 >= 0) by (nonlinear_arith)
            requires digits_val(s.drop_last()) >= 0;
    }
}

/// Concatenation splits the value: the left digits are shifted by the length
/// of the right digits.
proof fn lemma_digits_val_concat(a: Seq<u8>, b: Seq<u8>)
    ensures
        digits_val(a + b) == digits_val(a) * pow10(b.len()) + digits_val(b),
    decreases b.len(),
{
    if b.len() == 0 {
        assert(a + b =~= a);
        assert(pow10(b.len()) == 1);
        assert(digits_val(a) * 1 == digits_val(a)) by (nonlinear_arith);
    } else {
        lemma_digits_val_concat(a, b.drop_last());
        assert((a + b).drop_last() =~= a + b.drop_last());
        assert((a + b).last() == b.last());
        let x = digits_val(a);
        let y = digits_val(b.drop_last());
        let p = pow10((b.len() - 1) as nat) as int;
        let d = b.last() - 48;
        assert(digits_val(a + b) == (x * p + y) * 10 + d);
        assert((x * p + y) * 10 == x * (10 * p) + y * 10) by (nonlinear_arith);
        assert(pow10(b.len()) == 10 * p);
        assert(digits_val(b) == y * 10 + d);
    }
}

proof fn lemma_zero_digits_val(n: nat)
    ensures
        all_digits(zero_digits(n)),
        digits_val(zero_digits(n)) == 0,
    decreases n,
{
    if n > 0 {
        lemma_zero_digits_val((n - 1) as nat);
        assert(zero_digits(n).drop_last() =~= zero_digits((n - 1) as nat));
    }
}

/// A digit string is no smaller than any of its prefixes: appending digits
/// can only grow the value.
proof fn lemma_digits_val_prefix_le(a: Seq<u8>, b: Seq<u8>)
    requires
        all_digits(a),
        all_digits(b),
    ensures
        digits_val(a) <= digits_val(a + b),
{
    lemma_digits_val_concat(a, b);
    lemma_digits_val_nonneg(a);
    lemma_digits_val_nonneg(b);
    assert(pow10(b.len()) >= 1) by {
        lemma_pow10_pos(b.len());
    }
    assert(digits_val(a) * pow10(b.len()) >= digits_val(a)) by (nonlinear_arith)
        requires digits_val(a) >= 0, pow10(b.len()) >= 1;
}

proof fn lemma_pow10_pos(e: nat)
    ensures
        pow10(e) >= 1,
    decreases e,
{
    if e > 0 {
        lemma_pow10_pos((e - 1) as nat);
    }
}

/// The full digit string of a valid decimal at a scale: integer digits,
/// fraction digits, then padding zeros. Its plain value is the scaled value.
proof fn lemma_decimal_val_as_digits(s: Seq<u8>, scale: nat)
    requires
        decimal_valid(s, scale),
    ensures
        all_digits(int_part(s) + frac_part(s) + zero_digits((scale - frac_part(s).len()) as nat)),
        digits_val(int_part(s) + frac_part(s) + zero_digits((scale - frac_part(s).len()) as nat))
            == decimal_val(s, scale),
{
    let z = (scale - frac_part(s).len()) as nat;
    lemma_zero_digits_val(z);
    lemma_digits_val_concat(int_part(s) + frac_part(s), zero_digits(z));
    lemma_digits_val_concat(int_part(s), frac_part(s));
    assert(digits_val(int_part(s) + frac_part(s) + zero_digits(z)) == (digits_val(int_part(s))
        * pow10(frac_part(s).len()) + digits_val(frac_part(s))) * pow10(z));
    assert((digits_val(int_part(s)) * pow10(frac_part(s).len()) + digits_val(frac_part(s)))
        * pow10(z) == digits_val(int_part(s)) * (pow10(frac_part(s).len()) * pow10(z))
        + digits_val(frac_part(s)) * pow10(z)) by (nonlinear_arith);
    lemma_pow10_mul(frac_part(s).len(), z);
}

proof fn lemma_pow10_mul(a: nat, b: nat)
    ensures
        pow10(a) * pow10(b) == pow10(a + b),
    decreases b,
{
    if b == 0 {
        assert(pow10(b) == 1);
        assert(pow10(a) * 1 == pow10(a)) by (nonlinear_arith);
        assert(a + b == a);
    } else {
        lemma_pow10_mul(a, (b - 1) as nat);
        let x = pow10(a) as int;
        let q = pow10((b - 1) as nat) as int;
        assert(x * q == pow10(a + (b - 1) as nat));
        assert(x * (10 * q) == 10 * (x * q)) by (nonlinear_arith);
        assert(pow10(b) == 10 * q);
        assert(pow10(a) * pow10(b) == x * (10 * q));
        assert((a + b - 1) as nat == a + (b - 1) as nat);
        assert(pow10(a + b) == 10 * pow10((a + b - 1) as nat));
        assert(pow10(a) * pow10(b) == 10 * pow10((a + b - 1) as nat));
    }
}

/// Accumulates the digits `s[from..to]` onto `acc`, most significant first.
/// `prefix` is the digit string whose value `acc` already holds. Returns
/// `None` exactly when the grown value no longer fits in `u64`.
fn push_digits(acc: u64, s: &[u8], from: usize, to: usize, Ghost(prefix): Ghost<Seq<u8>>) -> (r:
    Option<u64>)
    requires
        from <= to <= s@.len(),
        all_digits(prefix),
        all_digits(s@.subrange(from as int, to as int)),
        acc == digits_val(prefix),
    ensures
        match r {
            Some(v) => v == digits_val(prefix + s@.subrange(from as int, to as int)),
            None => digits_val(prefix + s@.subrange(from as int, to as int)) > u64::MAX,
        },
{
    let mut acc: u64 = acc;
    let mut i: usize = from;
    while i < to
        invariant
            from <= i <= to <= s@.len(),
            all_digits(prefix),
            all_digits(s@.subrange(from as int, to as int)),
            acc == digits_val(prefix + s@.subrange(from as int, i as int)),
            all_digits(prefix + s@.subrange(from as int, i as int)),
        decreases to - i,
    {
        let ghost done = prefix + s@.subrange(from as int, i as int);
        let d: u8 = s[i];
        assert(is_ascii_digit(d)) by {
            assert(s@.subrange(from as int, to as int)[i - from] == d);
        }
        let grown = match acc.checked_mul(10) {
            Some(t) => t.checked_add((d - 48) as u64),
            None => None,
        };
        proof {
            assert(done.push(d) =~= prefix + s@.subrange(from as int, i + 1));
            assert(done.push(d).drop_last() =~= done);
            assert(digits_val(done.push(d)) == digits_val(done) * 10 + (d - 48));
        }
        match grown {
            Some(v) => {
                acc = v;
            },
            None => {
                proof {
                    let full = prefix + s@.subrange(from as int, to as int);
                    let head = prefix + s@.subrange(from as int, i + 1);
                    assert(head + s@.subrange(i + 1, to as int) =~= full);
                    assert(all_digits(head));
                    assert(all_digits(s@.subrange(i + 1, to as int))) by {
                        assert forall|j: int| 0 <= j < to - i - 1 implies is_ascii_digit(
                            #[trigger] s@.subrange(i + 1, to as int)[j],
                        ) by {
                            assert(s@.subrange(i + 1, to as int)[j] == s@.subrange(
                                from as int,
                                to as int,
                            )[j + i + 1 - from]);
                        }
                    }
                    lemma_digits_val_prefix_le(head, s@.subrange(i + 1, to as int));
                    assert(digits_val(done) * 10 + (d - 48) > u64::MAX);
                }
                return None;
            },
        }
        i = i + 1;
    }
    assert(prefix + s@.subrange(from as int, i as int) =~= prefix + s@.subrange(
        from as int,
        to as int,
    ));
    Some(acc)
}

/// Reads a string-decimal field into a fixed-point integer with `scale`
/// fractional digits. `None` means the field is malformed or out of range,
/// and the caller skips the record it came from.
pub fn parse_scaled(s: &[u8], scale: u32) -> (r: Option<u64>)
    requires
        scale <= 19,
    ensures
        match r {
            Some(v) => decimal_valid(s@, scale as nat) && v == decimal_val(s@, scale as nat),
            None => !decimal_valid(s@, scale as nat) || decimal_val(s@, scale as nat) > u64::MAX,
        },
{
    let n = s.len();
    // Find the first dot, if any.
    let mut dot: usize = 0;
    while dot < n && s[dot] != 46
        invariant
            0 <= dot <= n == s@.len(),
            forall|i: int| 0 <= i < dot ==> s@[i] != 46,
        decreases n - dot,
    {
        dot = dot + 1;
    }
    proof {
        lemma_dot_pos_unique(s@, dot as int);
    }
    if dot == 0 {
        return None;  // empty integer part
    }
    if dot < n && dot + 1 == n {
        return None;  // a dot with no fraction digits
    }
    let frac_len: usize = if dot < n {
        n - dot - 1
    } else {
        0
    };
    if frac_len > scale as usize {
        return None;  // more fraction digits than the scale keeps
    }
    proof {
        if dot < s@.len() {
            assert(frac_part(s@) =~= s@.subrange(dot + 1, s@.len() as int));
        } else {
            assert(frac_part(s@) =~= Seq::<u8>::empty());
        }
        assert(int_part(s@) =~= s@.subrange(0, dot as int));
    }
    // Check that both parts hold only digits.
    let mut i: usize = 0;
    while i < dot
        invariant
            0 <= i <= dot <= s@.len(),
            dot_pos(s@) == dot,
            forall|j: int| 0 <= j < i ==> is_ascii_digit(#[trigger] s@[j]),
        decreases dot - i,
    {
        let b = s[i];
        if b < 48 || b > 57 {
            assert(int_part(s@)[i as int] == s@[i as int]);
            return None;  // non-digit in the integer part
        }
        i = i + 1;
    }
    let frac_start: usize = if dot < n {
        dot + 1
    } else {
        n
    };
    let mut j: usize = frac_start;
    while j < n
        invariant
            frac_start <= j <= n == s@.len(),
            dot_pos(s@) == dot,
            dot < n ==> frac_start == dot + 1,
            dot >= n ==> frac_start == n,
            forall|k: int| frac_start <= k < j ==> is_ascii_digit(#[trigger] s@[k]),
        decreases n - j,
    {
        let b = s[j];
        if b < 48 || b > 57 {
            assert(frac_start == dot + 1);
            assert(frac_part(s@)[j - frac_start] == s@[j as int]);
            return None;  // non-digit in the fraction part
        }
        j = j + 1;
    }
    assert(all_digits(int_part(s@)));
    assert(all_digits(frac_part(s@)));
    assert(decimal_valid(s@, scale as nat));
    // Accumulate: integer digits, fraction digits, then the padding zeros.
    let acc0 = match push_digits(0, s, 0, dot, Ghost(Seq::empty())) {
        Some(v) => v,
        None => {
            proof {
                overflow_means_too_big(s@, scale as nat, Seq::empty() + int_part(s@));
            }
            return None;
        },
    };
    assert(Seq::<u8>::empty() + int_part(s@) =~= int_part(s@));
    let acc1 = match push_digits(acc0, s, frac_start, n, Ghost(int_part(s@))) {
        Some(v) => v,
        None => {
            proof {
                assert(int_part(s@) + s@.subrange(frac_start as int, s@.len() as int) =~= int_part(
                    s@,
                ) + frac_part(s@));
                overflow_means_too_big(s@, scale as nat, int_part(s@) + frac_part(s@));
            }
            return None;
        },
    };
    assert(int_part(s@) + s@.subrange(frac_start as int, s@.len() as int) =~= int_part(s@)
        + frac_part(s@));
    let mut acc: u64 = acc1;
    let mut z: usize = 0;
    let pad: usize = scale as usize - frac_len;
    while z < pad
        invariant
            0 <= z <= pad,
            decimal_valid(s@, scale as nat),
            pad == scale - frac_part(s@).len(),
            acc == digits_val(int_part(s@) + frac_part(s@) + zero_digits(z as nat)),
            all_digits(int_part(s@) + frac_part(s@) + zero_digits(z as nat)),
        decreases pad - z,
    {
        let ghost done = int_part(s@) + frac_part(s@) + zero_digits(z as nat);
        proof {
            assert(done.push(48) =~= int_part(s@) + frac_part(s@) + zero_digits((z + 1) as nat));
            assert(done.push(48).drop_last() =~= done);
            assert(digits_val(done.push(48)) == digits_val(done) * 10);
        }
        match acc.checked_mul(10) {
            Some(v) => {
                acc = v;
            },
            None => {
                proof {
                    let head = int_part(s@) + frac_part(s@) + zero_digits((z + 1) as nat);
                    let full = int_part(s@) + frac_part(s@) + zero_digits(
                        (scale - frac_part(s@).len()) as nat,
                    );
                    lemma_zero_digits_val((z + 1) as nat);
                    lemma_zero_digits_val((pad - z - 1) as nat);
                    assert(head + zero_digits((pad - z - 1) as nat) =~= full);
                    lemma_digits_val_prefix_le(head, zero_digits((pad - z - 1) as nat));
                    lemma_decimal_val_as_digits(s@, scale as nat);
                }
                return None;
            },
        }
        z = z + 1;
    }
    proof {
        lemma_decimal_val_as_digits(s@, scale as nat);
    }
    Some(acc)
}

/// If a prefix of the padded digit string already exceeds `u64`, so does the
/// whole scaled value.
proof fn overflow_means_too_big(s: Seq<u8>, scale: nat, head: Seq<u8>)
    requires
        decimal_valid(s, scale),
        digits_val(head) > u64::MAX,
        head == int_part(s) || head == int_part(s) + frac_part(s),
    ensures
        decimal_val(s, scale) > u64::MAX,
{
    let z = (scale - frac_part(s).len()) as nat;
    let full = int_part(s) + frac_part(s) + zero_digits(z);
    lemma_zero_digits_val(z);
    lemma_decimal_val_as_digits(s, scale);
    if head == int_part(s) {
        assert(head + (frac_part(s) + zero_digits(z)) =~= full);
        assert(all_digits(frac_part(s) + zero_digits(z))) by {
            assert forall|i: int| 0 <= i < (frac_part(s) + zero_digits(z)).len() implies
                is_ascii_digit(#[trigger] (frac_part(s) + zero_digits(z))[i]) by {}
        }
        lemma_digits_val_prefix_le(head, frac_part(s) + zero_digits(z));
    } else {
        assert(head + zero_digits(z) =~= full);
        lemma_digits_val_prefix_le(head, zero_digits(z));
    }
}

} // verus!
