//! Byte-level text scanning: digit strings, plain decimal numbers, and
//! comma splitting.
//!
//! Calibration tables are plain text, so their numeric fields arrive as
//! ASCII bytes. Decimal values are held exactly as integer counts of
//! millionths, which keeps every later comparison in integer arithmetic.

use vstd::prelude::*;

verus! {

/// Number of micro-units in one whole unit of a decimal value.
pub const MICROS_PER_UNIT: u64 = 1_000_000;

/// `b` is an ASCII decimal digit.
pub open spec fn is_digit(b: u8) -> bool {
    48 <= b && b <= 57
}

/// Numeric value of one digit byte.
pub open spec fn digit_val(b: u8) -> int {
    b - 48
}

/// Every byte of `s` is a digit; an empty sequence qualifies.
pub open spec fn all_digits(s: Seq<u8>) -> bool {
    forall|i: int| 0 <= i < s.len() ==> is_digit(s[i])
}

/// Numeric value of a digit string, most significant digit first; 0 when
/// empty.
pub open spec fn digits_val(s: Seq<u8>) -> int
    decreases s.len(),
{
    if s.len() == 0 {
        0
    } else {
        digits_val(s.drop_last()) * 10 + digit_val(s.last())
    }
}

pub open spec fn pow10(n: nat) -> int
    decreases n,
{
    if n == 0 {
        1
    } else {
        10 * pow10((n - 1) as nat)
    }
}

pub proof fn lemma_pow10_pos(n: nat)
    ensures
        pow10(n) >= 1,
    decreases n,
{
    if n > 0 {
        lemma_pow10_pos((n - 1) as nat);
    }
}

pub proof fn lemma_pow10_add(a: nat, b: nat)
    ensures
        pow10(a + b) == pow10(a) * pow10(b),
    decreases a,
{
    if a == 0 {
        assert(pow10(b) == 1 * pow10(b));
    } else {
        lemma_pow10_add((a - 1) as nat, b);
        assert((a + b) as nat - 1 == (a - 1) as nat + b);
        assert(pow10(a + b) == 10 * pow10((a - 1) as nat + b));
        assert(10 * (pow10((a - 1) as nat) * pow10(b)) == (10 * pow10((a - 1) as nat)) * pow10(
            b,
        )) by (nonlinear_arith);
    }
}

pub proof fn lemma_digits_val_nonneg(s: Seq<u8>)
    requires
        all_digits(s),
    ensures
        digits_val(s) >= 0,
    decreases s.len(),
{
    if s.len() > 0 {
        assert(all_digits(s.drop_last()));
        lemma_digits_val_nonneg(s.drop_last());
        assert(is_digit(s.last()));
    }
}

pub proof fn lemma_digits_val_bound(s: Seq<u8>)
    requires
        all_digits(s),
    ensures
        digits_val(s) < pow10(s.len() as nat),
    decreases s.len(),
{
    if s.len() > 0 {
        assert(all_digits(s.drop_last()));
        lemma_digits_val_bound(s.drop_last());
        assert(is_digit(s.last()));
    }
}

/// The value of a digit string is at least the value of any of its
/// prefixes: appending digits never shrinks the value.
pub proof fn lemma_digits_val_prefix_le(s: Seq<u8>, i: int)
    requires
        all_digits(s),
        0 <= i <= s.len(),
    ensures
        digits_val(s.take(i)) <= digits_val(s),
    decreases s.len() - i,
{
    if i < s.len() {
        lemma_digits_val_prefix_le(s, i + 1);
        assert(s.take(i + 1).drop_last() =~= s.take(i));
        assert(s.take(i + 1).last() == s[i]);
        assert(all_digits(s.take(i)));
        lemma_digits_val_nonneg(s.take(i));
        assert(is_digit(s[i]));
    } else {
        assert(s.take(i) =~= s);
    }
}

/// Value of the digit range, `None` when a byte in it is not a digit or
/// the value does not fit in `u64`.
pub open spec fn u64_of_digits(s: Seq<u8>) -> Option<u64> {
    if all_digits(s) && digits_val(s) <= u64::MAX {
        Some(digits_val(s) as u64)
    } else {
        None
    }
}

/// Reads the digit range `s[from..to]` as a `u64`.
pub fn digits_value(s: &Vec<u8>, from: usize, to: usize) -> (r: Option<u64>)
    requires
        from <= to,
        to <= s@.len(),
    ensures
        r == u64_of_digits(s@.subrange(from as int, to as int)),
{
    let ghost d = s@.subrange(from as int, to as int);
    let mut val: u64 = 0;
    let mut i: usize = from;
    proof {
        assert(s@.subrange(from as int, from as int) =~= Seq::<u8>::empty());
    }
    while i < to
        invariant
            from <= i <= to,
            to <= s@.len(),
            d == s@.subrange(from as int, to as int),
            all_digits(s@.subrange(from as int, i as int)),
            val == digits_val(s@.subrange(from as int, i as int)),
        decreases to - i,
    {
        let b = s[i];
        if b < 48 || b > 57 {
            proof {
                assert(d[i - from] == s@[i as int]);
            }
            return None;
        }
        let dd: u64 = (b - 48) as u64;
        if val > (u64::MAX - dd) / 10 {
            proof {
                if all_digits(d) {
                    let p = d.take(i + 1 - from);
                    assert(p =~= s@.subrange(from as int, i + 1));
                    assert(p.drop_last() =~= s@.subrange(from as int, i as int));
                    assert(p.last() == s@[i as int]);
                    assert(digits_val(p) == val * 10 + dd);
                    lemma_digits_val_prefix_le(d, i + 1 - from);
                    assert(digits_val(d) > u64::MAX);
                }
            }
            return None;
        }
        val = val * 10 + dd;
        proof {
            let p = s@.subrange(from as int, i + 1);
            assert(p.drop_last() =~= s@.subrange(from as int, i as int));
            assert(p.last() == s@[i as int]);
        }
        i += 1;
    }
    proof {
        assert(s@.subrange(from as int, i as int) =~= d);
    }
    Some(val)
}

/// The field once an optional leading `+` is gone.
pub open spec fn unsigned_body(s: Seq<u8>) -> Seq<u8> {
    if s.len() > 0 && s[0] == 43u8 {
        s.skip(1)
    } else {
        s
    }
}

/// An unsigned integer field: an optional `+`, then at least one digit,
/// with a value that fits in `u64`.
pub open spec fn u64_of(s: Seq<u8>) -> Option<u64> {
    let d = unsigned_body(s);
    if d.len() > 0 && all_digits(d) && digits_val(d) <= u64::MAX {
        Some(digits_val(d) as u64)
    } else {
        None
    }
}

/// Parses an unsigned integer field.
pub fn parse_u64(s: &Vec<u8>) -> (r: Option<u64>)
    ensures
        r == u64_of(s@),
{
    let n = s.len();
    let start: usize = if n > 0 && s[0] == 43 {
        1
    } else {
        0
    };
    proof {
        assert(s@.subrange(start as int, n as int) =~= unsigned_body(s@));
    }
    if n == start {
        return None;
    }
    digits_value(s, start, n)
}

/// Index of the first occurrence of `b` in `s` at or after `i`;
/// `s.len()` when there is none.
pub open spec fn first_at(s: Seq<u8>, b: u8, i: int) -> int
    decreases s.len() - i,
{
    if i < 0 || i >= s.len() {
        s.len() as int
    } else if s[i] == b {
        i
    } else {
        first_at(s, b, i + 1)
    }
}

/// A scan that saw no `b` up to `j`, and `b` (or the end) at `j`, found
/// the first occurrence.
pub proof fn lemma_first_at_eq(s: Seq<u8>, b: u8, i: int, j: int)
    requires
        0 <= i <= j <= s.len(),
        forall|k: int| i <= k < j ==> s[k] != b,
        j == s.len() || s[j] == b,
    ensures
        first_at(s, b, i) == j,
    decreases j - i,
{
    if i < j {
        lemma_first_at_eq(s, b, i + 1, j);
    }
}

/// A decimal field: an optional sign, digits with at most one point, at
/// least one digit in all, at most six fraction digits, held exactly as a
/// signed count of millionths. Anything else, or a value whose magnitude
/// exceeds `i64::MAX` micro-units, is not a decimal field.
pub open spec fn micros_of(s: Seq<u8>) -> Option<i64> {
    let neg = s.len() > 0 && s[0] == 45u8;
    let body = if s.len() > 0 && (s[0] == 43u8 || s[0] == 45u8) {
        s.skip(1)
    } else {
        s
    };
    let j = first_at(body, 46u8, 0);
    let ip = body.take(j);
    let fp = if j == body.len() {
        Seq::<u8>::empty()
    } else {
        body.skip(j + 1)
    };
    if all_digits(ip) && all_digits(fp) && ip.len() + fp.len() > 0 && fp.len() <= 6 {
        let m = digits_val(ip) * MICROS_PER_UNIT + digits_val(fp) * pow10((6 - fp.len()) as nat);
        if m <= i64::MAX {
            if neg {
                Some((-m) as i64)
            } else {
                Some(m as i64)
            }
        } else {
            None
        }
    } else {
        None
    }
}

/// Ten to a small power, for scaling fraction digits to micro-units.
fn pow10_small(e: usize) -> (r: u64)
    requires
        e <= 6,
    ensures
        r == pow10(e as nat),
{
    proof {
        reveal_with_fuel(pow10, 8);
    }
    if e == 0 {
        1
    } else if e == 1 {
        10
    } else if e == 2 {
        100
    } else if e == 3 {
        1_000
    } else if e == 4 {
        10_000
    } else if e == 5 {
        100_000
    } else {
        1_000_000
    }
}

/// Parses a decimal field into micro-units.
pub fn parse_micros(s: &Vec<u8>) -> (r: Option<i64>)
    ensures
        r == micros_of(s@),
{
    let n = s.len();
    let mut neg = false;
    let mut start: usize = 0;
    if n > 0 && s[0] == 45 {
        neg = true;
        start = 1;
    } else if n > 0 && s[0] == 43 {
        start = 1;
    }
    let ghost body = if s@.len() > 0 && (s@[0] == 43u8 || s@[0] == 45u8) {
        s@.skip(1)
    } else {
        s@
    };
    proof {
        assert(body =~= s@.subrange(start as int, n as int));
    }
    // find the first point
    let mut j = start;
    while j < n && s[j] != 46
        invariant
            start <= j <= n,
            n == s@.len(),
            forall|k: int| start <= k < j ==> s@[k] != 46u8,
        decreases n - j,
    {
        j += 1;
    }
    proof {
        lemma_first_at_eq(body, 46u8, 0, j - start);
        assert(first_at(body, 46u8, 0) == j - start);
        assert(body.take(j - start) =~= s@.subrange(start as int, j as int));
    }
    let ghost ipg = body.take(j - start);
    let ghost fpg = if j - start == body.len() {
        Seq::<u8>::empty()
    } else {
        body.skip(j - start + 1)
    };
    proof {
        assert(ipg =~= s@.subrange(start as int, j as int));
        if j < n {
            assert(fpg =~= s@.subrange(j + 1, n as int));
        }
    }
    let ip: u64 = match digits_value(s, start, j) {
        Some(v) => v,
        None => {
            proof {
                // either the integer part is not all digits (spec rejects),
                // or its value alone already exceeds the representable range
                if all_digits(ipg) && all_digits(fpg) && fpg.len() <= 6 {
                    assert(digits_val(ipg) > u64::MAX);
                    lemma_digits_val_nonneg(fpg);
                    lemma_pow10_pos((6 - fpg.len()) as nat);
                    assert(digits_val(fpg) * pow10((6 - fpg.len()) as nat) >= 0)
                        by (nonlinear_arith)
                        requires
                            digits_val(fpg) >= 0,
                            pow10((6 - fpg.len()) as nat) >= 1,
                    ;
                    assert(digits_val(ipg) * MICROS_PER_UNIT >= digits_val(ipg));
                }
            }
            return None;
        },
    };
    let (fp, fp_len): (u64, usize) = if j == n {
        (0, 0)
    } else {
        match digits_value(s, j + 1, n) {
            Some(v) => (v, n - j - 1),
            None => {
                proof {
                    // a fraction of at most six digits always fits, so the
                    // fraction must be malformed or longer than six digits
                    if all_digits(fpg) && fpg.len() <= 6 {
                        lemma_digits_val_nonneg(fpg);
                        lemma_digits_val_bound(fpg);
                        lemma_pow10_add(fpg.len(), (6 - fpg.len()) as nat);
                        lemma_pow10_pos((6 - fpg.len()) as nat);
                        lemma_pow10_pos(fpg.len());
                        assert(pow10(6) == 1_000_000) by {
                            reveal_with_fuel(pow10, 8);
                        };
                        assert(pow10(fpg.len()) * pow10((6 - fpg.len()) as nat) >= pow10(
                            fpg.len(),
                        )) by (nonlinear_arith)
                            requires
                                pow10(fpg.len()) >= 1,
                                pow10((6 - fpg.len()) as nat) >= 1,
                        ;
                        assert(digits_val(fpg) <= u64::MAX);
                        assert(false);
                    }
                }
                return None;
            },
        }
    };
    proof {
        if j == n {
            assert(ipg =~= body);
        }
        assert(all_digits(ipg));
        assert(all_digits(fpg));
        lemma_digits_val_nonneg(ipg);
        lemma_digits_val_nonneg(fpg);
        assert(ip == digits_val(ipg));
        assert(fp == digits_val(fpg));
        assert(fpg.len() == fp_len);
    }
    if j == start && fp_len == 0 {
        // neither integer nor fraction digits
        return None;
    }
    if fp_len > 6 {
        return None;
    }
    if ip > i64::MAX as u64 / MICROS_PER_UNIT {
        proof {
            lemma_pow10_pos((6 - fpg.len()) as nat);
            assert(digits_val(fpg) * pow10((6 - fpg.len()) as nat) >= 0) by (nonlinear_arith)
                requires
                    digits_val(fpg) >= 0,
                    pow10((6 - fpg.len()) as nat) >= 1,
            ;
            assert(digits_val(ipg) * MICROS_PER_UNIT >= digits_val(ipg));
        }
        return None;
    }
    let scale = pow10_small(6 - fp_len);
    proof {
        lemma_digits_val_bound(fpg);
        lemma_pow10_add(fpg.len(), (6 - fpg.len()) as nat);
        lemma_pow10_pos((6 - fpg.len()) as nat);
        assert(pow10(6) == 1_000_000) by {
            reveal_with_fuel(pow10, 8);
        };
        assert(fp * scale < 1_000_000) by (nonlinear_arith)
            requires
                fp < pow10(fpg.len()),
                scale == pow10((6 - fpg.len()) as nat),
                pow10(fpg.len()) * pow10((6 - fpg.len()) as nat) == 1_000_000,
                fp >= 0,
                scale >= 1,
        ;
    }
    let m: u64 = ip * MICROS_PER_UNIT + fp * scale;
    if m > i64::MAX as u64 {
        return None;
    }
    if neg {
        Some(-(m as i64))
    } else {
        Some(m as i64)
    }
}

/// The fields of `s` split at commas: one more field than commas, in
/// order, none holding a comma.
pub open spec fn split_commas_spec(s: Seq<u8>) -> Seq<Seq<u8>>
    decreases s.len(),
{
    let j = first_at(s, 44u8, 0);
    if 0 <= j && j < s.len() {
        seq![s.take(j)] + split_commas_spec(s.skip(j + 1))
    } else {
        seq![s]
    }
}

/// Splits a line at commas.
pub fn split_commas(line: &Vec<u8>) -> (r: Vec<Vec<u8>>)
    ensures
        r.deep_view() == split_commas_spec(line@),
{
    let r = split_from(line, 0);
    proof {
        assert(line@.skip(0) =~= line@);
    }
    r
}

fn split_from(line: &Vec<u8>, start: usize) -> (r: Vec<Vec<u8>>)
    requires
        start <= line@.len(),
    ensures
        r.deep_view() == split_commas_spec(line@.skip(start as int)),
    decreases line@.len() - start,
{
    let n = line.len();
    let ghost tail = line@.skip(start as int);
    let mut j = start;
    while j < n && line[j] != 44
        invariant
            start <= j <= n,
            n == line@.len(),
            forall|k: int| start <= k < j ==> line@[k] != 44u8,
        decreases n - j,
    {
        j += 1;
    }
    proof {
        lemma_first_at_eq(tail, 44u8, 0, j - start);
        assert(first_at(tail, 44u8, 0) == j - start);
    }
    let mut field: Vec<u8> = Vec::new();
    let mut k = start;
    proof {
        assert(field@ =~= line@.subrange(start as int, start as int));
    }
    while k < j
        invariant
            start <= k <= j <= n,
            n == line@.len(),
            field@ == line@.subrange(start as int, k as int),
        decreases j - k,
    {
        field.push(line[k]);
        proof {
            assert(field@ =~= line@.subrange(start as int, k + 1));
        }
        k += 1;
    }
    if j == n {
        let mut r: Vec<Vec<u8>> = Vec::new();
        r.push(field);
        proof {
            assert(field@ =~= tail);
            assert(r@[0] == field);
            assert(r.deep_view()[0] == field.deep_view());
            assert(field.deep_view() =~= field@);
            assert(r.deep_view() =~= seq![tail]);
        }
        r
    } else {
        let mut rest = split_from(line, j + 1);
        let ghost rest_seq = rest@;
        let ghost rest_view = rest.deep_view();
        let mut r: Vec<Vec<u8>> = Vec::new();
        r.push(field);
        r.append(&mut rest);
        proof {
            assert(field@ =~= tail.take(j - start));
            assert(line@.skip(j + 1) =~= tail.skip(j - start + 1));
            assert(r@ == seq![field] + rest_seq);
            assert forall|i: int| 0 <= i < r@.len() implies r.deep_view()[i] == (seq![field@]
                + rest_view)[i] by {
                assert(r.deep_view()[i] == r@[i].deep_view());
                if i == 0 {
                    assert(r@[0] == field);
                    assert(field.deep_view() =~= field@);
                } else {
                    assert(r@[i] == rest_seq[i - 1]);
                    assert(rest_view[i - 1] == rest_seq[i - 1].deep_view());
                }
            }
            assert(r.deep_view() =~= seq![field@] + rest_view);
            assert(r.deep_view() == seq![tail.take(j - start)] + split_commas_spec(
                tail.skip(j - start + 1),
            ));
        }
        r
    }
}

} // verus!
