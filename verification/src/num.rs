//! Textual number recognition: base-10 signed 64-bit integers, and the
//! accepted syntax for floating-point literals (which the engine keeps
//! as text and never evaluates).

use vstd::prelude::*;

verus! {

/// `c` is a decimal digit.
pub open spec fn is_digit(c: char) -> bool {
    48 <= c as int && c as int <= 57
}

/// The numeric value of a decimal digit.
pub open spec fn digit_val(c: char) -> int {
    c as int - 48
}

/// Every character of `s` is a decimal digit.
pub open spec fn all_digits(s: Seq<char>) -> bool {
    forall|i: int| 0 <= i < s.len() ==> is_digit(s[i])
}

/// The value of a string of decimal digits, most significant first.
pub open spec fn dec_val(s: Seq<char>) -> int
    decreases s.len(),
{
    if s.len() == 0 {
        0
    } else {
        dec_val(s.drop_last()) * 10 + digit_val(s.last())
    }
}

/// The digits of an integer literal: what follows an optional single
/// leading `+` or `-`.
pub open spec fn int_body(s: Seq<char>) -> Seq<char> {
    if s.len() > 0 && (s[0] == '+' || s[0] == '-') {
        s.skip(1)
    } else {
        s
    }
}

/// The literal carries a leading minus sign.
pub open spec fn int_negative(s: Seq<char>) -> bool {
    s.len() > 0 && s[0] == '-'
}

/// `s` is an optional sign followed by one or more decimal digits.
pub open spec fn is_int_syntax(s: Seq<char>) -> bool {
    int_body(s).len() > 0 && all_digits(int_body(s))
}

/// The mathematical value of an integer literal.
pub open spec fn int_value(s: Seq<char>) -> int {
    if int_negative(s) {
        -dec_val(int_body(s))
    } else {
        dec_val(int_body(s))
    }
}

/// `s` is an integer literal whose value fits in a signed 64-bit word.
pub open spec fn is_i64_lit(s: Seq<char>) -> bool {
    is_int_syntax(s) && i64::MIN <= int_value(s) <= i64::MAX
}

proof fn lemma_dec_val_nonneg(s: Seq<char>)
    requires
        all_digits(s),
    ensures
        dec_val(s) >= 0,
    decreases s.len(),
{
    if s.len() > 0 {
        assert(all_digits(s.drop_last()));
        lemma_dec_val_nonneg(s.drop_last());
    }
}

/// Extending a digit string on the right never decreases its value.
proof fn lemma_dec_val_prefix(s: Seq<char>, j: int)
    requires
        all_digits(s),
        0 <= j <= s.len(),
    ensures
        dec_val(s.take(j)) <= dec_val(s),
    decreases s.len() - j,
{
    if j == s.len() {
        assert(s.take(j) =~= s);
    } else {
        assert(s.take(j + 1).drop_last() =~= s.take(j));
        assert(all_digits(s.take(j)));
        lemma_dec_val_nonneg(s.take(j));
        assert(dec_val(s.take(j + 1)) == dec_val(s.take(j)) * 10 + digit_val(s[j]));
        lemma_dec_val_prefix(s, j + 1);
    }
}

/// Parse a base-10 signed 64-bit integer from text: an optional sign
/// followed by one or more decimal digits, whose value fits in an
/// `i64`.  Returns `None` on any other input.
pub fn parse_i64(s: &str) -> (r: Option<i64>)
    ensures
        is_i64_lit(s@) ==> r == Some(int_value(s@) as i64),
        !is_i64_lit(s@) ==> r is None,
{
    let n: usize = s.unicode_len();
    let ghost body = int_body(s@);
    let mut i: usize = 0;
    let mut neg: bool = false;
    if n > 0 {
        let c0 = s.get_char(0);
        if c0 == '-' {
            neg = true;
            i = 1;
        } else if c0 == '+' {
            i = 1;
        }
    }
    let ghost start = i as int;
    proof {
        assert(body =~= s@.skip(start));
    }
    if i == n {
        // empty body: not an integer literal
        return None;
    }
    // magnitude bound: 2^63 for a negative literal, 2^63 - 1 otherwise
    let limit: u64 = if neg {
        9223372036854775808u64
    } else {
        9223372036854775807u64
    };
    let mut acc: u64 = 0;
    while i < n
        invariant
            0 <= start <= i as int <= n,
            n == s@.len(),
            body == s@.skip(start),
            body == int_body(s@),
            acc <= limit,
            limit == if neg { 9223372036854775808u64 } else { 9223372036854775807u64 },
            all_digits(body.take(i - start)),
            acc as int == dec_val(body.take(i - start)),
            neg == int_negative(s@),
        decreases n - i,
    {
        let ghost k = i as int - start;
        let c = s.get_char(i);
        proof {
            assert(body.len() == n - start);
            assert(body[k] == s@[i as int]);
        }
        let u: u32 = c as u32;
        if !(48 <= u && u <= 57) {
            assert(!is_digit(body[k]));
            return None;
        }
        let d: u64 = (u - 48) as u64;
        proof {
            assert(is_digit(body[k]) && digit_val(body[k]) == d as int);
            assert(body.take(k + 1).drop_last() =~= body.take(k));
            assert(body.take(k + 1).last() == body[k]);
            assert(dec_val(body.take(k + 1)) == acc as int * 10 + d as int);
        }
        // acc <= limit, so the overflow test itself cannot overflow
        if acc > (limit - d) / 10 {
            // the digits seen so far already exceed the magnitude bound
            proof {
                assert(acc as int > (limit as int - d as int) / 10);
                assert(acc as int * 10 + d as int > limit as int) by (nonlinear_arith)
                    requires
                        acc as int > (limit as int - d as int) / 10,
                        0 <= d as int <= 9,
                        limit as int >= 0,
                ;
                if is_int_syntax(s@) {
                    lemma_dec_val_prefix(body, k + 1);
                    assert(dec_val(body) > limit as int);
                }
            }
            return None;
        }
        proof {
            assert(acc as int <= (limit as int - d as int) / 10);
            assert(acc as int * 10 + d as int <= limit as int) by (nonlinear_arith)
                requires
                    acc as int <= (limit as int - d as int) / 10,
                    0 <= d as int <= 9,
                    d as int <= limit as int,
            ;
        }
        acc = acc * 10 + d;
        i = i + 1;
    }
    proof {
        assert(body.take(i - start) =~= body);
    }
    if neg {
        if acc == 9223372036854775808u64 {
            Some(i64::MIN)
        } else {
            Some(-(acc as i64))
        }
    } else {
        Some(acc as i64)
    }
}

/// `s` splits at index `i` into digits, a dot, and digits, with at
/// least one digit on one side.
pub open spec fn is_dot_split(s: Seq<char>, i: int) -> bool {
    &&& 0 <= i < s.len()
    &&& s[i] == '.'
    &&& all_digits(s.take(i))
    &&& all_digits(s.skip(i + 1))
    &&& (i > 0 || s.len() > i + 1)
}

/// `s` is a mantissa: one or more digits, or digits around a single
/// dot with at least one digit present.
pub open spec fn is_mantissa(s: Seq<char>) -> bool {
    (s.len() > 0 && all_digits(s)) || (exists|i: int| is_dot_split(s, i))
}

/// `s` splits at index `j` into a mantissa, an `e` or `E`, and a
/// signed digit string.
pub open spec fn is_exp_split(s: Seq<char>, j: int) -> bool {
    &&& 0 <= j < s.len()
    &&& (s[j] == 'e' || s[j] == 'E')
    &&& is_mantissa(s.take(j))
    &&& is_int_syntax(s.skip(j + 1))
}

/// The body of a floating-point literal: a mantissa with an optional
/// exponent part.
pub open spec fn is_double_body(s: Seq<char>) -> bool {
    is_mantissa(s) || (exists|j: int| is_exp_split(s, j))
}

/// The accepted syntax for a floating-point literal: an optional sign,
/// a mantissa, and an optional exponent part.
pub open spec fn is_double_lit(s: Seq<char>) -> bool {
    is_double_body(int_body(s))
}

/// Every character of `s@` between `a` and `b` is a decimal digit.
fn range_all_digits(s: &str, a: usize, b: usize) -> (r: bool)
    requires
        a <= b <= s@.len(),
    ensures
        r == all_digits(s@.subrange(a as int, b as int)),
{
    let ghost sub = s@.subrange(a as int, b as int);
    let mut i: usize = a;
    while i < b
        invariant
            a <= i <= b <= s@.len(),
            sub == s@.subrange(a as int, b as int),
            forall|q: int| 0 <= q < i - a ==> is_digit(sub[q]),
        decreases b - i,
    {
        let c = s.get_char(i);
        let u: u32 = c as u32;
        proof {
            assert(sub[i - a] == s@[i as int]);
        }
        if !(48 <= u && u <= 57) {
            assert(!is_digit(sub[i - a]));
            return false;
        }
        i = i + 1;
    }
    true
}

/// `s@` between `a` and `b` is a mantissa.
fn range_is_mantissa(s: &str, a: usize, b: usize) -> (r: bool)
    requires
        a <= b <= s@.len(),
    ensures
        r == is_mantissa(s@.subrange(a as int, b as int)),
{
    let ghost sub = s@.subrange(a as int, b as int);
    // find the first dot, if any
    let mut i: usize = a;
    let mut dot: usize = b;
    let mut seen: bool = false;
    while i < b && !seen
        invariant
            a <= i <= b <= s@.len(),
            sub == s@.subrange(a as int, b as int),
            seen ==> a <= dot < b && s@[dot as int] == '.',
            seen ==> i == dot + 1,
            forall|q: int| a <= q < i && !(seen && q == dot) ==> s@[q] != '.',
        decreases b - i + (if seen { 0int } else { 1int }),
    {
        let c = s.get_char(i);
        if c == '.' {
            dot = i;
            seen = true;
        }
        i = i + 1;
    }
    if !seen {
        // no dot: a mantissa here is one or more digits
        proof {
            assert forall|q: int| 0 <= q < sub.len() implies sub[q] != '.' by {
                assert(sub[q] == s@[q + a]);
            }
            assert(forall|q: int| !is_dot_split(sub, q));
        }
        b > a && range_all_digits(s, a, b)
    } else {
        let ghost d = dot as int - a;
        proof {
            assert(sub[d] == s@[dot as int]);
        }
        let left = range_all_digits(s, a, dot);
        let right = range_all_digits(s, dot + 1, b);
        let some_digit = dot > a || b > dot + 1;
        proof {
            assert(sub.take(d) =~= s@.subrange(a as int, dot as int));
            assert(sub.skip(d + 1) =~= s@.subrange(dot as int + 1, b as int));
            // the dot rules out the all-digit form
            assert(!is_digit(sub[d]));
            // any dot split must split at the first dot
            assert forall|q: int| is_dot_split(sub, q) implies q == d by {
                if q < d {
                    assert(s@[q + a] == sub[q]);
                    assert(sub[q] == '.');
                } else if q > d {
                    assert(sub.take(q)[d] == sub[d]);
                    assert(!is_digit(sub.take(q)[d]));
                }
            }
            if left && right && some_digit {
                assert(is_dot_split(sub, d));
            }
        }
        left && right && some_digit
    }
}

/// `s@` between `a` and `b` is an optional sign followed by one or
/// more decimal digits.
fn range_is_int_syntax(s: &str, a: usize, b: usize) -> (r: bool)
    requires
        a <= b <= s@.len(),
    ensures
        r == is_int_syntax(s@.subrange(a as int, b as int)),
{
    let ghost sub = s@.subrange(a as int, b as int);
    if a == b {
        proof {
            assert(int_body(sub).len() == 0);
        }
        return false;
    }
    let c = s.get_char(a);
    proof {
        assert(sub[0] == s@[a as int]);
    }
    let start: usize = if c == '+' || c == '-' {
        proof {
            assert(int_body(sub) =~= s@.subrange(a as int + 1, b as int));
        }
        a + 1
    } else {
        proof {
            assert(int_body(sub) =~= sub);
        }
        a
    };
    start < b && range_all_digits(s, start, b)
}

/// Whether `s` has the accepted syntax of a floating-point literal.
/// The engine keeps such a value as text; it never computes with it.
pub fn is_double(s: &str) -> (r: bool)
    ensures
        r == is_double_lit(s@),
{
    let n: usize = s.unicode_len();
    let mut a: usize = 0;
    if n > 0 {
        let c0 = s.get_char(0);
        if c0 == '+' || c0 == '-' {
            a = 1;
        }
    }
    let ghost body = int_body(s@);
    proof {
        assert(body =~= s@.subrange(a as int, n as int));
    }
    // find an `e` or `E`, if any; the grammar admits at most one
    let mut i: usize = a;
    let mut ex: usize = n;
    let mut seen: bool = false;
    while i < n
        invariant
            a <= i <= n == s@.len(),
            seen ==> a <= ex < i && (s@[ex as int] == 'e' || s@[ex as int] == 'E'),
            !seen ==> forall|q: int| a <= q < i ==> s@[q] != 'e' && s@[q] != 'E',
        decreases n - i,
    {
        let c = s.get_char(i);
        if !seen && (c == 'e' || c == 'E') {
            ex = i;
            seen = true;
        }
        i = i + 1;
    }
    if !seen {
        // no exponent marker: the body must be a plain mantissa
        let r = range_is_mantissa(s, a, n);
        proof {
            assert forall|j: int| !is_exp_split(body, j) by {
                if 0 <= j < body.len() {
                    assert(body[j] == s@[j + a]);
                }
            }
        }
        r
    } else {
        let ghost j = ex as int - a;
        let mant = range_is_mantissa(s, a, ex);
        let tail = range_is_int_syntax(s, ex + 1, n);
        proof {
            assert(body[j] == s@[ex as int]);
            assert(body.take(j) =~= s@.subrange(a as int, ex as int));
            assert(body.skip(j + 1) =~= s@.subrange(ex as int + 1, n as int));
            // a mantissa holds no `e`, so the body alone is never one
            if body.len() > 0 && all_digits(body) {
                assert(is_digit(body[j]));
            }
            assert forall|q: int| !is_dot_split(body, q) by {
                if 0 <= q < body.len() && is_dot_split(body, q) {
                    if j < q {
                        assert(body.take(q)[j] == body[j]);
                        assert(is_digit(body.take(q)[j]));
                    } else if j > q {
                        assert(body.skip(q + 1)[j - q - 1] == body[j]);
                        assert(is_digit(body.skip(q + 1)[j - q - 1]));
                    } else {
                        assert(body[q] == '.');
                    }
                }
            }
            // any exponent split must split at the marker we found
            assert forall|q: int| is_exp_split(body, q) implies q == j by {
                if q > j {
                    let m = body.take(q);
                    assert(m[j] == body[j]);
                    if m.len() > 0 && all_digits(m) {
                        assert(is_digit(m[j]));
                    }
                    if exists|p: int| is_dot_split(m, p) {
                        let p = choose|p: int| is_dot_split(m, p);
                        if j < p {
                            assert(m.take(p)[j] == m[j]);
                            assert(is_digit(m.take(p)[j]));
                        } else if j > p {
                            assert(m.skip(p + 1)[j - p - 1] == m[j]);
                            assert(is_digit(m.skip(p + 1)[j - p - 1]));
                        } else {
                            assert(m[p] == '.');
                        }
                    }
                } else if q < j {
                    let tail_q = body.skip(q + 1);
                    let jq = j - q - 1;
                    assert(tail_q[jq] == body[j]);
                    if int_body(tail_q).len() > 0 && all_digits(int_body(tail_q)) {
                        if tail_q.len() > 0 && (tail_q[0] == '+' || tail_q[0] == '-') {
                            if jq == 0 {
                            } else {
                                assert(int_body(tail_q)[jq - 1] == tail_q[jq]);
                                assert(is_digit(tail_q[jq]));
                            }
                        } else {
                            assert(int_body(tail_q)[jq] == tail_q[jq]);
                            assert(is_digit(tail_q[jq]));
                        }
                    }
                }
            }
            if mant && tail {
                assert(is_exp_split(body, j));
            }
        }
        mant && tail
    }
}

} // verus!
