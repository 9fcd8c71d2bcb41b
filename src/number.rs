use vstd::prelude::*;

verus! {

/// Digits kept after the decimal point when a number is read as an integer
/// count of units.
pub const FRACTION_DIGITS: u32 = 19;

/// No count of units reaches this bound (10^38).
pub const UNITS_LIMIT: i128 = 100000000000000000000000000000000000000;

pub open spec fn is_digit(c: char) -> bool {
    '0' <= c <= '9'
}

pub open spec fn all_digits(s: Seq<char>) -> bool {
    forall|i: int| 0 <= i < s.len() ==> is_digit(#[trigger] s[i])
}

/// The number that a string of decimal digits spells.
pub open spec fn digits_value(s: Seq<char>) -> int
    decreases s.len(),
{
    if s.len() == 0 {
        0
    } else {
        digits_value(s.drop_last()) * 10 + (s.last() as int - '0' as int)
    }
}

pub open spec fn pow10(n: nat) -> nat
    decreases n,
{
    if n == 0 {
        1
    } else {
        10 * pow10((n - 1) as nat)
    }
}

/// The position of the first `c` at or after `i`, or the length when none.
pub open spec fn index_from(s: Seq<char>, c: char, i: int) -> int
    decreases s.len() - i,
{
    if i < 0 || i >= s.len() {
        s.len() as int
    } else if s[i] == c {
        i
    } else {
        index_from(s, c, i + 1)
    }
}

/// The body of a decimal text: what follows its sign.
pub open spec fn unsigned_part(t: Seq<char>) -> Seq<char> {
    if t.len() > 0 && t[0] == '-' {
        t.skip(1)
    } else {
        t
    }
}

/// A plain decimal text `-?D+(.D+)?` as an integer count of units of
/// 10^-FRACTION_DIGITS, when it has at most FRACTION_DIGITS digits after the
/// point and all its digits together spell less than 10^FRACTION_DIGITS.
/// Any other text counts as zero.
pub open spec fn plain_units(t: Seq<char>) -> int {
    let neg = t.len() > 0 && t[0] == '-';
    let body = unsigned_part(t);
    let p = index_from(body, '.', 0);
    let ip = body.take(p);
    let fp = if p < body.len() {
        body.skip(p + 1)
    } else {
        Seq::empty()
    };
    if ip.len() > 0 && all_digits(ip) && all_digits(fp) && (p < body.len() ==> fp.len() > 0)
        && fp.len() <= FRACTION_DIGITS && digits_value(ip + fp) < pow10(FRACTION_DIGITS as nat) {
        let m = digits_value(ip + fp) * pow10((FRACTION_DIGITS - fp.len()) as nat);
        if neg {
            -m
        } else {
            m
        }
    } else {
        0
    }
}

proof fn lemma_digits_push(s: Seq<char>, c: char)
    ensures
        digits_value(s.push(c)) == digits_value(s) * 10 + (c as int - '0' as int),
{
    assert(s.push(c).drop_last() =~= s);
}

proof fn lemma_digits_nonneg(s: Seq<char>)
    requires
        all_digits(s),
    ensures
        digits_value(s) >= 0,
    decreases s.len(),
{
    if s.len() > 0 {
        assert(all_digits(s.drop_last()));
        lemma_digits_nonneg(s.drop_last());
    }
}

proof fn lemma_pow10_pos(n: nat)
    ensures
        pow10(n) >= 1,
    decreases n,
{
    if n > 0 {
        lemma_pow10_pos((n - 1) as nat);
    }
}

proof fn lemma_pow10_mono(a: nat, b: nat)
    requires
        a <= b,
    ensures
        pow10(a) <= pow10(b),
    decreases b,
{
    if a < b {
        lemma_pow10_mono(a, (b - 1) as nat);
        lemma_pow10_pos((b - 1) as nat);
    }
}

proof fn lemma_digits_concat(a: Seq<char>, b: Seq<char>)
    requires
        all_digits(a),
        all_digits(b),
    ensures
        digits_value(a + b) == digits_value(a) * pow10(b.len()) + digits_value(b),
    decreases b.len(),
{
    if b.len() == 0 {
        assert(a + b =~= a);
        assert(pow10(0) == 1);
        assert(digits_value(b) == 0);
        assert(digits_value(a) * 1 == digits_value(a));
    } else {
        let b1 = b.drop_last();
        assert((a + b).drop_last() =~= a + b1);
        assert((a + b).last() == b.last());
        assert(all_digits(b1));
        lemma_digits_concat(a, b1);
        let da = digits_value(a);
        let p = pow10(b1.len());
        assert(pow10(b.len()) == 10 * p);
        assert(digits_value(b) == digits_value(b1) * 10 + (b.last() as int - '0' as int));
        assert(digits_value(a + b) == (da * p + digits_value(b1)) * 10 + (b.last() as int
            - '0' as int));
        assert((da * p + digits_value(b1)) * 10 == da * (10 * p) + digits_value(b1) * 10)
            by (nonlinear_arith);
        assert(digits_value(a + b) == da * pow10(b.len()) + digits_value(b));
    }
    assert(digits_value(a + b) == digits_value(a) * pow10(b.len()) + digits_value(b));
}

proof fn lemma_digits_prefix(s: Seq<char>, k: int)
    requires
        all_digits(s),
        0 <= k <= s.len(),
    ensures
        digits_value(s.take(k)) <= digits_value(s),
{
    let a = s.take(k);
    let b = s.skip(k);
    assert(a + b =~= s);
    assert(all_digits(a));
    assert(all_digits(b));
    lemma_digits_concat(a, b);
    lemma_digits_nonneg(a);
    lemma_digits_nonneg(b);
    lemma_pow10_pos(b.len());
    let da = digits_value(a);
    let p = pow10(b.len());
    assert(da * p >= da) by (nonlinear_arith)
        requires
            da >= 0,
            p >= 1,
    ;
}

proof fn lemma_index_from_bounds(s: Seq<char>, c: char, i: int)
    requires
        0 <= i <= s.len(),
    ensures
        i <= index_from(s, c, i) <= s.len(),
        index_from(s, c, i) < s.len() ==> s[index_from(s, c, i)] == c,
        forall|j: int| i <= j < index_from(s, c, i) ==> s[j] != c,
    decreases s.len() - i,
{
    if i < s.len() && s[i] != c {
        lemma_index_from_bounds(s, c, i + 1);
    }
}

proof fn lemma_index_from_skips(s: Seq<char>, c: char, i: int)
    requires
        0 <= i <= s.len(),
    ensures
        index_from(s, c, i) >= i,
    decreases s.len() - i,
{
    if i < s.len() && s[i] != c {
        lemma_index_from_skips(s, c, i + 1);
    }
}

proof fn lemma_units_zero_when_fraction_large(t: Seq<char>, j: int)
    requires
        index_from(unsigned_part(t), '.', 0) < j <= unsigned_part(t).len(),
        all_digits(unsigned_part(t).take(index_from(unsigned_part(t), '.', 0))),
        digits_value(
            unsigned_part(t).take(index_from(unsigned_part(t), '.', 0)) + unsigned_part(t).subrange(
                index_from(unsigned_part(t), '.', 0) + 1,
                j,
            ),
        ) >= pow10(FRACTION_DIGITS as nat) || j - index_from(unsigned_part(t), '.', 0) - 1
            > FRACTION_DIGITS,
    ensures
        plain_units(t) == 0,
{
    let body = unsigned_part(t);
    let q = index_from(body, '.', 0);
    lemma_index_from_bounds(body, '.', 0);
    let ip = body.take(q);
    let fp = body.skip(q + 1);
    if all_digits(fp) {
        let pre = ip + body.subrange(q + 1, j);
        let whole = ip + fp;
        assert(whole.take(pre.len() as int) =~= pre);
        assert(all_digits(whole));
        lemma_digits_prefix(whole, pre.len() as int);
    }
}

proof fn lemma_units_zero_when_large(t: Seq<char>, k: int)
    requires
        0 <= k <= unsigned_part(t).len(),
        index_from(unsigned_part(t), '.', 0) >= k,
        digits_value(unsigned_part(t).take(k)) >= pow10(FRACTION_DIGITS as nat),
    ensures
        plain_units(t) == 0,
{
    let body = unsigned_part(t);
    let q = index_from(body, '.', 0);
    lemma_index_from_bounds(body, '.', 0);
    let ip = body.take(q);
    let fp = if q < body.len() {
        body.skip(q + 1)
    } else {
        Seq::<char>::empty()
    };
    if ip.len() > 0 && all_digits(ip) && all_digits(fp) {
        assert(ip.take(k) =~= body.take(k));
        lemma_digits_prefix(ip, k);
        assert(all_digits(ip + fp));
        assert((ip + fp).take(ip.len() as int) =~= ip);
        lemma_digits_prefix(ip + fp, ip.len() as int);
    }
}

/// The units of a plain decimal text, as `plain_units` counts them.
#[verifier::rlimit(60)]
fn plain_units_of(t: &Vec<char>) -> (r: i128)
    ensures
        r == plain_units(t@),
        -UNITS_LIMIT < r < UNITS_LIMIT,
{
    let n = t.len();
    let neg = n > 0 && t[0] == '-';
    let start: usize = if neg {
        1
    } else {
        0
    };
    let ghost body = unsigned_part(t@);
    let ghost p = index_from(body, '.', 0);
    assert(body.len() == n - start);
    proof {
        lemma_index_from_bounds(body, '.', 0);
    }
    assert(forall|j: int| 0 <= j < body.len() ==> body[j] == t@[j + start]);
    proof {
        reveal_with_fuel(pow10, 40);
    }
    let limit: u128 = 10000000000000000000;
    assert(limit == pow10(FRACTION_DIGITS as nat));
    let mut m: u128 = 0;
    let mut i: usize = start;
    while i < n && '0' <= t[i] && t[i] <= '9'
        invariant
            start <= i <= n,
            0 <= p <= body.len(),
            body == unsigned_part(t@),
            n == t.len(),
            body.len() == n - start,
            forall|j: int| 0 <= j < body.len() ==> body[j] == t@[j + start],
            forall|j: int| 0 <= j < i - start ==> is_digit(#[trigger] body[j]),
            index_from(body, '.', 0) == index_from(body, '.', i - start),
            m == digits_value(body.take(i - start)),
            m < limit,
            limit == pow10(FRACTION_DIGITS as nat),
            limit == 10000000000000000000u128,
            p == index_from(body, '.', 0),
        decreases n - i,
    {
        assert(body[i - start] == t@[i as int]);
        let d = (t[i] as u32 - '0' as u32) as u128;
        proof {
            lemma_digits_push(body.take(i - start), t@[i as int]);
            assert(body.take(i - start).push(t@[i as int]) =~= body.take(i - start + 1));
        }
        m = m * 10 + d;
        if m >= limit {
            proof {
                assert(index_from(body, '.', i - start) == index_from(body, '.', i - start + 1));
                lemma_index_from_skips(body, '.', i - start + 1);
                lemma_units_zero_when_large(t@, i - start + 1);
            }
            return 0;
        }
        i = i + 1;
    }
    let ghost k = i - start;
    assert(forall|j: int| 0 <= j < k ==> body[j] != '.');
    if i == start {
        proof {
            if body.len() > 0 {
                assert(body[0] == t@[start as int]);
                if p > 0 {
                    assert(body.take(p)[0] == body[0]);
                }
            }
        }
        return 0;
    }
    let mut f: u32 = 0;
    let ghost ip = body.take(k);
    if i < n {
        if t[i] != '.' {
            proof {
                assert(body[k] == t@[i as int]);
                assert(index_from(body, '.', k) == index_from(body, '.', k + 1));
                lemma_index_from_skips(body, '.', k + 1);
                assert(body.take(p)[k] == body[k]);
            }
            return 0;
        }
        assert(p == k);
        i = i + 1;
        while i < n && '0' <= t[i] && t[i] <= '9'
            invariant
                start + k + 1 <= i <= n,
                0 <= p <= body.len(),
                body == unsigned_part(t@),
                n == t.len(),
                k == p,
                p < body.len(),
                ip == body.take(p),
                all_digits(ip),
                body.len() == n - start,
                forall|j: int| 0 <= j < body.len() ==> body[j] == t@[j + start],
                forall|j: int| p + 1 <= j < i - start ==> is_digit(#[trigger] body[j]),
                f == i - start - (p + 1),
                f <= FRACTION_DIGITS,
                m == digits_value(ip + body.subrange(p + 1, i - start)),
                m < limit,
                limit == pow10(FRACTION_DIGITS as nat),
                limit == 10000000000000000000u128,
                p == index_from(body, '.', 0),
            decreases n - i,
        {
            assert(body[i - start] == t@[i as int]);
            let d = (t[i] as u32 - '0' as u32) as u128;
            proof {
                let a = ip + body.subrange(p + 1, i - start);
                lemma_digits_push(a, t@[i as int]);
                assert(a.push(t@[i as int]) =~= ip + body.subrange(p + 1, i - start + 1));
            }
            m = m * 10 + d;
            if m >= limit || f == FRACTION_DIGITS {
                proof {
                    lemma_units_zero_when_fraction_large(t@, i - start + 1);
                }
                return 0;
            }
            f = f + 1;
            i = i + 1;
        }
        if f == 0 || i < n {
            proof {
                if i < n {
                    assert(!is_digit(body.skip(p + 1)[i - start - (p + 1)]));
                }
            }
            return 0;
        }
        assert(body.subrange(p + 1, i - start) =~= body.skip(p + 1));
    } else {
        assert(p == body.len());
        assert(ip =~= body);
        assert(ip + Seq::<char>::empty() =~= ip);
    }
    let mut scale: u128 = 1;
    let mut e: u32 = 0;
    while e < FRACTION_DIGITS - f
        invariant
            f <= FRACTION_DIGITS,
            e <= FRACTION_DIGITS - f,
            scale == pow10(e as nat),
            limit == pow10(FRACTION_DIGITS as nat),
        decreases FRACTION_DIGITS - f - e,
    {
        proof {
            lemma_pow10_mono((e + 1) as nat, FRACTION_DIGITS as nat);
        }
        scale = scale * 10;
        e = e + 1;
    }
    proof {
        lemma_pow10_mono(e as nat, FRACTION_DIGITS as nat);
        assert(m * scale < limit * limit) by (nonlinear_arith)
            requires
                m < limit,
                scale <= limit,
                scale >= 1,
        ;
        lemma_pow10_pos(e as nat);
    }
    assert(limit * limit == 100000000000000000000000000000000000000u128) by (nonlinear_arith)
        requires
            limit == 10000000000000000000u128,
    ;
    assert(limit * limit == UNITS_LIMIT);
    let units = (m * scale) as i128;
    if neg {
        -units
    } else {
        units
    }
}

/// Where the exponent of a number text starts: at its first `e` or `E`, or
/// at its end when it has none.
pub open spec fn exponent_index(t: Seq<char>) -> int {
    let a = index_from(t, 'e', 0);
    let b = index_from(t, 'E', 0);
    if a < b {
        a
    } else {
        b
    }
}

/// The value of an exponent `[+-]?D+`; none for any other text.
pub open spec fn exponent_value(e: Seq<char>) -> Option<int> {
    let signed = e.len() > 0 && (e[0] == '-' || e[0] == '+');
    let d = if signed {
        e.skip(1)
    } else {
        e
    };
    if d.len() > 0 && all_digits(d) {
        Some(
            if e[0] == '-' {
                -digits_value(d)
            } else {
                digits_value(d)
            },
        )
    } else {
        None
    }
}

/// `u` units times 10^x, when that is a whole number of units below
/// UNITS_LIMIT in size; zero otherwise.
pub open spec fn scaled_units(u: int, x: int) -> int {
    if x >= 0 {
        let v = u * pow10(x as nat);
        if -UNITS_LIMIT < v < UNITS_LIMIT {
            v
        } else {
            0
        }
    } else {
        let p = pow10((-x) as nat) as int;
        if u % p == 0 {
            u / p
        } else {
            0
        }
    }
}

/// A number text `-?D+(.D+)?([eE][+-]?D+)?` as an integer count of units of
/// 10^-FRACTION_DIGITS: the part before the exponent is read as
/// `plain_units` reads it, then scaled by the exponent. A value that is not
/// a whole number of units, or whose size reaches UNITS_LIMIT, and any text
/// of another shape, count as zero.
pub open spec fn decimal_units(t: Seq<char>) -> int {
    let q = exponent_index(t);
    if q >= t.len() {
        plain_units(t)
    } else {
        match exponent_value(t.skip(q + 1)) {
            Some(x) => scaled_units(plain_units(t.take(q)), x),
            None => 0,
        }
    }
}

proof fn lemma_first_of(s: Seq<char>, c: char, q: int)
    requires
        0 <= q <= s.len(),
        forall|j: int| 0 <= j < q ==> s[j] != c,
    ensures
        q <= index_from(s, c, 0) <= s.len(),
        q < s.len() && s[q] == c ==> index_from(s, c, 0) == q,
{
    lemma_index_from_bounds(s, c, 0);
}

proof fn lemma_scaled_out_of_range(u: int, x: int)
    requires
        -UNITS_LIMIT < u < UNITS_LIMIT,
        x >= 39 || x <= -39,
    ensures
        scaled_units(u, x) == 0,
{
    reveal_with_fuel(pow10, 40);
    assert(pow10(39) == 10 * UNITS_LIMIT);
    if x >= 39 {
        lemma_pow10_mono(39, x as nat);
        let p = pow10(x as nat) as int;
        assert(p > UNITS_LIMIT);
        if u == 0 {
            assert(u * p == 0);
        }
        if u > 0 {
            assert(u * p >= p) by (nonlinear_arith)
                requires
                    u >= 1,
                    p >= 0,
            ;
        } else if u < 0 {
            assert(u * p <= -p) by (nonlinear_arith)
                requires
                    u <= -1,
                    p >= 0,
            ;
        }
    } else {
        lemma_pow10_mono(39, (-x) as nat);
        let p = pow10((-x) as nat) as int;
        assert(p > UNITS_LIMIT);
        if u > 0 {
            vstd::arithmetic::div_mod::lemma_small_mod(u as nat, p as nat);
        } else if u < 0 {
            vstd::arithmetic::div_mod::lemma_fundamental_div_mod_converse(u, p, -1, p + u);
        } else {
            vstd::arithmetic::div_mod::lemma_fundamental_div_mod_converse(u, p, 0, 0);
        }
    }
}

/// The units of a number text, as `decimal_units` counts them.
#[verifier::rlimit(60)]
pub fn decimal_units_of(t: &Vec<char>) -> (r: i128)
    ensures
        r == decimal_units(t@),
{
    let n = t.len();
    let mut q: usize = 0;
    while q < n && t[q] != 'e' && t[q] != 'E'
        invariant
            q <= n,
            n == t.len(),
            forall|j: int| 0 <= j < q ==> t@[j] != 'e' && t@[j] != 'E',
        decreases n - q,
    {
        q = q + 1;
    }
    proof {
        lemma_first_of(t@, 'e', q as int);
        lemma_first_of(t@, 'E', q as int);
    }
    assert(exponent_index(t@) == q);
    let mut mant: Vec<char> = Vec::new();
    let mut k: usize = 0;
    while k < q
        invariant
            k <= q <= n,
            n == t.len(),
            mant@ == t@.take(k as int),
        decreases q - k,
    {
        mant.push(t[k]);
        k = k + 1;
        assert(mant@ =~= t@.take(k as int));
    }
    let u = plain_units_of(&mant);
    assert(mant@ == t@.take(q as int));
    if q == n {
        assert(mant@ =~= t@);
        return u;
    }
    let ghost e = t@.skip(q + 1);
    let mut i: usize = q + 1;
    let eneg = i < n && t[i] == '-';
    assert(e.len() > 0 ==> e[0] == t@[q + 1]);
    if i < n && (t[i] == '-' || t[i] == '+') {
        i = i + 1;
    }
    let start = i;
    let ghost d = t@.skip(start as int);
    assert(d =~= if e.len() > 0 && (e[0] == '-' || e[0] == '+') {
        e.skip(1)
    } else {
        e
    });
    let mut x: u32 = 0;
    while i < n && '0' <= t[i] && t[i] <= '9'
        invariant
            start <= i <= n,
            n == t.len(),
            d == t@.skip(start as int),
            forall|j: int| 0 <= j < i - start ==> is_digit(#[trigger] d[j]),
            x == digits_value(d.take(i - start)),
            x < 39,
            -UNITS_LIMIT < u < UNITS_LIMIT,
            q < n,
            exponent_index(t@) == q,
            u == plain_units(t@.take(q as int)),
            e == t@.skip(q + 1),
            eneg == (e.len() > 0 && e[0] == '-'),
            d == if e.len() > 0 && (e[0] == '-' || e[0] == '+') {
                e.skip(1)
            } else {
                e
            },
        decreases n - i,
    {
        assert(d[i - start] == t@[i as int]);
        let dg = t[i] as u32 - '0' as u32;
        proof {
            lemma_digits_push(d.take(i - start), t@[i as int]);
            assert(d.take(i - start).push(t@[i as int]) =~= d.take(i - start + 1));
        }
        x = x * 10 + dg;
        i = i + 1;
        if x >= 39 {
            proof {
                if d.len() > 0 && all_digits(d) {
                    lemma_digits_prefix(d, i - start);
                    lemma_scaled_out_of_range(
                        u as int,
                        if eneg {
                            -digits_value(d)
                        } else {
                            digits_value(d)
                        },
                    );
                }
            }
            return 0;
        }
    }
    if i == start || i < n {
        proof {
            if i < n {
                assert(!is_digit(d[i - start]));
            }
        }
        return 0;
    }
    assert(d.take(i - start) =~= d);
    if eneg && x > 0 {
        let mut p: u128 = 1;
        let mut j: u32 = 0;
        while j < x
            invariant
                j <= x < 39,
                p == pow10(j as nat),
            decreases x - j,
        {
            proof {
                reveal_with_fuel(pow10, 40);
                lemma_pow10_mono((j + 1) as nat, 38);
            }
            p = p * 10;
            j = j + 1;
        }
        proof {
            lemma_pow10_pos(x as nat);
        }
        let mag: u128 = if u < 0 {
            (-u) as u128
        } else {
            u as u128
        };
        let rem = mag % p;
        let quo = mag / p;
        proof {
            let ui = u as int;
            let pi = p as int;
            vstd::arithmetic::div_mod::lemma_fundamental_div_mod(mag as int, pi);
            vstd::arithmetic::div_mod::lemma_mod_pos_bound(mag as int, pi);
            assert(mag as int == quo as int * pi + rem as int) by (nonlinear_arith)
                requires
                    mag as int == pi * (mag as int / pi) + (mag as int % pi),
                    quo as int == mag as int / pi,
                    rem as int == mag as int % pi,
            ;
            if u < 0 {
                assert(ui == -(mag as int));
                assert(ui == (-(quo as int)) * pi - rem as int) by (nonlinear_arith)
                    requires
                        ui == -(mag as int),
                        mag as int == quo as int * pi + rem as int,
                ;
                assert(ui == (-(quo as int) - 1) * pi + (pi - rem as int)) by (nonlinear_arith)
                    requires
                        ui == (-(quo as int)) * pi - rem as int,
                ;
                if rem == 0 {
                    vstd::arithmetic::div_mod::lemma_fundamental_div_mod_converse(
                        ui,
                        pi,
                        -(quo as int),
                        0,
                    );
                } else {
                    vstd::arithmetic::div_mod::lemma_fundamental_div_mod_converse(
                        ui,
                        pi,
                        -(quo as int) - 1,
                        pi - rem as int,
                    );
                }
            } else {
                vstd::arithmetic::div_mod::lemma_fundamental_div_mod_converse(
                    ui,
                    pi,
                    quo as int,
                    rem as int,
                );
            }
        }
        if rem == 0 {
            let k = quo as i128;
            if u < 0 {
                -k
            } else {
                k
            }
        } else {
            0
        }
    } else {
        let mut p: i128 = 1;
        let mut j: u32 = 0;
        while j < x
            invariant
                j <= x < 39,
                p == pow10(j as nat),
            decreases x - j,
        {
            proof {
                reveal_with_fuel(pow10, 40);
                lemma_pow10_mono((j + 1) as nat, 38);
            }
            p = p * 10;
            j = j + 1;
        }
        match u.checked_mul(p) {
            Some(v) => {
                if -UNITS_LIMIT < v && v < UNITS_LIMIT {
                    v
                } else {
                    0
                }
            },
            None => {
                proof {
                    assert(u as int * p as int >= UNITS_LIMIT || u as int * p as int
                        <= -UNITS_LIMIT);
                }
                0
            },
        }
    }
}

} // verus!
