use vstd::prelude::*;

verus! {

/// Number of fixed-point units in one whole currency unit (four fractional digits).
pub const UNITS_PER_WHOLE: i64 = 10000;

/// Most fractional digits an amount may carry.
pub const MAX_FRACTION_DIGITS: usize = 4;

pub open spec fn is_digit(b: u8) -> bool {
    48 <= b <= 57
}

pub open spec fn all_digits(s: Seq<u8>) -> bool {
    forall|i: int| 0 <= i < s.len() ==> is_digit(#[trigger] s[i])
}

/// Value of a sequence of decimal digits, most significant first.
pub open spec fn digits_value(s: Seq<u8>) -> int
    decreases s.len(),
{
    if s.len() == 0 {
        0
    } else {
        digits_value(s.drop_last()) * 10 + (s.last() - 48)
    }
}

pub open spec fn pow10(n: nat) -> int
    decreases n,
{
    if n == 0 {
        1
    } else {
        10 * pow10((n - 1) as nat)
    }
}

/// `s` is `digits '.' digits` with the point at index `p`, at most four
/// fractional digits, and at least one digit in all.
pub open spec fn point_at(s: Seq<u8>, p: int) -> bool {
    &&& 0 <= p < s.len()
    &&& s[p] == 46
    &&& all_digits(s.take(p))
    &&& all_digits(s.skip(p + 1))
    &&& s.len() - p - 1 <= MAX_FRACTION_DIGITS
    &&& s.len() > 1
}

/// Fixed-point value of an unsigned decimal: digits with an optional point
/// followed by at most four digits (`5`, `5.`, `.5`, `2.7183`).
pub open spec fn unsigned_units(s: Seq<u8>) -> Option<int> {
    if s.len() > 0 && all_digits(s) {
        Some(digits_value(s) * UNITS_PER_WHOLE)
    } else if exists|p: int| point_at(s, p) {
        let p = choose|p: int| point_at(s, p);
        let f = s.skip(p + 1);
        Some(digits_value(s.take(p)) * UNITS_PER_WHOLE + digits_value(f) * pow10((MAX_FRACTION_DIGITS - f.len()) as nat))
    } else {
        None
    }
}

/// Fixed-point value of a decimal amount with an optional leading minus sign.
pub open spec fn amount_units(s: Seq<u8>) -> Option<int> {
    if s.len() > 0 && s[0] == 45 {
        match unsigned_units(s.skip(1)) {
            Some(v) => Some(-v),
            None => None,
        }
    } else {
        unsigned_units(s)
    }
}

proof fn lemma_point_unique(s: Seq<u8>, p: int, q: int)
    requires
        point_at(s, p),
        point_at(s, q),
    ensures
        p == q,
{
    if q < p {
        assert(s.take(p)[q] == s[q]);
    } else if p < q {
        assert(s.take(q)[p] == s[p]);
    }
}

proof fn lemma_digits_nonneg(s: Seq<u8>)
    requires
        all_digits(s),
    ensures
        digits_value(s) >= 0,
    decreases s.len(),
{
    if s.len() > 0 {
        assert(all_digits(s.drop_last()) && is_digit(s[s.len() - 1]));
        lemma_digits_nonneg(s.drop_last());
    }
}

proof fn lemma_digits_prefix(s: Seq<u8>, k: int)
    requires
        all_digits(s),
        0 <= k <= s.len(),
    ensures
        digits_value(s.take(k)) <= digits_value(s),
    decreases s.len(),
{
    if k < s.len() {
        let t = s.drop_last();
        assert(all_digits(t) && is_digit(s[s.len() - 1]));
        lemma_digits_prefix(t, k);
        assert(t.take(k) =~= s.take(k));
        lemma_digits_nonneg(t);
    } else {
        assert(s.take(k) =~= s);
    }
}

proof fn lemma_pow10_bound(n: nat)
    requires
        n <= 4,
    ensures
        1 <= pow10(n) <= 10000,
        n == 4 ==> pow10(n) == 10000,
{
    reveal_with_fuel(pow10, 5);
}

/// Value of the digits `s[lo..hi]`, or `None` when it exceeds `limit`.
fn parse_digits(s: &[u8], lo: usize, hi: usize, limit: i64) -> (r: Option<i64>)
    requires
        lo <= hi <= s@.len(),
        9 <= limit,
        all_digits(s@.subrange(lo as int, hi as int)),
    ensures
        r == (if digits_value(s@.subrange(lo as int, hi as int)) <= limit {
            Some(digits_value(s@.subrange(lo as int, hi as int)) as i64)
        } else {
            None::<i64>
        }),
{
    let ghost t = s@.subrange(lo as int, hi as int);
    let mut v: i64 = 0;
    let mut i: usize = lo;
    proof {
        assert(s@.subrange(lo as int, lo as int) =~= Seq::<u8>::empty());
    }
    while i < hi
        invariant
            lo <= i <= hi <= s@.len(),
            9 <= limit,
            t == s@.subrange(lo as int, hi as int),
            all_digits(t),
            0 <= v <= limit,
            v == digits_value(s@.subrange(lo as int, i as int)),
        decreases hi - i,
    {
        proof {
            assert(t[i - lo] == s@[i as int]);
            assert(s@.subrange(lo as int, i + 1).drop_last() =~= s@.subrange(lo as int, i as int));
            assert(s@.subrange(lo as int, i + 1) =~= t.take(i + 1 - lo));
        }
        let d = (s[i] - 48) as i64;
        if v > (limit - d) / 10 {
            proof {
                assert(v * 10 + d > limit) by (nonlinear_arith)
                    requires
                        v > (limit - d) / 10,
                        limit - d >= 0,
                        0 <= d <= 9,
                ;
                lemma_digits_prefix(t, i + 1 - lo);
                assert(t.take(hi - lo) =~= t);
            }
            return None;
        }
        proof {
            assert(v * 10 + d <= limit) by (nonlinear_arith)
                requires
                    v <= (limit - d) / 10,
                    limit - d >= 0,
                    0 <= d <= 9,
            ;
        }
        v = v * 10 + d;
        i = i + 1;
    }
    Some(v)
}

proof fn lemma_digits_bound(s: Seq<u8>)
    requires
        all_digits(s),
    ensures
        0 <= digits_value(s) < pow10(s.len()),
    decreases s.len(),
{
    if s.len() > 0 {
        let t = s.drop_last();
        assert(all_digits(t) && is_digit(s[s.len() - 1]));
        lemma_digits_bound(t);
        assert(pow10(s.len()) == 10 * pow10(t.len()));
    }
}

/// Index of the first byte at or after `from` that is not a decimal digit
/// (`s.len()` if there is none).
fn first_non_digit(s: &[u8], from: usize) -> (j: usize)
    requires
        from <= s@.len(),
    ensures
        from <= j <= s@.len(),
        all_digits(s@.subrange(from as int, j as int)),
        j < s@.len() ==> !is_digit(s@[j as int]),
{
    let mut j: usize = from;
    while j < s.len() && 48 <= s[j] && s[j] <= 57
        invariant
            from <= j <= s@.len(),
            all_digits(s@.subrange(from as int, j as int)),
        decreases s@.len() - j,
    {
        j = j + 1;
    }
    j
}

/// Fixed-point value of the unsigned decimal `s[start..]`, `None` when it is
/// malformed or exceeds `i64::MAX`.
fn parse_unsigned(s: &[u8], start: usize) -> (r: Option<i64>)
    requires
        start <= s@.len(),
    ensures
        r == (match unsigned_units(s@.skip(start as int)) {
            Some(v) => if v <= i64::MAX { Some(v as i64) } else { None::<i64> },
            None => None::<i64>,
        }),
        r matches Some(v) ==> v >= 0,
{
    let ghost u = s@.skip(start as int);
    let n = s.len();
    let j = first_non_digit(s, start);
    proof {
        assert(s@.subrange(start as int, j as int) =~= u.take(j - start));
    }
    if j == n {
        proof {
            assert(u =~= u.take(j - start));
        }
        if j == start {
            proof {
                assert(forall|p: int| !point_at(u, p));
            }
            return None;
        }
        proof {
            lemma_digits_nonneg(u);
        }
        let iv = match parse_digits(s, start, n, i64::MAX / UNITS_PER_WHOLE) {
            Some(v) => v,
            None => {
                proof {
                    let dv = digits_value(u);
                    assert(dv * 10000 > i64::MAX) by (nonlinear_arith)
                        requires dv > i64::MAX / 10000;
                }
                return None;
            },
        };
        proof {
            assert(iv * 10000 <= i64::MAX) by (nonlinear_arith)
                requires iv <= i64::MAX / 10000;
        }
        return Some(iv * UNITS_PER_WHOLE);
    }
    proof {
        assert(u[j - start] == s@[j as int]);
        assert(!all_digits(u));
    }
    if s[j] != 46 {
        proof {
            assert forall|q: int| !point_at(u, q) by {
                if point_at(u, q) {
                    if q < j - start {
                        assert(u.take(j - start)[q] == u[q]);
                    } else if q > j - start {
                        assert(u.take(q)[j - start] == u[j - start]);
                    }
                }
            }
        }
        return None;
    }
    let k = first_non_digit(s, j + 1);
    proof {
        assert(s@.subrange(j + 1, k as int) =~= u.skip(j - start + 1).take(k - j - 1));
    }
    if k < n {
        proof {
            assert(u[k - start] == s@[k as int]);
            assert forall|q: int| !point_at(u, q) by {
                if point_at(u, q) {
                    if q < j - start {
                        assert(u.take(j - start)[q] == u[q]);
                    } else if q > j - start {
                        assert(u.take(q)[j - start] == u[j - start]);
                    } else {
                        assert(u.skip(q + 1)[k - j - 1] == u[k - start]);
                    }
                }
            }
        }
        return None;
    }
    proof {
        assert(u.skip(j - start + 1) =~= u.skip(j - start + 1).take(k - j - 1));
    }
    if n - j - 1 > MAX_FRACTION_DIGITS || n - start <= 1 {
        proof {
            assert forall|q: int| !point_at(u, q) by {
                if point_at(u, q) {
                    if q < j - start {
                        assert(u.take(j - start)[q] == u[q]);
                    } else if q > j - start {
                        assert(u.take(q)[j - start] == u[j - start]);
                    }
                }
            }
        }
        return None;
    }
    let ghost p = j - start;
    proof {
        assert(point_at(u, p));
        assert forall|q: int| point_at(u, q) implies q == p by {
            lemma_point_unique(u, p, q);
        }
    }
    let ghost f = u.skip(p + 1);
    let ghost w = u.take(p);
    let fv = match parse_digits(s, j + 1, n, 9999) {
        Some(v) => v,
        None => {
            proof {
                lemma_digits_bound(f);
                lemma_pow10_mono(f.len(), 4);
                lemma_pow10_bound(4);
            }
            return None;
        },
    };
    proof {
        lemma_digits_bound(f);
    }
    let mut m: i64 = fv;
    let mut i: usize = n - j - 1;
    while i < MAX_FRACTION_DIGITS
        invariant
            f.len() <= i <= MAX_FRACTION_DIGITS,
            0 <= fv < pow10(f.len()),
            m == fv * pow10((i - f.len()) as nat),
            0 <= m < pow10(i as nat),
        decreases MAX_FRACTION_DIGITS - i,
    {
        proof {
            lemma_pow10_bound((i + 1) as nat);
            assert(pow10((i + 1 - f.len()) as nat) == 10 * pow10((i - f.len()) as nat));
            assert(pow10((i + 1) as nat) == 10 * pow10(i as nat));
            assert(m * 10 == fv * pow10((i + 1 - f.len()) as nat)) by (nonlinear_arith)
                requires
                    m == fv * pow10((i - f.len()) as nat),
                    pow10((i + 1 - f.len()) as nat) == 10 * pow10((i - f.len()) as nat);
        }
        m = m * 10;
        i = i + 1;
    }
    proof {
        lemma_pow10_bound(4);
        lemma_digits_nonneg(w);
    }
    let iv = match parse_digits(s, start, j, i64::MAX / UNITS_PER_WHOLE) {
        Some(v) => v,
        None => {
            proof {
                let dv = digits_value(w);
                assert(dv * 10000 + m > i64::MAX) by (nonlinear_arith)
                    requires dv > i64::MAX / 10000, m >= 0;
            }
            return None;
        },
    };
    proof {
        assert(iv * 10000 <= i64::MAX - 5807) by (nonlinear_arith)
            requires iv <= i64::MAX / 10000;
    }
    (iv * UNITS_PER_WHOLE).checked_add(m)
}

proof fn lemma_pow10_mono(a: nat, b: nat)
    requires
        a <= b,
    ensures
        pow10(a) <= pow10(b),
    decreases b - a,
{
    if a < b {
        lemma_pow10_mono(a, (b - 1) as nat);
        lemma_pow10_pos((b - 1) as nat);
    }
}

proof fn lemma_pow10_pos(n: nat)
    ensures
        pow10(n) >= 1,
    decreases n,
{
    if n > 0 {
        lemma_pow10_pos((n - 1) as nat);
    }
}

proof fn lemma_unsigned_nonneg(s: Seq<u8>)
    ensures
        unsigned_units(s) matches Some(v) ==> v >= 0,
{
    if s.len() > 0 && all_digits(s) {
        lemma_digits_nonneg(s);
    } else if exists|p: int| point_at(s, p) {
        let p = choose|p: int| point_at(s, p);
        let f = s.skip(p + 1);
        lemma_digits_nonneg(s.take(p));
        lemma_digits_nonneg(f);
        lemma_pow10_pos((MAX_FRACTION_DIGITS - f.len()) as nat);
        let a = digits_value(s.take(p));
        let b = digits_value(f);
        let c = pow10((MAX_FRACTION_DIGITS - f.len()) as nat);
        assert(a * 10000 + b * c >= 0) by (nonlinear_arith)
            requires a >= 0, b >= 0, c >= 1;
    }
}

/// Fixed-point value of a decimal amount such as `5`, `-1.25` or `.5`, with at
/// most four fractional digits. `None` when the text is malformed or its value
/// does not fit.
pub fn parse_amount(s: &[u8]) -> (r: Option<i64>)
    ensures
        r == (match amount_units(s@) {
            Some(v) => if -i64::MAX <= v <= i64::MAX { Some(v as i64) } else { None::<i64> },
            None => None::<i64>,
        }),
{
    proof {
        lemma_unsigned_nonneg(s@);
        lemma_unsigned_nonneg(s@.skip(1));
    }
    if s.len() > 0 && s[0] == 45 {
        match parse_unsigned(s, 1) {
            Some(v) => Some(-v),
            None => None,
        }
    } else {
        proof {
            assert(s@.skip(0) =~= s@);
        }
        parse_unsigned(s, 0)
    }
}

/// Decimal digits of `n`, most significant first, without leading zeros.
pub open spec fn digits_text(n: nat) -> Seq<u8>
    decreases n,
{
    if n < 10 {
        seq![(48 + n) as u8]
    } else {
        digits_text(n / 10).push((48 + n % 10) as u8)
    }
}

/// `s` without its trailing `'0'` bytes.
pub open spec fn trim_zeros(s: Seq<u8>) -> Seq<u8>
    decreases s.len(),
{
    if s.len() > 0 && s.last() == 48 {
        trim_zeros(s.drop_last())
    } else {
        s
    }
}

/// The four fractional digits of a fixed-point remainder `f < 10000`.
pub open spec fn four_digits(f: nat) -> Seq<u8> {
    seq![(48 + f / 1000) as u8, (48 + f / 100 % 10) as u8, (48 + f / 10 % 10) as u8, (48 + f % 10) as u8]
}

/// Text of a fixed-point amount: an optional minus sign, the whole part, and
/// the fractional part without trailing zeros (no point when it is zero),
/// as in `8`, `2.5`, `-0.0001`.
pub open spec fn units_text(v: int) -> Seq<u8> {
    let m = if v < 0 { -v } else { v };
    let sign = if v < 0 { seq![45u8] } else { Seq::<u8>::empty() };
    let whole = digits_text((m / UNITS_PER_WHOLE as int) as nat);
    let f = m % UNITS_PER_WHOLE as int;
    if f == 0 {
        sign + whole
    } else {
        sign + whole + seq![46u8] + trim_zeros(four_digits(f as nat))
    }
}

fn push_digits(n: u64, out: &mut Vec<u8>)
    ensures
        final(out)@ == old(out)@ + digits_text(n as nat),
    decreases n,
{
    if n >= 10 {
        push_digits(n / 10, out);
    }
    out.push(48 + (n % 10) as u8);
    proof {
        if n >= 10 {
            assert(old(out)@ + digits_text(n as nat) =~= (old(out)@ + digits_text((n / 10) as nat)).push(
                (48 + n % 10) as u8,
            ));
        } else {
            assert(old(out)@ + digits_text(n as nat) =~= old(out)@.push((48 + n % 10) as u8));
        }
    }
}

/// Renders a fixed-point amount as decimal text (see `units_text`).
pub fn render_amount(v: i64) -> (r: Vec<u8>)
    ensures
        r@ == units_text(v as int),
{
    let m: u64 = if v < 0 { (-(v as i128)) as u64 } else { v as u64 };
    let mut out: Vec<u8> = Vec::new();
    if v < 0 {
        out.push(45);
    }
    let ghost sign = out@;
    push_digits(m / (UNITS_PER_WHOLE as u64), &mut out);
    let f = m % (UNITS_PER_WHOLE as u64);
    if f == 0 {
        return out;
    }
    let mut frac: Vec<u8> = Vec::new();
    frac.push(48 + (f / 1000) as u8);
    frac.push(48 + (f / 100 % 10) as u8);
    frac.push(48 + (f / 10 % 10) as u8);
    frac.push(48 + (f % 10) as u8);
    proof {
        assert(frac@ =~= four_digits(f as nat));
    }
    while frac.len() > 0 && frac[frac.len() - 1] == 48
        invariant
            trim_zeros(frac@) == trim_zeros(four_digits(f as nat)),
        decreases frac@.len(),
    {
        frac.pop();
    }
    let ghost before = out@;
    out.push(46);
    let mut i: usize = 0;
    while i < frac.len()
        invariant
            i <= frac@.len(),
            out@ == before.push(46) + frac@.take(i as int),
        decreases frac@.len() - i,
    {
        out.push(frac[i]);
        i = i + 1;
        proof {
            assert(before.push(46) + frac@.take(i as int) =~= (before.push(46) + frac@.take(i - 1)).push(frac@[i - 1]));
        }
    }
    proof {
        assert(frac@.take(frac@.len() as int) =~= frac@);
        assert(trim_zeros(frac@) == frac@);
        assert(before.push(46) =~= before + seq![46u8]);
    }
    out
}

} // verus!
