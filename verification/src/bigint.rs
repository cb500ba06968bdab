//! Arbitrary-precision signed integers, as the pipelines use them for token
//! amounts and balances: subtraction, sign tests, decimal text in both
//! directions, and construction from unsigned big-endian bytes.
//!
//! A value is kept as a sign and its decimal digits, least significant first,
//! without leading zeros; zero has no digits and no sign.
use vstd::prelude::*;
use crate::text::push_char;

verus! {

// ----------------------------------------------------------------------
// Digit sequences
// ----------------------------------------------------------------------

/// 10 to the power `n`.
pub open spec fn pow10(n: nat) -> nat
    decreases n,
{
    if n == 0 {
        1
    } else {
        10 * pow10((n - 1) as nat)
    }
}

/// The digit at position `j`, or 0 past the end.
pub open spec fn digit_at(d: Seq<u8>, j: int) -> nat {
    if 0 <= j < d.len() {
        d[j] as nat
    } else {
        0
    }
}

/// The value of the lowest `i` digits of `d` (least significant first).
pub open spec fn prefix_value(d: Seq<u8>, i: nat) -> nat
    decreases i,
{
    if i == 0 {
        0
    } else {
        prefix_value(d, (i - 1) as nat) + digit_at(d, i - 1) * pow10((i - 1) as nat)
    }
}

/// The value of a little-endian decimal digit sequence.
pub open spec fn digits_value(d: Seq<u8>) -> nat {
    prefix_value(d, d.len())
}

/// Every entry is a decimal digit.
pub open spec fn digits_ok(d: Seq<u8>) -> bool {
    forall|i: int| 0 <= i < d.len() ==> d[i] < 10
}

/// Decimal digits without a leading (most significant) zero.
pub open spec fn normalized(d: Seq<u8>) -> bool {
    digits_ok(d) && (d.len() > 0 ==> d[d.len() - 1] != 0)
}

proof fn lemma_pow10_pos(n: nat)
    ensures
        pow10(n) >= 1,
    decreases n,
{
    if n > 0 {
        lemma_pow10_pos((n - 1) as nat);
    }
}

proof fn lemma_prefix_agree(a: Seq<u8>, b: Seq<u8>, i: nat)
    requires
        forall|j: int| 0 <= j < i ==> digit_at(a, j) == digit_at(b, j),
    ensures
        prefix_value(a, i) == prefix_value(b, i),
    decreases i,
{
    if i > 0 {
        lemma_prefix_agree(a, b, (i - 1) as nat);
    }
}

proof fn lemma_prefix_beyond(d: Seq<u8>, i: nat)
    requires
        i >= d.len(),
    ensures
        prefix_value(d, i) == digits_value(d),
    decreases i,
{
    if i > d.len() {
        lemma_prefix_beyond(d, (i - 1) as nat);
        assert(digit_at(d, i - 1) == 0);
        assert(digit_at(d, i - 1) * pow10((i - 1) as nat) == 0);
    }
}

proof fn lemma_prefix_bound(d: Seq<u8>, i: nat)
    requires
        digits_ok(d),
    ensures
        prefix_value(d, i) < pow10(i),
    decreases i,
{
    if i > 0 {
        let k = (i - 1) as nat;
        lemma_prefix_bound(d, k);
        let p = pow10(k);
        let x = digit_at(d, k as int);
        assert(x <= 9);
        assert(x * p <= 9 * p) by (nonlinear_arith)
            requires
                x <= 9,
        ;
    }
}

proof fn lemma_value_push(d: Seq<u8>, x: u8)
    ensures
        digits_value(d.push(x)) == digits_value(d) + x * pow10(d.len()),
{
    let e = d.push(x);
    assert(forall|j: int| 0 <= j < d.len() ==> digit_at(e, j) == digit_at(d, j));
    lemma_prefix_agree(e, d, d.len());
}

proof fn lemma_value_drop_zero(d: Seq<u8>)
    requires
        d.len() > 0,
        d[d.len() - 1] == 0,
    ensures
        digits_value(d.drop_last()) == digits_value(d),
{
    lemma_value_push(d.drop_last(), 0);
    assert(d.drop_last().push(0) =~= d);
}

proof fn lemma_value_cons(x: u8, d: Seq<u8>)
    ensures
        digits_value(seq![x] + d) == x + 10 * digits_value(d),
    decreases d.len(),
{
    if d.len() == 0 {
        assert(seq![x] + d =~= seq![x]);
        assert(digits_value(seq![x]) == prefix_value(seq![x], 1));
        assert(prefix_value(seq![x], 0) == 0);
        assert(pow10(0) == 1);
        assert(digit_at(seq![x], 0) == x);
        let p0 = pow10(0);
        let x0 = digit_at(seq![x], 0);
        assert(x0 * p0 == x0) by (nonlinear_arith)
            requires
                p0 == 1,
        ;
        assert(digits_value(d) == 0);
    } else {
        let e = d.drop_last();
        let y = d[d.len() - 1];
        lemma_value_cons(x, e);
        lemma_value_push(e, y);
        assert(e.push(y) =~= d);
        assert((seq![x] + e).push(y) =~= seq![x] + d);
        lemma_value_push(seq![x] + e, y);
        let p = pow10(e.len());
        assert((seq![x] + e).len() == e.len() + 1);
        assert(pow10(e.len() + 1) == 10 * p);
        let ve = digits_value(e);
        assert(x + 10 * ve + y * (10 * p) == x + 10 * (ve + y * p)) by (nonlinear_arith);
    }
}

proof fn lemma_normalized_positive(d: Seq<u8>)
    requires
        normalized(d),
        d.len() > 0,
    ensures
        digits_value(d) >= pow10((d.len() - 1) as nat),
        digits_value(d) >= 1,
{
    let k = (d.len() - 1) as nat;
    lemma_pow10_pos(k);
    let p = pow10(k);
    let x = digit_at(d, k as int);
    assert(x >= 1);
    assert(x * p >= p) by (nonlinear_arith)
        requires
            x >= 1,
            p >= 1,
    ;
}

proof fn lemma_add_step(pr: int, pa: int, pb: int, c: int, da: int, db: int, p: int, nd: int, nc: int)
    by (nonlinear_arith)
    requires
        pr + c * p == pa + pb,
        da + db + c == nd + 10 * nc,
    ensures
        pr + nd * p + nc * (10 * p) == (pa + da * p) + (pb + db * p),
{
}

proof fn lemma_sub_step(pr: int, pa: int, pb: int, w: int, da: int, db: int, p: int, nd: int, nw: int)
    by (nonlinear_arith)
    requires
        pr == pa - pb + w * p,
        nd - 10 * nw == da - db - w,
    ensures
        pr + nd * p == (pa + da * p) - (pb + db * p) + nw * (10 * p),
{
}

proof fn lemma_mul_step(pr: int, pd: int, m: int, a: int, c: int, x: int, p: int, nd: int, nc: int)
    by (nonlinear_arith)
    requires
        pr + c * p == pd * m + a,
        x * m + c == nd + 10 * nc,
    ensures
        pr + nd * p + nc * (10 * p) == (pd + x * p) * m + a,
{
}


proof fn lemma_split_step(pj: int, p: int, x: int, v: int)
    by (nonlinear_arith)
    ensures
        pj + p * (x + 10 * v) == (pj + x * p) + (10 * p) * v,
{
}

proof fn lemma_value_split(d: Seq<u8>, j: nat)
    requires
        j <= d.len(),
    ensures
        digits_value(d) == prefix_value(d, j) + pow10(j) * digits_value(d.skip(j as int)),
    decreases j,
{
    if j == 0 {
        assert(d.skip(0) =~= d);
        let v = digits_value(d);
        let p0 = pow10(0);
        assert(p0 * v == v) by (nonlinear_arith)
            requires
                p0 == 1,
        ;
    } else {
        let k = (j - 1) as nat;
        lemma_value_split(d, k);
        let x = d[k as int];
        assert(d.skip(k as int) =~= seq![x] + d.skip(j as int));
        lemma_value_cons(x, d.skip(j as int));
        assert(digit_at(d, k as int) == x);
        assert(pow10(j) == 10 * pow10(k));
        lemma_split_step(
            prefix_value(d, k) as int,
            pow10(k) as int,
            x as int,
            digits_value(d.skip(j as int)) as int,
        );
    }
}

proof fn lemma_skip_le(d: Seq<u8>, j: nat)
    requires
        j <= d.len(),
    ensures
        digits_value(d.skip(j as int)) <= digits_value(d),
{
    lemma_value_split(d, j);
    lemma_pow10_pos(j);
    let p = pow10(j);
    let v = digits_value(d.skip(j as int));
    assert(p * v >= v) by (nonlinear_arith)
        requires
            p >= 1,
            v >= 0,
    ;
}

/// Removes leading (most significant) zero digits.
fn trim(d: &mut Vec<u8>)
    requires
        digits_ok(old(d)@),
    ensures
        normalized(final(d)@),
        digits_value(final(d)@) == digits_value(old(d)@),
{
    while d.len() > 0 && d[d.len() - 1] == 0
        invariant
            digits_ok(d@),
            digits_value(d@) == digits_value(old(d)@),
        decreases d.len(),
    {
        proof {
            lemma_value_drop_zero(d@);
        }
        d.pop();
    }
}

/// The digits of the sum of two digit sequences.
fn add_digits(a: &Vec<u8>, b: &Vec<u8>) -> (r: Vec<u8>)
    requires
        digits_ok(a@),
        digits_ok(b@),
    ensures
        digits_ok(r@),
        digits_value(r@) == digits_value(a@) + digits_value(b@),
{
    let n: usize = if a.len() >= b.len() { a.len() } else { b.len() };
    let mut r: Vec<u8> = Vec::new();
    let mut carry: u8 = 0;
    let mut i: usize = 0;
    while i < n
        invariant
            n >= a.len(),
            n >= b.len(),
            i <= n,
            r.len() == i,
            carry <= 1,
            digits_ok(a@),
            digits_ok(b@),
            digits_ok(r@),
            digits_value(r@) + carry * pow10(i as nat) == prefix_value(a@, i as nat)
                + prefix_value(b@, i as nat),
        decreases n - i,
    {
        let da: u8 = if i < a.len() { a[i] } else { 0 };
        let db: u8 = if i < b.len() { b[i] } else { 0 };
        let s: u8 = da + db + carry;
        let nd: u8 = s % 10;
        let nc: u8 = s / 10;
        proof {
            lemma_value_push(r@, nd);
            assert(digit_at(a@, i as int) == da);
            assert(digit_at(b@, i as int) == db);
            assert(pow10((i + 1) as nat) == 10 * pow10(i as nat));
            lemma_add_step(
                digits_value(r@) as int,
                prefix_value(a@, i as nat) as int,
                prefix_value(b@, i as nat) as int,
                carry as int,
                da as int,
                db as int,
                pow10(i as nat) as int,
                nd as int,
                nc as int,
            );
        }
        r.push(nd);
        carry = nc;
        i = i + 1;
    }
    if carry > 0 {
        proof {
            lemma_value_push(r@, carry);
        }
        r.push(carry);
    } else {
        assert(carry * pow10(n as nat) == 0);
    }
    proof {
        lemma_prefix_beyond(a@, n as nat);
        lemma_prefix_beyond(b@, n as nat);
    }
    r
}

/// The digits of `a - b` when `a >= b`; the flag says whether `a < b`.
fn sub_digits(a: &Vec<u8>, b: &Vec<u8>) -> (res: (Vec<u8>, bool))
    requires
        digits_ok(a@),
        digits_ok(b@),
    ensures
        digits_ok(res.0@),
        res.1 == (digits_value(a@) < digits_value(b@)),
        !res.1 ==> digits_value(res.0@) == digits_value(a@) - digits_value(b@),
{
    let n: usize = if a.len() >= b.len() { a.len() } else { b.len() };
    let mut r: Vec<u8> = Vec::new();
    let mut borrow: u8 = 0;
    let mut i: usize = 0;
    while i < n
        invariant
            n >= a.len(),
            n >= b.len(),
            i <= n,
            r.len() == i,
            borrow <= 1,
            digits_ok(a@),
            digits_ok(b@),
            digits_ok(r@),
            digits_value(r@) as int == prefix_value(a@, i as nat) as int - prefix_value(
                b@,
                i as nat,
            ) as int + borrow * pow10(i as nat),
        decreases n - i,
    {
        let da: u8 = if i < a.len() { a[i] } else { 0 };
        let db: u8 = if i < b.len() { b[i] } else { 0 };
        let nd: u8;
        let nw: u8;
        if da >= db + borrow {
            nd = da - db - borrow;
            nw = 0;
        } else {
            nd = da + 10 - db - borrow;
            nw = 1;
        }
        proof {
            lemma_value_push(r@, nd);
            assert(digit_at(a@, i as int) == da);
            assert(digit_at(b@, i as int) == db);
            assert(pow10((i + 1) as nat) == 10 * pow10(i as nat));
            lemma_sub_step(
                digits_value(r@) as int,
                prefix_value(a@, i as nat) as int,
                prefix_value(b@, i as nat) as int,
                borrow as int,
                da as int,
                db as int,
                pow10(i as nat) as int,
                nd as int,
                nw as int,
            );
        }
        r.push(nd);
        borrow = nw;
        i = i + 1;
    }
    proof {
        lemma_prefix_beyond(a@, n as nat);
        lemma_prefix_beyond(b@, n as nat);
        lemma_prefix_bound(r@, n as nat);
    }
    (r, borrow == 1)
}

/// The digits of `d * m + a` for small `m` and `a`.
fn mul_small_add(d: &Vec<u8>, m: u32, a: u32) -> (r: Vec<u8>)
    requires
        digits_ok(d@),
        m <= 256,
        a <= 256,
    ensures
        digits_ok(r@),
        digits_value(r@) == digits_value(d@) * m + a,
{
    let mut r: Vec<u8> = Vec::new();
    let mut carry: u32 = a;
    let mut i: usize = 0;
    proof {
        assert(pow10(0) == 1);
        assert(carry * pow10(0) == a);
        let v0 = prefix_value(d@, 0);
        assert(v0 == 0);
        assert(v0 * m == 0) by (nonlinear_arith)
            requires
                v0 == 0,
        ;
        assert(digits_value(r@) == 0);
    }
    while i < d.len()
        invariant
            i <= d.len(),
            r.len() == i,
            m <= 256,
            carry <= 256,
            digits_ok(d@),
            digits_ok(r@),
            digits_value(r@) + carry * pow10(i as nat) == prefix_value(d@, i as nat) * m + a,
        decreases d.len() - i,
    {
        let x: u32 = d[i] as u32;
        proof {
            assert(x * m <= 9 * 256) by (nonlinear_arith)
                requires
                    x <= 9,
                    m <= 256,
            ;
        }
        let s: u32 = x * m + carry;
        let nd: u8 = (s % 10) as u8;
        let nc: u32 = s / 10;
        proof {
            lemma_value_push(r@, nd);
            assert(digit_at(d@, i as int) == x);
            assert(pow10((i + 1) as nat) == 10 * pow10(i as nat));
            assert(x * m <= 9 * 256) by (nonlinear_arith)
                requires
                    x <= 9,
                    m <= 256,
            ;
            lemma_mul_step(
                digits_value(r@) as int,
                prefix_value(d@, i as nat) as int,
                m as int,
                a as int,
                carry as int,
                x as int,
                pow10(i as nat) as int,
                nd as int,
                nc as int,
            );
        }
        r.push(nd);
        carry = nc;
        i = i + 1;
    }
    proof {
        lemma_prefix_beyond(d@, d.len() as nat);
    }
    while carry > 0
        invariant
            digits_ok(r@),
            digits_value(r@) + carry * pow10(r.len() as nat) == digits_value(d@) * m + a,
        decreases carry,
    {
        let nd: u8 = (carry % 10) as u8;
        let nc: u32 = carry / 10;
        proof {
            lemma_value_push(r@, nd);
            assert(pow10((r.len() + 1) as nat) == 10 * pow10(r.len() as nat));
            lemma_add_step(
                digits_value(r@) as int,
                0,
                digits_value(d@) * m + a,
                carry as int,
                0,
                0,
                pow10(r.len() as nat) as int,
                nd as int,
                nc as int,
            );
        }
        r.push(nd);
        carry = nc;
    }
    r
}

// ----------------------------------------------------------------------
// Decimal text
// ----------------------------------------------------------------------

/// The character of a decimal digit.
pub open spec fn digit_char(d: nat) -> char {
    if d == 0 {
        '0'
    } else if d == 1 {
        '1'
    } else if d == 2 {
        '2'
    } else if d == 3 {
        '3'
    } else if d == 4 {
        '4'
    } else if d == 5 {
        '5'
    } else if d == 6 {
        '6'
    } else if d == 7 {
        '7'
    } else if d == 8 {
        '8'
    } else {
        '9'
    }
}

/// Decimal text of a natural number, without leading zeros.
pub open spec fn nat_to_decimal(n: nat) -> Seq<char>
    decreases n,
{
    if n < 10 {
        seq![digit_char(n)]
    } else {
        nat_to_decimal(n / 10).push(digit_char(n % 10))
    }
}

/// Decimal text of an integer: a minus sign for negative values, then the
/// digits of its magnitude.
pub open spec fn int_to_decimal(x: int) -> Seq<char> {
    if x < 0 {
        seq!['-'] + nat_to_decimal((-x) as nat)
    } else {
        nat_to_decimal(x as nat)
    }
}

/// The characters of a digit sequence, most significant first.
spec fn digits_text(d: Seq<u8>) -> Seq<char> {
    Seq::new(d.len(), |i: int| digit_char(d[d.len() - 1 - i] as nat))
}

proof fn lemma_digits_text(d: Seq<u8>)
    requires
        normalized(d),
        d.len() > 0,
    ensures
        nat_to_decimal(digits_value(d)) == digits_text(d),
    decreases d.len(),
{
    let x = d[0];
    let rest = d.drop_first();
    assert(seq![x] + rest =~= d);
    lemma_value_cons(x, rest);
    if d.len() == 1 {
        assert(rest.len() == 0);
        assert(digits_value(rest) == 0);
        assert(digits_text(d) =~= seq![digit_char(x as nat)]);
    } else {
        assert(rest[rest.len() - 1] == d[d.len() - 1]);
        lemma_digits_text(rest);
        lemma_normalized_positive(rest);
        let v = digits_value(d);
        assert(v / 10 == digits_value(rest));
        assert(v % 10 == x);
        assert(digits_text(d) =~= digits_text(rest).push(digit_char(x as nat)));
    }
}

/// Character of a decimal digit.
pub fn digit_to_char(x: u8) -> (c: char)
    requires
        x < 10,
    ensures
        c == digit_char(x as nat),
{
    if x == 0 {
        '0'
    } else if x == 1 {
        '1'
    } else if x == 2 {
        '2'
    } else if x == 3 {
        '3'
    } else if x == 4 {
        '4'
    } else if x == 5 {
        '5'
    } else if x == 6 {
        '6'
    } else if x == 7 {
        '7'
    } else if x == 8 {
        '8'
    } else {
        '9'
    }
}

// ----------------------------------------------------------------------
// Text accepted as an integer
// ----------------------------------------------------------------------

/// A decimal digit character.
pub open spec fn is_digit(c: char) -> bool {
    '0' <= c <= '9'
}

/// Digits and underscores, starting with a digit.
pub open spec fn body_ok(s: Seq<char>) -> bool {
    s.len() > 0 && is_digit(s[0]) && forall|i: int|
        0 <= i < s.len() ==> is_digit(#[trigger] s[i]) || s[i] == '_'
}

/// The text is an integer: an optional `-` or `+`, a digit, then digits and
/// underscores (underscores are separators and carry no value).
pub open spec fn spec_parses(s: Seq<char>) -> bool {
    if s.len() > 0 && (s[0] == '-' || s[0] == '+') {
        body_ok(s.drop_first())
    } else {
        body_ok(s)
    }
}

/// The number written by digits and underscores.
pub open spec fn body_value(s: Seq<char>) -> nat
    decreases s.len(),
{
    if s.len() == 0 {
        0
    } else if s[s.len() - 1] == '_' {
        body_value(s.drop_last())
    } else {
        body_value(s.drop_last()) * 10 + ((s[s.len() - 1] as int - 48) as nat)
    }
}

/// The integer written by a text that `spec_parses` accepts.
pub open spec fn spec_parse_value(s: Seq<char>) -> int {
    if s.len() > 0 && s[0] == '-' {
        -(body_value(s.drop_first()) as int)
    } else if s.len() > 0 && s[0] == '+' {
        body_value(s.drop_first()) as int
    } else {
        body_value(s) as int
    }
}

proof fn lemma_digit_char(k: nat)
    requires
        k < 10,
    ensures
        digit_char(k) as int - 48 == k,
        is_digit(digit_char(k)),
        digit_char(k) != '_',
{
}

/// The decimal text of a natural number is made of digits, the first a
/// digit.
pub proof fn lemma_nat_to_decimal_body(n: nat)
    ensures
        body_ok(nat_to_decimal(n)),
        body_value(nat_to_decimal(n)) == n,
    decreases n,
{
    lemma_digit_char(n % 10);
    if n >= 10 {
        lemma_nat_to_decimal_body(n / 10);
        let p = nat_to_decimal(n / 10);
        let s = p.push(digit_char(n % 10));
        assert(s.drop_last() =~= p);
        assert(s[0] == p[0]);
        assert forall|i: int| 0 <= i < s.len() implies is_digit(#[trigger] s[i]) || s[i] == '_' by {
            if i < p.len() {
                assert(s[i] == p[i]);
            }
        }
        assert(s == nat_to_decimal(n));
        assert(s[s.len() - 1] == digit_char(n % 10));
        assert(body_value(s) == body_value(p) * 10 + (n % 10));
    } else {
        let s = nat_to_decimal(n);
        assert(s =~= seq![digit_char(n)]);
        assert(s.drop_last() =~= Seq::<char>::empty());
        assert(body_value(s.drop_last()) == 0);
        assert(body_value(s) == body_value(s.drop_last()) * 10 + n);
    }
}

/// Law: distinct natural numbers have distinct decimal texts.
pub proof fn lemma_nat_to_decimal_injective(m: nat, n: nat)
    requires
        nat_to_decimal(m) == nat_to_decimal(n),
    ensures
        m == n,
{
    lemma_nat_to_decimal_body(m);
    lemma_nat_to_decimal_body(n);
}

/// Law: the decimal text of every integer is accepted back as that integer.
pub proof fn lemma_decimal_round_trip(x: int)
    ensures
        spec_parses(int_to_decimal(x)),
        spec_parse_value(int_to_decimal(x)) == x,
{
    if x < 0 {
        let n = (-x) as nat;
        lemma_nat_to_decimal_body(n);
        let s = seq!['-'] + nat_to_decimal(n);
        assert(s.drop_first() =~= nat_to_decimal(n));
    } else {
        lemma_nat_to_decimal_body(x as nat);
    }
}

// ----------------------------------------------------------------------
// Unsigned big-endian bytes
// ----------------------------------------------------------------------

/// The number whose unsigned big-endian bytes are `b`.
pub open spec fn be_bytes_value(b: Seq<u8>) -> nat
    decreases b.len(),
{
    if b.len() == 0 {
        0
    } else {
        be_bytes_value(b.drop_last()) * 256 + (b[b.len() - 1] as nat)
    }
}

// ----------------------------------------------------------------------
// The integer type
// ----------------------------------------------------------------------

/// An arbitrary-precision signed integer.
pub struct BigInteger {
    negative: bool,
    digits: Vec<u8>,
}

impl View for BigInteger {
    type V = int;

    closed spec fn view(&self) -> int {
        if self.negative {
            -(digits_value(self.digits@) as int)
        } else {
            digits_value(self.digits@) as int
        }
    }
}

impl BigInteger {
    #[verifier::type_invariant]
    closed spec fn inv(self) -> bool {
        &&& normalized(self.digits@)
        &&& self.digits@.len() == 0 ==> !self.negative
    }

    /// The integer with magnitude given by `digits`, negated when `negative`.
    fn from_digits(negative: bool, digits: Vec<u8>) -> (r: Self)
        requires
            digits_ok(digits@),
        ensures
            r@ == (if negative {
                -(digits_value(digits@) as int)
            } else {
                digits_value(digits@) as int
            }),
    {
        let mut d = digits;
        trim(&mut d);
        let neg = negative && d.len() > 0;
        BigInteger { negative: neg, digits: d }
    }

    /// Zero.
    pub fn zero() -> (r: Self)
        ensures
            r@ == 0,
    {
        BigInteger { negative: false, digits: Vec::new() }
    }

    /// One.
    pub fn one() -> (r: Self)
        ensures
            r@ == 1,
    {
        let mut d: Vec<u8> = Vec::new();
        d.push(1);
        proof {
            lemma_value_push(Seq::<u8>::empty(), 1);
            assert(Seq::<u8>::empty().push(1) =~= d@);
        }
        BigInteger { negative: false, digits: d }
    }

    /// The integer `n`.
    pub fn from_u64(n: u64) -> (r: Self)
        ensures
            r@ == n as int,
    {
        let mut d: Vec<u8> = Vec::new();
        let mut m: u64 = n;
        proof {
            assert(pow10(0) == 1);
            assert(m * pow10(0) == n);
            assert(digits_value(d@) == 0);
        }
        while m > 0
            invariant
                digits_ok(d@),
                digits_value(d@) + m * pow10(d.len() as nat) == n,
                m == 0 ==> normalized(d@),
            decreases m,
        {
            let nd: u8 = (m % 10) as u8;
            let nm: u64 = m / 10;
            proof {
                lemma_value_push(d@, nd);
                assert(pow10((d.len() + 1) as nat) == 10 * pow10(d.len() as nat));
                lemma_add_step(
                    digits_value(d@) as int,
                    0,
                    n as int,
                    m as int,
                    0,
                    0,
                    pow10(d.len() as nat) as int,
                    nd as int,
                    nm as int,
                );
            }
            d.push(nd);
            m = nm;
        }
        BigInteger { negative: false, digits: d }
    }

    /// The integer whose unsigned big-endian bytes are `bytes`.
    pub fn from_unsigned_bytes_be(bytes: &[u8]) -> (r: Self)
        ensures
            r@ == be_bytes_value(bytes@) as int,
    {
        let mut d: Vec<u8> = Vec::new();
        let mut i: usize = 0;
        while i < bytes.len()
            invariant
                i <= bytes.len(),
                digits_ok(d@),
                digits_value(d@) == be_bytes_value(bytes@.take(i as int)),
            decreases bytes.len() - i,
        {
            let b: u8 = bytes[i];
            d = mul_small_add(&d, 256, b as u32);
            proof {
                assert(bytes@.take((i + 1) as int).drop_last() =~= bytes@.take(i as int));
            }
            i = i + 1;
        }
        proof {
            assert(bytes@.take(bytes.len() as int) =~= bytes@);
        }
        Self::from_digits(false, d)
    }

    /// A second value equal to this one.
    pub fn duplicate(&self) -> (r: Self)
        ensures
            r@ == self@,
    {
        proof {
            use_type_invariant(self);
        }
        let mut d: Vec<u8> = Vec::new();
        let mut i: usize = 0;
        while i < self.digits.len()
            invariant
                i <= self.digits.len(),
                d@ =~= self.digits@.take(i as int),
            decreases self.digits.len() - i,
        {
            d.push(self.digits[i]);
            i = i + 1;
        }
        proof {
            assert(d@ =~= self.digits@);
        }
        BigInteger { negative: self.negative, digits: d }
    }


    /// The value as a `u64`; the value must lie in `0..=u64::MAX`.
    pub fn to_u64(&self) -> (r: u64)
        requires
            0 <= self@ <= u64::MAX,
        ensures
            r == self@,
    {
        proof {
            use_type_invariant(self);
        }
        let n = self.digits.len();
        let mut acc: u64 = 0;
        let mut j: usize = n;
        proof {
            assert(self.digits@.skip(n as int) =~= Seq::<u8>::empty());
            if n > 0 {
                lemma_normalized_positive(self.digits@);
            }
            assert(digits_value(self.digits@) <= u64::MAX);
        }
        while j > 0
            invariant
                j <= n,
                n == self.digits.len(),
                digits_ok(self.digits@),
                digits_value(self.digits@) <= u64::MAX,
                acc == digits_value(self.digits@.skip(j as int)),
            decreases j,
        {
            let x = self.digits[j - 1];
            proof {
                assert(self.digits@.skip(j - 1) =~= seq![x] + self.digits@.skip(j as int));
                lemma_value_cons(x, self.digits@.skip(j as int));
                lemma_skip_le(self.digits@, (j - 1) as nat);
            }
            acc = x as u64 + 10 * acc;
            j = j - 1;
        }
        proof {
            assert(self.digits@.skip(0) =~= self.digits@);
        }
        acc
    }

    /// The value as a `u64` when it lies in `0..=u64::MAX`, else nothing.
    pub fn to_u64_checked(&self) -> (r: Option<u64>)
        ensures
            r is Some <==> 0 <= self@ <= u64::MAX,
            r matches Some(v) ==> v == self@,
    {
        proof {
            use_type_invariant(self);
        }
        if self.negative {
            proof {
                lemma_normalized_positive(self.digits@);
            }
            return None;
        }
        let n = self.digits.len();
        let mut acc: u64 = 0;
        let mut j: usize = n;
        proof {
            assert(self.digits@.skip(n as int) =~= Seq::<u8>::empty());
        }
        while j > 0
            invariant
                j <= n,
                n == self.digits.len(),
                !self.negative,
                digits_ok(self.digits@),
                acc == digits_value(self.digits@.skip(j as int)),
            decreases j,
        {
            let x = self.digits[j - 1];
            proof {
                assert(self.digits@.skip(j - 1) =~= seq![x] + self.digits@.skip(j as int));
                lemma_value_cons(x, self.digits@.skip(j as int));
                lemma_skip_le(self.digits@, (j - 1) as nat);
            }
            let tens = match acc.checked_mul(10) {
                Some(t) => t,
                None => {
                    return None;
                },
            };
            acc = match tens.checked_add(x as u64) {
                Some(t) => t,
                None => {
                    return None;
                },
            };
            j = j - 1;
        }
        proof {
            assert(self.digits@.skip(0) =~= self.digits@);
        }
        Some(acc)
    }

    /// Whether the value is below zero.
    pub fn is_negative(&self) -> (r: bool)
        ensures
            r == (self@ < 0),
    {
        proof {
            use_type_invariant(self);
            if self.digits@.len() > 0 {
                lemma_normalized_positive(self.digits@);
            }
        }
        self.negative
    }

    /// Whether the value is zero.
    pub fn is_zero(&self) -> (r: bool)
        ensures
            r == (self@ == 0),
    {
        proof {
            use_type_invariant(self);
            if self.digits@.len() > 0 {
                lemma_normalized_positive(self.digits@);
            }
        }
        self.digits.len() == 0
    }

    /// Whether the value is above zero.
    pub fn is_positive(&self) -> (r: bool)
        ensures
            r == (self@ > 0),
    {
        proof {
            use_type_invariant(self);
            if self.digits@.len() > 0 {
                lemma_normalized_positive(self.digits@);
            }
        }
        !self.negative && self.digits.len() > 0
    }

    /// `a - b` for two magnitudes.
    fn magnitude_difference(a: &Vec<u8>, b: &Vec<u8>) -> (r: Self)
        requires
            digits_ok(a@),
            digits_ok(b@),
        ensures
            r@ == digits_value(a@) as int - digits_value(b@) as int,
    {
        let (d, below) = sub_digits(a, b);
        if !below {
            Self::from_digits(false, d)
        } else {
            let (e, below2) = sub_digits(b, a);
            Self::from_digits(true, e)
        }
    }

    /// `self - other`.
    pub fn sub(&self, other: &Self) -> (r: Self)
        ensures
            r@ == self@ - other@,
    {
        proof {
            use_type_invariant(self);
            use_type_invariant(other);
        }
        if !self.negative && !other.negative {
            Self::magnitude_difference(&self.digits, &other.digits)
        } else if !self.negative && other.negative {
            Self::from_digits(false, add_digits(&self.digits, &other.digits))
        } else if self.negative && !other.negative {
            Self::from_digits(true, add_digits(&self.digits, &other.digits))
        } else {
            Self::magnitude_difference(&other.digits, &self.digits)
        }
    }

    /// Decimal text: `-` for negative values, then the digits, `0` for zero.
    pub fn to_decimal_string(&self) -> (r: String)
        ensures
            r@ == int_to_decimal(self@),
    {
        proof {
            use_type_invariant(self);
        }
        let mut s = String::new();
        if self.digits.len() == 0 {
            push_char(&mut s, '0');
            proof {
                assert(s@ =~= seq!['0']);
                assert(digit_char(0) == '0');
            }
            return s;
        }
        if self.negative {
            push_char(&mut s, '-');
        }
        let ghost prefix = s@;
        let n = self.digits.len();
        let mut i: usize = n;
        while i > 0
            invariant
                i <= n,
                n == self.digits.len(),
                digits_ok(self.digits@),
                s@ =~= prefix + digits_text(self.digits@).take((n - i) as int),
            decreases i,
        {
            i = i - 1;
            let c = digit_to_char(self.digits[i]);
            push_char(&mut s, c);
            proof {
                assert(digits_text(self.digits@).take((n - i) as int) =~= digits_text(
                    self.digits@,
                ).take((n - i - 1) as int).push(c));
            }
        }
        proof {
            lemma_digits_text(self.digits@);
            lemma_normalized_positive(self.digits@);
            assert(digits_text(self.digits@).take(n as int) =~= digits_text(self.digits@));
            if self.negative {
                assert(prefix =~= seq!['-']);
            } else {
                assert(prefix =~= Seq::<char>::empty());
            }
        }
        s
    }

    /// The integer written by `s`, when `s` is an integer text (see
    /// `spec_parses`); `None` otherwise.
    pub fn parse(s: &str) -> (r: Option<Self>)
        ensures
            r is Some <==> spec_parses(s@),
            r matches Some(x) ==> x@ == spec_parse_value(s@),
    {
        let len = s.unicode_len();
        if len == 0 {
            return None;
        }
        let first = s.get_char(0);
        let start: usize = if first == '-' || first == '+' { 1 } else { 0 };
        let negative = first == '-';
        let ghost body = s@.subrange(start as int, len as int);
        proof {
            if start == 1 {
                assert(body =~= s@.drop_first());
            } else {
                assert(body =~= s@);
            }
        }
        if start >= len {
            return None;
        }
        let b0 = s.get_char(start);
        if !('0' <= b0 && b0 <= '9') {
            return None;
        }
        let mut d: Vec<u8> = Vec::new();
        let mut i: usize = start;
        proof {
            assert(body[0] == b0);
            assert(body.take(0) =~= Seq::<char>::empty());
        }
        while i < len
            invariant
                start <= i <= len,
                start < len,
                len == s@.len(),
                body == s@.subrange(start as int, len as int),
                is_digit(body[0]),
                spec_parses(s@) == body_ok(body),
                spec_parse_value(s@) == (if negative {
                    -(body_value(body) as int)
                } else {
                    body_value(body) as int
                }),
                digits_ok(d@),
                digits_value(d@) == body_value(body.take(i - start)),
                forall|j: int| 0 <= j < i - start ==> is_digit(#[trigger] body[j]) || body[j] == '_',
            decreases len - i,
        {
            let c = s.get_char(i);
            let ghost pre = body.take(i - start);
            proof {
                assert(body[i - start] == c);
                assert(body.take(i - start + 1).drop_last() =~= pre);
            }
            if c == '_' {
            } else if '0' <= c && c <= '9' {
                let x: u8 = ((c as u32) - 48) as u8;
                let ghost dv = d@;
                proof {
                    lemma_value_cons(x, dv);
                }
                d.insert(0, x);
                proof {
                    assert(d@ =~= seq![x] + dv);
                }
            } else {
                proof {
                    assert(!(is_digit(body[i - start]) || body[i - start] == '_'));
                }
                return None;
            }
            i = i + 1;
        }
        proof {
            assert(body.take(len - start) =~= body);
        }
        Some(Self::from_digits(negative, d))
    }
}

/// Decimal text of `n`.
pub fn u64_to_decimal(n: u64) -> (r: String)
    ensures
        r@ == nat_to_decimal(n as nat),
{
    let x = BigInteger::from_u64(n);
    x.to_decimal_string()
}

} // verus!
