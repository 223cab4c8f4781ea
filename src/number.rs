use vstd::prelude::*;
use std::cmp::Ordering;
use vstd::arithmetic::div_mod::{lemma_fundamental_div_mod, lemma_mod_multiples_basic};

verus! {

/// Largest magnitude a stored numerator or denominator may have.
pub const LIMB_MAX: u128 = 0xFFFF_FFFF_FFFF_FFFF;

/// Euclid's algorithm on an ordered pair.
pub open spec fn euclid(a: nat, b: nat) -> nat
    decreases b,
{
    if b == 0 {
        a
    } else {
        euclid(b, a % b)
    }
}

/// Greatest common divisor, symmetric by construction.
pub open spec fn gcd_spec(x: nat, y: nat) -> nat {
    if x >= y {
        euclid(x, y)
    } else {
        euclid(y, x)
    }
}

pub proof fn lemma_euclid_divides(a: nat, b: nat)
    requires
        a > 0 || b > 0,
    ensures
        euclid(a, b) > 0,
        a % euclid(a, b) == 0,
        b % euclid(a, b) == 0,
    decreases b,
{
    if b != 0 {
        let r = a % b;
        lemma_euclid_divides(b, r);
        let g = euclid(b, r);
        lemma_fundamental_div_mod(a as int, b as int);
        lemma_fundamental_div_mod(b as int, g as int);
        lemma_fundamental_div_mod(r as int, g as int);
        let k1 = b / g;
        let k2 = r / g;
        let q = a / b;
        assert(a == g * (q * k1 + k2)) by (nonlinear_arith)
            requires
                a == b * q + r,
                b == g * k1,
                r == g * k2,
        ;
        lemma_mod_multiples_basic((q * k1 + k2) as int, g as int);
        assert((q * k1 + k2) * g == g * (q * k1 + k2)) by (nonlinear_arith);
    } else {
        assert(a % a == 0) by {
            lemma_mod_multiples_basic(1, a as int);
        }
    }
}

/// The greatest common divisor is positive and divides both arguments.
pub proof fn lemma_gcd_divides(x: nat, y: nat)
    requires
        x > 0 || y > 0,
    ensures
        gcd_spec(x, y) > 0,
        x % gcd_spec(x, y) == 0,
        y % gcd_spec(x, y) == 0,
        gcd_spec(x, y) <= x || x == 0,
        gcd_spec(x, y) <= y || y == 0,
{
    if x >= y {
        lemma_euclid_divides(x, y);
    } else {
        lemma_euclid_divides(y, x);
    }
    let g = gcd_spec(x, y);
    if x > 0 && g > x {
        assert(x % g == x) by {
            vstd::arithmetic::div_mod::lemma_small_mod(x, g);
        }
    }
    if y > 0 && g > y {
        assert(y % g == y) by {
            vstd::arithmetic::div_mod::lemma_small_mod(y, g);
        }
    }
}

/// Greatest common divisor of two integers.
pub fn gcd(x: u128, y: u128) -> (r: u128)
    ensures
        r == gcd_spec(x as nat, y as nat),
{
    let mut dividend: u128 = if x >= y { x } else { y };
    let mut divisor: u128 = if x >= y { y } else { x };
    while divisor > 0
        invariant
            euclid(dividend as nat, divisor as nat) == gcd_spec(x as nat, y as nat),
        decreases divisor,
    {
        let remainder = dividend % divisor;
        dividend = divisor;
        divisor = remainder;
    }
    dividend
}


/// Halves both parts until each fits in 64 bits.
pub open spec fn clamp(n: nat, d: nat) -> (nat, nat)
    decreases n + d,
{
    if n <= LIMB_MAX && d <= LIMB_MAX {
        (n, d)
    } else {
        clamp(n / 2, d / 2)
    }
}

pub proof fn lemma_clamp_bounds(n: nat, d: nat)
    ensures
        clamp(n, d).0 <= LIMB_MAX,
        clamp(n, d).1 <= LIMB_MAX,
        clamp(n, d).0 <= n,
        clamp(n, d).1 <= d,
        n <= LIMB_MAX && d <= LIMB_MAX ==> clamp(n, d) == (n, d),
    decreases n + d,
{
    if !(n <= LIMB_MAX && d <= LIMB_MAX) {
        lemma_clamp_bounds(n / 2, d / 2);
    }
}

/// An exact rational number with a sign flag; zero is never negative.
#[derive(Clone, Copy, Debug)]
pub struct KodyNumber {
    numerator: u128,
    denominator: u128,
    is_negative: bool,
}

/// The number that `n / d` with sign `neg` is stored as: reduced by the gcd,
/// then halved until both parts fit in 64 bits.
pub closed spec fn normal_form(neg: bool, n: nat, d: nat) -> KodyNumber {
    let g = gcd_spec(n, d);
    let c = clamp(n / g, d / g);
    KodyNumber {
        numerator: c.0 as u128,
        denominator: if c.1 == 0 { 1 } else { c.1 as u128 },
        is_negative: neg && c.0 != 0,
    }
}

/// Whether `n / d` is stored without loss (no halving is needed).
pub open spec fn fits(n: nat, d: nat) -> bool {
    n / gcd_spec(n, d) <= LIMB_MAX && d / gcd_spec(n, d) <= LIMB_MAX
}

impl KodyNumber {
    #[verifier::type_invariant]
    pub closed spec fn inv(self) -> bool {
        self.wf()
    }

    pub open spec fn wf(self) -> bool {
        &&& 1 <= self.den() <= LIMB_MAX
        &&& self.num() <= LIMB_MAX
        &&& self.negative() ==> self.num() != 0
    }

    pub closed spec fn num(self) -> nat {
        self.numerator as nat
    }

    pub closed spec fn den(self) -> nat {
        self.denominator as nat
    }

    pub closed spec fn negative(self) -> bool {
        self.is_negative
    }

    /// The signed numerator; the number is `signed() / den()`.
    pub open spec fn signed(self) -> int {
        if self.negative() {
            -(self.num() as int)
        } else {
            self.num() as int
        }
    }

    /// Both numbers denote the same rational value.
    pub open spec fn same_value(self, other: KodyNumber) -> bool {
        self.signed() * other.den() == other.signed() * self.den()
    }

    pub open spec fn less_than(self, other: KodyNumber) -> bool {
        self.signed() * other.den() < other.signed() * self.den()
    }

    pub open spec fn is_zero(self) -> bool {
        self.num() == 0
    }

    pub fn numerator(&self) -> (r: u128)
        ensures
            r == self.num(),
    {
        self.numerator
    }

    pub fn denominator(&self) -> (r: u128)
        ensures
            r == self.den(),
    {
        self.denominator
    }

    pub fn is_negative(&self) -> (r: bool)
        ensures
            r == self.negative(),
    {
        self.is_negative
    }

    /// The integer `x`.
    pub fn from_int(x: i64) -> (r: KodyNumber)
        ensures
            r.signed() == x as int,
            r.den() == 1,
    {
        let magnitude: u128 = if x < 0 {
            (-(x as i128)) as u128
        } else {
            x as u128
        };
        KodyNumber { numerator: magnitude, denominator: 1, is_negative: x < 0 }
    }

    /// Stores `numerator / denominator` with the given sign in normal form.
    pub fn simplify(numerator: u128, denominator: u128, is_negative: bool) -> (r: KodyNumber)
        requires
            denominator >= 1,
        ensures
            r == normal_form(is_negative, numerator as nat, denominator as nat),
    {
        let g = gcd(numerator, denominator);
        proof {
            lemma_gcd_divides(numerator as nat, denominator as nat);
        }
        let mut n = numerator / g;
        let mut d = denominator / g;
        while n > LIMB_MAX || d > LIMB_MAX
            invariant
                clamp(n as nat, d as nat) == clamp(
                    (numerator / g) as nat,
                    (denominator / g) as nat,
                ),
            decreases n + d,
        {
            n = n / 2;
            d = d / 2;
        }
        proof {
            lemma_clamp_bounds(n as nat, d as nat);
        }
        if d == 0 {
            d = 1;
        }
        KodyNumber { numerator: n, denominator: d, is_negative: is_negative && n != 0 }
    }
}

/// Without halving, the normal form keeps the value of `n / d`.
pub proof fn lemma_normal_form_exact(neg: bool, n: nat, d: nat)
    requires
        d >= 1,
        fits(n, d),
    ensures
        normal_form(neg, n, d).signed() * d == (if neg { -(n as int) } else { n as int })
            * normal_form(neg, n, d).den(),
        normal_form(neg, n, d).den() == d / gcd_spec(n, d),
        normal_form(neg, n, d).num() == n / gcd_spec(n, d),
{
    lemma_gcd_divides(n, d);
    let g = gcd_spec(n, d);
    lemma_clamp_bounds(n / g, d / g);
    lemma_fundamental_div_mod(n as int, g as int);
    lemma_fundamental_div_mod(d as int, g as int);
    let x = n / g;
    let y = d / g;
    assert(x * d == y * n) by (nonlinear_arith)
        requires
            n == g * x,
            d == g * y,
    ;
    assert(y >= 1) by (nonlinear_arith)
        requires
            d == g * y,
            d >= 1,
            g >= 1,
    ;
    let r = normal_form(neg, n, d);
    assert(r.num() == x && r.den() == y);
    if neg && x != 0 {
        assert(r.signed() == -(x as int));
        assert(-(x as int) * d == -(n as int) * y) by (nonlinear_arith)
            requires
                x * d == y * n,
        ;
    } else if neg {
        assert(n == 0) by (nonlinear_arith)
            requires
                n == g * x,
                x == 0,
        ;
        assert(r.signed() == 0);
    } else {
        assert(r.signed() == x);
        assert(x * d == n * y) by (nonlinear_arith)
            requires
                x * d == y * n,
        ;
    }
}


proof fn lemma_zero_sign(d: nat)
    requires
        d >= 1,
    ensures
        normal_form(true, 0, d) == normal_form(false, 0, d),
{
    lemma_gcd_divides(0, d);
    let g = gcd_spec(0, d);
    assert(0nat / g == 0);
    lemma_clamp_bounds(0, d / g);
}

/// The exact sum of two numbers, in normal form; where the exact numerator
/// would not fit in 128 bits, numerator and common denominator are halved first.
pub closed spec fn sum_spec(a: KodyNumber, b: KodyNumber) -> KodyNumber {
    let g = gcd_spec(a.den(), b.den());
    let l = a.den() * (b.den() / g);
    let s = a.signed() * (b.den() / g) + b.signed() * (a.den() / g);
    let m = (if s < 0 { -s } else { s }) as nat;
    if m > u128::MAX {
        normal_form(s < 0, m / 2, l / 2)
    } else {
        normal_form(s < 0, m, l)
    }
}

/// The exact product, in normal form.
pub closed spec fn product_spec(a: KodyNumber, b: KodyNumber) -> KodyNumber {
    normal_form(a.negative() != b.negative(), a.num() * b.num(), a.den() * b.den())
}

/// The exact quotient, in normal form (the divisor is not zero).
pub closed spec fn quotient_spec(a: KodyNumber, b: KodyNumber) -> KodyNumber {
    normal_form(a.negative() != b.negative(), a.num() * b.den(), a.den() * b.num())
}

/// The number with the opposite sign.
pub closed spec fn negation_spec(a: KodyNumber) -> KodyNumber {
    KodyNumber {
        numerator: a.numerator,
        denominator: a.denominator,
        is_negative: !a.is_negative && a.numerator != 0,
    }
}

/// The difference, as the sum with the negated right operand.
pub open spec fn difference_spec(a: KodyNumber, b: KodyNumber) -> KodyNumber {
    sum_spec(a, negation_spec(b))
}

proof fn lemma_scale(x: int, y: int, g: int)
    requires
        g > 0,
    ensures
        (x * g < y * g) <==> (x < y),
        (x * g == y * g) <==> (x == y),
{
    if x < y {
        assert(x * g < y * g) by (nonlinear_arith)
            requires
                x < y,
                g > 0,
        ;
    } else if x > y {
        assert(x * g > y * g) by (nonlinear_arith)
            requires
                x > y,
                g > 0,
        ;
    }
}

/// The parts of a common-denominator computation: `d1 == g * b`, `d2 == g * a`.
proof fn lemma_common_parts(d1: nat, d2: nat)
    requires
        1 <= d1 <= LIMB_MAX,
        1 <= d2 <= LIMB_MAX,
    ensures
        gcd_spec(d1, d2) >= 1,
        d1 == gcd_spec(d1, d2) * (d1 / gcd_spec(d1, d2)),
        d2 == gcd_spec(d1, d2) * (d2 / gcd_spec(d1, d2)),
        1 <= d1 / gcd_spec(d1, d2) <= d1,
        1 <= d2 / gcd_spec(d1, d2) <= d2,
        d1 * (d2 / gcd_spec(d1, d2)) == d2 * (d1 / gcd_spec(d1, d2)),
{
    lemma_gcd_divides(d1, d2);
    let g = gcd_spec(d1, d2);
    lemma_fundamental_div_mod(d1 as int, g as int);
    lemma_fundamental_div_mod(d2 as int, g as int);
    let a = d2 / g;
    let b = d1 / g;
    assert(1 <= b <= d1 && 1 <= a <= d2 && d1 * a == d2 * b) by (nonlinear_arith)
        requires
            d1 == g * b,
            d2 == g * a,
            g >= 1,
            d1 >= 1,
            d2 >= 1,
    ;
}

impl KodyNumber {
    /// `self + other`.
    pub fn add(&self, other: &KodyNumber) -> (r: KodyNumber)
        ensures
            r == sum_spec(*self, *other),
    {
        proof {
            use_type_invariant(self);
            use_type_invariant(other);
            lemma_common_parts(self.den(), other.den());
        }
        let g = gcd(self.denominator, other.denominator);
        let a = other.denominator / g;
        let b = self.denominator / g;
        proof {
            assert(self.denominator * a <= LIMB_MAX * LIMB_MAX) by (nonlinear_arith)
                requires
                    self.denominator <= LIMB_MAX,
                    a <= LIMB_MAX,
            ;
            assert(self.numerator * a <= LIMB_MAX * LIMB_MAX) by (nonlinear_arith)
                requires
                    self.numerator <= LIMB_MAX,
                    a <= LIMB_MAX,
            ;
            assert(other.numerator * b <= LIMB_MAX * LIMB_MAX) by (nonlinear_arith)
                requires
                    other.numerator <= LIMB_MAX,
                    b <= LIMB_MAX,
            ;
        }
        let l = self.denominator * a;
        let lhs = self.numerator * a;
        let rhs = other.numerator * b;
        proof {
            if l <= 1 {
                assert(self.denominator == 1 && a == 1) by (nonlinear_arith)
                    requires
                        l == self.denominator * a,
                        l <= 1,
                        self.denominator >= 1,
                        a >= 1,
                ;
                assert(b == 1);
                assert(lhs == self.numerator && rhs == other.numerator) by (nonlinear_arith)
                    requires
                        a == 1,
                        b == 1,
                        lhs == self.numerator * a,
                        rhs == other.numerator * b,
                ;
            }
            assert(self.signed() * a == if self.is_negative { -(lhs as int) } else { lhs as int })
                by (nonlinear_arith)
                requires
                    self.signed() == if self.is_negative { -(self.numerator as int) } else { self.numerator as int },
                    lhs == self.numerator * a,
            ;
            assert(other.signed() * b == if other.is_negative { -(rhs as int) } else { rhs as int })
                by (nonlinear_arith)
                requires
                    other.signed() == if other.is_negative { -(other.numerator as int) } else { other.numerator as int },
                    rhs == other.numerator * b,
            ;
            assert(l >= 1) by (nonlinear_arith)
                requires
                    l == self.denominator * a,
                    self.denominator >= 1,
                    a >= 1,
            ;
        }
        let ghost s = self.signed() * a + other.signed() * b;
        if self.is_negative == other.is_negative {
            if lhs > u128::MAX - rhs {
                proof {
                    assert(l >= 2);
                }
                let half = lhs / 2 + rhs / 2 + (lhs % 2 + rhs % 2) / 2;
                assert(half == (lhs + rhs) / 2);
                KodyNumber::simplify(half, l / 2, self.is_negative)
            } else {
                proof {
                    lemma_zero_sign(l as nat);
                }
                KodyNumber::simplify(lhs + rhs, l, self.is_negative)
            }
        } else {
            let larger = if lhs >= rhs { lhs } else { rhs };
            let smaller = if lhs >= rhs { rhs } else { lhs };
            let is_negative = if self.is_negative { lhs > rhs } else { rhs > lhs };
            KodyNumber::simplify(larger - smaller, l, is_negative)
        }
    }

    /// `-self`.
    pub fn neg(&self) -> (r: KodyNumber)
        ensures
            r == negation_spec(*self),
    {
        proof {
            use_type_invariant(self);
        }
        KodyNumber {
            numerator: self.numerator,
            denominator: self.denominator,
            is_negative: !self.is_negative && self.numerator != 0,
        }
    }

    /// `self - other`.
    pub fn sub(&self, other: &KodyNumber) -> (r: KodyNumber)
        ensures
            r == difference_spec(*self, *other),
    {
        let negated = other.neg();
        self.add(&negated)
    }

    /// `self * other`.
    pub fn mul(&self, other: &KodyNumber) -> (r: KodyNumber)
        ensures
            r == product_spec(*self, *other),
    {
        proof {
            use_type_invariant(self);
            use_type_invariant(other);
            assert(self.numerator * other.numerator <= LIMB_MAX * LIMB_MAX) by (nonlinear_arith)
                requires
                    self.numerator <= LIMB_MAX,
                    other.numerator <= LIMB_MAX,
            ;
            assert(1 <= self.denominator * other.denominator <= LIMB_MAX * LIMB_MAX)
                by (nonlinear_arith)
                requires
                    1 <= self.denominator <= LIMB_MAX,
                    1 <= other.denominator <= LIMB_MAX,
            ;
        }
        KodyNumber::simplify(
            self.numerator * other.numerator,
            self.denominator * other.denominator,
            self.is_negative != other.is_negative,
        )
    }

    /// `self / other`, for a divisor other than zero.
    pub fn div(&self, other: &KodyNumber) -> (r: KodyNumber)
        requires
            !other.is_zero(),
        ensures
            r == quotient_spec(*self, *other),
    {
        proof {
            use_type_invariant(self);
            use_type_invariant(other);
            assert(self.numerator * other.denominator <= LIMB_MAX * LIMB_MAX) by (nonlinear_arith)
                requires
                    self.numerator <= LIMB_MAX,
                    other.denominator <= LIMB_MAX,
            ;
            assert(1 <= self.denominator * other.numerator <= LIMB_MAX * LIMB_MAX)
                by (nonlinear_arith)
                requires
                    1 <= self.denominator <= LIMB_MAX,
                    1 <= other.numerator <= LIMB_MAX,
            ;
        }
        KodyNumber::simplify(
            self.numerator * other.denominator,
            self.denominator * other.numerator,
            self.is_negative != other.is_negative,
        )
    }

    /// Three-way comparison of the values.
    pub fn cmp(&self, other: &KodyNumber) -> (r: Ordering)
        ensures
            (r == Ordering::Less) <==> self.less_than(*other),
            (r == Ordering::Equal) <==> self.same_value(*other),
            (r == Ordering::Greater) <==> other.less_than(*self),
    {
        proof {
            use_type_invariant(self);
            use_type_invariant(other);
            lemma_common_parts(self.den(), other.den());
        }
        let g = gcd(self.denominator, other.denominator);
        let a = other.denominator / g;
        let b = self.denominator / g;
        proof {
            assert(self.numerator * a <= LIMB_MAX * LIMB_MAX) by (nonlinear_arith)
                requires
                    self.numerator <= LIMB_MAX,
                    a <= LIMB_MAX,
            ;
            assert(other.numerator * b <= LIMB_MAX * LIMB_MAX) by (nonlinear_arith)
                requires
                    other.numerator <= LIMB_MAX,
                    b <= LIMB_MAX,
            ;
        }
        let lhs = self.numerator * a;
        let rhs = other.numerator * b;
        proof {
            let x = self.signed();
            let y = other.signed();
            assert(x * other.den() == (x * a) * g) by (nonlinear_arith)
                requires
                    other.den() == g * a,
            ;
            assert(y * self.den() == (y * b) * g) by (nonlinear_arith)
                requires
                    self.den() == g * b,
            ;
            lemma_scale(x * a, y * b, g as int);
            lemma_scale(y * b, x * a, g as int);
            assert(x * a == if self.is_negative { -(lhs as int) } else { lhs as int }) by (nonlinear_arith)
                requires
                    x == if self.is_negative { -(self.numerator as int) } else { self.numerator as int },
                    lhs == self.numerator * a,
            ;
            assert(y * b == if other.is_negative { -(rhs as int) } else { rhs as int }) by (nonlinear_arith)
                requires
                    y == if other.is_negative { -(other.numerator as int) } else { other.numerator as int },
                    rhs == other.numerator * b,
            ;
            assert(lhs > 0 <==> self.numerator > 0) by (nonlinear_arith)
                requires
                    lhs == self.numerator * a,
                    a >= 1,
            ;
            assert(rhs > 0 <==> other.numerator > 0) by (nonlinear_arith)
                requires
                    rhs == other.numerator * b,
                    b >= 1,
            ;
        }
        match (self.is_negative, other.is_negative) {
            (false, false) => if lhs < rhs {
                Ordering::Less
            } else if lhs == rhs {
                Ordering::Equal
            } else {
                Ordering::Greater
            },
            (true, false) => Ordering::Less,
            (false, true) => Ordering::Greater,
            (true, true) => if rhs < lhs {
                Ordering::Less
            } else if lhs == rhs {
                Ordering::Equal
            } else {
                Ordering::Greater
            },
        }
    }
}


/// Addition is commutative: `a + b` and `b + a` give the same number.
pub proof fn law_add_commutative(a: KodyNumber, b: KodyNumber)
    requires
        a.wf(),
        b.wf(),
    ensures
        sum_spec(a, b) == sum_spec(b, a),
{
    lemma_common_parts(a.den(), b.den());
    assert(gcd_spec(a.den(), b.den()) == gcd_spec(b.den(), a.den()));
    assert(a.signed() * (b.den() / gcd_spec(a.den(), b.den())) + b.signed() * (a.den()
        / gcd_spec(a.den(), b.den())) == b.signed() * (a.den() / gcd_spec(b.den(), a.den()))
        + a.signed() * (b.den() / gcd_spec(b.den(), a.den())));
}

/// Multiplication is commutative: `a * b` and `b * a` give the same number.
pub proof fn law_multiply_commutative(a: KodyNumber, b: KodyNumber)
    ensures
        product_spec(a, b) == product_spec(b, a),
{
    assert(a.num() * b.num() == b.num() * a.num()) by (nonlinear_arith);
    assert(a.den() * b.den() == b.den() * a.den()) by (nonlinear_arith);
}

/// Subtraction is addition of the negated right operand: `a - b == a + (-b)`.
pub proof fn law_subtract_is_add_negated(a: KodyNumber, b: KodyNumber)
    ensures
        difference_spec(a, b) == sum_spec(a, negation_spec(b)),
{
}

/// Where neither step has to halve, dividing by `b` and then multiplying by
/// `b` gives back the value of `a`.
pub proof fn law_divide_then_multiply(a: KodyNumber, b: KodyNumber)
    requires
        a.wf(),
        b.wf(),
        !b.is_zero(),
        fits(a.num() * b.den(), a.den() * b.num()),
        fits(
            quotient_spec(a, b).num() * b.num(),
            quotient_spec(a, b).den() * b.den(),
        ),
    ensures
        product_spec(quotient_spec(a, b), b).same_value(a),
{
    let n1 = a.num() as int;
    let d1 = a.den() as int;
    let n2 = b.num() as int;
    let d2 = b.den() as int;
    let sa: int = if a.negative() { -1 } else { 1 };
    let sb: int = if b.negative() { -1 } else { 1 };
    assert(1 <= d1 * n2) by (nonlinear_arith)
        requires
            d1 >= 1,
            n2 >= 1,
    ;
    let q = quotient_spec(a, b);
    let x = a.num() * b.den();
    let y = a.den() * b.num();
    lemma_normal_form_exact(a.negative() != b.negative(), x, y);
    lemma_normal_form_wf(a.negative() != b.negative(), x, y);
    let sq: int = if q.negative() { -1 } else { 1 };
    let qn = q.num() as int;
    let qd = q.den() as int;
    let e1_lhs = q.signed() * (d1 * n2);
    // q.signed() * (d1 * n2) == sa * sb * (n1 * d2) * qd
    assert(q.signed() * (d1 * n2) == (sa * sb) * (n1 * d2) * qd) by (nonlinear_arith)
        requires
            q.signed() * (y as int) == (if a.negative() != b.negative() { -(x as int) } else { x as int }) * qd,
            x as int == n1 * d2,
            y as int == d1 * n2,
            sa == if a.negative() { -1int } else { 1int },
            sb == if b.negative() { -1int } else { 1int },
    ;
    let p = product_spec(q, b);
    let x2 = q.num() * b.num();
    let y2 = q.den() * b.den();
    assert(y2 >= 1) by (nonlinear_arith)
        requires
            y2 == q.den() * b.den(),
            q.den() >= 1,
            b.den() >= 1,
    ;
    lemma_normal_form_exact(q.negative() != b.negative(), x2, y2);
    assert(q.signed() == sq * qn);
    assert(a.signed() == sa * n1);
    assert(p.signed() * (qd * d2) == (sq * sb) * (qn * n2) * p.den()) by (nonlinear_arith)
        requires
            p.signed() * (y2 as int) == (if q.negative() != b.negative() { -(x2 as int) } else { x2 as int }) * p.den(),
            x2 as int == qn * n2,
            y2 as int == qd * d2,
            sq == if q.negative() { -1int } else { 1int },
            sb == if b.negative() { -1int } else { 1int },
    ;
    let pd = p.den() as int;
    let ps = p.signed();
    let k = qd * d2 * n2;
    assert(k > 0) by (nonlinear_arith)
        requires
            qd >= 1,
            d2 >= 1,
            n2 >= 1,
            k == qd * d2 * n2,
    ;
    assert(ps * d1 * k == sa * n1 * pd * k) by (nonlinear_arith)
        requires
            ps * (qd * d2) == (sq * sb) * (qn * n2) * pd,
            (sq * qn) * (d1 * n2) == (sa * sb) * (n1 * d2) * qd,
            sb * sb == 1,
            k == qd * d2 * n2,
    {
        assert(ps * d1 * k == (ps * (qd * d2)) * (d1 * n2)) by (nonlinear_arith)
            requires
                k == qd * d2 * n2,
        ;
        assert((ps * (qd * d2)) * (d1 * n2) == ((sq * sb) * (qn * n2) * pd) * (d1 * n2))
            by (nonlinear_arith)
            requires
                ps * (qd * d2) == (sq * sb) * (qn * n2) * pd,
        ;
        assert(((sq * sb) * (qn * n2) * pd) * (d1 * n2) == (sb * n2 * pd) * ((sq * qn) * (d1
            * n2))) by (nonlinear_arith);
        assert((sb * n2 * pd) * ((sq * qn) * (d1 * n2)) == (sb * n2 * pd) * ((sa * sb) * (n1
            * d2) * qd)) by (nonlinear_arith)
            requires
                (sq * qn) * (d1 * n2) == (sa * sb) * (n1 * d2) * qd,
        ;
        let t = sa * n1 * pd * (qd * d2 * n2);
        let an = sa * n1;
        assert(sa * (n1 * d2) == an * d2) by (nonlinear_arith)
            requires
                an == sa * n1,
        ;
        lemma_rearrange(n2, pd, an, d2, qd);
        if sb == 1 {
            assert((sb * n2 * pd) * ((sa * sb) * (n1 * d2) * qd) == (n2 * pd) * (sa * (n1 * d2)
                * qd));
        } else {
            assert((sb * n2 * pd) * ((sa * sb) * (n1 * d2) * qd) == (n2 * pd) * (sa * (n1 * d2)
                * qd)) by (nonlinear_arith)
                requires
                    sb == -1,
            ;
        }
        assert((sb * n2 * pd) * ((sa * sb) * (n1 * d2) * qd) == (sb * sb) * t);
    }
    lemma_scale(ps * d1, sa * n1 * pd, k);
}

proof fn lemma_rearrange(a: int, b: int, c: int, d: int, e: int)
    ensures
        (a * b) * ((c * d) * e) == ((c * b) * ((e * d) * a)),
{
    broadcast use vstd::arithmetic::mul::lemma_mul_is_associative;
    broadcast use vstd::arithmetic::mul::lemma_mul_is_commutative;

    let cd = c * d;
    let ed = e * d;
    assert((cd * e) == c * ed);
    assert((a * b) * (c * ed) == (c * b) * (ed * a));
}

/// The comparison is a total order: of `a < b`, `a == b` and `b < a` exactly
/// one holds, and `<` and value equality are transitive.
pub proof fn law_compare_total_order(a: KodyNumber, b: KodyNumber, c: KodyNumber)
    requires
        a.wf(),
        b.wf(),
        c.wf(),
    ensures
        a.less_than(b) || a.same_value(b) || b.less_than(a),
        !(a.less_than(b) && a.same_value(b)),
        !(a.less_than(b) && b.less_than(a)),
        !(a.same_value(b) && b.less_than(a)),
        a.same_value(b) ==> b.same_value(a),
        a.less_than(b) && b.less_than(c) ==> a.less_than(c),
        a.same_value(b) && b.same_value(c) ==> a.same_value(c),
{
    let (x, y, z) = (a.signed(), b.signed(), c.signed());
    let (p, q, r) = (a.den() as int, b.den() as int, c.den() as int);
    if a.less_than(b) && b.less_than(c) {
        assert(x * r < z * p) by (nonlinear_arith)
            requires
                x * q < y * p,
                y * r < z * q,
                p > 0,
                q > 0,
                r > 0,
        {
            assert(x * q * r < y * p * r) by (nonlinear_arith)
                requires
                    x * q < y * p,
                    r > 0,
            ;
            assert(y * r * p < z * q * p) by (nonlinear_arith)
                requires
                    y * r < z * q,
                    p > 0,
            ;
            assert((x * r) * q < (z * p) * q) by (nonlinear_arith)
                requires
                    x * q * r < y * p * r,
                    y * r * p < z * q * p,
            ;
            lemma_scale(x * r, z * p, q);
        }
    }
    if a.same_value(b) && b.same_value(c) {
        assert(x * r == z * p) by (nonlinear_arith)
            requires
                x * q == y * p,
                y * r == z * q,
                q > 0,
        {
            assert((x * r) * q == (z * p) * q) by (nonlinear_arith)
                requires
                    x * q == y * p,
                    y * r == z * q,
            ;
            lemma_scale(x * r, z * p, q);
        }
    }
}

/// The normal form is always a well-formed number.
pub proof fn lemma_normal_form_wf(neg: bool, n: nat, d: nat)
    requires
        d >= 1,
    ensures
        normal_form(neg, n, d).wf(),
{
    lemma_gcd_divides(n, d);
    let g = gcd_spec(n, d);
    lemma_clamp_bounds(n / g, d / g);
}


pub open spec fn is_digit(c: char) -> bool {
    '0' <= c && c <= '9'
}

pub open spec fn digit_value(c: char) -> nat {
    (c as u32 - '0' as u32) as nat
}

/// The integer formed by all decimal digits of `s`, in order.
pub open spec fn digits_value(s: Seq<char>) -> nat
    decreases s.len(),
{
    if s.len() == 0 {
        0
    } else if is_digit(s.last()) {
        digits_value(s.drop_last()) * 10 + digit_value(s.last())
    } else {
        digits_value(s.drop_last())
    }
}

/// How many decimal digits `s` holds.
pub open spec fn digit_count(s: Seq<char>) -> nat
    decreases s.len(),
{
    if s.len() == 0 {
        0
    } else if is_digit(s.last()) {
        digit_count(s.drop_last()) + 1
    } else {
        digit_count(s.drop_last())
    }
}

/// How many decimal digits of `s` stand after its first `.`.
pub open spec fn fraction_digits(s: Seq<char>) -> nat
    decreases s.len(),
{
    if s.len() == 0 {
        0
    } else if is_digit(s.last()) && s.drop_last().contains('.') {
        fraction_digits(s.drop_last()) + 1
    } else {
        fraction_digits(s.drop_last())
    }
}

pub open spec fn pow10(k: nat) -> nat
    decreases k,
{
    if k == 0 {
        1
    } else {
        10 * pow10((k - 1) as nat)
    }
}

proof fn lemma_pow10_monotone(a: nat, b: nat)
    requires
        a <= b,
    ensures
        1 <= pow10(a) <= pow10(b),
    decreases b,
{
    if b > 0 && a < b {
        lemma_pow10_monotone(a, (b - 1) as nat);
    } else if b > 0 {
        lemma_pow10_monotone((a - 1) as nat, (b - 1) as nat);
    }
}

proof fn lemma_digits_bound(s: Seq<char>)
    ensures
        digits_value(s) < pow10(digit_count(s)),
        fraction_digits(s) <= digit_count(s),
    decreases s.len(),
{
    if s.len() > 0 {
        lemma_digits_bound(s.drop_last());
    }
}

impl KodyNumber {
    /// The number that a decimal literal denotes (digits with at most one `.`).
    /// With at most 19 digits the value is exact; longer literals lose precision.
    pub fn from_literal(text: &str) -> (r: KodyNumber)
        ensures
            digit_count(text@) <= 19 ==> r.signed() * pow10(fraction_digits(text@))
                == digits_value(text@) * r.den(),
    {
        let len = text.unicode_len();
        let mut n: u128 = 0;
        let mut d: u128 = 1;
        let mut seen_dot = false;
        let mut i: usize = 0;
        while i < len
            invariant
                len == text@.len(),
                i <= len,
                1 <= d <= 100_000_000_000_000_000_000_000_000_000_000_000_000u128,
                seen_dot == text@.take(i as int).contains('.'),
                digit_count(text@.take(i as int)) <= 19 ==> {
                    &&& n == digits_value(text@.take(i as int))
                    &&& d == pow10(fraction_digits(text@.take(i as int)))
                },
            decreases len - i,
        {
            let c = text.get_char(i);
            let ghost before = text@.take(i as int);
            proof {
                assert(text@.take(i + 1).drop_last() =~= before);
                assert(text@.take(i + 1).last() == c);
                lemma_digits_bound(before);
                if digit_count(before) <= 18 {
                    lemma_pow10_monotone(digit_count(before), 18);
                    lemma_pow10_monotone(fraction_digits(before), 18);
                    reveal_with_fuel(pow10, 19);
                    assert(pow10(18) == 1_000_000_000_000_000_000u128);
                }
            }
            let ghost n0 = n;
            let ghost d0 = d;
            if c == '.' {
                seen_dot = true;
            } else if '0' <= c && c <= '9' {
                let digit = (c as u32 - '0' as u32) as u128;
                if n <= (u128::MAX - 9) / 10 && (!seen_dot
                    || d <= 10_000_000_000_000_000_000_000_000_000_000_000_000u128) {
                    n = n * 10 + digit;
                    if seen_dot {
                        d = d * 10;
                    }
                } else if !seen_dot {
                    n = u128::MAX;
                }
            }
            proof {
                let after = text@.take(i + 1);
                if is_digit(c) {
                    assert(digits_value(after) == digits_value(before) * 10 + digit_value(c));
                    assert(digit_count(after) == digit_count(before) + 1);
                    assert(fraction_digits(after) == if before.contains('.') {
                        fraction_digits(before) + 1
                    } else {
                        fraction_digits(before)
                    });
                    if digit_count(after) <= 19 {
                        assert(n == n0 * 10 + digit_value(c));
                    }
                } else {
                    assert(digits_value(after) == digits_value(before));
                    assert(digit_count(after) == digit_count(before));
                    assert(fraction_digits(after) == fraction_digits(before));
                }
                assert(text@.take(i + 1).contains('.') == (before.contains('.') || c == '.')) by {
                    if c == '.' {
                        assert(text@.take(i + 1)[i as int] == '.');
                    }
                    if before.contains('.') {
                        let j = choose|j: int| 0 <= j < before.len() && before[j] == '.';
                        assert(text@.take(i + 1)[j] == '.');
                    }
                    let after = text@.take(i + 1);
                    if after.contains('.') {
                        let j = choose|j: int| 0 <= j < after.len() && after[j] == '.';
                        if j < i {
                            assert(before[j] == '.');
                        }
                    }
                }
            }
            i = i + 1;
        }
        proof {
            assert(text@.take(len as int) =~= text@);
            if digit_count(text@) <= 19 {
                lemma_digits_bound(text@);
                lemma_pow10_monotone(digit_count(text@), 19);
                lemma_pow10_monotone(fraction_digits(text@), 19);
                reveal_with_fuel(pow10, 20);
                assert(pow10(19) == 10_000_000_000_000_000_000u128);
                lemma_gcd_divides(n as nat, d as nat);
                let g = gcd_spec(n as nat, d as nat);
                vstd::arithmetic::div_mod::lemma_div_is_ordered_by_denominator(n as int, 1, g as int);
                vstd::arithmetic::div_mod::lemma_div_is_ordered_by_denominator(d as int, 1, g as int);
                lemma_normal_form_exact(false, n as nat, d as nat);
            }
        }
        KodyNumber::simplify(n, d, false)
    }
}


impl PartialEq for KodyNumber {
    /// Value equality, by cross-multiplication at a common denominator.
    fn eq(&self, other: &KodyNumber) -> (r: bool) {
        match self.cmp(other) {
            Ordering::Equal => true,
            _ => false,
        }
    }
}

impl vstd::std_specs::cmp::PartialEqSpecImpl for KodyNumber {
    open spec fn obeys_eq_spec() -> bool {
        true
    }

    open spec fn eq_spec(&self, other: &KodyNumber) -> bool {
        self.same_value(*other)
    }
}

} // verus!
