//! Layer 0: the ten digit values, their arithmetic fact tables, place-value
//! decomposition, and multi-digit arithmetic by carry and borrow propagation.
use vstd::prelude::*;
use vstd::arithmetic::div_mod::*;
use vstd::arithmetic::mul::*;

verus! {

// ============================================================================
// Mathematical model: powers of ten, decimal digits, digit counts
// ============================================================================

/// `10^e`.
pub open spec fn pow10(e: nat) -> nat
    decreases e,
{
    if e == 0 {
        1
    } else {
        10 * pow10((e - 1) as nat)
    }
}

/// The decimal digit of `n` at position `p` (0 = ones, 1 = tens, ...).
pub open spec fn digit_of(n: nat, p: nat) -> nat {
    (n / pow10(p)) % 10
}

/// Number of decimal digits of `n` (zero has one digit).
pub open spec fn num_digits(n: nat) -> nat
    decreases n,
{
    if n < 10 {
        1
    } else {
        1 + num_digits(n / 10)
    }
}

/// The value of a little-endian digit sequence: `ds[0] + ds[1]*10 + ...`.
pub open spec fn digits_value(ds: Seq<u8>) -> nat
    decreases ds.len(),
{
    if ds.len() == 0 {
        0
    } else {
        digits_value(ds.drop_last()) + (ds.last() as nat) * pow10((ds.len() - 1) as nat)
    }
}

/// Every element of a digit sequence is a decimal digit.
pub open spec fn all_digits(ds: Seq<u8>) -> bool {
    forall|i: int| 0 <= i < ds.len() ==> #[trigger] ds[i] <= 9
}

pub proof fn lemma_pow10_pos(e: nat)
    ensures
        pow10(e) > 0,
    decreases e,
{
    if e > 0 {
        lemma_pow10_pos((e - 1) as nat);
    }
}

pub proof fn lemma_pow10_succ(e: nat)
    ensures
        pow10(e + 1) == pow10(e) * 10,
        pow10(e + 1) == 10 * pow10(e),
{
    assert(pow10(e + 1) == 10 * pow10(e));
    lemma_mul_is_commutative(10, pow10(e) as int);
}

pub proof fn lemma_pow10_mono(a: nat, b: nat)
    requires
        a <= b,
    ensures
        pow10(a) <= pow10(b),
    decreases b,
{
    if a < b {
        lemma_pow10_mono(a, (b - 1) as nat);
        lemma_pow10_pos((b - 1) as nat);
    }
}

pub proof fn lemma_pow10_add(a: nat, b: nat)
    ensures
        pow10(a + b) == pow10(a) * pow10(b),
    decreases b,
{
    if b == 0 {
        assert(pow10(a) * 1 == pow10(a));
    } else {
        lemma_pow10_add(a, (b - 1) as nat);
        assert(pow10(a + b) == 10 * pow10((a + b - 1) as nat));
        assert((a + b - 1) as nat == a + (b - 1) as nat);
        lemma_mul_is_associative(10, pow10(a) as int, pow10((b - 1) as nat) as int);
        lemma_mul_is_associative(pow10(a) as int, 10, pow10((b - 1) as nat) as int);
        lemma_mul_is_commutative(10, pow10(a) as int);
    }
}

/// Splitting off the digit at position `p`:
/// `n mod 10^(p+1) == n mod 10^p + digit_of(n, p) * 10^p`.
pub proof fn lemma_mod_pow10_step(n: nat, p: nat)
    ensures
        n % pow10(p + 1) == n % pow10(p) + digit_of(n, p) * pow10(p),
        digit_of(n, p) <= 9,
{
    lemma_pow10_pos(p);
    lemma_pow10_succ(p);
    lemma_mod_breakdown(n as int, pow10(p) as int, 10);
    lemma_mul_is_commutative(pow10(p) as int, digit_of(n, p) as int);
}

/// A number below `10^p` is its own residue modulo `10^p`.
pub proof fn lemma_small_mod_pow10(n: nat, p: nat)
    requires
        n < pow10(p),
    ensures
        n % pow10(p) == n,
{
    lemma_small_mod(n, pow10(p));
}

/// `n < 10^num_digits(n)`, and a number with `k` digits is at least `10^(k-1)`.
pub proof fn lemma_num_digits_bounds(n: nat)
    ensures
        num_digits(n) >= 1,
        n < pow10(num_digits(n)),
        n >= 10 ==> pow10((num_digits(n) - 1) as nat) <= n,
    decreases n,
{
    reveal_with_fuel(pow10, 2);
    if n >= 10 {
        lemma_num_digits_bounds(n / 10);
        let k = num_digits(n / 10);
        assert(num_digits(n) == 1 + k);
        lemma_fundamental_div_mod(n as int, 10);
        assert(n == 10 * (n / 10) + n % 10);
        assert(n / 10 < pow10(k));
        assert(pow10(k + 1) == 10 * pow10(k));
        assert(pow10(k + 1) == 10 * pow10(k));
        assert(n < 10 * pow10(k)) by (nonlinear_arith)
            requires
                n == 10 * (n / 10) + n % 10,
                n % 10 < 10,
                n / 10 < pow10(k),
        ;
        if n / 10 >= 10 {
            assert(pow10((k - 1) as nat) <= n / 10);
            assert(pow10(k) == 10 * pow10((k - 1) as nat));
            assert(pow10(k) <= n) by (nonlinear_arith)
                requires
                    pow10(k) == 10 * pow10((k - 1) as nat),
                    pow10((k - 1) as nat) <= n / 10,
                    n == 10 * (n / 10) + n % 10,
                    n % 10 >= 0,
            ;
        } else {
            assert(k == 1);
            assert(pow10(1) == 10);
        }
    }
}

/// A number below `10^k` has at most `k` digits.
pub proof fn lemma_num_digits_le(n: nat, k: nat)
    requires
        n < pow10(k),
        k >= 1,
    ensures
        num_digits(n) <= k,
{
    lemma_num_digits_bounds(n);
    if num_digits(n) > k && n >= 10 {
        lemma_pow10_mono(k, (num_digits(n) - 1) as nat);
    }
}

pub proof fn lemma_pow10_20()
    ensures
        pow10(19) == 10_000_000_000_000_000_000nat,
        pow10(20) == 100_000_000_000_000_000_000nat,
{
    reveal_with_fuel(pow10, 21);
}

/// Every `u64` has at most twenty digits.
pub proof fn lemma_u64_num_digits(n: u64)
    ensures
        num_digits(n as nat) <= 20,
{
    lemma_pow10_20();
    lemma_num_digits_le(n as nat, 20);
}

/// Appending a digit at the top adds `d * 10^len`.
pub proof fn lemma_digits_value_push(ds: Seq<u8>, d: u8)
    ensures
        digits_value(ds.push(d)) == digits_value(ds) + (d as nat) * pow10(ds.len()),
{
    assert(ds.push(d).drop_last() =~= ds);
}

/// A sequence of decimal digits of length `len` is worth less than `10^len`.
pub proof fn lemma_digits_value_bound(ds: Seq<u8>)
    requires
        all_digits(ds),
    ensures
        digits_value(ds) < pow10(ds.len()),
    decreases ds.len(),
{
    if ds.len() > 0 {
        let ds0 = ds.drop_last();
        assert(all_digits(ds0)) by {
            assert forall|i: int| 0 <= i < ds0.len() implies #[trigger] ds0[i] <= 9 by {
                assert(ds0[i] == ds[i]);
            }
        }
        lemma_digits_value_bound(ds0);
        let p = pow10(ds0.len());
        lemma_pow10_succ(ds0.len());
        assert(ds.last() <= 9) by {
            assert(ds[ds.len() - 1] <= 9);
        }
        assert(digits_value(ds) < p * 10) by (nonlinear_arith)
            requires
                digits_value(ds) == digits_value(ds0) + (ds.last() as nat) * p,
                digits_value(ds0) < p,
                ds.last() <= 9,
        ;
    }
}

/// A prefix of a digit sequence is worth no more than the whole sequence.
pub proof fn lemma_digits_value_prefix(ds: Seq<u8>, i: int)
    requires
        0 <= i <= ds.len(),
    ensures
        digits_value(ds.take(i)) <= digits_value(ds),
    decreases ds.len() - i,
{
    if i < ds.len() {
        lemma_digits_value_prefix(ds, i + 1);
        assert(ds.take(i + 1).drop_last() =~= ds.take(i));
        lemma_pow10_pos(i as nat);
        assert(digits_value(ds.take(i + 1)) == digits_value(ds.take(i)) + (ds[i] as nat) * pow10(
            i as nat,
        ));
        lemma_mul_nonnegative(ds[i] as int, pow10(i as nat) as int);
    } else {
        assert(ds.take(i) =~= ds);
    }
}

// ============================================================================
// VALUE TYPE
// ============================================================================

/// A single digit value (0-9): the atomic unit of the arithmetic layer.
#[derive(Clone, Copy, PartialEq, Eq, Structural, Debug, Hash, PartialOrd, Ord)]
pub struct Value(u8);

impl View for Value {
    type V = nat;

    closed spec fn view(&self) -> nat {
        self.0 as nat
    }
}

// ============================================================================
// THE TEN VALUES
// ============================================================================

/// The value 0.
pub fn zero() -> (v: Value)
    ensures
        v@ == 0,
{
    Value(0)
}

/// The value 1.
pub fn one() -> (v: Value)
    ensures
        v@ == 1,
{
    Value(1)
}

/// The value 2.
pub fn two() -> (v: Value)
    ensures
        v@ == 2,
{
    Value(2)
}

/// The value 3.
pub fn three() -> (v: Value)
    ensures
        v@ == 3,
{
    Value(3)
}

/// The value 4.
pub fn four() -> (v: Value)
    ensures
        v@ == 4,
{
    Value(4)
}

/// The value 5.
pub fn five() -> (v: Value)
    ensures
        v@ == 5,
{
    Value(5)
}

/// The value 6.
pub fn six() -> (v: Value)
    ensures
        v@ == 6,
{
    Value(6)
}

/// The value 7.
pub fn seven() -> (v: Value)
    ensures
        v@ == 7,
{
    Value(7)
}

/// The value 8.
pub fn eight() -> (v: Value)
    ensures
        v@ == 8,
{
    Value(8)
}

/// The value 9.
pub fn nine() -> (v: Value)
    ensures
        v@ == 9,
{
    Value(9)
}

/// All ten values in order, 0 to 9.
pub fn all_values() -> (r: Vec<Value>)
    ensures
        r@.len() == 10,
        forall|i: int| 0 <= i < 10 ==> (#[trigger] r@[i])@ == i,
{
    let r = vec![zero(), one(), two(), three(), four(), five(), six(), seven(), eight(), nine()];
    assert(r@.len() == 10);
    r
}


impl Value {
    #[verifier::type_invariant]
    spec fn inv(self) -> bool {
        self.0 <= 9
    }

    /// Creates a value from a digit; `None` unless the digit is at most 9.
    pub fn new(digit: u8) -> (r: Option<Value>)
        ensures
            r is Some <==> digit <= 9,
            r matches Some(v) ==> v@ == digit,
    {
        if digit <= 9 {
            Some(Value(digit))
        } else {
            None
        }
    }

    /// Creates a value from a digit that is known to be at most 9.
    pub fn must(digit: u8) -> (v: Value)
        requires
            digit <= 9,
        ensures
            v@ == digit,
    {
        Value(digit)
    }

    /// The digit this value represents.
    pub fn digit(&self) -> (d: u8)
        ensures
            d == self@,
            d <= 9,
    {
        proof {
            use_type_invariant(self);
        }
        self.0
    }

    /// The quantity this value represents.
    pub fn quantity(&self) -> (q: u64)
        ensures
            q == self@,
            q <= 9,
    {
        self.digit() as u64
    }

    /// Position of the value on the number line.
    pub fn ordinal(&self) -> (o: u8)
        ensures
            o == self@,
    {
        self.digit()
    }

    pub fn is_even(&self) -> (b: bool)
        ensures
            b == (self@ % 2 == 0),
    {
        self.digit() % 2 == 0
    }

    pub fn is_odd(&self) -> (b: bool)
        ensures
            b == (self@ % 2 != 0),
    {
        self.digit() % 2 != 0
    }

    /// Whether the value is a prime number.
    pub fn is_prime(&self) -> (b: bool)
        ensures
            b == is_prime_nat(self@),
    {
        let d = self.digit();
        proof {
            lemma_digit_primes(d as nat);
        }
        d == 2 || d == 3 || d == 5 || d == 7
    }

    pub fn is_zero(&self) -> (b: bool)
        ensures
            b == (self@ == 0),
    {
        self.digit() == 0
    }

    pub fn is_one(&self) -> (b: bool)
        ensures
            b == (self@ == 1),
    {
        self.digit() == 1
    }

    /// What must be added to this value to make ten.
    pub fn complement_10(&self) -> (c: u8)
        ensures
            c + self@ == 10,
    {
        10 - self.digit()
    }

    /// What must be added to this value to make nine.
    pub fn complement_9(&self) -> (c: u8)
        ensures
            c + self@ == 9,
    {
        9 - self.digit()
    }

    /// All digits greater than this value, in increasing order.
    pub fn greater_values(&self) -> (r: Vec<Value>)
        ensures
            r@.len() == 9 - self@,
            forall|i: int| 0 <= i < r@.len() ==> #[trigger] r@[i]@ == self@ + 1 + i,
    {
        let me = self.digit();
        let mut r: Vec<Value> = Vec::new();
        let mut d: u8 = me + 1;
        while d <= 9
            invariant
                me <= 9,
                me + 1 <= d <= 10,
                r@.len() == d - me - 1,
                forall|i: int| 0 <= i < r@.len() ==> #[trigger] r@[i]@ == me + 1 + i,
            decreases 10 - d,
        {
            r.push(Value(d));
            d = d + 1;
        }
        r
    }

    /// All digits less than this value, in increasing order.
    pub fn lesser_values(&self) -> (r: Vec<Value>)
        ensures
            r@.len() == self@,
            forall|i: int| 0 <= i < r@.len() ==> #[trigger] r@[i]@ == i,
    {
        let me = self.digit();
        let mut r: Vec<Value> = Vec::new();
        let mut d: u8 = 0;
        while d < me
            invariant
                me <= 9,
                d <= me,
                r@.len() == d,
                forall|i: int| 0 <= i < r@.len() ==> #[trigger] r@[i]@ == i,
            decreases me - d,
        {
            r.push(Value(d));
            d = d + 1;
        }
        r
    }

    /// The divisors of this digit, in increasing order (none for zero).
    pub fn factors(&self) -> (r: Vec<u8>)
        ensures
            self@ == 0 ==> r@.len() == 0,
            forall|i: int, j: int| 0 <= i < j < r@.len() ==> r@[i] < r@[j],
            forall|i: int|
                0 <= i < r@.len() ==> 1 <= #[trigger] r@[i] <= self@ && self@ % (r@[i] as nat) == 0,
            forall|f: u8| 1 <= f <= self@ && self@ % (f as nat) == 0 ==> r@.contains(f),
    {
        let me = self.digit();
        let mut r: Vec<u8> = Vec::new();
        if me == 0 {
            return r;
        }
        let mut f: u8 = 1;
        while f <= me
            invariant
                1 <= me <= 9,
                1 <= f <= me + 1,
                forall|i: int, j: int| 0 <= i < j < r@.len() ==> r@[i] < r@[j],
                forall|i: int|
                    0 <= i < r@.len() ==> 1 <= #[trigger] r@[i] < f && me % r@[i] == 0,
                forall|g: u8| 1 <= g < f && me % g == 0 ==> r@.contains(g),
            decreases me + 1 - f,
        {
            let ghost old_r = r@;
            if me % f == 0 {
                r.push(f);
                assert(r@[r@.len() - 1] == f);
            }
            assert forall|g: u8| 1 <= g < f + 1 && me % g == 0 implies r@.contains(g) by {
                if g == f {
                    assert(r@[r@.len() - 1] == f);
                } else {
                    assert(old_r.contains(g));
                    let k = choose|k: int| 0 <= k < old_r.len() && old_r[k] == g;
                    assert(r@[k] == g);
                }
            }
            f = f + 1;
        }
        r
    }

    /// Whether this digit evenly divides another digit (zero divides nothing).
    pub fn divides(&self, other: &Value) -> (b: bool)
        ensures
            b == (self@ != 0 && other@ % self@ == 0),
    {
        let me = self.digit();
        if me == 0 {
            return false;
        }
        other.digit() % me == 0
    }
}

/// Primality of a natural number.
pub open spec fn is_prime_nat(n: nat) -> bool {
    n >= 2 && forall|d: nat| 2 <= d < n ==> #[trigger] (n % d) != 0
}

proof fn lemma_digit_primes(d: nat)
    requires
        d <= 9,
    ensures
        is_prime_nat(d) <==> (d == 2 || d == 3 || d == 5 || d == 7),
{
    if d == 4 || d == 6 || d == 8 {
        assert(d % 2 == 0);
    } else if d == 9 {
        assert(d % 3 == 0);
    } else if d == 2 || d == 3 || d == 5 || d == 7 {
        assert forall|k: nat| 2 <= k < d implies #[trigger] (d % k) != 0 by {
            if d == 5 {
                assert(k == 2 || k == 3 || k == 4);
            } else if d == 7 {
                assert(k == 2 || k == 3 || k == 4 || k == 5 || k == 6);
            }
        }
    }
}

// ============================================================================
// PRE-COMPUTED FACT TABLES
// ============================================================================

pub const ADDITION_TABLE: [[u8; 10]; 10] = [
    [0, 1, 2, 3, 4, 5, 6, 7, 8, 9],
    [1, 2, 3, 4, 5, 6, 7, 8, 9, 10],
    [2, 3, 4, 5, 6, 7, 8, 9, 10, 11],
    [3, 4, 5, 6, 7, 8, 9, 10, 11, 12],
    [4, 5, 6, 7, 8, 9, 10, 11, 12, 13],
    [5, 6, 7, 8, 9, 10, 11, 12, 13, 14],
    [6, 7, 8, 9, 10, 11, 12, 13, 14, 15],
    [7, 8, 9, 10, 11, 12, 13, 14, 15, 16],
    [8, 9, 10, 11, 12, 13, 14, 15, 16, 17],
    [9, 10, 11, 12, 13, 14, 15, 16, 17, 18],
];

pub const SUBTRACTION_TABLE: [[i8; 10]; 10] = [
    [0, -1, -2, -3, -4, -5, -6, -7, -8, -9],
    [1, 0, -1, -2, -3, -4, -5, -6, -7, -8],
    [2, 1, 0, -1, -2, -3, -4, -5, -6, -7],
    [3, 2, 1, 0, -1, -2, -3, -4, -5, -6],
    [4, 3, 2, 1, 0, -1, -2, -3, -4, -5],
    [5, 4, 3, 2, 1, 0, -1, -2, -3, -4],
    [6, 5, 4, 3, 2, 1, 0, -1, -2, -3],
    [7, 6, 5, 4, 3, 2, 1, 0, -1, -2],
    [8, 7, 6, 5, 4, 3, 2, 1, 0, -1],
    [9, 8, 7, 6, 5, 4, 3, 2, 1, 0],
];

pub const MULTIPLICATION_TABLE: [[u8; 10]; 10] = [
    [0, 0, 0, 0, 0, 0, 0, 0, 0, 0],
    [0, 1, 2, 3, 4, 5, 6, 7, 8, 9],
    [0, 2, 4, 6, 8, 10, 12, 14, 16, 18],
    [0, 3, 6, 9, 12, 15, 18, 21, 24, 27],
    [0, 4, 8, 12, 16, 20, 24, 28, 32, 36],
    [0, 5, 10, 15, 20, 25, 30, 35, 40, 45],
    [0, 6, 12, 18, 24, 30, 36, 42, 48, 54],
    [0, 7, 14, 21, 28, 35, 42, 49, 56, 63],
    [0, 8, 16, 24, 32, 40, 48, 56, 64, 72],
    [0, 9, 18, 27, 36, 45, 54, 63, 72, 81],
];

// ============================================================================
// FACT RETRIEVAL
// ============================================================================

/// The addition fact for two digits, read from the addition table.
pub fn add(a: Value, b: Value) -> (r: u8)
    ensures
        r == a@ + b@,
{
    ADDITION_TABLE[a.digit() as usize][b.digit() as usize]
}

/// The subtraction fact for two digits, read from the subtraction table.
pub fn sub(a: Value, b: Value) -> (r: i8)
    ensures
        r == a@ - b@,
{
    SUBTRACTION_TABLE[a.digit() as usize][b.digit() as usize]
}

/// The multiplication fact for two digits, read from the multiplication table.
pub fn mul(a: Value, b: Value) -> (r: u8)
    ensures
        r == a@ * b@,
{
    let x = a.digit();
    let y = b.digit();
    let r = MULTIPLICATION_TABLE[x as usize][y as usize];
    if x == 0 {
        assert(r == 0 * y);
        assert(r == x * y) by (nonlinear_arith) requires x == 0, r == 0 * y;
    } else if x == 1 {
        assert(r == 1 * y);
        assert(r == x * y) by (nonlinear_arith) requires x == 1, r == 1 * y;
    } else if x == 2 {
        assert(r == 2 * y);
        assert(r == x * y) by (nonlinear_arith) requires x == 2, r == 2 * y;
    } else if x == 3 {
        assert(r == 3 * y);
        assert(r == x * y) by (nonlinear_arith) requires x == 3, r == 3 * y;
    } else if x == 4 {
        assert(r == 4 * y);
        assert(r == x * y) by (nonlinear_arith) requires x == 4, r == 4 * y;
    } else if x == 5 {
        assert(r == 5 * y);
        assert(r == x * y) by (nonlinear_arith) requires x == 5, r == 5 * y;
    } else if x == 6 {
        assert(r == 6 * y);
        assert(r == x * y) by (nonlinear_arith) requires x == 6, r == 6 * y;
    } else if x == 7 {
        assert(r == 7 * y);
        assert(r == x * y) by (nonlinear_arith) requires x == 7, r == 7 * y;
    } else if x == 8 {
        assert(r == 8 * y);
        assert(r == x * y) by (nonlinear_arith) requires x == 8, r == 8 * y;
    } else if x == 9 {
        assert(r == 9 * y);
        assert(r == x * y) by (nonlinear_arith) requires x == 9, r == 9 * y;
    }
    r
}

/// The division fact: `(quotient, remainder)`, or `None` when dividing by zero.
pub fn div(a: Value, b: Value) -> (r: Option<(u8, u8)>)
    ensures
        r is None <==> b@ == 0,
        r matches Some((q, m)) ==> q == a@ / b@ && m == a@ % b@,
{
    if b.is_zero() {
        None
    } else {
        Some((a.digit() / b.digit(), a.digit() % b.digit()))
    }
}

// ============================================================================
// PLACE VALUE
// ============================================================================

/// `10^e` as a machine integer.
fn pow10_u64(e: u32) -> (r: u64)
    requires
        e <= 19,
    ensures
        r == pow10(e as nat),
{
    proof {
        lemma_pow10_20();
    }
    let mut r: u64 = 1;
    let mut i: u32 = 0;
    while i < e
        invariant
            i <= e <= 19,
            r == pow10(i as nat),
            pow10(19) == 10_000_000_000_000_000_000nat,
        decreases e - i,
    {
        proof {
            lemma_pow10_mono((i + 1) as nat, 19);
        }
        r = r * 10;
        i = i + 1;
    }
    r
}

/// A digit paired with the power of ten it stands for.
#[derive(Debug, Clone, Copy, PartialEq, Eq)]
pub struct PlaceComponent {
    pub value: Value,
    pub place: u64,
}

impl PlaceComponent {
    /// The amount this component contributes: digit times place.
    pub fn contribution(&self) -> (c: u64)
        requires
            self.value@ * self.place <= u64::MAX,
        ensures
            c == self.value@ * self.place,
    {
        self.value.quantity() * self.place
    }
}

/// The number a sequence of place components stands for.
pub open spec fn compose_value(cs: Seq<PlaceComponent>) -> nat
    decreases cs.len(),
{
    if cs.len() == 0 {
        0
    } else {
        compose_value(cs.drop_last()) + cs.last().value@ * (cs.last().place as nat)
    }
}

/// The place-value decomposition of `n`, most significant digit first.
pub open spec fn decomposition_of(n: nat, cs: Seq<PlaceComponent>) -> bool {
    &&& cs.len() == num_digits(n)
    &&& forall|i: int|
        0 <= i < cs.len() ==> {
            &&& (#[trigger] cs[i]).place == pow10((cs.len() - 1 - i) as nat)
            &&& cs[i].value@ == digit_of(n, (cs.len() - 1 - i) as nat)
        }
}

/// The value of the components with the lowest `k` places, for a
/// most-significant-first decomposition.
proof fn lemma_compose_decomposition(n: nat, cs: Seq<PlaceComponent>, k: nat)
    requires
        decomposition_of(n, cs),
        k <= cs.len(),
    ensures
        compose_value(cs.subrange(cs.len() - k, cs.len() as int)) == n % pow10(k),
    decreases k,
{
    let len = cs.len();
    if k == 0 {
        assert(cs.subrange(len as int, len as int) =~= Seq::<PlaceComponent>::empty());
        lemma_pow10_pos(0);
        assert(pow10(0) == 1);
    } else {
        // Peel off the most significant of the k components, at index len - k.
        lemma_compose_decomposition(n, cs, (k - 1) as nat);
        let sub = cs.subrange(len - k, len as int);
        lemma_compose_value_front(sub);
        assert(sub.drop_first() =~= cs.subrange(len - (k - 1), len as int));
        let c = cs[len - k];
        assert(sub[0] == c);
        assert(c.place == pow10((k - 1) as nat));
        assert(c.value@ == digit_of(n, (k - 1) as nat));
        lemma_mod_pow10_step(n, (k - 1) as nat);
        lemma_mul_is_commutative(c.value@ as int, c.place as int);
    }
}

/// `compose_value` can equally be computed from the front.
proof fn lemma_compose_value_front(cs: Seq<PlaceComponent>)
    requires
        cs.len() > 0,
    ensures
        compose_value(cs) == cs[0].value@ * cs[0].place + compose_value(cs.drop_first()),
    decreases cs.len(),
{
    if cs.len() > 1 {
        lemma_compose_value_front(cs.drop_last());
        assert(cs.drop_last().drop_first() =~= cs.drop_first().drop_last());
        assert(cs.drop_last()[0] == cs[0]);
        assert(cs.drop_first().last() == cs.last());
    } else {
        assert(cs.drop_first() =~= Seq::<PlaceComponent>::empty());
        assert(cs.drop_last() =~= Seq::<PlaceComponent>::empty());
    }
}

/// Composition undoes decomposition: the components of `n` are worth `n`.
pub proof fn lemma_compose_decompose(n: nat, cs: Seq<PlaceComponent>)
    requires
        decomposition_of(n, cs),
    ensures
        compose_value(cs) == n,
{
    lemma_compose_decomposition(n, cs, cs.len());
    assert(cs.subrange(0, cs.len() as int) =~= cs);
    lemma_num_digits_bounds(n);
    lemma_small_mod_pow10(n, cs.len());
}

/// Decompose a non-negative integer into digit/place components,
/// most significant first.
pub fn decompose(n: u64) -> (r: Vec<PlaceComponent>)
    ensures
        decomposition_of(n as nat, r@),
{
    proof {
        lemma_pow10_20();
        lemma_u64_num_digits(n);
        lemma_num_digits_bounds(n as nat);
    }
    if n == 0 {
        let mut v: Vec<PlaceComponent> = Vec::new();
        v.push(PlaceComponent { value: Value(0), place: 1 });
        proof {
            assert(pow10(0) == 1);
            assert(digit_of(0, 0) == 0) by {
                assert(pow10(0) == 1);
            }
        }
        return v;
    }
    let mut components: Vec<PlaceComponent> = Vec::new();
    let mut remaining = n;
    let mut place: u64 = 1;
    let mut count: usize = 0;
    while remaining > 0
        invariant
            n > 0,
            num_digits(n as nat) <= 20,
            count == components@.len(),
            remaining > 0 ==> place == pow10(count as nat),
            remaining == (n as nat) / pow10(count as nat),
            count > 0 ==> n >= pow10((count - 1) as nat),
            forall|j: int|
                0 <= j < count ==> {
                    &&& (#[trigger] components@[j]).place == pow10(j as nat)
                    &&& components@[j].value@ == digit_of(n as nat, j as nat)
                },
            pow10(19) == 10_000_000_000_000_000_000nat,
        decreases remaining,
    {
        proof {
            lemma_pow10_pos(count as nat);
            lemma_div_pos_is_pos(n as int, pow10(count as nat) as int);
            // remaining > 0 means n >= 10^count
            let ghost nn = n as nat;
            let ghost pc = pow10(count as nat);
            lemma_fundamental_div_mod(nn as int, pc as int);
            assert(nn >= pc) by (nonlinear_arith)
                requires
                    nn == pc * (nn / pc) + nn % pc,
                    nn / pc >= 1,
                    nn % pc >= 0,
                    pc > 0,
            ;
            // so count + 1 <= num_digits(n) <= 20
            lemma_num_digits_bounds(n as nat);
            if count as nat + 1 > num_digits(n as nat) {
                lemma_pow10_mono(num_digits(n as nat), count as nat);
            }
            lemma_pow10_succ(count as nat);
            lemma_div_denominator(n as int, pow10(count as nat) as int, 10);
        }
        let digit = (remaining % 10) as u8;
        components.push(PlaceComponent { value: Value(digit), place });
        remaining = remaining / 10;
        count = count + 1;
        if remaining > 0 {
            proof {
                // n >= 10^count, so count + 1 <= num_digits(n) <= 20 and 10^count fits
                let ghost nn = n as nat;
                let ghost pc = pow10(count as nat);
                lemma_pow10_pos(count as nat);
                lemma_fundamental_div_mod(nn as int, pc as int);
                assert(nn >= pc) by (nonlinear_arith)
                    requires
                        nn == pc * (nn / pc) + nn % pc,
                        nn / pc >= 1,
                        nn % pc >= 0,
                        pc > 0,
                ;
                if count as nat + 1 > num_digits(n as nat) {
                    lemma_pow10_mono(num_digits(n as nat), count as nat);
                }
                lemma_pow10_mono(count as nat, 19);
            }
            place = place * 10;
        }
    }
    proof {
        // n < 10^count and n >= 10^(count-1): count is the digit count of n
        lemma_pow10_pos(count as nat);
        let nn = n as nat;
        let pc = pow10(count as nat);
        lemma_fundamental_div_mod(nn as int, pc as int);
        lemma_mod_bound(nn as int, pc as int);
        assert(nn / pc == 0);
        lemma_mul_basics(pc as int);
        assert(pc * (nn / pc) == 0);
        assert(nn < pc);
        let m = num_digits(n as nat);
        if (count as nat) < m {
            lemma_pow10_mono(count as nat, (m - 1) as nat);
        } else if (count as nat) > m {
            lemma_pow10_mono(m, (count - 1) as nat);
        }
        assert(count as nat == m);
    }
    // most significant first
    let mut out: Vec<PlaceComponent> = Vec::new();
    let mut k: usize = count;
    while k > 0
        invariant
            k <= count,
            count == components@.len(),
            out@.len() == count - k,
            forall|i: int| 0 <= i < out@.len() ==> #[trigger] out@[i] == components@[count - 1 - i],
        decreases k,
    {
        k = k - 1;
        out.push(components[k]);
    }
    proof {
        assert forall|i: int| 0 <= i < out@.len() implies {
            &&& (#[trigger] out@[i]).place == pow10((out@.len() - 1 - i) as nat)
            &&& out@[i].value@ == digit_of(n as nat, (out@.len() - 1 - i) as nat)
        } by {
            assert(out@[i] == components@[count - 1 - i]);
        }
    }
    out
}

/// Compose a number from its place components: the sum of their contributions.
pub fn compose(components: &[PlaceComponent]) -> (r: u64)
    requires
        compose_value(components@) <= u64::MAX,
    ensures
        r == compose_value(components@),
{
    let mut total: u64 = 0;
    let mut i: usize = 0;
    while i < components.len()
        invariant
            i <= components@.len(),
            compose_value(components@) <= u64::MAX,
            total == compose_value(components@.take(i as int)),
        decreases components@.len() - i,
    {
        proof {
            assert(components@.take(i + 1).drop_last() =~= components@.take(i as int));
            lemma_compose_value_prefix(components@, i + 1);
        }
        total = total + components[i].contribution();
        i = i + 1;
    }
    assert(components@.take(i as int) =~= components@);
    total
}

proof fn lemma_compose_value_prefix(cs: Seq<PlaceComponent>, i: int)
    requires
        0 <= i <= cs.len(),
    ensures
        compose_value(cs.take(i)) <= compose_value(cs),
    decreases cs.len() - i,
{
    if i < cs.len() {
        lemma_compose_value_prefix(cs, i + 1);
        assert(cs.take(i + 1).drop_last() =~= cs.take(i));
        lemma_mul_nonnegative(cs[i].value@ as int, cs[i].place as int);
    } else {
        assert(cs.take(i) =~= cs);
    }
}

/// Number of decimal digits of `n` (zero has one digit).
pub fn digit_count(n: u64) -> (r: usize)
    ensures
        r == num_digits(n as nat),
        1 <= r <= 20,
{
    proof {
        lemma_u64_num_digits(n);
        lemma_num_digits_bounds(n as nat);
    }
    if n == 0 {
        return 1;
    }
    let mut count: usize = 0;
    let mut remaining = n;
    while remaining > 0
        invariant
            n > 0,
            count + (if remaining == 0 { 0 } else { num_digits(remaining as nat) }) == num_digits(
                n as nat,
            ),
            num_digits(n as nat) <= 20,
        decreases remaining,
    {
        proof {
            lemma_num_digits_bounds(remaining as nat);
        }
        count = count + 1;
        remaining = remaining / 10;
    }
    count
}

/// The digit of `n` at `position` (0 = ones, 1 = tens, ...).
pub fn digit_at(n: u64, position: u32) -> (v: Value)
    ensures
        v@ == digit_of(n as nat, position as nat),
{
    if position >= 20 {
        proof {
            lemma_pow10_20();
            lemma_pow10_mono(20, position as nat);
            lemma_pow10_pos(position as nat);
            assert((n as nat) / pow10(position as nat) == 0) by {
                vstd::arithmetic::div_mod::lemma_basic_div(n as int, pow10(position as nat) as int);
            }
        }
        return Value(0);
    }
    let divisor = pow10_u64(position);
    proof {
        lemma_pow10_pos(position as nat);
    }
    Value(((n / divisor) % 10) as u8)
}

// ============================================================================
// MULTI-DIGIT ARITHMETIC
// ============================================================================

/// One recorded digit-level step of a multi-digit operation.
#[derive(Debug, Clone)]
pub struct ArithmeticStep {
    pub position: usize,
    pub operand_a: Value,
    pub operand_b: Value,
    pub carry_in: u8,
    pub intermediate: u8,
    pub result_digit: u8,
    pub carry_out: u8,
    pub rule: &'static str,
}

/// The result of a multi-digit operation, with its digit-level trace.
#[derive(Debug, Clone)]
pub struct MultiDigitResult {
    pub result: u64,
    pub steps: Vec<ArithmeticStep>,
    pub verified: bool,
}

/// The result of a division: quotient and remainder.
#[derive(Debug, Clone)]
pub struct DivisionResult {
    pub quotient: u64,
    pub remainder: u64,
    pub dividend: u64,
    pub divisor: u64,
    pub verified: bool,
}

pub open spec fn max_nat(x: nat, y: nat) -> nat {
    if x >= y {
        x
    } else {
        y
    }
}

/// The carry into position `p` when adding `a` and `b` column by column.
pub open spec fn add_carry(a: nat, b: nat, p: nat) -> nat {
    (a % pow10(p) + b % pow10(p)) / pow10(p)
}

/// Step `i` of the column addition of `a` and `b`.
pub open spec fn addition_step(a: nat, b: nat, i: nat, s: ArithmeticStep) -> bool {
    let da = digit_of(a, i);
    let db = digit_of(b, i);
    let cin = add_carry(a, b, i);
    &&& s.position == i
    &&& s.operand_a@ == da
    &&& s.operand_b@ == db
    &&& s.carry_in == cin
    &&& s.intermediate == da + db
    &&& s.result_digit == (da + db + cin) % 10
    &&& s.carry_out == (da + db + cin) / 10
    &&& s.rule@ == "value_core_addition"@
}

/// The borrow into position `p` when subtracting `b` from `a` column by column.
pub open spec fn sub_borrow(a: nat, b: nat, p: nat) -> nat {
    if a % pow10(p) >= b % pow10(p) {
        0
    } else {
        1
    }
}

/// Step `i` of the column subtraction of `b` from `a`.
pub open spec fn subtraction_step(a: nat, b: nat, i: nat, s: ArithmeticStep) -> bool {
    let da = digit_of(a, i);
    let db = digit_of(b, i);
    let bin = sub_borrow(a, b, i);
    &&& s.position == i
    &&& s.operand_a@ == da
    &&& s.operand_b@ == db
    &&& s.carry_in == bin
    &&& s.intermediate == 0
    &&& s.result_digit == (da - db - bin + 10) % 10
    &&& s.carry_out == (if da - db - bin < 0 { 1int } else { 0int })
    &&& s.rule@ == "value_core_subtraction"@
}

/// The carry into position `p` when multiplying `a` by the single digit `d`.
pub open spec fn mul_carry(a: nat, d: nat, p: nat) -> nat {
    ((a % pow10(p)) * d) / pow10(p)
}

/// Step `k` of the long multiplication of `a` by `b`, where `len_a` is the
/// number of digits of `a`: the digit of `b` at position `k / len_a` times the
/// digit of `a` at position `k % len_a`.
pub open spec fn multiplication_step(a: nat, b: nat, len_a: nat, k: nat, s: ArithmeticStep) -> bool {
    let ap = k % len_a;
    let bp = k / len_a;
    let da = digit_of(a, ap);
    let db = digit_of(b, bp);
    let cin = mul_carry(a, db, ap);
    &&& s.position == ap + bp
    &&& s.operand_a@ == da
    &&& s.operand_b@ == db
    &&& s.carry_in == cin
    &&& s.intermediate == da * db
    &&& s.result_digit == (da * db + cin) % 10
    &&& s.carry_out == (da * db + cin) / 10
    &&& s.rule@ == "value_core_multiplication"@
}

proof fn lemma_max_digits_bound(a: u64, b: u64)
    ensures
        (a as nat) < pow10(max_nat(num_digits(a as nat), num_digits(b as nat))),
        (b as nat) < pow10(max_nat(num_digits(a as nat), num_digits(b as nat))),
        max_nat(num_digits(a as nat), num_digits(b as nat)) <= 20,
{
    let d = max_nat(num_digits(a as nat), num_digits(b as nat));
    lemma_num_digits_bounds(a as nat);
    lemma_num_digits_bounds(b as nat);
    lemma_pow10_mono(num_digits(a as nat), d);
    lemma_pow10_mono(num_digits(b as nat), d);
    lemma_u64_num_digits(a);
    lemma_u64_num_digits(b);
}

/// Turns little-endian digits into the number they stand for.
fn digits_to_u64(digits: &Vec<u8>, Ghost(bound): Ghost<nat>) -> (r: u64)
    requires
        digits_value(digits@) == bound,
        bound <= u64::MAX,
        digits@.len() <= 20,
    ensures
        r == bound,
{
    let mut result: u64 = 0;
    let mut i: usize = 0;
    proof {
        lemma_pow10_20();
    }
    while i < digits.len()
        invariant
            i <= digits@.len() <= 20,
            result == digits_value(digits@.take(i as int)),
            digits_value(digits@) == bound,
            bound <= u64::MAX,
        decreases digits@.len() - i,
    {
        proof {
            assert(digits@.take(i + 1).drop_last() =~= digits@.take(i as int));
            lemma_digits_value_prefix(digits@, i + 1);
        }
        let d = digits[i];
        let p = pow10_u64(i as u32);
        proof {
            assert(digits_value(digits@.take(i + 1)) == result + (d as nat) * pow10(i as nat));
            lemma_mul_nonnegative(d as int, pow10(i as nat) as int);
        }
        result = result + (d as u64) * p;
        i = i + 1;
    }
    assert(digits@.take(i as int) =~= digits@);
    result
}

/// Add two non-negative integers column by column, with carry propagation.
pub fn add_multi(a: u64, b: u64) -> (r: MultiDigitResult)
    requires
        a + b <= u64::MAX,
    ensures
        r.result == a + b,
        !r.verified,
        r.steps@.len() == max_nat(num_digits(a as nat), num_digits(b as nat)),
        forall|i: int|
            0 <= i < r.steps@.len() ==> addition_step(a as nat, b as nat, i as nat, #[trigger] r.steps@[i]),
{
    let mut result_digits: Vec<u8> = Vec::new();
    let mut steps: Vec<ArithmeticStep> = Vec::new();
    let mut carry: u8 = 0;
    let da_count = digit_count(a);
    let db_count = digit_count(b);
    let max_digits = if da_count >= db_count { da_count } else { db_count };
    proof {
        lemma_max_digits_bound(a, b);
    }
    let ghost an = a as nat;
    let ghost bn = b as nat;
    let mut pos: usize = 0;
    while pos < max_digits
        invariant
            an == a,
            bn == b,
            max_digits == max_nat(num_digits(an), num_digits(bn)),
            max_digits <= 20,
            pos <= max_digits,
            result_digits@.len() == pos,
            steps@.len() == pos,
            carry <= 1,
            digits_value(result_digits@) + (if carry == 1 { pow10(pos as nat) } else { 0 }) == an
                % pow10(pos as nat) + bn % pow10(pos as nat),
            digits_value(result_digits@) < pow10(pos as nat),
            carry == add_carry(an, bn, pos as nat),
            forall|i: int| 0 <= i < pos ==> addition_step(an, bn, i as nat, #[trigger] steps@[i]),
        decreases max_digits - pos,
    {
        let digit_a = digit_at(a, pos as u32);
        let digit_b = digit_at(b, pos as u32);
        let partial_sum = self::add(digit_a, digit_b);
        let total = partial_sum + carry;
        let result_digit = total % 10;
        let new_carry = total / 10;
        let ghost p = pow10(pos as nat);
        let ghost dv = digits_value(result_digits@);
        let ghost old_carry = carry;
        proof {
            lemma_pow10_pos(pos as nat);
            lemma_pow10_succ(pos as nat);
            lemma_mod_pow10_step(an, pos as nat);
            lemma_mod_pow10_step(bn, pos as nat);
            lemma_digits_value_push(result_digits@, result_digit);
        }
        steps.push(
            ArithmeticStep {
                position: pos,
                operand_a: digit_a,
                operand_b: digit_b,
                carry_in: carry,
                intermediate: partial_sum,
                result_digit,
                carry_out: new_carry,
                rule: "value_core_addition",
            },
        );
        result_digits.push(result_digit);
        carry = new_carry;
        proof {
            let p1 = pow10((pos + 1) as nat);
            let da = digit_of(an, pos as nat);
            let db = digit_of(bn, pos as nat);
            let sum1 = an % p1 + bn % p1;
            assert(p1 == p * 10);
            assert(digits_value(result_digits@) == dv + (result_digit as nat) * p);
            assert(digits_value(result_digits@) + (if carry == 1 { p1 } else { 0 }) == sum1)
                by (nonlinear_arith)
                requires
                    p1 == p * 10,
                    dv + (if old_carry == 1 { p } else { 0 }) == an % p + bn % p,
                    total == da + db + (old_carry as nat),
                    result_digit == total % 10,
                    carry == total / 10,
                    total <= 19,
                    old_carry <= 1,
                    an % p1 == an % p + da * p,
                    bn % p1 == bn % p + db * p,
                    digits_value(result_digits@) == dv + (result_digit as nat) * p,
                    sum1 == an % p1 + bn % p1,
            ;
            assert(digits_value(result_digits@) < p1) by (nonlinear_arith)
                requires
                    dv < p,
                    result_digit <= 9,
                    digits_value(result_digits@) == dv + (result_digit as nat) * p,
                    p1 == p * 10,
            ;
            assert(carry <= 1);
            if carry == 1 {
                assert(carry as int * p1 == p1);
            } else {
                assert(carry == 0);
                lemma_mul_basics(p1 as int);
                assert(carry as int * p1 == 0);
            }
            lemma_fundamental_div_mod_converse_div(
                sum1 as int,
                p1 as int,
                carry as int,
                digits_value(result_digits@) as int,
            );
            assert(addition_step(an, bn, pos as nat, steps@[pos as int]));
        }
        pos = pos + 1;
    }
    proof {
        lemma_small_mod_pow10(an, pos as nat);
        lemma_small_mod_pow10(bn, pos as nat);
    }
    if carry > 0 {
        proof {
            lemma_digits_value_push(result_digits@, carry);
            lemma_pow10_20();
            if pos >= 20 {
                lemma_pow10_mono(20, pos as nat);
            }
        }
        result_digits.push(carry);
    }
    proof {
        lemma_pow10_20();
    }
    let result = digits_to_u64(&result_digits, Ghost(an + bn));
    MultiDigitResult { result, steps, verified: false }
}

/// Subtract `b` from `a` column by column, with borrow propagation.
/// `None` when `b > a`.
pub fn sub_multi(a: u64, b: u64) -> (r: Option<MultiDigitResult>)
    ensures
        r is None <==> b > a,
        r matches Some(m) ==> {
            &&& m.result == a - b
            &&& !m.verified
            &&& m.steps@.len() == max_nat(num_digits(a as nat), num_digits(b as nat))
            &&& forall|i: int|
                0 <= i < m.steps@.len() ==> subtraction_step(
                    a as nat,
                    b as nat,
                    i as nat,
                    #[trigger] m.steps@[i],
                )
        },
{
    if b > a {
        return None;
    }
    let mut result_digits: Vec<u8> = Vec::new();
    let mut steps: Vec<ArithmeticStep> = Vec::new();
    let mut borrow: u8 = 0;
    let da_count = digit_count(a);
    let db_count = digit_count(b);
    let max_digits = if da_count >= db_count { da_count } else { db_count };
    proof {
        lemma_max_digits_bound(a, b);
    }
    let ghost an = a as nat;
    let ghost bn = b as nat;
    let mut pos: usize = 0;
    while pos < max_digits
        invariant
            an == a,
            bn == b,
            bn <= an,
            max_digits == max_nat(num_digits(an), num_digits(bn)),
            max_digits <= 20,
            pos <= max_digits,
            result_digits@.len() == pos,
            steps@.len() == pos,
            borrow <= 1,
            digits_value(result_digits@) + bn % pow10(pos as nat) == an % pow10(pos as nat) + (
            if borrow == 1 {
                pow10(pos as nat)
            } else {
                0
            }),
            digits_value(result_digits@) < pow10(pos as nat),
            borrow == sub_borrow(an, bn, pos as nat),
            forall|i: int| 0 <= i < pos ==> subtraction_step(an, bn, i as nat, #[trigger] steps@[i]),
        decreases max_digits - pos,
    {
        let da = digit_at(a, pos as u32).digit();
        let db = digit_at(b, pos as u32).digit();
        let a_adj = da as i8 - borrow as i8;
        let diff = a_adj - db as i8;
        let (rd, nb) = if diff < 0 {
            ((diff + 10) as u8, 1u8)
        } else {
            (diff as u8, 0u8)
        };
        let ghost p = pow10(pos as nat);
        let ghost dv = digits_value(result_digits@);
        let ghost old_borrow = borrow;
        proof {
            lemma_pow10_pos(pos as nat);
            lemma_pow10_succ(pos as nat);
            lemma_mod_pow10_step(an, pos as nat);
            lemma_mod_pow10_step(bn, pos as nat);
            lemma_digits_value_push(result_digits@, rd);
            lemma_mod_bound(an as int, p as int);
            lemma_mod_bound(bn as int, p as int);
        }
        steps.push(
            ArithmeticStep {
                position: pos,
                operand_a: Value(da),
                operand_b: Value(db),
                carry_in: borrow,
                intermediate: 0,
                result_digit: rd,
                carry_out: nb,
                rule: "value_core_subtraction",
            },
        );
        result_digits.push(rd);
        borrow = nb;
        proof {
            let p1 = pow10((pos + 1) as nat);
            let am = an % p1;
            let bm = bn % p1;
            assert(p1 == p * 10);
            assert(digits_value(result_digits@) == dv + (rd as nat) * p);
            let ob_term: int = if old_borrow == 1 { p as int } else { 0 };
            let nb_term: int = if borrow == 1 { p1 as int } else { 0 };
            lemma_mul_basics(p as int);
            lemma_mul_basics(p1 as int);
            assert(ob_term == (old_borrow as int) * p);
            assert(nb_term == (borrow as int) * p1);
            let (ri, ai, bi, oi, ni, pi) = (rd as int, da as int, db as int, old_borrow as int, borrow as int, p as int);
            assert(ri * pi == ai * pi - bi * pi - oi * pi + 10 * (ni * pi)) by (nonlinear_arith)
                requires ri == ai - bi - oi + 10 * ni;
            assert(ni * (p1 as int) == 10 * (ni * pi)) by (nonlinear_arith)
                requires p1 == pi * 10;
            assert(digits_value(result_digits@) + bm == am + nb_term);
            assert(digits_value(result_digits@) < p1) by (nonlinear_arith)
                requires
                    dv < p,
                    rd <= 9,
                    digits_value(result_digits@) == dv + (rd as nat) * p,
                    p1 == p * 10,
            ;
            lemma_mod_bound(an as int, p1 as int);
            lemma_mod_bound(bn as int, p1 as int);
            assert(borrow == sub_borrow(an, bn, (pos + 1) as nat));
            assert(subtraction_step(an, bn, pos as nat, steps@[pos as int]));
        }
        pos = pos + 1;
    }
    proof {
        lemma_small_mod_pow10(an, pos as nat);
        lemma_small_mod_pow10(bn, pos as nat);
        lemma_pow10_20();
    }
    let result = digits_to_u64(&result_digits, Ghost((an - bn) as nat));
    Some(MultiDigitResult { result, steps, verified: false })
}

/// `digit_of(n, p) * 10^p` never exceeds `n`.
proof fn lemma_digit_place_le(n: nat, p: nat)
    ensures
        digit_of(n, p) * pow10(p) <= n,
        digit_of(n, p) <= n,
{
    lemma_mod_pow10_step(n, p);
    lemma_pow10_pos(p + 1);
    lemma_pow10_pos(p);
    lemma_mod_decreases(n, pow10(p + 1));
    if digit_of(n, p) > 0 {
        lemma_mul_increases(pow10(p) as int, digit_of(n, p) as int);
    }
    lemma_mul_is_commutative(pow10(p) as int, digit_of(n, p) as int);
}

/// Multiply two non-negative integers by long multiplication: one row of
/// single-digit products with carries per digit of `b`, then the shifted rows summed.
pub fn mul_multi(a: u64, b: u64) -> (r: MultiDigitResult)
    requires
        a * b <= u64::MAX,
    ensures
        r.result == a * b,
        !r.verified,
        (a == 0 || b == 0) ==> r.steps@.len() == 0,
        (a != 0 && b != 0) ==> r.steps@.len() == num_digits(a as nat) * num_digits(b as nat),
        (a != 0 && b != 0) ==> forall|k: int|
            0 <= k < r.steps@.len() ==> multiplication_step(
                a as nat,
                b as nat,
                num_digits(a as nat),
                k as nat,
                #[trigger] r.steps@[k],
            ),
{
    if a == 0 || b == 0 {
        return MultiDigitResult { result: 0, steps: Vec::new(), verified: false };
    }
    let ghost an = a as nat;
    let ghost bn = b as nat;
    let mut steps: Vec<ArithmeticStep> = Vec::new();
    let mut partial_products: Vec<u64> = Vec::new();
    let b_digits = digit_count(b);
    let a_count = digit_count(a);
    proof {
        lemma_num_digits_bounds(an);
        lemma_num_digits_bounds(bn);
        lemma_pow10_20();
    }
    let mut b_pos: usize = 0;
    while b_pos < b_digits
        invariant
            an == a,
            bn == b,
            a > 0,
            b > 0,
            an * bn <= u64::MAX,
            b_digits == num_digits(bn),
            a_count == num_digits(an),
            1 <= b_digits <= 20,
            1 <= a_count <= 20,
            an < pow10(a_count as nat),
            pow10(20) == 100_000_000_000_000_000_000nat,
            b_pos <= b_digits,
            partial_products@.len() == b_pos,
            forall|j: int|
                0 <= j < b_pos ==> #[trigger] partial_products@[j] == an * (digit_of(bn, j as nat)
                    * pow10(j as nat)),
            steps@.len() == b_pos * a_count,
            forall|k: int|
                0 <= k < steps@.len() ==> multiplication_step(
                    an,
                    bn,
                    a_count as nat,
                    k as nat,
                    #[trigger] steps@[k],
                ),
        decreases b_digits - b_pos,
    {
        let digit_b = digit_at(b, b_pos as u32);
        let ghost db = digit_b@;
        proof {
            lemma_digit_place_le(bn, b_pos as nat);
            lemma_mul_inequality(db as int, bn as int, an as int);
            lemma_mul_is_commutative(db as int, an as int);
            lemma_mul_is_commutative(bn as int, an as int);
        }
        let mut carry: u8 = 0;
        let mut partial: u64 = 0;
        let a_digits = digit_count(a);
        let mut a_pos: usize = 0;
        proof {
            assert(pow10(0) == 1);
            assert(an % 1 == 0);
            lemma_mul_basics(db as int);
            assert((steps@.len() as int) == (b_pos as int) * (a_count as int) + 0);
        }
        while a_pos < a_digits
            invariant
                an == a,
                bn == b,
                a > 0,
                db == digit_b@,
                db == digit_of(bn, b_pos as nat),
                db <= 9,
                an * db <= u64::MAX,
                a_digits == a_count,
                a_count == num_digits(an),
                1 <= a_count <= 20,
                b_pos < b_digits,
                b_digits <= 20,
                a_pos <= a_digits,
                carry <= 8,
                partial < pow10(a_pos as nat),
                partial + carry * pow10(a_pos as nat) == (an % pow10(a_pos as nat)) * db,
                carry == mul_carry(an, db, a_pos as nat),
                steps@.len() == b_pos * a_count + a_pos,
                forall|k: int|
                    0 <= k < steps@.len() ==> multiplication_step(
                        an,
                        bn,
                        a_count as nat,
                        k as nat,
                        #[trigger] steps@[k],
                    ),
            decreases a_digits - a_pos,
        {
            let digit_a = digit_at(a, a_pos as u32);
            let product = self::mul(digit_a, digit_b);
            proof {
                let (x, y) = (digit_a@, digit_b@);
                assert(x * y <= 81) by (nonlinear_arith)
                    requires
                        x <= 9,
                        y <= 9,
                ;
            }
            let total = product + carry;
            let rd = total % 10;
            let nc = total / 10;
            let ghost p = pow10(a_pos as nat);
            let ghost p1 = pow10((a_pos + 1) as nat);
            let ghost da = digit_a@;
            let ghost old_partial = partial as nat;
            let ghost old_carry = carry as nat;
            proof {
                lemma_pow10_pos(a_pos as nat);
                lemma_pow10_succ(a_pos as nat);
                lemma_mod_pow10_step(an, a_pos as nat);
                let am1 = an % p1;
                // (a mod 10^(k+1)) * db == partial + rd * 10^k + nc * 10^(k+1)
                let amp = an % p;
                let dadb = da * db;
                assert(am1 * db == amp * db + dadb * p) by (nonlinear_arith)
                    requires
                        am1 == amp + da * p,
                        dadb == da * db,
                ;
                assert((total as nat) * p == old_carry * p + dadb * p) by (nonlinear_arith)
                    requires
                        total == dadb + old_carry,
                ;
                assert((total as nat) * p == (rd as nat) * p + (nc as nat) * p1) by (nonlinear_arith)
                    requires
                        total == rd + 10 * nc,
                        p1 == p * 10,
                ;
                assert(am1 * db == old_partial + (rd as nat) * p + (nc as nat) * p1);
                assert(old_partial + (rd as nat) * p < p1) by (nonlinear_arith)
                    requires
                        old_partial < p,
                        rd <= 9,
                        p1 == p * 10,
                ;
                lemma_mod_decreases(an, p1);
                lemma_mul_inequality(am1 as int, an as int, db as int);
                lemma_mul_nonnegative(nc as int, p1 as int);
            }
            let place = pow10_u64(a_pos as u32);
            partial = partial + (rd as u64) * place;
            let ghost k = steps@.len();
            steps.push(
                ArithmeticStep {
                    position: a_pos + b_pos,
                    operand_a: digit_a,
                    operand_b: digit_b,
                    carry_in: carry,
                    intermediate: product,
                    result_digit: rd,
                    carry_out: nc,
                    rule: "value_core_multiplication",
                },
            );
            carry = nc;
            proof {
                lemma_fundamental_div_mod_converse(
                    k as int,
                    a_count as int,
                    b_pos as int,
                    a_pos as int,
                );
                lemma_fundamental_div_mod_converse_div(
                    ((an % p1) * db) as int,
                    p1 as int,
                    carry as int,
                    partial as int,
                );
                assert(multiplication_step(an, bn, a_count as nat, k as nat, steps@[k as int]));
                assert((steps@.len() as int) == (b_pos as int) * (a_count as int) + a_pos + 1);
            }
            a_pos = a_pos + 1;
        }
        proof {
            lemma_small_mod_pow10(an, a_count as nat);
        }
        if carry > 0 {
            proof {
                let pa = pow10(a_count as nat);
                lemma_pow10_pos(a_count as nat);
                assert(carry * pa >= pa) by (nonlinear_arith)
                    requires
                        carry >= 1,
                        pa > 0,
                ;
                if a_count >= 20 {
                    lemma_pow10_mono(20, a_count as nat);
                }
            }
            let top = pow10_u64(a_digits as u32);
            partial = partial + (carry as u64) * top;
        } else {
            proof {
                lemma_mul_basics(pow10(a_count as nat) as int);
            }
        }
        let shift = pow10_u64(b_pos as u32);
        proof {
            assert(partial == an * db);
            lemma_digit_place_le(bn, b_pos as nat);
            lemma_mul_inequality((db * pow10(b_pos as nat)) as int, bn as int, an as int);
            lemma_mul_is_commutative((db * pow10(b_pos as nat)) as int, an as int);
            lemma_mul_is_commutative(bn as int, an as int);
            lemma_mul_is_associative(an as int, db as int, pow10(b_pos as nat) as int);
        }
        partial = partial * shift;
        partial_products.push(partial);
        proof {
            assert(partial_products@[b_pos as int] == an * (digit_of(bn, b_pos as nat) * pow10(
                b_pos as nat,
            )));
            lemma_mul_is_distributive_add(b_pos as int, 1, a_count as int);
            assert((steps@.len() as int) == (b_pos as int + 1) * (a_count as int)) by (
            nonlinear_arith)
                requires
                    steps@.len() == b_pos * a_count + a_count,
            ;
        }
        b_pos = b_pos + 1;
    }
    // Sum the shifted rows.
    let mut result: u64 = 0;
    let mut j: usize = 0;
    proof {
        assert(pow10(0) == 1);
        assert(bn % 1 == 0);
        lemma_mul_basics(an as int);
    }
    while j < partial_products.len()
        invariant
            an == a,
            bn == b,
            an * bn <= u64::MAX,
            j <= partial_products@.len(),
            forall|i: int|
                0 <= i < partial_products@.len() ==> #[trigger] partial_products@[i] == an * (
                digit_of(bn, i as nat) * pow10(i as nat)),
            result == an * (bn % pow10(j as nat)),
        decreases partial_products@.len() - j,
    {
        proof {
            lemma_pow10_pos(j as nat);
            lemma_pow10_pos((j + 1) as nat);
            lemma_mod_pow10_step(bn, j as nat);
            lemma_mul_is_distributive_add(
                an as int,
                (bn % pow10(j as nat)) as int,
                (digit_of(bn, j as nat) * pow10(j as nat)) as int,
            );
            lemma_mod_decreases(bn, pow10((j + 1) as nat));
            lemma_mul_inequality((bn % pow10((j + 1) as nat)) as int, bn as int, an as int);
            lemma_mul_is_commutative((bn % pow10((j + 1) as nat)) as int, an as int);
            lemma_mul_is_commutative(bn as int, an as int);
        }
        result = result + partial_products[j];
        j = j + 1;
    }
    proof {
        lemma_small_mod_pow10(bn, j as nat);
        lemma_mul_is_commutative(b_digits as int, a_count as int);
    }
    MultiDigitResult { result, steps, verified: false }
}

/// Divide two non-negative integers; `None` for division by zero.
pub fn div_multi(a: u64, b: u64) -> (r: Option<DivisionResult>)
    ensures
        r is None <==> b == 0,
        r matches Some(d) ==> {
            &&& d.quotient == a / b
            &&& d.remainder == a % b
            &&& d.dividend == a
            &&& d.divisor == b
            &&& !d.verified
        },
{
    if b == 0 {
        return None;
    }
    Some(DivisionResult { quotient: a / b, remainder: a % b, dividend: a, divisor: b, verified: false })
}

// ============================================================================
// VERIFICATION BY INVERSE OPERATIONS
// ============================================================================

/// Checks `a + b == result` by subtracting back both operands.
pub fn verify_addition(a: u64, b: u64, result: u64) -> (ok: bool)
    ensures
        ok == (result == a + b),
{
    if let Some(c1) = sub_multi(result, b) {
        if let Some(c2) = sub_multi(result, a) {
            return c1.result == a && c2.result == b;
        }
    }
    false
}

/// Checks `a - b == result` by adding back the subtrahend.
pub fn verify_subtraction(a: u64, b: u64, result: u64) -> (ok: bool)
    requires
        result + b <= u64::MAX,
    ensures
        ok == (result + b == a),
{
    add_multi(result, b).result == a
}

/// Checks `a * b == result` by dividing back by both factors.
pub fn verify_multiplication(a: u64, b: u64, result: u64) -> (ok: bool)
    ensures
        ok == (result == a * b),
{
    if a == 0 || b == 0 {
        proof {
            lemma_mul_basics(a as int);
            lemma_mul_basics(b as int);
        }
        return result == 0;
    }
    if let Some(c1) = div_multi(result, b) {
        if let Some(c2) = div_multi(result, a) {
            proof {
                lemma_fundamental_div_mod(result as int, b as int);
                lemma_mul_is_commutative(a as int, b as int);
                if result == a * b {
                    lemma_fundamental_div_mod_converse(result as int, b as int, a as int, 0);
                    lemma_fundamental_div_mod_converse(result as int, a as int, b as int, 0);
                }
            }
            return c1.quotient == a && c1.remainder == 0 && c2.quotient == b && c2.remainder == 0;
        }
    }
    false
}

/// Checks `a == b * quotient + remainder` with `remainder < b`,
/// by multiplying back and adding the remainder.
pub fn verify_division(a: u64, b: u64, quotient: u64, remainder: u64) -> (ok: bool)
    requires
        b * quotient + remainder <= u64::MAX,
    ensures
        ok == (b != 0 && b * quotient + remainder == a && remainder < b),
{
    if b == 0 {
        return false;
    }
    proof {
        lemma_mul_nonnegative(b as int, quotient as int);
    }
    let reconstructed = mul_multi(b, quotient);
    let total = add_multi(reconstructed.result, remainder);
    total.result == a && remainder < b
}

// ============================================================================
// LAWS
// ============================================================================

/// The column-addition trace writes exactly the digits of the sum: the result
/// digit of column `i` is the digit of `a + b` at position `i`.
pub proof fn law_addition_digits(a: nat, b: nat, i: nat)
    ensures
        (digit_of(a, i) + digit_of(b, i) + add_carry(a, b, i)) % 10 == digit_of(a + b, i),
{
    let p = pow10(i);
    lemma_pow10_pos(i);
    let (qa, ra) = (a / p, a % p);
    let (qb, rb) = (b / p, b % p);
    let c = (ra + rb) / p;
    let low = (ra + rb) % p;
    lemma_fundamental_div_mod(a as int, p as int);
    lemma_fundamental_div_mod(b as int, p as int);
    lemma_fundamental_div_mod((ra + rb) as int, p as int);
    lemma_mod_bound((ra + rb) as int, p as int);
    assert(a + b == (qa + qb + c) * p + low) by (nonlinear_arith)
        requires
            a == p * qa + ra,
            b == p * qb + rb,
            ra + rb == p * c + low,
    ;
    lemma_fundamental_div_mod_converse_div((a + b) as int, p as int, (qa + qb + c) as int, low as int);
    lemma_add_mod_noop(qa as int, (qb + c) as int, 10);
    lemma_add_mod_noop(qb as int, c as int, 10);
    lemma_add_mod_noop((qa % 10) as int, (qb % 10 + c) as int, 10);
    lemma_add_mod_noop_right((qa % 10) as int, (qb + c) as int, 10);
    lemma_mod_twice(qb as int, 10);
    lemma_add_mod_noop((qb % 10) as int, c as int, 10);
    assert(c <= 1) by {
        lemma_mod_bound(a as int, p as int);
        lemma_mod_bound(b as int, p as int);
        lemma_div_is_ordered((ra + rb) as int, (2 * p - 1) as int, p as int);
        lemma_fundamental_div_mod_converse_div((2 * p - 1) as int, p as int, 1, (p - 1) as int);
    }
    lemma_small_mod(c, 10);
}

/// The column-subtraction trace writes exactly the digits of the difference.
pub proof fn law_subtraction_digits(a: nat, b: nat, i: nat)
    requires
        b <= a,
    ensures
        (digit_of(a, i) - digit_of(b, i) - sub_borrow(a, b, i) + 10) % 10 == digit_of(
            (a - b) as nat,
            i,
        ),
{
    let p = pow10(i);
    lemma_pow10_pos(i);
    let (qa, ra) = (a / p, a % p);
    let (qb, rb) = (b / p, b % p);
    let bw = sub_borrow(a, b, i);
    lemma_fundamental_div_mod(a as int, p as int);
    lemma_fundamental_div_mod(b as int, p as int);
    lemma_mod_bound(a as int, p as int);
    lemma_mod_bound(b as int, p as int);
    let low: int = ra - rb + (if bw == 1 { p as int } else { 0 });
    let q: int = qa - qb - bw;
    assert((a - b) as int == q * p + low) by (nonlinear_arith)
        requires
            a == p * qa + ra,
            b == p * qb + rb,
            q == qa - qb - bw,
            low == ra - rb + (if bw == 1 { p as int } else { 0 }),
            bw == 0 || bw == 1,
    ;
    lemma_fundamental_div_mod_converse_div((a - b) as int, p as int, q, low);
    // (qa - qb - bw) mod 10 == (qa mod 10 - qb mod 10 - bw + 10) mod 10
    lemma_sub_mod_noop(qa as int, (qb + bw) as int, 10);
    lemma_add_mod_noop(qb as int, bw as int, 10);
    lemma_sub_mod_noop_right((qa % 10) as int, (qb + bw) as int, 10);
    lemma_sub_mod_noop_right((qa % 10) as int, ((qb % 10) + bw) as int, 10);
    lemma_mod_add_multiples_vanish((qa % 10 - qb % 10 - bw) as int, 10);
}

/// Digit-level addition is commutative.
pub proof fn law_add_commutative(a: Value, b: Value)
    ensures
        a@ + b@ == b@ + a@,
{
}

/// Multi-digit addition is commutative and associative, and subtraction undoes it.
pub proof fn law_add_multi_algebra(a: nat, b: nat, c: nat)
    ensures
        a + b == b + a,
        (a + b) + c == a + (b + c),
        ((a + b) - b) as nat == a,
{
}

/// Multi-digit multiplication is commutative and associative, distributes over
/// addition, and division by a nonzero factor undoes it exactly.
pub proof fn law_mul_multi_algebra(a: nat, b: nat, c: nat)
    ensures
        a * b == b * a,
        (a * b) * c == a * (b * c),
        a * (b + c) == a * b + a * c,
        b != 0 ==> (a * b) / b == a && (a * b) % b == 0,
{
    lemma_mul_is_commutative(a as int, b as int);
    lemma_mul_is_associative(a as int, b as int, c as int);
    lemma_mul_is_distributive_add(a as int, b as int, c as int);
    if b != 0 {
        lemma_fundamental_div_mod_converse((a * b) as int, b as int, a as int, 0);
    }
}

}
