//! Exact arithmetic for expression evaluation: signed integers and fractions,
//! every digit operation done by the value core, every step recorded.
use vstd::prelude::*;
use crate::pattern_engine::digit_char;
use crate::text::push_char;
use crate::value_core::{add_multi, div_multi, mul_multi, sub_multi};

verus! {

// ============================================================================
// EXECUTION STEP
// ============================================================================

/// One recorded step of a computation.
#[derive(Debug, Clone)]
pub struct Step {
    /// The rule or operation applied.
    pub operation: String,
    /// What the step did.
    pub description: String,
    /// The intermediate result after the step.
    pub result: String,
    /// Whether the step was verified.
    pub verified: bool,
}

/// The content of a [`Step`].
pub struct StepView {
    pub operation: Seq<char>,
    pub description: Seq<char>,
    pub result: Seq<char>,
    pub verified: bool,
}

impl View for Step {
    type V = StepView;

    open spec fn view(&self) -> StepView {
        StepView {
            operation: self.operation@,
            description: self.description@,
            result: self.result@,
            verified: self.verified,
        }
    }
}

/// The views of a sequence of steps.
pub open spec fn steps_view(s: Seq<Step>) -> Seq<StepView> {
    s.map_values(|x: Step| x@)
}

/// How a step prints: a check mark (or `?` when unverified), the operation,
/// an arrow, the result, and the description in parentheses.
pub open spec fn step_text(s: StepView) -> Seq<char> {
    "["@ + (if s.verified {
        "✓"@
    } else {
        "?"@
    }) + "] "@ + s.operation + " → "@ + s.result + " ("@ + s.description + ")"@
}

fn push_text(t: &mut String, s: &str)
    ensures
        final(t)@ == old(t)@ + s@,
{
    t.append(s);
}

impl Step {
    /// The step as it prints.
    pub fn to_text(&self) -> (t: String)
        ensures
            t@ == step_text(self@),
    {
        let mut t = String::new();
        push_text(&mut t, "[");
        if self.verified {
            push_text(&mut t, "✓");
        } else {
            push_text(&mut t, "?");
        }
        push_text(&mut t, "] ");
        push_text(&mut t, self.operation.as_str());
        push_text(&mut t, " → ");
        push_text(&mut t, self.result.as_str());
        push_text(&mut t, " (");
        push_text(&mut t, self.description.as_str());
        push_text(&mut t, ")");
        assert(t@ =~= step_text(self@));
        t
    }
}

// ============================================================================
// NUMBER TEXT
// ============================================================================

/// The decimal digits of a natural number.
pub open spec fn nat_text(n: nat) -> Seq<char>
    decreases n,
{
    if n < 10 {
        seq![digit_char(n as u8)]
    } else {
        nat_text(n / 10).push(digit_char((n % 10) as u8))
    }
}

/// The decimal text of an integer, with a minus sign when negative.
pub open spec fn int_text(n: int) -> Seq<char> {
    if n < 0 {
        seq!['-'] + nat_text((-n) as nat)
    } else {
        nat_text(n as nat)
    }
}

fn digit_to_char(d: u64) -> (c: char)
    requires
        d <= 9,
    ensures
        c == digit_char(d as u8),
{
    match d {
        0 => '0',
        1 => '1',
        2 => '2',
        3 => '3',
        4 => '4',
        5 => '5',
        6 => '6',
        7 => '7',
        8 => '8',
        _ => '9',
    }
}

/// Appends the decimal digits of `n`.
fn push_nat(t: &mut String, n: u64)
    ensures
        final(t)@ == old(t)@ + nat_text(n as nat),
    decreases n,
{
    if n >= 10 {
        push_nat(t, n / 10);
    }
    push_char(t, digit_to_char(n % 10));
    proof {
        if n >= 10 {
            assert(final(t)@ =~= old(t)@ + nat_text(n as nat));
        } else {
            assert(final(t)@ =~= old(t)@ + nat_text(n as nat));
        }
    }
}

/// The magnitude of an integer.
fn magnitude(n: i64) -> (m: u64)
    ensures
        m == (if n < 0 { -(n as int) } else { n as int }),
{
    if n < 0 {
        ((-(n + 1)) as u64) + 1
    } else {
        n as u64
    }
}

/// Appends the decimal text of `n`.
fn push_int(t: &mut String, n: i64)
    ensures
        final(t)@ == old(t)@ + int_text(n as int),
{
    if n < 0 {
        push_char(t, '-');
    }
    let m = magnitude(n);
    push_nat(t, m);
    assert(final(t)@ =~= old(t)@ + int_text(n as int));
}

/// The decimal text of a natural number.
pub fn nat_to_text(n: u64) -> (t: String)
    ensures
        t@ == nat_text(n as nat),
{
    let mut t = String::new();
    push_nat(&mut t, n);
    assert(t@ =~= nat_text(n as nat));
    t
}

/// The decimal text of `n`.
pub fn int_to_text(n: i64) -> (t: String)
    ensures
        t@ == int_text(n as int),
{
    let mut t = String::new();
    push_int(&mut t, n);
    assert(t@ =~= int_text(n as int));
    t
}

// ============================================================================
// GREATEST COMMON DIVISOR
// ============================================================================

/// Euclid's greatest common divisor.
pub open spec fn gcd_spec(a: nat, b: nat) -> nat
    decreases b,
{
    if b == 0 {
        a
    } else {
        gcd_spec(b, a % b)
    }
}

/// The greatest common divisor divides both numbers, and is positive unless both are zero.
pub proof fn lemma_gcd_divides(a: nat, b: nat)
    ensures
        (a > 0 || b > 0) ==> gcd_spec(a, b) > 0,
        gcd_spec(a, b) > 0 ==> a % gcd_spec(a, b) == 0 && b % gcd_spec(a, b) == 0,
    decreases b,
{
    if b > 0 {
        let r = a % b;
        lemma_gcd_divides(b, r);
        let g = gcd_spec(b, r);
        assert(g > 0);
        vstd::arithmetic::div_mod::lemma_fundamental_div_mod(a as int, b as int);
        vstd::arithmetic::div_mod::lemma_fundamental_div_mod(b as int, g as int);
        vstd::arithmetic::div_mod::lemma_fundamental_div_mod(r as int, g as int);
        let q: int = (a / b) as int;
        let kb: int = (b / g) as int;
        let kr: int = (r / g) as int;
        assert(a == b * q + r);
        assert(b == g * kb);
        assert(r == g * kr);
        assert(a == g * (q * kb + kr)) by (nonlinear_arith)
            requires
                a == b * q + r,
                b == g * kb,
                r == g * kr,
        ;
        assert(q * kb + kr >= 0) by (nonlinear_arith)
            requires
                q >= 0,
                kb >= 0,
                kr >= 0,
        ;
        vstd::arithmetic::div_mod::lemma_mod_multiples_basic(q * kb + kr, g as int);
        assert(((g as int) * (q * kb + kr)) % (g as int) == 0) by {
            vstd::arithmetic::mul::lemma_mul_is_commutative(g as int, q * kb + kr);
        }
    }
}

/// Euclid's algorithm, each division done by the value core.
pub fn gcd(a: u64, b: u64) -> (g: u64)
    ensures
        g == gcd_spec(a as nat, b as nat),
{
    let mut x = a;
    let mut y = b;
    while y != 0
        invariant
            gcd_spec(x as nat, y as nat) == gcd_spec(a as nat, b as nat),
        decreases y,
    {
        let r = match div_multi(x, y) {
            Some(d) => d.remainder,
            None => 0,
        };
        x = y;
        y = r;
    }
    x
}

// ============================================================================
// EXACT VALUES
// ============================================================================

/// An exact result: an integer, or a fraction (numerator, denominator).
#[derive(Debug, Clone, Copy, PartialEq, Eq, Structural)]
pub enum Exact {
    Integer(i64),
    Rational(i64, i64),
}

/// The absolute value.
pub open spec fn abs_int(x: int) -> nat {
    if x < 0 {
        (-x) as nat
    } else {
        x as nat
    }
}

/// `num / den` divided through by their greatest common divisor, each keeping
/// its sign (the quotients of a truncating division).
pub open spec fn divided_through(num: int, den: int) -> (int, int) {
    let g = gcd_spec(abs_int(num), abs_int(den));
    let n = (abs_int(num) / g) as int;
    let d = (abs_int(den) / g) as int;
    (if num < 0 {
        -n
    } else {
        n
    }, if den < 0 {
        -d
    } else {
        d
    })
}

/// `num / den` in lowest terms with a non-negative denominator (the sign
/// moved to the numerator).
pub open spec fn lowest_terms(num: int, den: int) -> (int, int) {
    let g = gcd_spec(abs_int(num), abs_int(den));
    let n = (abs_int(num) / g) as int;
    (if (num < 0) == (den < 0) {
        n
    } else {
        -n
    }, (abs_int(den) / g) as int)
}

/// An integer when the denominator is one, else a fraction.
pub open spec fn exact_of(n: int, d: int) -> Exact {
    if d == 1 {
        Exact::Integer(n as i64)
    } else {
        Exact::Rational(n as i64, d as i64)
    }
}

/// Dividing through by the greatest common divisor keeps the value of a
/// fraction, and lowest terms have a positive denominator.
pub proof fn law_lowest_terms_value(num: int, den: int)
    requires
        den != 0,
    ensures
        lowest_terms(num, den).1 > 0,
        lowest_terms(num, den).0 * den == num * lowest_terms(num, den).1,
        divided_through(num, den).0 * den == num * divided_through(num, den).1,
{
    let an = abs_int(num);
    let ad = abs_int(den);
    lemma_gcd_divides(an, ad);
    let g = gcd_spec(an, ad);
    vstd::arithmetic::div_mod::lemma_fundamental_div_mod(an as int, g as int);
    vstd::arithmetic::div_mod::lemma_fundamental_div_mod(ad as int, g as int);
    let kn = (an / g) as int;
    let kd = (ad / g) as int;
    assert(an == g * kn);
    assert(ad == g * kd);
    assert(kd > 0) by (nonlinear_arith)
        requires
            ad == g * kd,
            ad > 0,
            g > 0,
    ;
    // |num| * |den| / g in two ways
    assert(kn * ad == an * kd) by (nonlinear_arith)
        requires
            an == g * kn,
            ad == g * kd,
    ;
    let lt = lowest_terms(num, den);
    let dt = divided_through(num, den);
    if num >= 0 && den >= 0 {
        assert(lt.0 * den == num * lt.1);
        assert(dt.0 * den == num * dt.1);
    } else if num < 0 && den >= 0 {
        assert(lt.0 * den == num * lt.1) by (nonlinear_arith)
            requires
                lt.0 == -kn,
                lt.1 == kd,
                den == ad,
                num == -an,
                kn * ad == an * kd,
        ;
        assert(dt.0 * den == num * dt.1) by (nonlinear_arith)
            requires
                dt.0 == -kn,
                dt.1 == kd,
                den == ad,
                num == -an,
                kn * ad == an * kd,
        ;
    } else if num >= 0 && den < 0 {
        assert(lt.0 * den == num * lt.1) by (nonlinear_arith)
            requires
                lt.0 == -kn,
                lt.1 == kd,
                den == -ad,
                num == an,
                kn * ad == an * kd,
        ;
        assert(dt.0 * den == num * dt.1) by (nonlinear_arith)
            requires
                dt.0 == kn,
                dt.1 == -kd,
                den == -ad,
                num == an,
                kn * ad == an * kd,
        ;
    } else {
        assert(lt.0 * den == num * lt.1) by (nonlinear_arith)
            requires
                lt.0 == kn,
                lt.1 == kd,
                den == -ad,
                num == -an,
                kn * ad == an * kd,
        ;
        assert(dt.0 * den == num * dt.1) by (nonlinear_arith)
            requires
                dt.0 == -kn,
                dt.1 == -kd,
                den == -ad,
                num == -an,
                kn * ad == an * kd,
        ;
    }
}

// ============================================================================
// TRACES
// ============================================================================

/// A verified step with the given texts.
pub open spec fn step_of(op: Seq<char>, desc: Seq<char>, result: Seq<char>) -> StepView {
    StepView { operation: op, description: desc, result, verified: true }
}

/// The step recording `a + b`.
pub open spec fn add_step(a: int, b: int) -> StepView {
    step_of("add"@, int_text(a) + " + "@ + int_text(b) + " = "@ + int_text(a + b) + " (Value Core)"@, int_text(a + b))
}

/// The step recording `a - b`.
pub open spec fn sub_step(a: int, b: int) -> StepView {
    step_of("sub"@, int_text(a) + " - "@ + int_text(b) + " = "@ + int_text(a - b) + " (Value Core)"@, int_text(a - b))
}

/// The step recording `a × b`.
pub open spec fn mul_step(a: int, b: int) -> StepView {
    step_of("mul"@, int_text(a) + " × "@ + int_text(b) + " = "@ + int_text(a * b) + " (Value Core)"@, int_text(a * b))
}

/// How deep an addition recurses: mixed signs go through a subtraction.
pub open spec fn depth_add(a: int, b: int) -> nat {
    if (a >= 0 && b < 0) || (a < 0 && b >= 0) {
        1
    } else {
        0
    }
}

/// How deep a subtraction recurses: a negative operand goes through an addition.
pub open spec fn depth_sub(a: int, b: int) -> nat {
    if a >= 0 && b >= 0 {
        0
    } else {
        2
    }
}

/// The steps and rules that `a + b` records: two non-negative numbers are
/// added by the value core (rule `core.add`); mixed signs become a
/// subtraction of magnitudes; two negatives add their magnitudes.
pub open spec fn add_trace(a: int, b: int) -> (Seq<StepView>, Seq<Seq<char>>)
    decreases depth_add(a, b),
{
    if a >= 0 && b >= 0 {
        (seq![add_step(a, b)], seq!["core.add"@])
    } else if a >= 0 {
        let t = sub_trace(a, -b);
        (t.0.push(add_step(a, b)), t.1)
    } else if b >= 0 {
        let t = sub_trace(b, -a);
        (t.0.push(add_step(a, b)), t.1)
    } else {
        (seq![add_step(a, b)], Seq::empty())
    }
}

/// The steps and rules that `a - b` records (rule `core.sub` first): two
/// non-negative numbers are subtracted by the value core, larger minus
/// smaller; otherwise `a + (-b)`.
pub open spec fn sub_trace(a: int, b: int) -> (Seq<StepView>, Seq<Seq<char>>)
    decreases depth_sub(a, b),
{
    if a >= 0 && b >= 0 {
        (seq![sub_step(a, b)], seq!["core.sub"@])
    } else {
        let t = add_trace(a, -b);
        (t.0.push(sub_step(a, b)), seq!["core.sub"@] + t.1)
    }
}

fn rule_name(s: &str) -> (r: String)
    ensures
        r@ == s@,
{
    String::from_str(s)
}

/// Records a verified step.
fn record(steps: &mut Vec<Step>, op: &str, description: String, result: String)
    ensures
        steps_view(final(steps)@) == steps_view(old(steps)@).push(step_of(op@, description@, result@)),
{
    steps.push(Step { operation: String::from_str(op), description, result, verified: true });
    assert(steps_view(final(steps)@) =~= steps_view(old(steps)@).push(step_of(op@, description@, result@)));
}

/// Records a rule name.
fn use_rule(rules: &mut Vec<String>, name: &str)
    ensures
        crate::rule_library::string_views(final(rules)@) == crate::rule_library::string_views(old(rules)@).push(
            name@,
        ),
{
    rules.push(rule_name(name));
    assert(crate::rule_library::string_views(final(rules)@) =~= crate::rule_library::string_views(old(rules)@).push(
        name@,
    ));
}

/// The description `a op b = r` with a suffix.
fn binary_description(a: i64, op: &str, b: i64, r: i64, suffix: &str) -> (t: String)
    ensures
        t@ == int_text(a as int) + op@ + int_text(b as int) + " = "@ + int_text(r as int) + suffix@,
{
    let mut t = String::new();
    push_int(&mut t, a);
    push_text(&mut t, op);
    push_int(&mut t, b);
    push_text(&mut t, " = ");
    push_int(&mut t, r);
    push_text(&mut t, suffix);
    assert(t@ =~= int_text(a as int) + op@ + int_text(b as int) + " = "@ + int_text(r as int) + suffix@);
    t
}

// ============================================================================
// INTEGER ARITHMETIC
// ============================================================================

/// Adds two integers through the value core, recording each step.
pub fn add_integers(a: i64, b: i64, steps: &mut Vec<Step>, rules: &mut Vec<String>) -> (r: i64)
    requires
        i64::MIN < a,
        i64::MIN < b,
        i64::MIN < a + b <= i64::MAX,
    ensures
        r == a + b,
        steps_view(final(steps)@) == steps_view(old(steps)@) + add_trace(a as int, b as int).0,
        crate::rule_library::string_views(final(rules)@) == crate::rule_library::string_views(old(rules)@)
            + add_trace(a as int, b as int).1,
    decreases depth_add(a as int, b as int),
{
    let ghost s0 = steps_view(steps@);
    let ghost r0 = crate::rule_library::string_views(rules@);
    let result: i64 = if a >= 0 && b >= 0 {
        use_rule(rules, "core.add");
        add_multi(a as u64, b as u64).result as i64
    } else if a >= 0 && b < 0 {
        sub_integers(a, -b, steps, rules)
    } else if a < 0 && b >= 0 {
        sub_integers(b, -a, steps, rules)
    } else {
        -(add_multi((-a) as u64, (-b) as u64).result as i64)
    };
    let ghost s1 = steps_view(steps@);
    let ghost r1 = crate::rule_library::string_views(rules@);
    record(steps, "add", binary_description(a, " + ", b, result, " (Value Core)"), int_to_text(result));
    proof {
        let t = add_trace(a as int, b as int);
        if a >= 0 && b >= 0 {
            assert(steps_view(steps@) =~= s0 + t.0);
            assert(r1 =~= r0 + t.1);
        } else if a < 0 && b < 0 {
            assert(steps_view(steps@) =~= s0 + t.0);
            assert(r1 =~= r0 + t.1);
        } else {
            assert(steps_view(steps@) =~= s0 + t.0);
        }
    }
    result
}

/// Subtracts two integers through the value core, recording each step.
pub fn sub_integers(a: i64, b: i64, steps: &mut Vec<Step>, rules: &mut Vec<String>) -> (r: i64)
    requires
        i64::MIN < a,
        i64::MIN < b,
        i64::MIN < a - b <= i64::MAX,
    ensures
        r == a - b,
        steps_view(final(steps)@) == steps_view(old(steps)@) + sub_trace(a as int, b as int).0,
        crate::rule_library::string_views(final(rules)@) == crate::rule_library::string_views(old(rules)@)
            + sub_trace(a as int, b as int).1,
    decreases depth_sub(a as int, b as int),
{
    let ghost s0 = steps_view(steps@);
    let ghost r0 = crate::rule_library::string_views(rules@);
    use_rule(rules, "core.sub");
    let result: i64 = if a >= 0 && b >= 0 {
        if a >= b {
            match sub_multi(a as u64, b as u64) {
                Some(m) => m.result as i64,
                None => 0,
            }
        } else {
            match sub_multi(b as u64, a as u64) {
                Some(m) => -(m.result as i64),
                None => 0,
            }
        }
    } else {
        add_integers(a, -b, steps, rules)
    };
    record(steps, "sub", binary_description(a, " - ", b, result, " (Value Core)"), int_to_text(result));
    proof {
        let t = sub_trace(a as int, b as int);
        assert(steps_view(steps@) =~= s0 + t.0);
        assert(crate::rule_library::string_views(rules@) =~= r0 + t.1);
    }
    result
}

/// Multiplies two integers: the magnitudes by the value core, then the sign.
pub fn mul_integers(a: i64, b: i64, steps: &mut Vec<Step>, rules: &mut Vec<String>) -> (r: i64)
    requires
        abs_int(a as int) * abs_int(b as int) <= i64::MAX,
    ensures
        r == a * b,
        steps_view(final(steps)@) == steps_view(old(steps)@).push(mul_step(a as int, b as int)),
        crate::rule_library::string_views(final(rules)@) == crate::rule_library::string_views(old(rules)@).push(
            "core.mul"@,
        ),
{
    use_rule(rules, "core.mul");
    let negative = (a < 0) != (b < 0);
    let ma = magnitude(a);
    let mb = magnitude(b);
    let m = mul_multi(ma, mb).result;
    proof {
        assert(m == abs_int(a as int) * abs_int(b as int));
        if negative {
            assert(a * b == -(abs_int(a as int) * abs_int(b as int))) by (nonlinear_arith)
                requires
                    (a < 0) != (b < 0),
                    ma == (if a < 0 { -(a as int) } else { a as int }),
                    mb == (if b < 0 { -(b as int) } else { b as int }),
                    ma == abs_int(a as int),
                    mb == abs_int(b as int),
            ;
        } else {
            assert(a * b == abs_int(a as int) * abs_int(b as int)) by (nonlinear_arith)
                requires
                    (a < 0) == (b < 0),
                    ma == (if a < 0 { -(a as int) } else { a as int }),
                    mb == (if b < 0 { -(b as int) } else { b as int }),
                    ma == abs_int(a as int),
                    mb == abs_int(b as int),
            ;
        }
    }
    let result: i64 = if negative {
        -(m as i64)
    } else {
        m as i64
    };
    record(steps, "mul", binary_description(a, " × ", b, result, " (Value Core)"), int_to_text(result));
    result
}

/// The text `n/d`.
pub open spec fn frac_text(n: int, d: int) -> Seq<char> {
    int_text(n) + "/"@ + int_text(d)
}

/// The sign of the quotient of `a` by `b`.
pub open spec fn quotient_sign(a: int, b: int) -> int {
    if (a < 0) != (b < 0) {
        -1
    } else {
        1
    }
}

/// The result of dividing `a` by `b`: the quotient when it divides exactly,
/// else the fraction in lowest terms.
pub open spec fn div_value(a: int, b: int) -> Exact {
    let s = quotient_sign(a, b);
    if abs_int(a) % abs_int(b) == 0 {
        Exact::Integer((s * (abs_int(a) / abs_int(b)) as int) as i64)
    } else {
        let f = divided_through(s * abs_int(a), abs_int(b) as int);
        Exact::Rational(f.0 as i64, f.1 as i64)
    }
}

/// Dividing `a` by `b` gives a value that times `b` is `a`: an integer `q`
/// with `q * b == a`, or, when `b` does not divide `a`, a fraction `n / d` with
/// `d > 1` and `n * b == a * d`.
pub proof fn law_div_value(a: int, b: int)
    requires
        b != 0,
        i64::MIN < a <= i64::MAX,
        i64::MIN < b <= i64::MAX,
    ensures
        div_value(a, b) matches Exact::Integer(q) ==> q * b == a,
        div_value(a, b) matches Exact::Rational(n, d) ==> d > 1 && n * b == a * d,
{
    let aa = abs_int(a);
    let ab = abs_int(b);
    let s = quotient_sign(a, b);
    vstd::arithmetic::div_mod::lemma_fundamental_div_mod(aa as int, ab as int);
    if aa % ab == 0 {
        let q0: int = (aa / ab) as int;
        assert(aa == ab * q0);
        assert(0 <= q0 <= aa) by (nonlinear_arith)
            requires
                aa == ab * q0,
                ab >= 1,
                q0 >= 0,
        ;
        assert((s * q0) * b == a) by (nonlinear_arith)
            requires
                aa == ab * q0,
                aa == (if a < 0 { -a } else { a }),
                ab == (if b < 0 { -b } else { b }),
                s == (if (a < 0) != (b < 0) { -1int } else { 1int }),
        ;
    } else {
        let num = s * aa;
        law_lowest_terms_value(num, ab as int);
        let f = divided_through(num, ab as int);
        let an = abs_int(num);
        assert(an == aa);
        lemma_gcd_divides(an, ab);
        let g = gcd_spec(an, ab);
        vstd::arithmetic::div_mod::lemma_fundamental_div_mod(an as int, g as int);
        vstd::arithmetic::div_mod::lemma_fundamental_div_mod(ab as int, g as int);
        let n0: int = (an / g) as int;
        let d0: int = (ab / g) as int;
        assert(an == g * n0);
        assert(ab == g * d0);
        assert(0 <= n0 <= an) by (nonlinear_arith)
            requires
                an == g * n0,
                g >= 1,
                n0 >= 0,
        ;
        assert(1 <= d0 <= ab) by (nonlinear_arith)
            requires
                ab == g * d0,
                g >= 1,
                ab >= 1,
                d0 >= 0,
        ;
        if d0 == 1 {
            assert(ab == g) by (nonlinear_arith)
                requires
                    ab == g * d0,
                    d0 == 1,
            ;
            assert(aa % ab == 0);
        }
        assert(f.1 == d0);
        assert(f.0 * ab == num * f.1);
        assert(f.0 * b == a * f.1) by (nonlinear_arith)
            requires
                f.0 * ab == num * f.1,
                num == s * aa,
                aa == (if a < 0 { -a } else { a }),
                ab == (if b < 0 { -b } else { b }),
                s == (if (a < 0) != (b < 0) { -1int } else { 1int }),
        ;
    }
}

/// The step recording a division of `a` by `b`.
pub open spec fn div_step(a: int, b: int) -> StepView {
    let head = int_text(a) + " ÷ "@ + int_text(b) + " = "@;
    match div_value(a, b) {
        Exact::Integer(q) => step_of("div"@, head + int_text(q as int) + " (exact, Value Core)"@, int_text(q as int)),
        Exact::Rational(n, d) => step_of(
            "div"@,
            head + frac_text(n as int, d as int) + " (Value Core)"@,
            frac_text(n as int, d as int),
        ),
    }
}

fn push_frac(t: &mut String, n: i64, d: i64)
    ensures
        final(t)@ == old(t)@ + frac_text(n as int, d as int),
{
    push_int(t, n);
    push_text(t, "/");
    push_int(t, d);
    assert(final(t)@ =~= old(t)@ + frac_text(n as int, d as int));
}

fn frac_to_text(n: i64, d: i64) -> (t: String)
    ensures
        t@ == frac_text(n as int, d as int),
{
    let mut t = String::new();
    push_frac(&mut t, n, d);
    assert(t@ =~= frac_text(n as int, d as int));
    t
}

/// The quotient of two magnitudes with a sign, as an integer.
fn signed(negative: bool, m: u64) -> (r: i64)
    requires
        m <= i64::MAX,
    ensures
        r == (if negative { -(m as int) } else { m as int }),
{
    if negative {
        -(m as i64)
    } else {
        m as i64
    }
}

/// Divides two integers by the value core: the quotient when exact, else the
/// fraction in lowest terms.
pub fn div_integers(a: i64, b: i64, steps: &mut Vec<Step>, rules: &mut Vec<String>) -> (r: Exact)
    requires
        b != 0,
        i64::MIN < a,
        i64::MIN < b,
    ensures
        r == div_value(a as int, b as int),
        r matches Exact::Integer(q) ==> q * b == a,
        r matches Exact::Rational(n, d) ==> d > 1 && n * b == a * d,
        steps_view(final(steps)@) == steps_view(old(steps)@).push(div_step(a as int, b as int)),
        crate::rule_library::string_views(final(rules)@) == crate::rule_library::string_views(old(rules)@).push(
            "core.div"@,
        ),
{
    use_rule(rules, "core.div");
    proof {
        law_div_value(a as int, b as int);
    }
    let negative = (a < 0) != (b < 0);
    let ma = magnitude(a);
    let mb = magnitude(b);
    let (q, rem) = match div_multi(ma, mb) {
        Some(d) => (d.quotient, d.remainder),
        None => (0, 0),
    };
    proof {
        assert(ma == abs_int(a as int));
        assert(mb == abs_int(b as int));
        assert(q == ma / mb && rem == ma % mb);
        assert(q <= ma) by {
            vstd::arithmetic::div_mod::lemma_div_is_ordered_by_denominator(ma as int, 1, mb as int);
        }
        assert(negative <==> quotient_sign(a as int, b as int) == -1);
    }
    let mut head = String::new();
    push_int(&mut head, a);
    push_text(&mut head, " ÷ ");
    push_int(&mut head, b);
    push_text(&mut head, " = ");
    let ghost h = head@;
    if rem == 0 {
        let result = signed(negative, q);
        proof {
            assert(result == quotient_sign(a as int, b as int) * (q as int));
            assert(div_value(a as int, b as int) == Exact::Integer(result));
        }
        let mut desc = head;
        push_int(&mut desc, result);
        push_text(&mut desc, " (exact, Value Core)");
        proof {
            assert(desc@ =~= h + int_text(result as int) + " (exact, Value Core)"@);
        }
        record(steps, "div", desc, int_to_text(result));
        Exact::Integer(result)
    } else {
        let g = gcd(ma, mb);
        proof {
            lemma_gcd_divides(ma as nat, mb as nat);
            assert(g > 0);
            vstd::arithmetic::div_mod::lemma_div_is_ordered_by_denominator(ma as int, 1, g as int);
            vstd::arithmetic::div_mod::lemma_div_is_ordered_by_denominator(mb as int, 1, g as int);
            assert(abs_int(if negative { -(ma as int) } else { ma as int }) == ma);
            assert(ma != 0) by {
                if ma == 0 {
                    vstd::arithmetic::div_mod::lemma_small_mod(0, mb as nat);
                }
            }
        }
        let sn = signed(negative, ma / g);
        let sd = (mb / g) as i64;
        proof {
            let s = quotient_sign(a as int, b as int);
            let num = s * abs_int(a as int);
            assert(num == (if negative { -(ma as int) } else { ma as int }));
            assert(abs_int(num) == ma);
            assert(num < 0 <==> negative);
            assert(abs_int(abs_int(b as int) as int) == mb);
            assert(sn == divided_through(num, abs_int(b as int) as int).0);
            assert(sd == divided_through(num, abs_int(b as int) as int).1);
            assert(div_value(a as int, b as int) == Exact::Rational(sn, sd));
        }
        let mut desc = head;
        push_frac(&mut desc, sn, sd);
        push_text(&mut desc, " (Value Core)");
        proof {
            assert(desc@ =~= h + frac_text(sn as int, sd as int) + " (Value Core)"@);
        }
        record(steps, "div", desc, frac_to_text(sn, sd));
        Exact::Rational(sn, sd)
    }
}

// ============================================================================
// FRACTION ARITHMETIC
// ============================================================================

/// The step recording `an/ad + bn/bd`.
pub open spec fn frac_add_step(an: int, ad: int, bn: int, bd: int) -> StepView {
    let f = lowest_terms(an * bd + bn * ad, ad * bd);
    step_of(
        "frac_add"@,
        frac_text(an, ad) + " + "@ + frac_text(bn, bd) + " = "@ + frac_text(f.0, f.1),
        frac_text(f.0, f.1),
    )
}

/// The step recording `(an/ad) × (bn/bd)`.
pub open spec fn frac_mul_step(an: int, ad: int, bn: int, bd: int) -> StepView {
    let f = divided_through(an * bn, ad * bd);
    step_of(
        "frac_mul"@,
        "("@ + frac_text(an, ad) + ") × ("@ + frac_text(bn, bd) + ") = "@ + frac_text(f.0, f.1),
        frac_text(f.0, f.1),
    )
}

/// The fraction `num / g` over `den / g` for `g` the greatest common divisor
/// of their magnitudes.
fn divide_through(num: i64, den: i64) -> (r: (i64, i64))
    requires
        i64::MIN < num,
        i64::MIN < den,
        num != 0 || den != 0,
    ensures
        r.0 == divided_through(num as int, den as int).0,
        r.1 == divided_through(num as int, den as int).1,
{
    let mn = magnitude(num);
    let md = magnitude(den);
    let g = gcd(mn, md);
    proof {
        lemma_gcd_divides(mn as nat, md as nat);
        vstd::arithmetic::div_mod::lemma_div_is_ordered_by_denominator(mn as int, 1, g as int);
        vstd::arithmetic::div_mod::lemma_div_is_ordered_by_denominator(md as int, 1, g as int);
    }
    let n = signed(num < 0, mn / g);
    let d = signed(den < 0, md / g);
    proof {
        assert(mn == abs_int(num as int));
        assert(md == abs_int(den as int));
        if num == 0 {
            assert(mn / g == 0);
        }
        if den == 0 {
            assert(md / g == 0);
        }
    }
    (n, d)
}

/// Adds two fractions: the cross-multiplied sum in lowest terms with a
/// positive denominator, an integer when the denominator is one.
pub fn add_fractions(an: i64, ad: i64, bn: i64, bd: i64, steps: &mut Vec<Step>, rules: &mut Vec<String>) -> (r: Exact)
    requires
        i64::MIN < an * bd <= i64::MAX,
        i64::MIN < bn * ad <= i64::MAX,
        i64::MIN < an * bd + bn * ad <= i64::MAX,
        i64::MIN < ad * bd <= i64::MAX,
        an * bd + bn * ad != 0 || ad * bd != 0,
    ensures
        r == exact_of(
            lowest_terms(an * bd + bn * ad, ad * bd).0,
            lowest_terms(an * bd + bn * ad, ad * bd).1,
        ),
        steps_view(final(steps)@) == steps_view(old(steps)@).push(frac_add_step(an as int, ad as int, bn as int, bd as int)),
        crate::rule_library::string_views(final(rules)@) == crate::rule_library::string_views(old(rules)@).push(
            "fraction_add"@,
        ),
{
    use_rule(rules, "fraction_add");
    let num = an * bd + bn * ad;
    let den = ad * bd;
    let (sn0, sd0) = divide_through(num, den);
    proof {
        let g = gcd_spec(abs_int(num as int), abs_int(den as int));
        lemma_gcd_divides(abs_int(num as int), abs_int(den as int));
        vstd::arithmetic::div_mod::lemma_div_is_ordered_by_denominator(abs_int(num as int) as int, 1, g as int);
        vstd::arithmetic::div_mod::lemma_div_is_ordered_by_denominator(abs_int(den as int) as int, 1, g as int);
    }
    let sd = if sd0 < 0 {
        -sd0
    } else {
        sd0
    };
    let sn = if den < 0 {
        -sn0
    } else {
        sn0
    };
    proof {
        let f = lowest_terms(num as int, den as int);
        let g = gcd_spec(abs_int(num as int), abs_int(den as int));
        assert(sd == f.1);
        assert(sn == f.0);
    }
    let mut desc = String::new();
    push_frac(&mut desc, an, ad);
    push_text(&mut desc, " + ");
    push_frac(&mut desc, bn, bd);
    push_text(&mut desc, " = ");
    push_frac(&mut desc, sn, sd);
    proof {
        assert(desc@ =~= frac_add_step(an as int, ad as int, bn as int, bd as int).description);
    }
    record(steps, "frac_add", desc, frac_to_text(sn, sd));
    if sd == 1 {
        Exact::Integer(sn)
    } else {
        Exact::Rational(sn, sd)
    }
}

/// Subtracts two fractions: adds the negated second one.
pub fn sub_fractions(an: i64, ad: i64, bn: i64, bd: i64, steps: &mut Vec<Step>, rules: &mut Vec<String>) -> (r: Exact)
    requires
        i64::MIN < bn,
        i64::MIN < an * bd <= i64::MAX,
        i64::MIN < (-bn) * ad <= i64::MAX,
        i64::MIN < an * bd + (-bn) * ad <= i64::MAX,
        i64::MIN < ad * bd <= i64::MAX,
        an * bd + (-bn) * ad != 0 || ad * bd != 0,
    ensures
        r == exact_of(
            lowest_terms(an * bd + (-bn) * ad, ad * bd).0,
            lowest_terms(an * bd + (-bn) * ad, ad * bd).1,
        ),
        steps_view(final(steps)@) == steps_view(old(steps)@).push(
            frac_add_step(an as int, ad as int, -bn, bd as int),
        ),
        crate::rule_library::string_views(final(rules)@) == crate::rule_library::string_views(old(rules)@).push(
            "fraction_sub"@,
        ).push("fraction_add"@),
{
    use_rule(rules, "fraction_sub");
    add_fractions(an, ad, -bn, bd, steps, rules)
}

/// Multiplies two fractions: numerators and denominators multiplied, then
/// divided through by their greatest common divisor; an integer when the
/// denominator is one.
pub fn mul_fractions(an: i64, ad: i64, bn: i64, bd: i64, steps: &mut Vec<Step>, rules: &mut Vec<String>) -> (r: Exact)
    requires
        i64::MIN < an * bn <= i64::MAX,
        i64::MIN < ad * bd <= i64::MAX,
        an * bn != 0 || ad * bd != 0,
    ensures
        r == exact_of(divided_through(an * bn, ad * bd).0, divided_through(an * bn, ad * bd).1),
        steps_view(final(steps)@) == steps_view(old(steps)@).push(frac_mul_step(an as int, ad as int, bn as int, bd as int)),
        crate::rule_library::string_views(final(rules)@) == crate::rule_library::string_views(old(rules)@).push(
            "fraction_mul"@,
        ),
{
    use_rule(rules, "fraction_mul");
    let num = an * bn;
    let den = ad * bd;
    let (sn, sd) = divide_through(num, den);
    let mut desc = String::new();
    push_text(&mut desc, "(");
    push_frac(&mut desc, an, ad);
    push_text(&mut desc, ") × (");
    push_frac(&mut desc, bn, bd);
    push_text(&mut desc, ") = ");
    push_frac(&mut desc, sn, sd);
    proof {
        assert(desc@ =~= frac_mul_step(an as int, ad as int, bn as int, bd as int).description);
    }
    record(steps, "frac_mul", desc, frac_to_text(sn, sd));
    if sd == 1 {
        Exact::Integer(sn)
    } else {
        Exact::Rational(sn, sd)
    }
}

/// Divides two fractions: multiplies by the reciprocal of the second. A zero
/// numerator in the second is an error.
pub fn div_fractions(
    an: i64,
    ad: i64,
    bn: i64,
    bd: i64,
    steps: &mut Vec<Step>,
    rules: &mut Vec<String>,
) -> (r: Result<Exact, String>)
    requires
        bn != 0 ==> i64::MIN < an * bd <= i64::MAX,
        bn != 0 ==> i64::MIN < ad * bn <= i64::MAX,
        bn != 0 ==> an * bd != 0 || ad * bn != 0,
    ensures
        bn == 0 ==> (r matches Err(m) && m@ == "Division by zero fraction"@),
        bn == 0 ==> final(steps)@ == old(steps)@,
        bn != 0 ==> r == Ok::<Exact, String>(
            exact_of(divided_through(an * bd, ad * bn).0, divided_through(an * bd, ad * bn).1),
        ),
        bn != 0 ==> steps_view(final(steps)@) == steps_view(old(steps)@).push(
            frac_mul_step(an as int, ad as int, bd as int, bn as int),
        ),
        bn == 0 ==> crate::rule_library::string_views(final(rules)@) == crate::rule_library::string_views(
            old(rules)@,
        ).push("fraction_div"@),
        bn != 0 ==> crate::rule_library::string_views(final(rules)@) == crate::rule_library::string_views(
            old(rules)@,
        ).push("fraction_div"@).push("fraction_mul"@),
{
    use_rule(rules, "fraction_div");
    if bn == 0 {
        return Err(String::from_str("Division by zero fraction"));
    }
    Ok(mul_fractions(an, ad, bd, bn, steps, rules))
}

// ============================================================================
// FACTORIAL
// ============================================================================

/// `n!`.
pub open spec fn factorial(n: nat) -> nat
    decreases n,
{
    if n <= 1 {
        1
    } else {
        n * factorial((n - 1) as nat)
    }
}

/// The multiplications that compute `n!`: `(k - 1)! × k` for `k` from 2 to `n`.
pub open spec fn factorial_mul_steps(n: nat) -> Seq<StepView>
    decreases n,
{
    if n < 2 {
        Seq::empty()
    } else {
        factorial_mul_steps((n - 1) as nat).push(mul_step(factorial((n - 1) as nat) as int, n as int))
    }
}

/// The step recording `n! = r`.
pub open spec fn factorial_step(n: nat) -> StepView {
    step_of("factorial"@, int_text(n as int) + "! = "@ + int_text(factorial(n) as int), int_text(factorial(n) as int))
}

/// The rules that `n!` records: `factorial`, then `core.mul` for each multiplication.
pub open spec fn factorial_rules(n: nat) -> Seq<Seq<char>> {
    seq!["factorial"@] + Seq::new(if n < 2 { 0 } else { (n - 1) as nat }, |k: int| "core.mul"@)
}

proof fn lemma_factorial_mono(a: nat, b: nat)
    requires
        a <= b,
    ensures
        1 <= factorial(a) <= factorial(b),
    decreases b,
{
    if b >= 2 {
        lemma_factorial_mono(if a < b { a } else { (b - 1) as nat }, (b - 1) as nat);
        let f = factorial((b - 1) as nat);
        assert(f <= b * f) by (nonlinear_arith)
            requires
                b >= 2,
                f >= 1,
        ;
    }
}

/// The largest factorial that fits in an `i64`.
proof fn lemma_factorial_20()
    ensures
        factorial(20) == 2432902008176640000,
{
    assert(factorial(1) == 1);
    assert(factorial(2) == 2);
    assert(factorial(3) == 6);
    assert(factorial(4) == 24);
    assert(factorial(5) == 120);
    assert(factorial(6) == 720);
    assert(factorial(7) == 5040);
    assert(factorial(8) == 40320);
    assert(factorial(9) == 362880);
    assert(factorial(10) == 3628800);
    assert(factorial(11) == 39916800);
    assert(factorial(12) == 479001600);
    assert(factorial(13) == 6227020800);
    assert(factorial(14) == 87178291200);
    assert(factorial(15) == 1307674368000);
    assert(factorial(16) == 20922789888000);
    assert(factorial(17) == 355687428096000);
    assert(factorial(18) == 6402373705728000);
    assert(factorial(19) == 121645100408832000);
}

/// `n!` for `n` from 0 to 20 (the factorials that fit in an `i64`), each
/// multiplication done by the value core and recorded, then the result.
pub fn factorial_integer(n: i64, steps: &mut Vec<Step>, rules: &mut Vec<String>) -> (r: i64)
    requires
        0 <= n <= 20,
    ensures
        r == factorial(n as nat),
        steps_view(final(steps)@) == steps_view(old(steps)@) + factorial_mul_steps(n as nat).push(
            factorial_step(n as nat),
        ),
        crate::rule_library::string_views(final(rules)@) == crate::rule_library::string_views(old(rules)@)
            + factorial_rules(n as nat),
{
    let ghost s0 = steps_view(steps@);
    let ghost r0 = crate::rule_library::string_views(rules@);
    use_rule(rules, "factorial");
    proof {
        lemma_factorial_20();
        assert(crate::rule_library::string_views(rules@) =~= r0 + seq!["factorial"@] + Seq::new(0, |k: int| "core.mul"@));
        assert(steps_view(steps@) =~= s0 + factorial_mul_steps(1));
    }
    let mut result: i64 = 1;
    let mut i: i64 = 2;
    while i <= n
        invariant
            0 <= n <= 20,
            2 <= i <= (if n < 2 { 2 } else { n + 1 }),
            result == factorial((i - 1) as nat),
            factorial(20) == 2432902008176640000,
            steps_view(steps@) == s0 + factorial_mul_steps((i - 1) as nat),
            crate::rule_library::string_views(rules@) == r0 + seq!["factorial"@] + Seq::new(
                (i - 2) as nat,
                |k: int| "core.mul"@,
            ),
        decreases n + 1 - i,
    {
        proof {
            lemma_factorial_mono(i as nat, 20);
            assert(factorial(i as nat) == i * factorial((i - 1) as nat));
            vstd::arithmetic::mul::lemma_mul_is_commutative(result as int, i as int);
            assert(abs_int(result as int) * abs_int(i as int) == factorial(i as nat));
        }
        result = mul_integers(result, i, steps, rules);
        proof {
            assert(crate::rule_library::string_views(rules@) =~= r0 + seq!["factorial"@] + Seq::new(
                (i - 1) as nat,
                |k: int| "core.mul"@,
            ));
            assert(steps_view(steps@) =~= s0 + factorial_mul_steps(i as nat));
        }
        i = i + 1;
    }
    proof {
        assert(i - 1 == n || (n < 2 && i == 2));
        if n < 2 {
            assert(factorial(n as nat) == 1);
            assert(factorial_mul_steps(n as nat) =~= Seq::<StepView>::empty());
            assert(factorial_mul_steps(1) =~= Seq::<StepView>::empty());
        }
    }
    let mut desc = String::new();
    push_int(&mut desc, n);
    push_text(&mut desc, "! = ");
    push_int(&mut desc, result);
    record(steps, "factorial", desc, int_to_text(result));
    proof {
        assert(steps_view(steps@) =~= s0 + factorial_mul_steps(n as nat).push(factorial_step(n as nat)));
        assert(crate::rule_library::string_views(rules@) =~= r0 + factorial_rules(n as nat));
    }
    result
}

// ============================================================================
// LEAST COMMON MULTIPLE
// ============================================================================

/// The least common multiple through the greatest common divisor:
/// `a / gcd(a, b) × b`, and 0 when both are 0.
pub open spec fn lcm_spec(a: nat, b: nat) -> nat {
    let g = gcd_spec(a, b);
    if g == 0 {
        0
    } else {
        (a / g) * b
    }
}

/// The least common multiple `a / gcd(a, b) × b`; it is a multiple of both.
pub fn lcm(a: u64, b: u64) -> (r: u64)
    requires
        lcm_spec(a as nat, b as nat) <= u64::MAX,
    ensures
        r == lcm_spec(a as nat, b as nat),
        a > 0 ==> r % a == 0,
        b > 0 ==> r % b == 0,
{
    let g = gcd(a, b);
    proof {
        lemma_gcd_divides(a as nat, b as nat);
    }
    if g == 0 {
        return 0;
    }
    let q = a / g;
    proof {
        vstd::arithmetic::div_mod::lemma_fundamental_div_mod(a as int, g as int);
        vstd::arithmetic::div_mod::lemma_fundamental_div_mod(b as int, g as int);
        let kb: int = (b / g) as int;
        assert(a == g * q);
        assert(b == g * kb);
        assert(q * b == a * kb) by (nonlinear_arith)
            requires
                a == g * q,
                b == g * kb,
        ;
        assert(q * b <= u64::MAX);
        if b > 0 {
            vstd::arithmetic::div_mod::lemma_mod_multiples_basic(q as int, b as int);
        }
        if a > 0 {
            assert(kb >= 0) by (nonlinear_arith)
                requires
                    b == g * kb,
                    g > 0,
                    b >= 0,
            ;
            vstd::arithmetic::div_mod::lemma_mod_multiples_basic(kb, a as int);
            vstd::arithmetic::mul::lemma_mul_is_commutative(kb, a as int);
        }
    }
    q * b
}

// ============================================================================
// INTEGER POWERS
// ============================================================================

/// `b` to the power `k`, multiplying by `b` on the right.
pub open spec fn int_pow(b: int, k: nat) -> int
    decreases k,
{
    if k == 0 {
        1
    } else {
        int_pow(b, (k - 1) as nat) * b
    }
}

/// The step recording the intermediate value after the `k`-th multiplication of `b^e`.
pub open spec fn power_step(b: int, e: int, k: nat) -> StepView {
    step_of(
        "power_step"@,
        int_text(b) + "^"@ + int_text(e) + " step "@ + int_text(k as int) + ": intermediate = "@ + int_text(
            int_pow(b, k),
        ),
        int_text(int_pow(b, k)),
    )
}

/// The first `k` rounds of `b^e` for a positive `e`: each multiplication, then
/// the intermediate value.
pub open spec fn power_steps(b: int, e: int, k: nat) -> Seq<StepView>
    decreases k,
{
    if k == 0 {
        Seq::empty()
    } else {
        power_steps(b, e, (k - 1) as nat).push(mul_step(int_pow(b, (k - 1) as nat), b)).push(power_step(b, e, k))
    }
}

/// The multiplications that build `b^k`.
pub open spec fn denominator_steps(b: int, k: nat) -> Seq<StepView>
    decreases k,
{
    if k == 0 {
        Seq::empty()
    } else {
        denominator_steps(b, (k - 1) as nat).push(mul_step(int_pow(b, (k - 1) as nat), b))
    }
}

/// The steps that `b^e` records: a single step for the exponents 0 and 1;
/// the rounds of repeated multiplication for a larger exponent; and for a
/// negative exponent the multiplications of the denominator, then `1/b^(-e)`.
pub open spec fn power_trace(b: int, e: int) -> Seq<StepView> {
    if e == 0 {
        seq![step_of("power_zero"@, int_text(b) + "^0 = 1 (any non-zero number to the 0th power is 1)"@, "1"@)]
    } else if e == 1 {
        seq![step_of("power_one"@, int_text(b) + "^1 = "@ + int_text(b), int_text(b))]
    } else if e > 0 {
        power_steps(b, e, e as nat)
    } else {
        let d = int_pow(b, (-e) as nat);
        denominator_steps(b, (-e) as nat).push(
            step_of("power_negative"@, int_text(b) + "^"@ + int_text(e) + " = "@ + frac_text(1, d), frac_text(1, d)),
        )
    }
}

/// The rules that `b^e` records: `exponent_eval`, then `core.mul` for each multiplication.
pub open spec fn power_rules(e: int) -> Seq<Seq<char>> {
    seq!["exponent_eval"@] + Seq::new(
        if e == 0 || e == 1 {
            0
        } else {
            abs_int(e)
        },
        |k: int| "core.mul"@,
    )
}

proof fn lemma_abs_mul(x: int, y: int)
    ensures
        abs_int(x * y) == abs_int(x) * abs_int(y),
{
    assert(abs_int(x * y) == abs_int(x) * abs_int(y)) by (nonlinear_arith)
        requires
            abs_int(x * y) == (if x * y < 0 { -(x * y) } else { x * y }),
            abs_int(x) == (if x < 0 { -x } else { x }),
            abs_int(y) == (if y < 0 { -y } else { y }),
    ;
}

proof fn lemma_int_pow_abs(b: int, k: nat)
    ensures
        abs_int(int_pow(b, k)) == int_pow(abs_int(b) as int, k),
    decreases k,
{
    if k > 0 {
        lemma_int_pow_abs(b, (k - 1) as nat);
        lemma_abs_mul(int_pow(b, (k - 1) as nat), b);
    }
}

proof fn lemma_int_pow_mono(m: int, j: nat, k: nat)
    requires
        m >= 1,
        j <= k,
    ensures
        1 <= int_pow(m, j) <= int_pow(m, k),
    decreases k,
{
    if k > 0 {
        lemma_int_pow_mono(m, if j < k { j } else { (k - 1) as nat }, (k - 1) as nat);
        let p = int_pow(m, (k - 1) as nat);
        assert(p <= p * m) by (nonlinear_arith)
            requires
                p >= 1,
                m >= 1,
        ;
    }
}

/// Each multiplication of `b^n` stays within a bound on `|b|^n`.
proof fn lemma_power_round_bound(b: int, i: nat, n: nat, bound: int)
    requires
        i < n,
        int_pow(abs_int(b) as int, n) <= bound,
        0 <= bound,
    ensures
        abs_int(int_pow(b, i)) * abs_int(b) <= bound,
        abs_int(int_pow(b, i)) * abs_int(b) == abs_int(int_pow(b, i + 1)),
{
    lemma_abs_mul(int_pow(b, i), b);
    assert(int_pow(b, i + 1) == int_pow(b, i) * b);
    lemma_int_pow_abs(b, i + 1);
    if b != 0 {
        lemma_int_pow_mono(abs_int(b) as int, i + 1, n);
    } else {
        assert(abs_int(int_pow(b, i)) * abs_int(b) == 0);
    }
}

/// `b^e` by repeated multiplication through the value core, recording every
/// multiplication and intermediate value. A negative exponent gives the
/// fraction `1 / b^(-e)`.
pub fn power_integers(b: i64, e: i64, steps: &mut Vec<Step>, rules: &mut Vec<String>) -> (r: Exact)
    requires
        e > i64::MIN,
        e != 0 && e != 1 ==> int_pow(abs_int(b as int) as int, abs_int(e as int)) <= i64::MAX,
    ensures
        e >= 0 ==> (r matches Exact::Integer(x) && x == int_pow(b as int, e as nat)),
        e < 0 ==> (r matches Exact::Rational(n, d) && n == 1 && d == int_pow(b as int, (-e) as nat)),
        steps_view(final(steps)@) == steps_view(old(steps)@) + power_trace(b as int, e as int),
        crate::rule_library::string_views(final(rules)@) == crate::rule_library::string_views(old(rules)@)
            + power_rules(e as int),
{
    let ghost s0 = steps_view(steps@);
    let ghost r0 = crate::rule_library::string_views(rules@);
    use_rule(rules, "exponent_eval");
    proof {
        assert(crate::rule_library::string_views(rules@) =~= r0 + seq!["exponent_eval"@] + Seq::new(
            0,
            |k: int| "core.mul"@,
        ));
    }
    if e == 0 {
        let mut desc = String::new();
        push_int(&mut desc, b);
        push_text(&mut desc, "^0 = 1 (any non-zero number to the 0th power is 1)");
        record(steps, "power_zero", desc, rule_name("1"));
        proof {
            assert(steps_view(steps@) =~= s0 + power_trace(b as int, e as int));
            assert(crate::rule_library::string_views(rules@) =~= r0 + power_rules(e as int));
        }
        return Exact::Integer(1);
    }
    if e == 1 {
        let mut desc = String::new();
        push_int(&mut desc, b);
        push_text(&mut desc, "^1 = ");
        push_int(&mut desc, b);
        record(steps, "power_one", desc, int_to_text(b));
        proof {
            assert(int_pow(b as int, 1) == b) by {
                assert(int_pow(b as int, 0) == 1);
            }
            assert(steps_view(steps@) =~= s0 + power_trace(b as int, e as int));
            assert(crate::rule_library::string_views(rules@) =~= r0 + power_rules(e as int));
        }
        return Exact::Integer(b);
    }
    let n: i64 = if e > 0 {
        e
    } else {
        -e
    };
    let mut acc: i64 = 1;
    let mut i: i64 = 0;
    proof {
        assert(steps_view(steps@) =~= s0 + power_steps(b as int, e as int, 0));
        assert(steps_view(steps@) =~= s0 + denominator_steps(b as int, 0));
    }
    while i < n
        invariant
            n == abs_int(e as int),
            e != 0 && e != 1,
            int_pow(abs_int(b as int) as int, n as nat) <= i64::MAX,
            0 <= i <= n,
            acc == int_pow(b as int, i as nat),
            e > 0 ==> steps_view(steps@) == s0 + power_steps(b as int, e as int, i as nat),
            e < 0 ==> steps_view(steps@) == s0 + denominator_steps(b as int, i as nat),
            crate::rule_library::string_views(rules@) == r0 + seq!["exponent_eval"@] + Seq::new(
                i as nat,
                |k: int| "core.mul"@,
            ),
        decreases n - i,
    {
        proof {
            lemma_power_round_bound(b as int, i as nat, n as nat, i64::MAX as int);
        }
        acc = mul_integers(acc, b, steps, rules);
        i = i + 1;
        if e > 0 {
            let mut desc = String::new();
            push_int(&mut desc, b);
            push_text(&mut desc, "^");
            push_int(&mut desc, e);
            push_text(&mut desc, " step ");
            push_int(&mut desc, i);
            push_text(&mut desc, ": intermediate = ");
            push_int(&mut desc, acc);
            record(steps, "power_step", desc, int_to_text(acc));
        }
        proof {
            assert(crate::rule_library::string_views(rules@) =~= r0 + seq!["exponent_eval"@] + Seq::new(
                i as nat,
                |k: int| "core.mul"@,
            ));
            if e > 0 {
                assert(steps_view(steps@) =~= s0 + power_steps(b as int, e as int, i as nat));
            } else {
                assert(steps_view(steps@) =~= s0 + denominator_steps(b as int, i as nat));
            }
        }
    }
    proof {
        assert(crate::rule_library::string_views(rules@) =~= r0 + power_rules(e as int));
    }
    if e > 0 {
        proof {
            assert(steps_view(steps@) =~= s0 + power_trace(b as int, e as int));
        }
        Exact::Integer(acc)
    } else {
        let mut desc = String::new();
        push_int(&mut desc, b);
        push_text(&mut desc, "^");
        push_int(&mut desc, e);
        push_text(&mut desc, " = ");
        push_frac(&mut desc, 1, acc);
        record(steps, "power_negative", desc, frac_to_text(1, acc));
        proof {
            assert(steps_view(steps@) =~= s0 + power_trace(b as int, e as int));
        }
        Exact::Rational(1, acc)
    }
}

// ============================================================================
// REMAINDER
// ============================================================================

/// The remainder of a truncating division: the sign of the dividend, and a
/// magnitude below that of the divisor.
pub open spec fn trunc_rem(a: int, b: int) -> int {
    if a < 0 {
        -((abs_int(a) % abs_int(b)) as int)
    } else {
        (abs_int(a) % abs_int(b)) as int
    }
}

/// The step recording `a mod b = r`.
pub open spec fn modulo_step(a: int, b: int) -> StepView {
    step_of("modulo"@, int_text(a) + " mod "@ + int_text(b) + " = "@ + int_text(trunc_rem(a, b)), int_text(trunc_rem(a, b)))
}

/// `a mod b` with the sign of `a`, recording the step and rule `mod_arith`;
/// a zero divisor is an error and records nothing.
pub fn modulo_integers(a: i64, b: i64, steps: &mut Vec<Step>, rules: &mut Vec<String>) -> (r: Result<i64, String>)
    requires
        !(a == i64::MIN && b == -1),
    ensures
        b == 0 ==> (r matches Err(m) && m@ == "Modulo by zero"@),
        b == 0 ==> final(steps)@ == old(steps)@ && final(rules)@ == old(rules)@,
        b != 0 ==> r == Ok::<i64, String>(trunc_rem(a as int, b as int) as i64),
        b != 0 ==> steps_view(final(steps)@) == steps_view(old(steps)@).push(modulo_step(a as int, b as int)),
        b != 0 ==> crate::rule_library::string_views(final(rules)@) == crate::rule_library::string_views(
            old(rules)@,
        ).push("mod_arith"@),
{
    if b == 0 {
        return Err(String::from_str("Modulo by zero"));
    }
    let m = magnitude(a) % magnitude(b);
    proof {
        assert(m < abs_int(b as int));
        assert(abs_int(b as int) <= 0x8000_0000_0000_0000);
    }
    let result: i64 = if a < 0 {
        -(m as i64)
    } else {
        m as i64
    };
    let mut desc = String::new();
    push_int(&mut desc, a);
    push_text(&mut desc, " mod ");
    push_int(&mut desc, b);
    push_text(&mut desc, " = ");
    push_int(&mut desc, result);
    record(steps, "modulo", desc, int_to_text(result));
    use_rule(rules, "mod_arith");
    Ok(result)
}

} // verus!
