//! Expression front end: a tokenizer, an operator-precedence parser building an
//! abstract syntax tree, and a classifier naming the domain and pattern of an
//! expression for rule retrieval.
use vstd::prelude::*;
use crate::rule_library::{string_views, Domain, PatternType};
use crate::text::{push_char, starts_with, str_eq};

verus! {

// ============================================================================
// EXACT NUMERALS
// ============================================================================

/// Value of a digit sequence read most significant digit first.
pub open spec fn seq_value(ds: Seq<u8>) -> nat
    decreases ds.len(),
{
    if ds.len() == 0 {
        0
    } else {
        seq_value(ds.drop_last()) * 10 + ds.last() as nat
    }
}

/// A numeral's digits: integer part most significant first without leading
/// zeros, fractional part without trailing zeros, every entry a decimal digit.
pub open spec fn numeral_wf(v: (Seq<u8>, Seq<u8>)) -> bool {
    &&& forall|i: int| 0 <= i < v.0.len() ==> #[trigger] v.0[i] <= 9
    &&& forall|i: int| 0 <= i < v.1.len() ==> #[trigger] v.1[i] <= 9
    &&& v.0.len() > 0 ==> v.0[0] != 0
    &&& v.1.len() > 0 ==> v.1.last() != 0
}

/// An exact decimal number, as a numeric literal writes it. Two numerals are
/// equal exactly when they denote the same number.
#[derive(Debug, PartialEq)]
pub struct Numeral {
    int_digits: Vec<u8>,
    frac_digits: Vec<u8>,
}

impl View for Numeral {
    type V = (Seq<u8>, Seq<u8>);

    closed spec fn view(&self) -> (Seq<u8>, Seq<u8>) {
        (self.int_digits@, self.frac_digits@)
    }
}

impl Numeral {
    #[verifier::type_invariant]
    closed spec fn wf(self) -> bool {
        numeral_wf(self@)
    }

    /// A numeral from well-formed digits.
    fn from_parts(int_digits: Vec<u8>, frac_digits: Vec<u8>) -> (r: Numeral)
        requires
            numeral_wf((int_digits@, frac_digits@)),
        ensures
            r@ == (int_digits@, frac_digits@),
    {
        Numeral { int_digits, frac_digits }
    }

    /// The number zero.
    pub fn zero() -> (r: Numeral)
        ensures
            r@ == (Seq::<u8>::empty(), Seq::<u8>::empty()),
    {
        let r = Numeral { int_digits: Vec::new(), frac_digits: Vec::new() };
        assert(r@.0 =~= Seq::<u8>::empty() && r@.1 =~= Seq::<u8>::empty());
        r
    }

    /// A copy of the numeral.
    pub fn copy(&self) -> (r: Numeral)
        ensures
            r@ == self@,
    {
        proof {
            use_type_invariant(self);
        }
        let mut a: Vec<u8> = Vec::new();
        let mut i: usize = 0;
        while i < self.int_digits.len()
            invariant
                i <= self.int_digits@.len(),
                a@ == self.int_digits@.take(i as int),
            decreases self.int_digits@.len() - i,
        {
            a.push(self.int_digits[i]);
            i = i + 1;
            proof {
                assert(a@ =~= self.int_digits@.take(i as int));
            }
        }
        let mut b: Vec<u8> = Vec::new();
        let mut j: usize = 0;
        while j < self.frac_digits.len()
            invariant
                j <= self.frac_digits@.len(),
                b@ == self.frac_digits@.take(j as int),
            decreases self.frac_digits@.len() - j,
        {
            b.push(self.frac_digits[j]);
            j = j + 1;
            proof {
                assert(b@ =~= self.frac_digits@.take(j as int));
            }
        }
        proof {
            use_type_invariant(self);
            assert(a@ =~= self.int_digits@);
            assert(b@ =~= self.frac_digits@);
            assert(numeral_wf((a@, b@)));
        }
        Numeral { int_digits: a, frac_digits: b }
    }
}

impl Clone for Numeral {
    fn clone(&self) -> (r: Numeral)
        ensures
            r@ == self@,
    {
        self.copy()
    }
}

// ============================================================================
// CHARACTERS AND LITERALS
// ============================================================================

/// An ASCII decimal digit.
pub open spec fn is_digit_char(c: char) -> bool {
    '0' <= c && c <= '9'
}

/// An ASCII letter.
pub open spec fn is_alpha_char(c: char) -> bool {
    ('a' <= c && c <= 'z') || ('A' <= c && c <= 'Z')
}

/// A character that continues a word: letter, digit or underscore.
pub open spec fn is_word_char(c: char) -> bool {
    is_alpha_char(c) || is_digit_char(c) || c == '_'
}

/// A Unicode white-space character (the `White_Space` property).
pub open spec fn is_space_char(c: char) -> bool {
    ('\u{9}' <= c && c <= '\u{d}') || c == ' ' || c == '\u{85}' || c == '\u{a0}' || c == '\u{1680}'
        || ('\u{2000}' <= c && c <= '\u{200a}') || c == '\u{2028}' || c == '\u{2029}' || c == '\u{202f}'
        || c == '\u{205f}' || c == '\u{3000}'
}

fn digit_char_test(c: char) -> (b: bool)
    ensures
        b == is_digit_char(c),
{
    '0' <= c && c <= '9'
}

fn alpha_char_test(c: char) -> (b: bool)
    ensures
        b == is_alpha_char(c),
{
    ('a' <= c && c <= 'z') || ('A' <= c && c <= 'Z')
}

fn word_char_test(c: char) -> (b: bool)
    ensures
        b == is_word_char(c),
{
    alpha_char_test(c) || digit_char_test(c) || c == '_'
}

fn space_char_test(c: char) -> (b: bool)
    ensures
        b == is_space_char(c),
{
    ('\u{9}' <= c && c <= '\u{d}') || c == ' ' || c == '\u{85}' || c == '\u{a0}' || c == '\u{1680}'
        || ('\u{2000}' <= c && c <= '\u{200a}') || c == '\u{2028}' || c == '\u{2029}' || c == '\u{202f}'
        || c == '\u{205f}' || c == '\u{3000}'
}

/// The value of a digit character.
pub open spec fn char_digit(c: char) -> u8 {
    (c as u32 - 48) as u8
}

/// The character of a digit value.
pub open spec fn digit_char(d: u8) -> char {
    (d as u32 + 48) as char
}

/// The values of digit characters.
pub open spec fn char_digits(cs: Seq<char>) -> Seq<u8> {
    cs.map_values(|c: char| char_digit(c))
}

/// The characters of digit values.
pub open spec fn digit_chars(ds: Seq<u8>) -> Seq<char> {
    ds.map_values(|d: u8| digit_char(d))
}

/// Drops leading zeros.
pub open spec fn strip_leading_zeros(ds: Seq<u8>) -> Seq<u8>
    decreases ds.len(),
{
    if ds.len() > 0 && ds[0] == 0 {
        strip_leading_zeros(ds.drop_first())
    } else {
        ds
    }
}

/// Drops trailing zeros.
pub open spec fn strip_trailing_zeros(ds: Seq<u8>) -> Seq<u8>
    decreases ds.len(),
{
    if ds.len() > 0 && ds.last() == 0 {
        strip_trailing_zeros(ds.drop_last())
    } else {
        ds
    }
}

/// Index of the first decimal point, or the length when there is none.
pub open spec fn first_dot(cs: Seq<char>) -> int
    decreases cs.len(),
{
    if cs.len() == 0 {
        0
    } else if cs[0] == '.' {
        0
    } else {
        1 + first_dot(cs.drop_first())
    }
}

/// A decimal literal: digits with at most one point, and at least one digit.
pub open spec fn is_literal(cs: Seq<char>) -> bool {
    &&& forall|i: int| 0 <= i < cs.len() && i != first_dot(cs) ==> is_digit_char(#[trigger] cs[i])
    &&& exists|i: int| 0 <= i < cs.len() && is_digit_char(#[trigger] cs[i])
}

/// The digits of the numeral a decimal literal denotes.
pub open spec fn literal_view(cs: Seq<char>) -> (Seq<u8>, Seq<u8>) {
    let d = first_dot(cs);
    (
        strip_leading_zeros(char_digits(cs.take(d))),
        if d < cs.len() {
            strip_trailing_zeros(char_digits(cs.skip(d + 1)))
        } else {
            Seq::empty()
        },
    )
}

/// The digits of pi as a double-precision number prints it: 3.141592653589793.
pub open spec fn pi_view() -> (Seq<u8>, Seq<u8>) {
    (seq![3u8], seq![1u8, 4, 1, 5, 9, 2, 6, 5, 3, 5, 8, 9, 7, 9, 3])
}

/// The digits of e as a double-precision number prints it: 2.718281828459045.
pub open spec fn e_view() -> (Seq<u8>, Seq<u8>) {
    (seq![2u8], seq![7u8, 1, 8, 2, 8, 1, 8, 2, 8, 4, 5, 9, 0, 4, 5])
}

/// The text of a numeral: its integer part (`0` when it is zero), then the
/// fractional digits after a point when there are any.
pub open spec fn numeral_text(v: (Seq<u8>, Seq<u8>)) -> Seq<char> {
    (if v.0.len() == 0 {
        seq!['0']
    } else {
        digit_chars(v.0)
    }) + (if v.1.len() == 0 {
        Seq::<char>::empty()
    } else {
        seq!['.'] + digit_chars(v.1)
    })
}

proof fn lemma_first_dot_bounds(cs: Seq<char>)
    ensures
        0 <= first_dot(cs) <= cs.len(),
        first_dot(cs) < cs.len() ==> cs[first_dot(cs)] == '.',
        forall|i: int| 0 <= i < first_dot(cs) ==> cs[i] != '.',
    decreases cs.len(),
{
    if cs.len() > 0 && cs[0] != '.' {
        lemma_first_dot_bounds(cs.drop_first());
        assert forall|i: int| 0 <= i < first_dot(cs) implies cs[i] != '.' by {
            if i > 0 {
                assert(cs[i] == cs.drop_first()[i - 1]);
            }
        }
    }
}

proof fn lemma_first_dot_at(cs: Seq<char>, d: int)
    requires
        0 <= d <= cs.len(),
        d < cs.len() ==> cs[d] == '.',
        forall|i: int| 0 <= i < d ==> cs[i] != '.',
    ensures
        first_dot(cs) == d,
    decreases cs.len(),
{
    if cs.len() > 0 && d > 0 {
        assert forall|i: int| 0 <= i < d - 1 implies cs.drop_first()[i] != '.' by {
            assert(cs.drop_first()[i] == cs[i + 1]);
        }
        lemma_first_dot_at(cs.drop_first(), d - 1);
    }
}

proof fn lemma_strip_leading(ds: Seq<u8>, k: int)
    requires
        0 <= k <= ds.len(),
        forall|i: int| 0 <= i < k ==> ds[i] == 0,
        k < ds.len() ==> ds[k] != 0,
    ensures
        strip_leading_zeros(ds) == ds.skip(k),
    decreases k,
{
    if k > 0 {
        assert forall|i: int| 0 <= i < k - 1 implies ds.drop_first()[i] == 0 by {
            assert(ds.drop_first()[i] == ds[i + 1]);
        }
        lemma_strip_leading(ds.drop_first(), k - 1);
        assert(ds.drop_first().skip(k - 1) =~= ds.skip(k));
    } else {
        assert(ds.skip(0) =~= ds);
    }
}

proof fn lemma_strip_trailing(ds: Seq<u8>, e: int)
    requires
        0 <= e <= ds.len(),
        forall|i: int| e <= i < ds.len() ==> ds[i] == 0,
        e > 0 ==> ds[e - 1] != 0,
    ensures
        strip_trailing_zeros(ds) == ds.take(e),
    decreases ds.len() - e,
{
    if e < ds.len() {
        assert forall|i: int| e <= i < ds.drop_last().len() implies ds.drop_last()[i] == 0 by {
            assert(ds.drop_last()[i] == ds[i]);
        }
        lemma_strip_trailing(ds.drop_last(), e);
        assert(ds.drop_last().take(e) =~= ds.take(e));
    } else {
        assert(ds.take(e) =~= ds);
    }
}

impl Numeral {
    /// The numeral a decimal literal denotes: `cs[start..end]` holds digits
    /// and at most one point, and at least one digit.
    fn from_run(cs: &Vec<char>, start: usize, end: usize) -> (r: Numeral)
        requires
            start < end <= cs@.len(),
            is_literal(cs@.subrange(start as int, end as int)),
        ensures
            r@ == literal_view(cs@.subrange(start as int, end as int)),
    {
        let ghost run = cs@.subrange(start as int, end as int);
        proof {
            lemma_first_dot_bounds(run);
        }
        // the decimal point, or the end
        let mut d: usize = start;
        while d < end && cs[d] != '.'
            invariant
                start <= d <= end,
                end <= cs@.len(),
                run == cs@.subrange(start as int, end as int),
                forall|i: int| start <= i < d ==> cs@[i] != '.',
            decreases end - d,
        {
            d = d + 1;
        }
        proof {
            assert forall|i: int| 0 <= i < d - start implies run[i] != '.' by {
                assert(run[i] == cs@[start + i]);
            }
            lemma_first_dot_at(run, d - start);
        }
        let ghost fd = d - start;
        // integer digits without leading zeros
        let mut k: usize = start;
        while k < d && cs[k] == '0'
            invariant
                start <= k <= d,
                d <= end <= cs@.len(),
                forall|i: int| start <= i < k ==> cs@[i] == '0',
            decreases d - k,
        {
            k = k + 1;
        }
        let mut int_digits: Vec<u8> = Vec::new();
        let mut i: usize = k;
        while i < d
            invariant
                start <= k <= i <= d,
                d <= end <= cs@.len(),
                run == cs@.subrange(start as int, end as int),
                fd == d - start,
                fd == first_dot(run),
                is_literal(run),
                int_digits@ == char_digits(cs@.subrange(k as int, i as int)),
                forall|j: int| 0 <= j < int_digits@.len() ==> #[trigger] int_digits@[j] <= 9,
            decreases d - i,
        {
            let c = cs[i];
            proof {
                assert(run[i - start] == c);
                assert(is_digit_char(run[i - start]));
            }
            let v = (c as u32 - 48) as u8;
            int_digits.push(v);
            i = i + 1;
            proof {
                assert(int_digits@ =~= char_digits(cs@.subrange(k as int, i as int)));
            }
        }
        // fractional digits without trailing zeros
        let mut frac_digits: Vec<u8> = Vec::new();
        let mut e: usize = end;
        if d < end {
            while e > d + 1 && cs[e - 1] == '0'
                invariant
                    d + 1 <= e <= end,
                    end <= cs@.len(),
                    forall|j: int| e <= j < end ==> cs@[j] == '0',
                decreases e,
            {
                e = e - 1;
            }
            let mut j: usize = d + 1;
            while j < e
                invariant
                    start <= d,
                    d + 1 <= j <= e,
                    e <= end <= cs@.len(),
                    run == cs@.subrange(start as int, end as int),
                    fd == d - start,
                    fd == first_dot(run),
                    is_literal(run),
                    frac_digits@ == char_digits(cs@.subrange(d + 1, j as int)),
                    forall|q: int| 0 <= q < frac_digits@.len() ==> #[trigger] frac_digits@[q] <= 9,
                decreases e - j,
            {
                let c = cs[j];
                proof {
                    assert(run[j - start] == c);
                    assert(is_digit_char(run[j - start]));
                }
                let v = (c as u32 - 48) as u8;
                frac_digits.push(v);
                j = j + 1;
                proof {
                    assert(frac_digits@ =~= char_digits(cs@.subrange(d + 1, j as int)));
                }
            }
        }
        proof {
            let ip = char_digits(run.take(fd));
            assert(run.take(fd) =~= cs@.subrange(start as int, d as int));
            assert forall|q: int| 0 <= q < k - start implies ip[q] == 0 by {
                assert(run.take(fd)[q] == cs@[start + q]);
            }
            if k < d {
                assert(run.take(fd)[k - start] == cs@[k as int]);
                assert(is_digit_char(run[k - start]));
            }
            lemma_strip_leading(ip, k - start);
            assert(ip.skip(k - start) =~= char_digits(cs@.subrange(k as int, d as int)));
            if d < end {
                let fp = char_digits(run.skip(fd + 1));
                assert(run.skip(fd + 1) =~= cs@.subrange(d + 1, end as int));
                assert forall|q: int| e - d - 1 <= q < fp.len() implies fp[q] == 0 by {
                    assert(run.skip(fd + 1)[q] == cs@[d + 1 + q]);
                }
                if e > d + 1 {
                    assert(run.skip(fd + 1)[e - d - 2] == cs@[e - 1]);
                    assert(is_digit_char(run[e - 1 - start]));
                }
                lemma_strip_trailing(fp, e - d - 1);
                assert(fp.take(e - d - 1) =~= char_digits(cs@.subrange(d + 1, e as int)));
            } else {
                assert(frac_digits@ =~= Seq::<u8>::empty());
            }
        }
        Numeral { int_digits, frac_digits }
    }

    /// A numeral from its literal text: digits with at most one decimal point
    /// and at least one digit. `None` for any other text.
    pub fn from_literal(s: &str) -> (r: Option<Numeral>)
        ensures
            r is Some <==> is_literal(s@),
            r matches Some(n) ==> n@ == literal_view(s@),
    {
        let cs = chars_of(s);
        let n = cs.len();
        // validate: digits, at most one point, at least one digit
        let mut seen_dot = false;
        let mut seen_digit = false;
        let mut d: usize = n;
        let mut i: usize = 0;
        proof {
            lemma_first_dot_bounds(cs@);
        }
        while i < n
            invariant
                i <= n == cs@.len(),
                cs@ == s@,
                seen_dot ==> d < i && cs@[d as int] == '.' && d == first_dot(cs@),
                !seen_dot ==> forall|j: int| 0 <= j < i ==> cs@[j] != '.',
                !seen_dot ==> d == n,
                forall|j: int| 0 <= j < i && j != d ==> is_digit_char(#[trigger] cs@[j]),
                seen_digit <==> exists|j: int| 0 <= j < i && is_digit_char(#[trigger] cs@[j]),
            decreases n - i,
        {
            let c = cs[i];
            if c == '.' {
                if seen_dot {
                    proof {
                        assert(i != first_dot(cs@));
                        assert(!is_digit_char(cs@[i as int]));
                        assert(!is_literal(s@));
                    }
                    return None;
                }
                seen_dot = true;
                d = i;
                proof {
                    lemma_first_dot_at(cs@, i as int);
                }
            } else if digit_char_test(c) {
                seen_digit = true;
            } else {
                proof {
                    if !seen_dot {
                        lemma_first_dot_bounds(cs@);
                        assert(first_dot(cs@) != i) by {
                            if first_dot(cs@) == i {
                                assert(cs@[i as int] == '.');
                            }
                        }
                    }
                    assert(!is_digit_char(cs@[i as int]));
                    assert(!is_literal(s@));
                }
                return None;
            }
            i = i + 1;
        }
        proof {
            if !seen_dot {
                lemma_first_dot_at(cs@, n as int);
            }
        }
        if !seen_digit {
            proof {
                assert(!is_literal(s@)) by {
                    if is_literal(s@) {
                        let j = choose|j: int| 0 <= j < s@.len() && is_digit_char(#[trigger] s@[j]);
                        assert(is_digit_char(cs@[j]));
                    }
                }
            }
            return None;
        }
        proof {
            assert(cs@.subrange(0, n as int) =~= cs@);
        }
        Some(Numeral::from_run(&cs, 0, n))
    }

    /// Pi, at the precision of a double: 3.141592653589793.
    pub fn pi() -> (r: Numeral)
        ensures
            r@ == pi_view(),
    {
        let r = Numeral {
            int_digits: vec![3u8],
            frac_digits: vec![1u8, 4, 1, 5, 9, 2, 6, 5, 3, 5, 8, 9, 7, 9, 3],
        };
        assert(r@.0 =~= pi_view().0 && r@.1 =~= pi_view().1);
        r
    }

    /// Euler's number, at the precision of a double: 2.718281828459045.
    pub fn e() -> (r: Numeral)
        ensures
            r@ == e_view(),
    {
        let r = Numeral {
            int_digits: vec![2u8],
            frac_digits: vec![7u8, 1, 8, 2, 8, 1, 8, 2, 8, 4, 5, 9, 0, 4, 5],
        };
        assert(r@.0 =~= e_view().0 && r@.1 =~= e_view().1);
        r
    }

    /// Whether the numeral is a whole number.
    pub fn is_integral(&self) -> (b: bool)
        ensures
            b == (self@.1.len() == 0),
    {
        self.frac_digits.len() == 0
    }

    /// Whether the numeral is one of the whole numbers 0 to 9.
    pub fn is_single_digit(&self) -> (b: bool)
        ensures
            b == (self@.1.len() == 0 && seq_value(self@.0) <= 9),
    {
        proof {
            use_type_invariant(self);
            lemma_seq_value_len(self@.0);
        }
        self.frac_digits.len() == 0 && self.int_digits.len() <= 1
    }

    /// The whole part of the numeral, or `u32::MAX` when it is larger.
    pub fn truncate_u32(&self) -> (t: u32)
        ensures
            t == (if seq_value(self@.0) <= u32::MAX { seq_value(self@.0) } else { u32::MAX as nat }),
    {
        proof {
            use_type_invariant(self);
            lemma_seq_value_len(self@.0);
        }
        if self.int_digits.len() > 10 {
            proof {
                reveal_with_fuel(pow10_u, 11);
                lemma_pow10_u_mono(10, (self@.0.len() - 1) as nat);
            }
            return u32::MAX;
        }
        let mut v: u64 = 0;
        let mut i: usize = 0;
        while i < self.int_digits.len()
            invariant
                i <= self.int_digits@.len() <= 10,
                numeral_wf(self@),
                self@.0 == self.int_digits@,
                v == seq_value(self.int_digits@.take(i as int)),
                v < pow10_u(i as nat),
            decreases self.int_digits@.len() - i,
        {
            proof {
                assert(self.int_digits@.take(i + 1).drop_last() =~= self.int_digits@.take(i as int));
                assert(self.int_digits@[i as int] <= 9);
                assert(pow10_u((i + 1) as nat) == 10 * pow10_u(i as nat));
                assert(pow10_u(i as nat) <= 1_000_000_000) by {
                    lemma_pow10_u_mono(i as nat, 9);
                    reveal_with_fuel(pow10_u, 10);
                }
            }
            v = v * 10 + self.int_digits[i] as u64;
            i = i + 1;
        }
        proof {
            assert(self.int_digits@.take(i as int) =~= self.int_digits@);
        }
        if v > u32::MAX as u64 {
            u32::MAX
        } else {
            v as u32
        }
    }

    /// The numeral's text: its integer part (`0` for zero) and, when it has
    /// a fractional part, a point and the fractional digits.
    pub fn to_text(&self) -> (t: String)
        ensures
            t@ == numeral_text(self@),
    {
        proof {
            use_type_invariant(self);
        }
        let mut t = String::new();
        if self.int_digits.len() == 0 {
            push_char(&mut t, '0');
            assert(t@ =~= seq!['0']);
        } else {
            let mut i: usize = 0;
            while i < self.int_digits.len()
                invariant
                    i <= self.int_digits@.len(),
                    numeral_wf(self@),
                    self@.0 == self.int_digits@,
                    t@ == digit_chars(self.int_digits@.take(i as int)),
                decreases self.int_digits@.len() - i,
            {
                push_char(&mut t, digit_to_char(self.int_digits[i]));
                i = i + 1;
                assert(t@ =~= digit_chars(self.int_digits@.take(i as int)));
            }
            assert(self.int_digits@.take(i as int) =~= self.int_digits@);
        }
        let ghost head = t@;
        if self.frac_digits.len() > 0 {
            push_char(&mut t, '.');
            let mut j: usize = 0;
            while j < self.frac_digits.len()
                invariant
                    j <= self.frac_digits@.len(),
                    numeral_wf(self@),
                    self@.1 == self.frac_digits@,
                    t@ == head + seq!['.'] + digit_chars(self.frac_digits@.take(j as int)),
                decreases self.frac_digits@.len() - j,
            {
                push_char(&mut t, digit_to_char(self.frac_digits[j]));
                j = j + 1;
                assert(t@ =~= head + seq!['.'] + digit_chars(self.frac_digits@.take(j as int)));
            }
            assert(self.frac_digits@.take(j as int) =~= self.frac_digits@);
        } else {
            assert(t@ =~= head + Seq::<char>::empty());
        }
        t
    }
}

/// The character of a digit value.
fn digit_to_char(d: u8) -> (c: char)
    requires
        d <= 9,
    ensures
        c == digit_char(d),
{
    match d {
        0 => '0',
        1 => '1',
        2 => '2',
        3 => '3',
        4 => '4',
        5 => '5',
        6 => '6',
        7 => '7',
        8 => '8',
        _ => '9',
    }
}

/// Powers of ten.
pub open spec fn pow10_u(e: nat) -> nat
    decreases e,
{
    if e == 0 {
        1
    } else {
        10 * pow10_u((e - 1) as nat)
    }
}

proof fn lemma_pow10_u_mono(a: nat, b: nat)
    requires
        a <= b,
    ensures
        pow10_u(a) <= pow10_u(b),
    decreases b,
{
    if a < b {
        lemma_pow10_u_mono(a, (b - 1) as nat);
    }
}

/// A digit sequence of length `n` has a value below `10^n`, and one without a
/// leading zero has a value of at least `10^(n-1)`.
proof fn lemma_seq_value_len(ds: Seq<u8>)
    requires
        forall|i: int| 0 <= i < ds.len() ==> #[trigger] ds[i] <= 9,
    ensures
        seq_value(ds) < pow10_u(ds.len()),
        ds.len() > 0 && ds[0] != 0 ==> seq_value(ds) >= pow10_u((ds.len() - 1) as nat),
    decreases ds.len(),
{
    if ds.len() > 0 {
        let d0 = ds.drop_last();
        assert forall|i: int| 0 <= i < d0.len() implies #[trigger] d0[i] <= 9 by {
            assert(d0[i] == ds[i]);
        }
        lemma_seq_value_len(d0);
        if ds.len() > 1 && ds[0] != 0 {
            assert(d0[0] == ds[0]);
        }
    }
}

/// The characters of a string slice.
fn chars_of(s: &str) -> (v: Vec<char>)
    ensures
        v@ == s@,
{
    let n = s.unicode_len();
    let mut v: Vec<char> = Vec::new();
    let mut i: usize = 0;
    while i < n
        invariant
            i <= n == s@.len(),
            v@ == s@.take(i as int),
        decreases n - i,
    {
        v.push(s.get_char(i));
        i = i + 1;
        assert(v@ =~= s@.take(i as int));
    }
    assert(s@.take(i as int) =~= s@);
    v
}

// ============================================================================
// TOKENS
// ============================================================================

/// A token of an expression.
#[derive(Debug, Clone, PartialEq)]
pub enum Token {
    /// A numeric literal, or a named constant.
    Number(Numeral),
    /// A variable name, as written.
    Variable(String),
    /// A known function name, in lower case.
    Function(String),
    Plus,
    Minus,
    Star,
    Slash,
    Caret,
    Percent,
    Bang,
    LeftParen,
    RightParen,
    Comma,
    Equals,
    LessThan,
    GreaterThan,
    LessEqual,
    GreaterEqual,
    Pipe,
    Underscore,
    /// End of input.
    Eof,
}

/// The content of a [`Token`].
pub enum TokenView {
    Number((Seq<u8>, Seq<u8>)),
    Variable(Seq<char>),
    Function(Seq<char>),
    Plus,
    Minus,
    Star,
    Slash,
    Caret,
    Percent,
    Bang,
    LeftParen,
    RightParen,
    Comma,
    Equals,
    LessThan,
    GreaterThan,
    LessEqual,
    GreaterEqual,
    Pipe,
    Underscore,
    Eof,
}

impl View for Token {
    type V = TokenView;

    open spec fn view(&self) -> TokenView {
        match self {
            Token::Number(n) => TokenView::Number(n@),
            Token::Variable(s) => TokenView::Variable(s@),
            Token::Function(s) => TokenView::Function(s@),
            Token::Plus => TokenView::Plus,
            Token::Minus => TokenView::Minus,
            Token::Star => TokenView::Star,
            Token::Slash => TokenView::Slash,
            Token::Caret => TokenView::Caret,
            Token::Percent => TokenView::Percent,
            Token::Bang => TokenView::Bang,
            Token::LeftParen => TokenView::LeftParen,
            Token::RightParen => TokenView::RightParen,
            Token::Comma => TokenView::Comma,
            Token::Equals => TokenView::Equals,
            Token::LessThan => TokenView::LessThan,
            Token::GreaterThan => TokenView::GreaterThan,
            Token::LessEqual => TokenView::LessEqual,
            Token::GreaterEqual => TokenView::GreaterEqual,
            Token::Pipe => TokenView::Pipe,
            Token::Underscore => TokenView::Underscore,
            Token::Eof => TokenView::Eof,
        }
    }
}

/// The views of a sequence of tokens.
pub open spec fn token_views(ts: Seq<Token>) -> Seq<TokenView> {
    ts.map_values(|t: Token| t@)
}

/// How a token prints.
pub open spec fn token_text(t: TokenView) -> Seq<char> {
    match t {
        TokenView::Number(v) => numeral_text(v),
        TokenView::Variable(s) => s,
        TokenView::Function(s) => s + seq!['(', ')'],
        TokenView::Plus => seq!['+'],
        TokenView::Minus => seq!['-'],
        TokenView::Star => seq!['*'],
        TokenView::Slash => seq!['/'],
        TokenView::Caret => seq!['^'],
        TokenView::Percent => seq!['%'],
        TokenView::Bang => seq!['!'],
        TokenView::LeftParen => seq!['('],
        TokenView::RightParen => seq![')'],
        TokenView::Comma => seq![','],
        TokenView::Equals => seq!['='],
        TokenView::LessThan => seq!['<'],
        TokenView::GreaterThan => seq!['>'],
        TokenView::LessEqual => seq!['<', '='],
        TokenView::GreaterEqual => seq!['>', '='],
        TokenView::Pipe => seq!['|'],
        TokenView::Underscore => seq!['_'],
        TokenView::Eof => seq!['E', 'O', 'F'],
    }
}

/// Appends the characters of a short text to a string.
fn push_text(t: &mut String, s: &str)
    ensures
        final(t)@ == old(t)@ + s@,
{
    t.append(s);
}

impl Token {
    /// The token as it prints.
    pub fn to_text(&self) -> (t: String)
        ensures
            t@ == token_text(self@),
    {
        let mut t = String::new();
        match self {
            Token::Number(n) => {
                return n.to_text();
            },
            Token::Variable(s) => {
                return s.clone();
            },
            Token::Function(s) => {
                let mut r = s.clone();
                push_char(&mut r, '(');
                push_char(&mut r, ')');
                assert(r@ =~= s@ + seq!['(', ')']);
                return r;
            },
            Token::Plus => push_char(&mut t, '+'),
            Token::Minus => push_char(&mut t, '-'),
            Token::Star => push_char(&mut t, '*'),
            Token::Slash => push_char(&mut t, '/'),
            Token::Caret => push_char(&mut t, '^'),
            Token::Percent => push_char(&mut t, '%'),
            Token::Bang => push_char(&mut t, '!'),
            Token::LeftParen => push_char(&mut t, '('),
            Token::RightParen => push_char(&mut t, ')'),
            Token::Comma => push_char(&mut t, ','),
            Token::Equals => push_char(&mut t, '='),
            Token::LessThan => push_char(&mut t, '<'),
            Token::GreaterThan => push_char(&mut t, '>'),
            Token::LessEqual => {
                push_char(&mut t, '<');
                push_char(&mut t, '=');
            },
            Token::GreaterEqual => {
                push_char(&mut t, '>');
                push_char(&mut t, '=');
            },
            Token::Pipe => push_char(&mut t, '|'),
            Token::Underscore => push_char(&mut t, '_'),
            Token::Eof => {
                push_char(&mut t, 'E');
                push_char(&mut t, 'O');
                push_char(&mut t, 'F');
            },
        }
        assert(t@ =~= token_text(self@));
        t
    }

    /// A copy of the token.
    pub fn copy(&self) -> (r: Token)
        ensures
            r@ == self@,
    {
        match self {
            Token::Number(n) => Token::Number(n.copy()),
            Token::Variable(s) => Token::Variable(s.clone()),
            Token::Function(s) => Token::Function(s.clone()),
            Token::Plus => Token::Plus,
            Token::Minus => Token::Minus,
            Token::Star => Token::Star,
            Token::Slash => Token::Slash,
            Token::Caret => Token::Caret,
            Token::Percent => Token::Percent,
            Token::Bang => Token::Bang,
            Token::LeftParen => Token::LeftParen,
            Token::RightParen => Token::RightParen,
            Token::Comma => Token::Comma,
            Token::Equals => Token::Equals,
            Token::LessThan => Token::LessThan,
            Token::GreaterThan => Token::GreaterThan,
            Token::LessEqual => Token::LessEqual,
            Token::GreaterEqual => Token::GreaterEqual,
            Token::Pipe => Token::Pipe,
            Token::Underscore => Token::Underscore,
            Token::Eof => Token::Eof,
        }
    }
}

// ============================================================================
// TOKENIZER
// ============================================================================

/// ASCII lower case of a character.
pub open spec fn lower_char(c: char) -> char {
    if 'A' <= c && c <= 'Z' {
        (c as u32 + 32) as char
    } else {
        c
    }
}

/// ASCII lower case of a text.
pub open spec fn lower_text(s: Seq<char>) -> Seq<char> {
    s.map_values(|c: char| lower_char(c))
}

/// The function names the tokenizer recognizes.
pub open spec fn is_known_function(s: Seq<char>) -> bool {
    ||| s == "sin"@
    ||| s == "cos"@
    ||| s == "tan"@
    ||| s == "asin"@
    ||| s == "acos"@
    ||| s == "atan"@
    ||| s == "sinh"@
    ||| s == "cosh"@
    ||| s == "tanh"@
    ||| s == "sqrt"@
    ||| s == "cbrt"@
    ||| s == "abs"@
    ||| s == "log"@
    ||| s == "ln"@
    ||| s == "exp"@
    ||| s == "floor"@
    ||| s == "ceil"@
    ||| s == "round"@
    ||| s == "gcd"@
    ||| s == "lcm"@
    ||| s == "det"@
    ||| s == "trace"@
    ||| s == "transpose"@
    ||| s == "mod"@
}

/// The token of a word: the constants `pi` and `e` and the known function
/// names in any letter case; any other word is a variable.
pub open spec fn word_token(w: Seq<char>) -> TokenView {
    let l = lower_text(w);
    if l == "pi"@ {
        TokenView::Number(pi_view())
    } else if l == "e"@ {
        TokenView::Number(e_view())
    } else if is_known_function(l) {
        TokenView::Function(l)
    } else {
        TokenView::Variable(w)
    }
}

/// The token of a character that stands alone.
pub open spec fn single_char_token(c: char) -> Option<TokenView> {
    if c == '+' {
        Some(TokenView::Plus)
    } else if c == '-' {
        Some(TokenView::Minus)
    } else if c == '*' {
        Some(TokenView::Star)
    } else if c == '/' {
        Some(TokenView::Slash)
    } else if c == '^' {
        Some(TokenView::Caret)
    } else if c == '%' {
        Some(TokenView::Percent)
    } else if c == '!' {
        Some(TokenView::Bang)
    } else if c == '(' {
        Some(TokenView::LeftParen)
    } else if c == ')' {
        Some(TokenView::RightParen)
    } else if c == ',' {
        Some(TokenView::Comma)
    } else if c == '=' {
        Some(TokenView::Equals)
    } else if c == '|' {
        Some(TokenView::Pipe)
    } else {
        None
    }
}

/// End of the number starting at `i`: digits, and one decimal point unless
/// one was already seen.
pub open spec fn number_end(cs: Seq<char>, i: int, dot: bool) -> int
    decreases cs.len() - i,
{
    if 0 <= i < cs.len() && (is_digit_char(cs[i]) || (cs[i] == '.' && !dot)) {
        number_end(cs, i + 1, dot || cs[i] == '.')
    } else {
        i
    }
}

/// End of the word starting at `i`.
pub open spec fn word_end(cs: Seq<char>, i: int) -> int
    decreases cs.len() - i,
{
    if 0 <= i < cs.len() && is_word_char(cs[i]) {
        word_end(cs, i + 1)
    } else {
        i
    }
}

pub proof fn lemma_number_end(cs: Seq<char>, i: int, dot: bool)
    requires
        0 <= i <= cs.len(),
    ensures
        i <= number_end(cs, i, dot) <= cs.len(),
    decreases cs.len() - i,
{
    if i < cs.len() && (is_digit_char(cs[i]) || (cs[i] == '.' && !dot)) {
        lemma_number_end(cs, i + 1, dot || cs[i] == '.');
    }
}

pub proof fn lemma_word_end(cs: Seq<char>, i: int)
    requires
        0 <= i <= cs.len(),
    ensures
        i <= word_end(cs, i) <= cs.len(),
    decreases cs.len() - i,
{
    if i < cs.len() && is_word_char(cs[i]) {
        lemma_word_end(cs, i + 1);
    }
}

/// `t` followed by the tokens of `r`, or `r`'s error.
pub open spec fn cons_token(t: TokenView, r: Result<Seq<TokenView>, (char, nat)>) -> Result<Seq<TokenView>, (char, nat)> {
    match r {
        Ok(ts) => Ok(seq![t] + ts),
        Err(e) => Err(e),
    }
}

/// The tokens of `cs` from position `i` on, ending with `Eof`; or the first
/// character that starts no token, with its position.
pub open spec fn lex(cs: Seq<char>, i: nat) -> Result<Seq<TokenView>, (char, nat)>
    decreases cs.len() - i,
{
    if i >= cs.len() {
        Ok(seq![TokenView::Eof])
    } else {
        let c = cs[i as int];
        if is_space_char(c) {
            lex(cs, i + 1)
        } else if is_digit_char(c) || (c == '.' && i + 1 < cs.len() && is_digit_char(cs[i as int + 1])) {
            let e = number_end(cs, i as int, false);
            proof {
                lemma_number_end(cs, i as int + 1, c == '.');
            }
            cons_token(TokenView::Number(literal_view(cs.subrange(i as int, e))), lex(cs, e as nat))
        } else if is_alpha_char(c) || c == '_' {
            let e = word_end(cs, i as int);
            proof {
                lemma_word_end(cs, i as int + 1);
            }
            cons_token(word_token(cs.subrange(i as int, e)), lex(cs, e as nat))
        } else if c == '<' {
            if i + 1 < cs.len() && cs[i as int + 1] == '=' {
                cons_token(TokenView::LessEqual, lex(cs, i + 2))
            } else {
                cons_token(TokenView::LessThan, lex(cs, i + 1))
            }
        } else if c == '>' {
            if i + 1 < cs.len() && cs[i as int + 1] == '=' {
                cons_token(TokenView::GreaterEqual, lex(cs, i + 2))
            } else {
                cons_token(TokenView::GreaterThan, lex(cs, i + 1))
            }
        } else {
            match single_char_token(c) {
                Some(t) => cons_token(t, lex(cs, i + 1)),
                None => Err((c, i)),
            }
        }
    }
}

/// `ts` followed by the tokens of `r`, or `r`'s error.
pub open spec fn join_tokens(ts: Seq<TokenView>, r: Result<Seq<TokenView>, (char, nat)>) -> Result<Seq<TokenView>, (char, nat)> {
    match r {
        Ok(rest) => Ok(ts + rest),
        Err(e) => Err(e),
    }
}

proof fn lemma_join_cons(ts: Seq<TokenView>, t: TokenView, r: Result<Seq<TokenView>, (char, nat)>)
    ensures
        join_tokens(ts, cons_token(t, r)) == join_tokens(ts.push(t), r),
{
    match r {
        Ok(rest) => {
            assert(ts + (seq![t] + rest) =~= ts.push(t) + rest);
        },
        Err(e) => {},
    }
}

/// The ASCII lower case of a character.
fn lower_char_exec(c: char) -> (r: char)
    ensures
        r == lower_char(c),
{
    if 'A' <= c && c <= 'Z' {
        ((c as u8) + 32) as char
    } else {
        c
    }
}

/// Whether a lower-case word is a known function name.
fn known_function_test(s: &str) -> (b: bool)
    ensures
        b == is_known_function(s@),
{
    str_eq(s, "sin") || str_eq(s, "cos") || str_eq(s, "tan") || str_eq(s, "asin") || str_eq(s, "acos")
        || str_eq(s, "atan") || str_eq(s, "sinh") || str_eq(s, "cosh") || str_eq(s, "tanh")
        || str_eq(s, "sqrt") || str_eq(s, "cbrt") || str_eq(s, "abs") || str_eq(s, "log")
        || str_eq(s, "ln") || str_eq(s, "exp") || str_eq(s, "floor") || str_eq(s, "ceil")
        || str_eq(s, "round") || str_eq(s, "gcd") || str_eq(s, "lcm") || str_eq(s, "det")
        || str_eq(s, "trace") || str_eq(s, "transpose") || str_eq(s, "mod")
}

/// The token of the word `cs[start..end]`.
fn word_to_token(cs: &Vec<char>, start: usize, end: usize) -> (t: Token)
    requires
        start <= end <= cs@.len(),
    ensures
        t@ == word_token(cs@.subrange(start as int, end as int)),
{
    let ghost w = cs@.subrange(start as int, end as int);
    let mut word = String::new();
    let mut lower = String::new();
    let mut i: usize = start;
    while i < end
        invariant
            start <= i <= end <= cs@.len(),
            w == cs@.subrange(start as int, end as int),
            word@ == cs@.subrange(start as int, i as int),
            lower@ == lower_text(cs@.subrange(start as int, i as int)),
        decreases end - i,
    {
        push_char(&mut word, cs[i]);
        push_char(&mut lower, lower_char_exec(cs[i]));
        i = i + 1;
        assert(word@ =~= cs@.subrange(start as int, i as int));
        assert(lower@ =~= lower_text(cs@.subrange(start as int, i as int)));
    }
    if str_eq(lower.as_str(), "pi") {
        Token::Number(Numeral::pi())
    } else if str_eq(lower.as_str(), "e") {
        Token::Number(Numeral::e())
    } else if known_function_test(lower.as_str()) {
        Token::Function(lower)
    } else {
        Token::Variable(word)
    }
}

/// The token of a character that stands alone.
fn single_char_to_token(c: char) -> (t: Option<Token>)
    ensures
        match t {
            Some(x) => single_char_token(c) == Some(x@),
            None => single_char_token(c) is None,
        },
{
    if c == '+' {
        Some(Token::Plus)
    } else if c == '-' {
        Some(Token::Minus)
    } else if c == '*' {
        Some(Token::Star)
    } else if c == '/' {
        Some(Token::Slash)
    } else if c == '^' {
        Some(Token::Caret)
    } else if c == '%' {
        Some(Token::Percent)
    } else if c == '!' {
        Some(Token::Bang)
    } else if c == '(' {
        Some(Token::LeftParen)
    } else if c == ')' {
        Some(Token::RightParen)
    } else if c == ',' {
        Some(Token::Comma)
    } else if c == '=' {
        Some(Token::Equals)
    } else if c == '|' {
        Some(Token::Pipe)
    } else {
        None
    }
}

/// What `tokenize` returns for the characters `cs`.
pub open spec fn tokenize_result(cs: Seq<char>, r: Result<Vec<Token>, ParseError>) -> bool {
    match r {
        Ok(ts) => lex(cs, 0) == Ok::<Seq<TokenView>, (char, nat)>(token_views(ts@)),
        Err(e) => lex(cs, 0) matches Err((c, p)) && e == ParseError::UnexpectedCharacter(c, p as usize),
    }
}

/// Tokenizes characters.
fn tokenize_chars(cs: &Vec<char>) -> (r: Result<Vec<Token>, ParseError>)
    ensures
        tokenize_result(cs@, r),
{
    let n = cs.len();
    let mut tokens: Vec<Token> = Vec::new();
    let mut i: usize = 0;
    proof {
        assert(token_views(tokens@) =~= Seq::<TokenView>::empty());
        match lex(cs@, 0) {
            Ok(rest) => assert(Seq::<TokenView>::empty() + rest =~= rest),
            Err(_) => {},
        }
    }
    while i < n
        invariant
            i <= n == cs@.len(),
            lex(cs@, 0) == join_tokens(token_views(tokens@), lex(cs@, i as nat)),
        decreases n - i,
    {
        let c = cs[i];
        let ghost before = token_views(tokens@);
        if space_char_test(c) {
            i = i + 1;
        } else if digit_char_test(c) || (c == '.' && i + 1 < n && digit_char_test(cs[i + 1])) {
            let start = i;
            let mut has_dot = false;
            let ghost mut dot_at: int = -1;
            proof {
                lemma_number_end(cs@, start as int, false);
            }
            while i < n && (digit_char_test(cs[i]) || (cs[i] == '.' && !has_dot))
                invariant
                    start <= i <= n == cs@.len(),
                    number_end(cs@, start as int, false) == number_end(cs@, i as int, has_dot),
                    has_dot ==> start <= dot_at < i && cs@[dot_at] == '.',
                    !has_dot ==> dot_at == -1,
                    forall|j: int| start <= j < i && j != dot_at ==> is_digit_char(#[trigger] cs@[j]),
                    !has_dot ==> forall|j: int| start <= j < i ==> cs@[j] != '.',
                    has_dot ==> forall|j: int| start <= j < dot_at ==> cs@[j] != '.',
                    is_digit_char(cs@[start as int]) || (cs@[start as int] == '.' && start + 1 < n
                        && is_digit_char(cs@[start + 1])),
                decreases n - i,
            {
                let ghost old_i = i;
                if cs[i] == '.' {
                    has_dot = true;
                    proof {
                        dot_at = i as int;
                    }
                } else {
                    assert(is_digit_char(cs@[i as int]));
                }
                i = i + 1;
                assert forall|j: int| start <= j < i && j != dot_at implies is_digit_char(#[trigger] cs@[j]) by {
                    if j == old_i {
                        assert(cs@[j] != '.');
                    }
                }
            }
            let ghost run = cs@.subrange(start as int, i as int);
            proof {
                // the run is a literal whose first point is the one seen
                if has_dot {
                    assert forall|j: int| 0 <= j < dot_at - start implies run[j] != '.' by {
                        assert(run[j] == cs@[start + j]);
                    }
                    lemma_first_dot_at(run, dot_at - start);
                } else {
                    assert forall|j: int| 0 <= j < run.len() implies run[j] != '.' by {
                        assert(run[j] == cs@[start + j]);
                    }
                    lemma_first_dot_at(run, run.len() as int);
                }
                assert forall|j: int| 0 <= j < run.len() && j != first_dot(run) implies is_digit_char(#[trigger] run[j]) by {
                    assert(run[j] == cs@[start + j]);
                }
                if is_digit_char(cs@[start as int]) {
                    assert(run[0] == cs@[start as int]);
                } else {
                    assert(run[1] == cs@[start + 1]);
                }
                assert(is_literal(run));
            }
            let num = Numeral::from_run(cs, start, i);
            let t = Token::Number(num);
            proof {
                lemma_join_cons(before, t@, lex(cs@, i as nat));
                assert(token_views(tokens@.push(t)) =~= before.push(t@));
            }
            tokens.push(t);
        } else if alpha_char_test(c) || c == '_' {
            let start = i;
            while i < n && word_char_test(cs[i])
                invariant
                    start <= i <= n == cs@.len(),
                    word_end(cs@, start as int) == word_end(cs@, i as int),
                decreases n - i,
            {
                i = i + 1;
            }
            let t = word_to_token(cs, start, i);
            proof {
                lemma_join_cons(before, t@, lex(cs@, i as nat));
                assert(token_views(tokens@.push(t)) =~= before.push(t@));
            }
            tokens.push(t);
        } else if c == '<' || c == '>' {
            let two = i + 1 < n && cs[i + 1] == '=';
            let t = if c == '<' {
                if two {
                    Token::LessEqual
                } else {
                    Token::LessThan
                }
            } else {
                if two {
                    Token::GreaterEqual
                } else {
                    Token::GreaterThan
                }
            };
            i = if two {
                i + 2
            } else {
                i + 1
            };
            proof {
                lemma_join_cons(before, t@, lex(cs@, i as nat));
                assert(token_views(tokens@.push(t)) =~= before.push(t@));
            }
            tokens.push(t);
        } else {
            match single_char_to_token(c) {
                Some(t) => {
                    i = i + 1;
                    proof {
                        lemma_join_cons(before, t@, lex(cs@, i as nat));
                        assert(token_views(tokens@.push(t)) =~= before.push(t@));
                    }
                    tokens.push(t);
                },
                None => {
                    return Err(ParseError::UnexpectedCharacter(c, i));
                },
            }
        }
    }
    let ghost before = token_views(tokens@);
    tokens.push(Token::Eof);
    proof {
        assert(token_views(tokens@) =~= before + seq![TokenView::Eof]);
    }
    Ok(tokens)
}

/// Tokenizes an expression: numbers (integer or decimal, at most one point),
/// words (the constants `pi` and `e`, known function names in lower case,
/// otherwise variables), operators and punctuation, skipping white space, and
/// ending with `Eof`. A character that starts no token is an error, with its
/// position.
pub fn tokenize(input: &str) -> (r: Result<Vec<Token>, ParseError>)
    ensures
        tokenize_result(input@, r),
{
    let cs = chars_of(input);
    tokenize_chars(&cs)
}

// ============================================================================
// ABSTRACT SYNTAX TREE
// ============================================================================

/// Binary operators.
#[derive(Debug, Clone, Copy, PartialEq, Eq, Structural)]
pub enum BinaryOperator {
    Add,
    Subtract,
    Multiply,
    Divide,
    Power,
    Modulo,
}

/// Unary operators.
#[derive(Debug, Clone, Copy, PartialEq, Eq, Structural)]
pub enum UnaryOperator {
    Negate,
    Factorial,
    AbsoluteValue,
}

/// Comparison operators for inequalities.
#[derive(Debug, Clone, Copy, PartialEq, Eq, Structural)]
pub enum ComparisonOp {
    LessThan,
    GreaterThan,
    LessEqual,
    GreaterEqual,
}

/// A parsed mathematical expression.
#[derive(Debug, PartialEq)]
pub enum AstNode {
    /// A numeric literal.
    Number(Numeral),
    /// A variable reference.
    Variable(String),
    /// `left op right`.
    BinaryOp { op: BinaryOperator, left: Box<AstNode>, right: Box<AstNode> },
    /// `op operand`.
    UnaryOp { op: UnaryOperator, operand: Box<AstNode> },
    /// `name(args)`.
    FunctionCall { name: String, args: Vec<AstNode> },
    /// `left = right`.
    Equation { left: Box<AstNode>, right: Box<AstNode> },
    /// `left op right` for a comparison `op`.
    Inequality { op: ComparisonOp, left: Box<AstNode>, right: Box<AstNode> },
    /// A coefficient written directly before what it multiplies, as in `2x`.
    ImplicitMul { coefficient: Box<AstNode>, variable: Box<AstNode> },
}

/// The mathematical content of an [`AstNode`].
pub enum AstView {
    Number((Seq<u8>, Seq<u8>)),
    Variable(Seq<char>),
    BinaryOp { op: BinaryOperator, left: Box<AstView>, right: Box<AstView> },
    UnaryOp { op: UnaryOperator, operand: Box<AstView> },
    FunctionCall { name: Seq<char>, args: Seq<AstView> },
    Equation { left: Box<AstView>, right: Box<AstView> },
    Inequality { op: ComparisonOp, left: Box<AstView>, right: Box<AstView> },
    ImplicitMul { coefficient: Box<AstView>, variable: Box<AstView> },
}

/// The view of a syntax tree.
pub open spec fn ast_view(a: AstNode) -> AstView
    decreases a,
{
    match a {
        AstNode::Number(n) => AstView::Number(n@),
        AstNode::Variable(v) => AstView::Variable(v@),
        AstNode::BinaryOp { op, left, right } => AstView::BinaryOp {
            op,
            left: Box::new(ast_view(*left)),
            right: Box::new(ast_view(*right)),
        },
        AstNode::UnaryOp { op, operand } => AstView::UnaryOp {
            op,
            operand: Box::new(ast_view(*operand)),
        },
        AstNode::FunctionCall { name, args } => AstView::FunctionCall {
            name: name@,
            args: args_view(args@),
        },
        AstNode::Equation { left, right } => AstView::Equation {
            left: Box::new(ast_view(*left)),
            right: Box::new(ast_view(*right)),
        },
        AstNode::Inequality { op, left, right } => AstView::Inequality {
            op,
            left: Box::new(ast_view(*left)),
            right: Box::new(ast_view(*right)),
        },
        AstNode::ImplicitMul { coefficient, variable } => AstView::ImplicitMul {
            coefficient: Box::new(ast_view(*coefficient)),
            variable: Box::new(ast_view(*variable)),
        },
    }
}

/// The views of a sequence of syntax trees.
pub open spec fn args_view(args: Seq<AstNode>) -> Seq<AstView>
    decreases args,
{
    if args.len() == 0 {
        Seq::empty()
    } else {
        args_view(args.drop_last()).push(ast_view(args.last()))
    }
}

impl View for AstNode {
    type V = AstView;

    open spec fn view(&self) -> AstView {
        ast_view(*self)
    }
}

/// Appending a tree appends its view.
pub proof fn lemma_args_view_push(args: Seq<AstNode>, a: AstNode)
    ensures
        args_view(args.push(a)) == args_view(args).push(ast_view(a)),
{
    assert(args.push(a).drop_last() =~= args);
}

/// `args_view` keeps length and maps each element.
pub proof fn lemma_args_view_index(args: Seq<AstNode>)
    ensures
        args_view(args).len() == args.len(),
        forall|i: int| 0 <= i < args.len() ==> #[trigger] args_view(args)[i] == ast_view(args[i]),
    decreases args.len(),
{
    if args.len() > 0 {
        lemma_args_view_index(args.drop_last());
        assert forall|i: int| 0 <= i < args.len() implies #[trigger] args_view(args)[i] == ast_view(args[i]) by {
            if i < args.len() - 1 {
                assert(args.drop_last()[i] == args[i]);
            }
        }
    }
}

fn boxed_copy(b: &Box<AstNode>) -> (r: Box<AstNode>)
    ensures
        ast_view(*r) == ast_view(**b),
    decreases **b, 1nat,
{
    Box::new((**b).copy())
}

impl AstNode {
    /// A copy of the tree.
    pub fn copy(&self) -> (r: AstNode)
        ensures
            r@ == self@,
        decreases *self, 0nat,
    {
        match self {
            AstNode::Number(n) => AstNode::Number(n.copy()),
            AstNode::Variable(v) => AstNode::Variable(v.clone()),
            AstNode::BinaryOp { op, left, right } => AstNode::BinaryOp {
                op: *op,
                left: boxed_copy(left),
                right: boxed_copy(right),
            },
            AstNode::UnaryOp { op, operand } => AstNode::UnaryOp { op: *op, operand: boxed_copy(operand) },
            AstNode::FunctionCall { name, args } => {
                let mut out: Vec<AstNode> = Vec::new();
                let mut i: usize = 0;
                while i < args.len()
                    invariant
                        i <= args@.len(),
                        args_view(out@) == args_view(args@.take(i as int)),
                        *self == (AstNode::FunctionCall { name: *name, args: *args }),
                    decreases args@.len() - i,
                {
                    proof {
                        assert(decreases_to!(*self => self->args));
                        assert(decreases_to!(self->args => self->args@));
                        assert(decreases_to!(args@ => args@[i as int]));
                    }
                    let c = args[i].copy();
                    proof {
                        lemma_args_view_push(out@, c);
                        lemma_args_view_push(args@.take(i as int), args@[i as int]);
                        assert(args@.take(i as int).push(args@[i as int]) =~= args@.take(i + 1));
                    }
                    out.push(c);
                    i = i + 1;
                }
                proof {
                    assert(args@.take(i as int) =~= args@);
                }
                AstNode::FunctionCall { name: name.clone(), args: out }
            },
            AstNode::Equation { left, right } => AstNode::Equation {
                left: boxed_copy(left),
                right: boxed_copy(right),
            },
            AstNode::Inequality { op, left, right } => AstNode::Inequality {
                op: *op,
                left: boxed_copy(left),
                right: boxed_copy(right),
            },
            AstNode::ImplicitMul { coefficient, variable } => AstNode::ImplicitMul {
                coefficient: boxed_copy(coefficient),
                variable: boxed_copy(variable),
            },
        }
    }
}

impl Clone for AstNode {
    fn clone(&self) -> (r: AstNode)
        ensures
            r@ == self@,
    {
        self.copy()
    }
}

// ============================================================================
// PARSE ERRORS
// ============================================================================

/// Errors of tokenizing or parsing.
#[derive(Debug, Clone, PartialEq)]
pub enum ParseError {
    UnexpectedCharacter(char, usize),
    InvalidNumber(String),
    UnexpectedToken(String),
    UnexpectedEof,
    MismatchedParentheses,
    EmptyExpression,
    InvalidFunctionArgs(String),
}

/// The content of a [`ParseError`].
pub enum ParseErrorView {
    UnexpectedCharacter(char, usize),
    InvalidNumber(Seq<char>),
    UnexpectedToken(Seq<char>),
    UnexpectedEof,
    MismatchedParentheses,
    EmptyExpression,
    InvalidFunctionArgs(Seq<char>),
}

impl View for ParseError {
    type V = ParseErrorView;

    open spec fn view(&self) -> ParseErrorView {
        match self {
            ParseError::UnexpectedCharacter(c, p) => ParseErrorView::UnexpectedCharacter(*c, *p),
            ParseError::InvalidNumber(s) => ParseErrorView::InvalidNumber(s@),
            ParseError::UnexpectedToken(s) => ParseErrorView::UnexpectedToken(s@),
            ParseError::UnexpectedEof => ParseErrorView::UnexpectedEof,
            ParseError::MismatchedParentheses => ParseErrorView::MismatchedParentheses,
            ParseError::EmptyExpression => ParseErrorView::EmptyExpression,
            ParseError::InvalidFunctionArgs(s) => ParseErrorView::InvalidFunctionArgs(s@),
        }
    }
}

/// The view of a parse result.
pub open spec fn result_view(r: Result<AstNode, ParseError>) -> Result<AstView, ParseErrorView> {
    match r {
        Ok(a) => Ok(a@),
        Err(e) => Err(e@),
    }
}

// ============================================================================
// PARSER
// ============================================================================

/// The token at `pos`, or `Eof` past the end.
pub open spec fn peek_tok(ts: Seq<TokenView>, pos: int) -> TokenView {
    if 0 <= pos < ts.len() {
        ts[pos]
    } else {
        TokenView::Eof
    }
}

/// The position after consuming the token at `pos` (none is consumed past the end).
pub open spec fn adv(ts: Seq<TokenView>, pos: int) -> int {
    if pos < ts.len() {
        pos + 1
    } else {
        pos
    }
}

/// Tokens left from `pos` on.
pub open spec fn left_from(ts: Seq<TokenView>, pos: int) -> nat {
    if pos <= ts.len() {
        (ts.len() - pos) as nat
    } else {
        0
    }
}

/// `a <= q <= n`: a position returned by a sub-parse lies ahead.
pub open spec fn ahead(a: int, q: int, n: int) -> bool {
    a <= q <= n
}

/// The message for a token other than the one required.
pub open spec fn expected_msg(exp: TokenView, got: TokenView) -> Seq<char> {
    "expected "@ + token_text(exp) + ", got "@ + token_text(got)
}

/// The number one hundred, by which a percentage divides.
pub open spec fn hundred_view() -> (Seq<u8>, Seq<u8>) {
    (seq![1u8, 0, 0], Seq::empty())
}

/// Whether a parsed operand can take an implicit multiplication (as `2x`).
pub open spec fn takes_implicit(a: AstView) -> bool {
    a is Number || a is Variable || a is ImplicitMul
}

/// A parse outcome at a position: the result and the position after it.
pub type ParseStep = (Result<AstView, ParseErrorView>, int);

/// The result of a sub-parse that cannot occur (a position behind).
pub open spec fn stuck(p: int) -> ParseStep {
    (Err(ParseErrorView::UnexpectedEof), p)
}

/// Primary expressions: numbers, variables, function calls, parenthesized groups.
pub open spec fn p_primary(ts: Seq<TokenView>, pos: int) -> ParseStep
    decreases left_from(ts, pos), 0nat,
{
    match peek_tok(ts, pos) {
        TokenView::Number(v) => (Ok(AstView::Number(v)), adv(ts, pos)),
        TokenView::Variable(nm) => (Ok(AstView::Variable(nm)), adv(ts, pos)),
        TokenView::Function(nm) => {
            let p1 = adv(ts, pos);
            if peek_tok(ts, p1) is LeftParen {
                let p2 = adv(ts, p1);
                if peek_tok(ts, p2) is RightParen {
                    (Ok(AstView::FunctionCall { name: nm, args: Seq::empty() }), adv(ts, p2))
                } else {
                    let (r, p3) = p_add(ts, p2);
                    match r {
                        Err(e) => (Err(e), p3),
                        Ok(a) => if ahead(p2, p3, ts.len() as int) {
                            p_args(ts, p3, nm, seq![a])
                        } else {
                            stuck(p3)
                        },
                    }
                }
            } else {
                (
                    Err(ParseErrorView::UnexpectedToken(expected_msg(TokenView::LeftParen, peek_tok(ts, p1)))),
                    adv(ts, p1),
                )
            }
        },
        TokenView::LeftParen => {
            let (r, p2) = p_add(ts, adv(ts, pos));
            match r {
                Err(e) => (Err(e), p2),
                Ok(x) => if peek_tok(ts, p2) is RightParen {
                    (Ok(x), adv(ts, p2))
                } else {
                    (
                        Err(ParseErrorView::UnexpectedToken(expected_msg(TokenView::RightParen, peek_tok(ts, p2)))),
                        adv(ts, p2),
                    )
                },
            }
        },
        TokenView::Eof => (Err(ParseErrorView::UnexpectedEof), pos),
        other => (Err(ParseErrorView::UnexpectedToken(token_text(other))), pos),
    }
}

/// The further arguments of a call, after the first, up to the closing parenthesis.
pub open spec fn p_args(ts: Seq<TokenView>, pos: int, nm: Seq<char>, args: Seq<AstView>) -> ParseStep
    decreases left_from(ts, pos), 8nat,
{
    if peek_tok(ts, pos) is Comma {
        let (r, p2) = p_add(ts, adv(ts, pos));
        match r {
            Err(e) => (Err(e), p2),
            Ok(a) => if ahead(pos + 1, p2, ts.len() as int) {
                p_args(ts, p2, nm, args.push(a))
            } else {
                stuck(p2)
            },
        }
    } else if peek_tok(ts, pos) is RightParen {
        (Ok(AstView::FunctionCall { name: nm, args }), adv(ts, pos))
    } else {
        (
            Err(ParseErrorView::UnexpectedToken(expected_msg(TokenView::RightParen, peek_tok(ts, pos)))),
            adv(ts, pos),
        )
    }
}

/// Exponentiation, right-associative: a primary, then optionally `^` and a unary.
pub open spec fn p_power(ts: Seq<TokenView>, pos: int) -> ParseStep
    decreases left_from(ts, pos), 2nat,
{
    let (r, p1) = p_primary(ts, pos);
    match r {
        Err(e) => (Err(e), p1),
        Ok(b) => if peek_tok(ts, p1) is Caret {
            if ahead(pos, p1, ts.len() as int) {
                let (r2, p2) = p_unary(ts, adv(ts, p1));
                match r2 {
                    Err(e) => (Err(e), p2),
                    Ok(x) => (
                        Ok(AstView::BinaryOp { op: BinaryOperator::Power, left: Box::new(b), right: Box::new(x) }),
                        p2,
                    ),
                }
            } else {
                stuck(p1)
            }
        } else {
            (Ok(b), p1)
        },
    }
}

/// Postfix factorials after an operand.
pub open spec fn p_fact_rest(ts: Seq<TokenView>, pos: int, e: AstView) -> ParseStep
    decreases left_from(ts, pos), 1nat,
{
    if peek_tok(ts, pos) is Bang {
        p_fact_rest(ts, adv(ts, pos), AstView::UnaryOp { op: UnaryOperator::Factorial, operand: Box::new(e) })
    } else {
        (Ok(e), pos)
    }
}

/// Unary expressions: negation, absolute value bars, or a power with factorials.
pub open spec fn p_unary(ts: Seq<TokenView>, pos: int) -> ParseStep
    decreases left_from(ts, pos), 3nat,
{
    match peek_tok(ts, pos) {
        TokenView::Minus => {
            let (r, p1) = p_power(ts, adv(ts, pos));
            match r {
                Err(e) => (Err(e), p1),
                Ok(x) => (Ok(AstView::UnaryOp { op: UnaryOperator::Negate, operand: Box::new(x) }), p1),
            }
        },
        TokenView::Pipe => {
            let (r, p1) = p_add(ts, adv(ts, pos));
            match r {
                Err(e) => (Err(e), p1),
                Ok(x) => if peek_tok(ts, p1) is Pipe {
                    (Ok(AstView::UnaryOp { op: UnaryOperator::AbsoluteValue, operand: Box::new(x) }), adv(ts, p1))
                } else {
                    (
                        Err(ParseErrorView::UnexpectedToken(expected_msg(TokenView::Pipe, peek_tok(ts, p1)))),
                        adv(ts, p1),
                    )
                },
            }
        },
        _ => {
            let (r, p1) = p_power(ts, pos);
            match r {
                Err(e) => (Err(e), p1),
                Ok(x) => if ahead(pos, p1, ts.len() as int) {
                    p_fact_rest(ts, p1, x)
                } else {
                    stuck(p1)
                },
            }
        },
    }
}

/// The tail of a product: `*`, `/`, `%` and implicit multiplications.
pub open spec fn p_mul_rest(ts: Seq<TokenView>, pos: int, left: AstView) -> ParseStep
    decreases left_from(ts, pos), 4nat,
{
    let t = peek_tok(ts, pos);
    if t is Star || t is Slash {
        let op = if t is Star {
            BinaryOperator::Multiply
        } else {
            BinaryOperator::Divide
        };
        let (r, p2) = p_unary(ts, adv(ts, pos));
        match r {
            Err(e) => (Err(e), p2),
            Ok(x) => if ahead(pos + 1, p2, ts.len() as int) {
                p_mul_rest(ts, p2, AstView::BinaryOp { op, left: Box::new(left), right: Box::new(x) })
            } else {
                stuck(p2)
            },
        }
    } else if t is Percent {
        p_mul_rest(
            ts,
            adv(ts, pos),
            AstView::BinaryOp {
                op: BinaryOperator::Divide,
                left: Box::new(left),
                right: Box::new(AstView::Number(hundred_view())),
            },
        )
    } else if (t is Variable || t is Function || t is LeftParen) && takes_implicit(left) {
        let (r, p2) = p_unary(ts, pos);
        match r {
            Err(e) => (Err(e), p2),
            Ok(x) => if ahead(pos + 1, p2, ts.len() as int) {
                p_mul_rest(ts, p2, AstView::ImplicitMul { coefficient: Box::new(left), variable: Box::new(x) })
            } else {
                stuck(p2)
            },
        }
    } else {
        (Ok(left), pos)
    }
}

/// Products: a unary, then its tail.
pub open spec fn p_mul(ts: Seq<TokenView>, pos: int) -> ParseStep
    decreases left_from(ts, pos), 5nat,
{
    let (r, p1) = p_unary(ts, pos);
    match r {
        Err(e) => (Err(e), p1),
        Ok(l) => if ahead(pos, p1, ts.len() as int) {
            p_mul_rest(ts, p1, l)
        } else {
            stuck(p1)
        },
    }
}

/// The tail of a sum: `+` and `-`, left-associative.
pub open spec fn p_add_rest(ts: Seq<TokenView>, pos: int, left: AstView) -> ParseStep
    decreases left_from(ts, pos), 6nat,
{
    let t = peek_tok(ts, pos);
    if t is Plus || t is Minus {
        let op = if t is Plus {
            BinaryOperator::Add
        } else {
            BinaryOperator::Subtract
        };
        let (r, p2) = p_mul(ts, adv(ts, pos));
        match r {
            Err(e) => (Err(e), p2),
            Ok(x) => if ahead(pos + 1, p2, ts.len() as int) {
                p_add_rest(ts, p2, AstView::BinaryOp { op, left: Box::new(left), right: Box::new(x) })
            } else {
                stuck(p2)
            },
        }
    } else {
        (Ok(left), pos)
    }
}

/// Sums: a product, then its tail.
pub open spec fn p_add(ts: Seq<TokenView>, pos: int) -> ParseStep
    decreases left_from(ts, pos), 7nat,
{
    let (r, p1) = p_mul(ts, pos);
    match r {
        Err(e) => (Err(e), p1),
        Ok(l) => if ahead(pos, p1, ts.len() as int) {
            p_add_rest(ts, p1, l)
        } else {
            stuck(p1)
        },
    }
}

/// The comparison a token stands for.
pub open spec fn comparison_of(t: TokenView) -> Option<ComparisonOp> {
    match t {
        TokenView::LessThan => Some(ComparisonOp::LessThan),
        TokenView::GreaterThan => Some(ComparisonOp::GreaterThan),
        TokenView::LessEqual => Some(ComparisonOp::LessEqual),
        TokenView::GreaterEqual => Some(ComparisonOp::GreaterEqual),
        _ => None,
    }
}

/// A complete expression: a sum, optionally followed by `=` or a comparison
/// and a second sum.
pub open spec fn p_expr(ts: Seq<TokenView>, pos: int) -> ParseStep
    decreases left_from(ts, pos), 9nat,
{
    let (r, p1) = p_add(ts, pos);
    match r {
        Err(e) => (Err(e), p1),
        Ok(l) => {
            let t = peek_tok(ts, p1);
            if t is Equals || comparison_of(t) is Some {
                if ahead(pos, p1, ts.len() as int) {
                    let (r2, p2) = p_add(ts, adv(ts, p1));
                    match r2 {
                        Err(e) => (Err(e), p2),
                        Ok(x) => if t is Equals {
                            (Ok(AstView::Equation { left: Box::new(l), right: Box::new(x) }), p2)
                        } else {
                            (
                                Ok(AstView::Inequality {
                                    op: comparison_of(t)->Some_0,
                                    left: Box::new(l),
                                    right: Box::new(x),
                                }),
                                p2,
                            )
                        },
                    }
                } else {
                    stuck(p1)
                }
            } else {
                (Ok(l), p1)
            }
        },
    }
}

/// An operator-precedence parser over a token sequence.
pub struct Parser {
    tokens: Vec<Token>,
    pos: usize,
}

/// The message for a token other than the one required.
fn expected_text(exp: &Token, got: &Token) -> (m: String)
    ensures
        m@ == expected_msg(exp@, got@),
{
    let mut m = String::new();
    push_text(&mut m, "expected ");
    let e = exp.to_text();
    push_text(&mut m, e.as_str());
    push_text(&mut m, ", got ");
    let g = got.to_text();
    push_text(&mut m, g.as_str());
    assert(m@ =~= expected_msg(exp@, got@));
    m
}

impl Parser {
    #[verifier::type_invariant]
    closed spec fn inv(self) -> bool {
        self.pos <= self.tokens@.len()
    }

    /// The tokens being parsed.
    pub closed spec fn tokens_view(self) -> Seq<TokenView> {
        token_views(self.tokens@)
    }

    /// The position of the next token.
    pub closed spec fn position(self) -> int {
        self.pos as int
    }

    /// A parser at the start of the tokens.
    pub fn new(tokens: Vec<Token>) -> (p: Parser)
        ensures
            p.tokens_view() == token_views(tokens@),
            p.position() == 0,
    {
        Parser { tokens, pos: 0 }
    }

    /// A copy of the token at the position, or `Eof` past the end.
    fn peek(&self) -> (t: Token)
        ensures
            t@ == peek_tok(self.tokens_view(), self.position()),
    {
        if self.pos < self.tokens.len() {
            self.tokens[self.pos].copy()
        } else {
            Token::Eof
        }
    }

    /// Moves past the current token (never past the end).
    fn advance(&mut self)
        ensures
            final(self).tokens_view() == old(self).tokens_view(),
            final(self).position() == adv(old(self).tokens_view(), old(self).position()),
    {
        proof {
            use_type_invariant(&*self);
        }
        if self.pos < self.tokens.len() {
            self.pos = self.pos + 1;
        }
    }

    /// Parses a complete expression: a sum, optionally followed by `=` or a
    /// comparison and a second sum.
    pub fn parse_expression(&mut self) -> (r: Result<AstNode, ParseError>)
        ensures
            final(self).tokens_view() == old(self).tokens_view(),
            old(self).position() <= final(self).position() <= final(self).tokens_view().len(),
            (result_view(r), final(self).position()) == p_expr(old(self).tokens_view(), old(self).position()),
        decreases left_from(old(self).tokens_view(), old(self).position()), 9nat,
    {
        proof {
            use_type_invariant(&*self);
        }
        let ghost ts = self.tokens_view();
        let ghost pos0 = self.position();
        let left = match self.parse_additive() {
            Ok(l) => l,
            Err(e) => {
                return Err(e);
            },
        };
        proof {
            use_type_invariant(&*self);
        }
        let t = self.peek();
        let op = match t {
            Token::Equals => None,
            Token::LessThan => Some(ComparisonOp::LessThan),
            Token::GreaterThan => Some(ComparisonOp::GreaterThan),
            Token::LessEqual => Some(ComparisonOp::LessEqual),
            Token::GreaterEqual => Some(ComparisonOp::GreaterEqual),
            _ => {
                return Ok(left);
            },
        };
        self.advance();
        let right = match self.parse_additive() {
            Ok(x) => x,
            Err(e) => {
                return Err(e);
            },
        };
        match op {
            None => Ok(AstNode::Equation { left: Box::new(left), right: Box::new(right) }),
            Some(o) => Ok(AstNode::Inequality { op: o, left: Box::new(left), right: Box::new(right) }),
        }
    }

    /// Parses a sum: products joined by `+` and `-`, left-associative.
    fn parse_additive(&mut self) -> (r: Result<AstNode, ParseError>)
        ensures
            final(self).tokens_view() == old(self).tokens_view(),
            old(self).position() <= final(self).position() <= final(self).tokens_view().len(),
            r is Ok ==> old(self).position() < final(self).position(),
            (result_view(r), final(self).position()) == p_add(old(self).tokens_view(), old(self).position()),
        decreases left_from(old(self).tokens_view(), old(self).position()), 7nat,
    {
        proof {
            use_type_invariant(&*self);
        }
        let ghost ts = self.tokens_view();
        let ghost pos0 = self.position();
        let mut left = match self.parse_multiplicative() {
            Ok(l) => l,
            Err(e) => {
                return Err(e);
            },
        };
        loop
            invariant
                ts == old(self).tokens_view(),
                pos0 == old(self).position(),
                self.tokens_view() == ts,
                pos0 < self.position() <= ts.len(),
                p_add(ts, pos0) == p_add_rest(ts, self.position(), left@),
            decreases ts.len() - self.position(),
        {
            proof {
                use_type_invariant(&*self);
            }
            let ghost cur = self.position();
            let t = self.peek();
            let op = match t {
                Token::Plus => BinaryOperator::Add,
                Token::Minus => BinaryOperator::Subtract,
                _ => {
                    return Ok(left);
                },
            };
            self.advance();
            let right = match self.parse_multiplicative() {
                Ok(x) => x,
                Err(e) => {
                    return Err(e);
                },
            };
            left = AstNode::BinaryOp { op, left: Box::new(left), right: Box::new(right) };
        }
    }

    /// Parses a product: unaries joined by `*`, `/`, `%` (a percentage,
    /// dividing by one hundred) and implicit multiplication.
    fn parse_multiplicative(&mut self) -> (r: Result<AstNode, ParseError>)
        ensures
            final(self).tokens_view() == old(self).tokens_view(),
            old(self).position() <= final(self).position() <= final(self).tokens_view().len(),
            r is Ok ==> old(self).position() < final(self).position(),
            (result_view(r), final(self).position()) == p_mul(old(self).tokens_view(), old(self).position()),
        decreases left_from(old(self).tokens_view(), old(self).position()), 5nat,
    {
        proof {
            use_type_invariant(&*self);
        }
        let ghost ts = self.tokens_view();
        let ghost pos0 = self.position();
        let mut left = match self.parse_unary() {
            Ok(l) => l,
            Err(e) => {
                return Err(e);
            },
        };
        loop
            invariant
                ts == old(self).tokens_view(),
                pos0 == old(self).position(),
                self.tokens_view() == ts,
                pos0 < self.position() <= ts.len(),
                p_mul(ts, pos0) == p_mul_rest(ts, self.position(), left@),
            decreases ts.len() - self.position(),
        {
            proof {
                use_type_invariant(&*self);
            }
            let ghost cur = self.position();
            let ghost left0 = left@;
            let t = self.peek();
            match t {
                Token::Star | Token::Slash => {
                    let op = match t {
                        Token::Star => BinaryOperator::Multiply,
                        _ => BinaryOperator::Divide,
                    };
                    self.advance();
                    let right = match self.parse_unary() {
                        Ok(x) => x,
                        Err(e) => {
                            return Err(e);
                        },
                    };
                    left = AstNode::BinaryOp { op, left: Box::new(left), right: Box::new(right) };
                    assert(p_mul_rest(ts, cur, left0) == p_mul_rest(ts, self.position(), left@));
                },
                Token::Percent => {
                    self.advance();
                    let hundred = Numeral::from_parts(vec![1u8, 0, 0], Vec::new());
                    proof {
                        assert(hundred@.0 =~= hundred_view().0 && hundred@.1 =~= hundred_view().1);
                        assert(hundred@ == hundred_view());
                        assert(ast_view(AstNode::Number(hundred)) == AstView::Number(hundred_view()));
                    }
                    let num = AstNode::Number(hundred);
                    assert(num@ == AstView::Number(hundred_view()));
                    left = AstNode::BinaryOp {
                        op: BinaryOperator::Divide,
                        left: Box::new(left),
                        right: Box::new(num),
                    };
                    assert(p_mul_rest(ts, cur, left0) == p_mul_rest(ts, self.position(), left@));
                },
                Token::Variable(_) | Token::Function(_) | Token::LeftParen => {
                    let implicit = match left {
                        AstNode::Number(_) | AstNode::Variable(_) | AstNode::ImplicitMul { .. } => true,
                        _ => false,
                    };
                    if !implicit {
                        return Ok(left);
                    }
                    let right = match self.parse_unary() {
                        Ok(x) => x,
                        Err(e) => {
                            return Err(e);
                        },
                    };
                    left = AstNode::ImplicitMul { coefficient: Box::new(left), variable: Box::new(right) };
                    assert(p_mul_rest(ts, cur, left0) == p_mul_rest(ts, self.position(), left@));
                },
                _ => {
                    return Ok(left);
                },
            }
        }
    }

    /// Parses a unary expression: a negation, an absolute value between bars,
    /// or a power followed by any number of factorials.
    fn parse_unary(&mut self) -> (r: Result<AstNode, ParseError>)
        ensures
            final(self).tokens_view() == old(self).tokens_view(),
            old(self).position() <= final(self).position() <= final(self).tokens_view().len(),
            r is Ok ==> old(self).position() < final(self).position(),
            (result_view(r), final(self).position()) == p_unary(old(self).tokens_view(), old(self).position()),
        decreases left_from(old(self).tokens_view(), old(self).position()), 3nat,
    {
        proof {
            use_type_invariant(&*self);
        }
        let ghost ts = self.tokens_view();
        let ghost pos0 = self.position();
        let t = self.peek();
        match t {
            Token::Minus => {
                self.advance();
                match self.parse_power() {
                    Ok(x) => Ok(AstNode::UnaryOp { op: UnaryOperator::Negate, operand: Box::new(x) }),
                    Err(e) => Err(e),
                }
            },
            Token::Pipe => {
                self.advance();
                let inner = match self.parse_additive() {
                    Ok(x) => x,
                    Err(e) => {
                        return Err(e);
                    },
                };
                let close = self.peek();
                self.advance();
                match close {
                    Token::Pipe => Ok(AstNode::UnaryOp { op: UnaryOperator::AbsoluteValue, operand: Box::new(inner) }),
                    _ => Err(ParseError::UnexpectedToken(expected_text(&Token::Pipe, &close))),
                }
            },
            _ => {
                let mut expr = match self.parse_power() {
                    Ok(x) => x,
                    Err(e) => {
                        return Err(e);
                    },
                };
                loop
                    invariant
                        ts == old(self).tokens_view(),
                        pos0 == old(self).position(),
                        self.tokens_view() == ts,
                        pos0 < self.position() <= ts.len(),
                        p_unary(ts, pos0) == p_fact_rest(ts, self.position(), expr@),
                    decreases ts.len() - self.position(),
                {
                    proof {
                        use_type_invariant(&*self);
                    }
                    let b = self.peek();
                    match b {
                        Token::Bang => {
                            self.advance();
                            expr = AstNode::UnaryOp { op: UnaryOperator::Factorial, operand: Box::new(expr) };
                        },
                        _ => {
                            return Ok(expr);
                        },
                    }
                }
            },
        }
    }

    /// Parses a power: a primary, then optionally `^` and a unary
    /// (right-associative).
    fn parse_power(&mut self) -> (r: Result<AstNode, ParseError>)
        ensures
            final(self).tokens_view() == old(self).tokens_view(),
            old(self).position() <= final(self).position() <= final(self).tokens_view().len(),
            r is Ok ==> old(self).position() < final(self).position(),
            (result_view(r), final(self).position()) == p_power(old(self).tokens_view(), old(self).position()),
        decreases left_from(old(self).tokens_view(), old(self).position()), 2nat,
    {
        proof {
            use_type_invariant(&*self);
        }
        let base = match self.parse_primary() {
            Ok(b) => b,
            Err(e) => {
                return Err(e);
            },
        };
        proof {
            use_type_invariant(&*self);
        }
        let t = self.peek();
        match t {
            Token::Caret => {
                self.advance();
                match self.parse_unary() {
                    Ok(x) => Ok(AstNode::BinaryOp { op: BinaryOperator::Power, left: Box::new(base), right: Box::new(x) }),
                    Err(e) => Err(e),
                }
            },
            _ => Ok(base),
        }
    }

    /// Parses a primary expression: a number, a variable, a function call or a
    /// parenthesized sum.
    fn parse_primary(&mut self) -> (r: Result<AstNode, ParseError>)
        ensures
            final(self).tokens_view() == old(self).tokens_view(),
            old(self).position() <= final(self).position() <= final(self).tokens_view().len(),
            r is Ok ==> old(self).position() < final(self).position(),
            (result_view(r), final(self).position()) == p_primary(old(self).tokens_view(), old(self).position()),
        decreases left_from(old(self).tokens_view(), old(self).position()), 0nat,
    {
        proof {
            use_type_invariant(&*self);
        }
        let ghost ts = self.tokens_view();
        let ghost pos0 = self.position();
        let t = self.peek();
        match t {
            Token::Number(n) => {
                self.advance();
                Ok(AstNode::Number(n))
            },
            Token::Variable(v) => {
                self.advance();
                Ok(AstNode::Variable(v))
            },
            Token::Function(name) => {
                self.advance();
                let open = self.peek();
                self.advance();
                match open {
                    Token::LeftParen => {},
                    _ => {
                        return Err(ParseError::UnexpectedToken(expected_text(&Token::LeftParen, &open)));
                    },
                }
                proof {
                    use_type_invariant(&*self);
                }
                let ghost p2 = self.position();
                let first = self.peek();
                match first {
                    Token::RightParen => {
                        self.advance();
                        proof {
                            assert(args_view(Seq::<AstNode>::empty()) =~= Seq::<AstView>::empty());
                        }
                        return Ok(AstNode::FunctionCall { name, args: Vec::new() });
                    },
                    _ => {},
                }
                let a = match self.parse_additive() {
                    Ok(x) => x,
                    Err(e) => {
                        return Err(e);
                    },
                };
                let mut args: Vec<AstNode> = Vec::new();
                proof {
                    lemma_args_view_push(args@, a);
                    assert(args_view(Seq::<AstNode>::empty()) =~= Seq::<AstView>::empty());
                    assert(args_view(args@).push(a@) =~= seq![a@]);
                }
                args.push(a);
                loop
                    invariant
                        ts == old(self).tokens_view(),
                        pos0 == old(self).position(),
                        self.tokens_view() == ts,
                        pos0 + 2 < self.position() <= ts.len(),
                        p_primary(ts, pos0) == p_args(ts, self.position(), name@, args_view(args@)),
                    decreases ts.len() - self.position(),
                {
                    proof {
                        use_type_invariant(&*self);
                    }
                    let c = self.peek();
                    match c {
                        Token::Comma => {
                            self.advance();
                            let x = match self.parse_additive() {
                                Ok(x) => x,
                                Err(e) => {
                                    return Err(e);
                                },
                            };
                            proof {
                                lemma_args_view_push(args@, x);
                            }
                            args.push(x);
                        },
                        _ => {
                            self.advance();
                            match c {
                                Token::RightParen => {
                                    return Ok(AstNode::FunctionCall { name, args });
                                },
                                _ => {
                                    return Err(ParseError::UnexpectedToken(expected_text(&Token::RightParen, &c)));
                                },
                            }
                        },
                    }
                }
            },
            Token::LeftParen => {
                self.advance();
                let inner = match self.parse_additive() {
                    Ok(x) => x,
                    Err(e) => {
                        return Err(e);
                    },
                };
                let close = self.peek();
                self.advance();
                match close {
                    Token::RightParen => Ok(inner),
                    _ => Err(ParseError::UnexpectedToken(expected_text(&Token::RightParen, &close))),
                }
            },
            Token::Eof => Err(ParseError::UnexpectedEof),
            other => Err(ParseError::UnexpectedToken(other.to_text())),
        }
    }
}

// ============================================================================
// PUBLIC PARSE FUNCTION
// ============================================================================

/// The text without its leading white space.
pub open spec fn trim_start(cs: Seq<char>) -> Seq<char>
    decreases cs.len(),
{
    if cs.len() > 0 && is_space_char(cs[0]) {
        trim_start(cs.drop_first())
    } else {
        cs
    }
}

/// The text without its trailing white space.
pub open spec fn trim_end(cs: Seq<char>) -> Seq<char>
    decreases cs.len(),
{
    if cs.len() > 0 && is_space_char(cs.last()) {
        trim_end(cs.drop_last())
    } else {
        cs
    }
}

/// The text without white space at either end.
pub open spec fn trimmed(cs: Seq<char>) -> Seq<char> {
    trim_end(trim_start(cs))
}

/// What `parse` returns for an input: an empty (or blank) input is an error;
/// otherwise the trimmed input is tokenized, and its tokens parsed as an
/// expression from the first.
pub open spec fn parse_result(cs: Seq<char>, r: Result<AstNode, ParseError>) -> bool {
    let t = trimmed(cs);
    if t.len() == 0 {
        result_view(r) == Err::<AstView, ParseErrorView>(ParseErrorView::EmptyExpression)
    } else {
        match lex(t, 0) {
            Err((c, p)) => result_view(r) == Err::<AstView, ParseErrorView>(
                ParseErrorView::UnexpectedCharacter(c, p as usize),
            ),
            Ok(ts) => result_view(r) == p_expr(ts, 0).0,
        }
    }
}

proof fn lemma_trim_start(cs: Seq<char>, a: int)
    requires
        0 <= a <= cs.len(),
        forall|i: int| 0 <= i < a ==> is_space_char(#[trigger] cs[i]),
        a < cs.len() ==> !is_space_char(cs[a]),
    ensures
        trim_start(cs) == cs.skip(a),
    decreases a,
{
    if a > 0 {
        assert forall|i: int| 0 <= i < a - 1 implies is_space_char(#[trigger] cs.drop_first()[i]) by {
            assert(cs.drop_first()[i] == cs[i + 1]);
        }
        lemma_trim_start(cs.drop_first(), a - 1);
        assert(cs.drop_first().skip(a - 1) =~= cs.skip(a));
    } else {
        assert(cs.skip(0) =~= cs);
    }
}

proof fn lemma_trim_end(cs: Seq<char>, b: int)
    requires
        0 <= b <= cs.len(),
        forall|i: int| b <= i < cs.len() ==> is_space_char(#[trigger] cs[i]),
        b > 0 ==> !is_space_char(cs[b - 1]),
    ensures
        trim_end(cs) == cs.take(b),
    decreases cs.len() - b,
{
    if b < cs.len() {
        assert forall|i: int| b <= i < cs.drop_last().len() implies is_space_char(#[trigger] cs.drop_last()[i]) by {
            assert(cs.drop_last()[i] == cs[i]);
        }
        lemma_trim_end(cs.drop_last(), b);
        assert(cs.drop_last().take(b) =~= cs.take(b));
    } else {
        assert(cs.take(b) =~= cs);
    }
}

/// Parses an expression: trims white space, tokenizes, and parses the tokens
/// as an expression.
pub fn parse(input: &str) -> (r: Result<AstNode, ParseError>)
    ensures
        parse_result(input@, r),
{
    let cs = chars_of(input);
    let n = cs.len();
    let mut a: usize = 0;
    while a < n && space_char_test(cs[a])
        invariant
            a <= n == cs@.len(),
            forall|i: int| 0 <= i < a ==> is_space_char(#[trigger] cs@[i]),
        decreases n - a,
    {
        a = a + 1;
    }
    let mut b: usize = n;
    while b > a && space_char_test(cs[b - 1])
        invariant
            a <= b <= n == cs@.len(),
            forall|i: int| b <= i < n ==> is_space_char(#[trigger] cs@[i]),
        decreases b,
    {
        b = b - 1;
    }
    let mut t: Vec<char> = Vec::new();
    let mut i: usize = a;
    while i < b
        invariant
            a <= i <= b <= n == cs@.len(),
            t@ == cs@.subrange(a as int, i as int),
        decreases b - i,
    {
        t.push(cs[i]);
        i = i + 1;
        assert(t@ =~= cs@.subrange(a as int, i as int));
    }
    proof {
        lemma_trim_start(cs@, a as int);
        let s0 = cs@.skip(a as int);
        assert forall|k: int| b - a <= k < s0.len() implies is_space_char(#[trigger] s0[k]) by {
            assert(s0[k] == cs@[a + k]);
        }
        if b > a {
            assert(s0[b - a - 1] == cs@[b - 1]);
        }
        lemma_trim_end(s0, b - a);
        assert(s0.take(b - a) =~= t@);
        assert(cs@ == input@);
    }
    if t.len() == 0 {
        return Err(ParseError::EmptyExpression);
    }
    let tokens = match tokenize_chars(&t) {
        Ok(ts) => ts,
        Err(e) => {
            return Err(e);
        },
    };
    let mut parser = Parser::new(tokens);
    parser.parse_expression()
}

// ============================================================================
// DISPLAY
// ============================================================================

/// How a binary operator prints.
pub open spec fn binary_op_text(op: BinaryOperator) -> Seq<char> {
    match op {
        BinaryOperator::Add => seq!['+'],
        BinaryOperator::Subtract => seq!['-'],
        BinaryOperator::Multiply => seq!['*'],
        BinaryOperator::Divide => seq!['/'],
        BinaryOperator::Power => seq!['^'],
        BinaryOperator::Modulo => seq!['m', 'o', 'd'],
    }
}

/// How a comparison prints.
pub open spec fn comparison_text(op: ComparisonOp) -> Seq<char> {
    match op {
        ComparisonOp::LessThan => seq!['<'],
        ComparisonOp::GreaterThan => seq!['>'],
        ComparisonOp::LessEqual => seq!['<', '='],
        ComparisonOp::GreaterEqual => seq!['>', '='],
    }
}

/// A comparison token reads as the comparison it stands for.
pub proof fn law_comparison_token_text(t: TokenView)
    ensures
        comparison_of(t) matches Some(op) ==> token_text(t) == comparison_text(op),
{
}

/// A sum followed by a comparison token parses, when it parses at all, as an
/// inequality whose comparison reads as that token: `x > 5` compares with
/// `>`, never with another comparison.
pub proof fn law_inequality_operator(ts: Seq<TokenView>, pos: int)
    requires
        p_add(ts, pos).0 is Ok,
        comparison_of(peek_tok(ts, p_add(ts, pos).1)) is Some,
        p_expr(ts, pos).0 is Ok,
    ensures
        p_expr(ts, pos).0 matches Ok(AstView::Inequality { op, .. }) && comparison_text(op) == token_text(
            peek_tok(ts, p_add(ts, pos).1),
        ),
{
    let t = peek_tok(ts, p_add(ts, pos).1);
    law_comparison_token_text(t);
}

/// Parsing a text whose first sum is followed by a comparison gives, when it
/// succeeds, an inequality with the comparison the text writes.
pub proof fn law_parse_inequality_operator(cs: Seq<char>, r: Result<AstNode, ParseError>)
    requires
        parse_result(cs, r),
        r is Ok,
        trimmed(cs).len() > 0,
        lex(trimmed(cs), 0) is Ok,
        p_add(lex(trimmed(cs), 0)->Ok_0, 0).0 is Ok,
        comparison_of(peek_tok(lex(trimmed(cs), 0)->Ok_0, p_add(lex(trimmed(cs), 0)->Ok_0, 0).1)) is Some,
    ensures
        result_view(r) matches Ok(AstView::Inequality { op, .. }) && comparison_text(op) == token_text(
            peek_tok(lex(trimmed(cs), 0)->Ok_0, p_add(lex(trimmed(cs), 0)->Ok_0, 0).1),
        ),
{
    let ts = lex(trimmed(cs), 0)->Ok_0;
    law_inequality_operator(ts, 0);
}

/// How an expression prints: binary operations and negations in parentheses,
/// calls with their arguments separated by `, `.
pub open spec fn ast_text(a: AstView) -> Seq<char>
    decreases a,
{
    match a {
        AstView::Number(v) => numeral_text(v),
        AstView::Variable(v) => v,
        AstView::BinaryOp { op, left, right } => seq!['('] + ast_text(*left) + seq![' '] + binary_op_text(op)
            + seq![' '] + ast_text(*right) + seq![')'],
        AstView::UnaryOp { op, operand } => match op {
            UnaryOperator::Negate => seq!['(', '-'] + ast_text(*operand) + seq![')'],
            UnaryOperator::Factorial => ast_text(*operand) + seq!['!'],
            UnaryOperator::AbsoluteValue => seq!['|'] + ast_text(*operand) + seq!['|'],
        },
        AstView::FunctionCall { name, args } => name + seq!['('] + args_text(args) + seq![')'],
        AstView::Equation { left, right } => ast_text(*left) + seq![' ', '=', ' '] + ast_text(*right),
        AstView::Inequality { op, left, right } => ast_text(*left) + seq![' '] + comparison_text(op) + seq![' ']
            + ast_text(*right),
        AstView::ImplicitMul { coefficient, variable } => ast_text(*coefficient) + ast_text(*variable),
    }
}

/// The texts of call arguments, separated by `, `.
pub open spec fn args_text(args: Seq<AstView>) -> Seq<char>
    decreases args,
{
    if args.len() == 0 {
        Seq::empty()
    } else if args.len() == 1 {
        ast_text(args[0])
    } else {
        args_text(args.drop_last()) + seq![',', ' '] + ast_text(args.last())
    }
}

fn push_string(t: &mut String, s: &String)
    ensures
        final(t)@ == old(t)@ + s@,
{
    t.append(s.as_str());
}

impl BinaryOperator {
    /// The operator as it prints.
    pub fn to_text(&self) -> (t: String)
        ensures
            t@ == binary_op_text(*self),
    {
        let mut t = String::new();
        match self {
            BinaryOperator::Add => push_char(&mut t, '+'),
            BinaryOperator::Subtract => push_char(&mut t, '-'),
            BinaryOperator::Multiply => push_char(&mut t, '*'),
            BinaryOperator::Divide => push_char(&mut t, '/'),
            BinaryOperator::Power => push_char(&mut t, '^'),
            BinaryOperator::Modulo => {
                push_char(&mut t, 'm');
                push_char(&mut t, 'o');
                push_char(&mut t, 'd');
            },
        }
        assert(t@ =~= binary_op_text(*self));
        t
    }
}

/// The message of a parse error.
pub open spec fn parse_error_text(e: ParseErrorView) -> Seq<char> {
    match e {
        ParseErrorView::UnexpectedCharacter(c, pos) => "Unexpected character '"@ + seq![c] + "' at position "@
            + crate::execution::nat_text(pos as nat),
        ParseErrorView::InvalidNumber(s) => "Invalid number: "@ + s,
        ParseErrorView::UnexpectedToken(s) => "Unexpected token: "@ + s,
        ParseErrorView::UnexpectedEof => "Unexpected end of input"@,
        ParseErrorView::MismatchedParentheses => "Mismatched parentheses"@,
        ParseErrorView::EmptyExpression => "Empty expression"@,
        ParseErrorView::InvalidFunctionArgs(s) => "Invalid function arguments: "@ + s,
    }
}

impl ParseError {
    /// The error's message.
    pub fn to_text(&self) -> (t: String)
        ensures
            t@ == parse_error_text(self@),
    {
        let mut t = String::new();
        match self {
            ParseError::UnexpectedCharacter(c, pos) => {
                t.append("Unexpected character '");
                push_char(&mut t, *c);
                t.append("' at position ");
                push_string(&mut t, &crate::execution::nat_to_text(*pos as u64));
            },
            ParseError::InvalidNumber(s) => {
                t.append("Invalid number: ");
                push_string(&mut t, s);
            },
            ParseError::UnexpectedToken(s) => {
                t.append("Unexpected token: ");
                push_string(&mut t, s);
            },
            ParseError::UnexpectedEof => t.append("Unexpected end of input"),
            ParseError::MismatchedParentheses => t.append("Mismatched parentheses"),
            ParseError::EmptyExpression => t.append("Empty expression"),
            ParseError::InvalidFunctionArgs(s) => {
                t.append("Invalid function arguments: ");
                push_string(&mut t, s);
            },
        }
        assert(t@ =~= parse_error_text(self@));
        t
    }
}

impl AstNode {
    /// The expression as it prints.
    pub fn to_text(&self) -> (t: String)
        ensures
            t@ == ast_text(self@),
        decreases *self,
    {
        match self {
            AstNode::Number(n) => n.to_text(),
            AstNode::Variable(v) => v.clone(),
            AstNode::BinaryOp { op, left, right } => {
                let mut t = String::new();
                push_char(&mut t, '(');
                push_string(&mut t, &left.to_text());
                push_char(&mut t, ' ');
                push_string(&mut t, &op.to_text());
                push_char(&mut t, ' ');
                push_string(&mut t, &right.to_text());
                push_char(&mut t, ')');
                assert(t@ =~= ast_text(self@));
                t
            },
            AstNode::UnaryOp { op, operand } => {
                let inner = operand.to_text();
                let mut t = String::new();
                match op {
                    UnaryOperator::Negate => {
                        push_char(&mut t, '(');
                        push_char(&mut t, '-');
                        push_string(&mut t, &inner);
                        push_char(&mut t, ')');
                    },
                    UnaryOperator::Factorial => {
                        push_string(&mut t, &inner);
                        push_char(&mut t, '!');
                    },
                    UnaryOperator::AbsoluteValue => {
                        push_char(&mut t, '|');
                        push_string(&mut t, &inner);
                        push_char(&mut t, '|');
                    },
                }
                assert(t@ =~= ast_text(self@));
                t
            },
            AstNode::FunctionCall { name, args } => {
                let mut t = name.clone();
                push_char(&mut t, '(');
                let ghost head = t@;
                let mut i: usize = 0;
                while i < args.len()
                    invariant
                        *self == (AstNode::FunctionCall { name: *name, args: *args }),
                        i <= args@.len(),
                        t@ == head + args_text(args_view(args@.take(i as int))),
                    decreases args@.len() - i,
                {
                    proof {
                        assert(decreases_to!(*self => self->args));
                        assert(decreases_to!(self->args => self->args@));
                        assert(decreases_to!(args@ => args@[i as int]));
                        lemma_args_view_push(args@.take(i as int), args@[i as int]);
                        assert(args@.take(i as int).push(args@[i as int]) =~= args@.take(i + 1));
                        lemma_args_view_index(args@.take(i as int));
                    }
                    if i > 0 {
                        push_char(&mut t, ',');
                        push_char(&mut t, ' ');
                    }
                    let a = args[i].to_text();
                    push_string(&mut t, &a);
                    i = i + 1;
                    proof {
                        let prev = args_view(args@.take(i - 1));
                        let cur = args_view(args@.take(i as int));
                        assert(cur == prev.push(ast_view(args@[i - 1])));
                        assert(cur.drop_last() =~= prev);
                        if i == 1 {
                            assert(prev.len() == 0);
                            assert(args_text(prev) =~= Seq::<char>::empty());
                        }
                        assert(t@ =~= head + args_text(cur));
                    }
                }
                push_char(&mut t, ')');
                proof {
                    assert(args@.take(i as int) =~= args@);
                    assert(t@ =~= ast_text(self@));
                }
                t
            },
            AstNode::Equation { left, right } => {
                let mut t = left.to_text();
                push_char(&mut t, ' ');
                push_char(&mut t, '=');
                push_char(&mut t, ' ');
                push_string(&mut t, &right.to_text());
                assert(t@ =~= ast_text(self@));
                t
            },
            AstNode::Inequality { op, left, right } => {
                let mut t = left.to_text();
                push_char(&mut t, ' ');
                match op {
                    ComparisonOp::LessThan => push_char(&mut t, '<'),
                    ComparisonOp::GreaterThan => push_char(&mut t, '>'),
                    ComparisonOp::LessEqual => {
                        push_char(&mut t, '<');
                        push_char(&mut t, '=');
                    },
                    ComparisonOp::GreaterEqual => {
                        push_char(&mut t, '>');
                        push_char(&mut t, '=');
                    },
                }
                push_char(&mut t, ' ');
                push_string(&mut t, &right.to_text());
                assert(t@ =~= ast_text(self@));
                t
            },
            AstNode::ImplicitMul { coefficient, variable } => {
                let mut t = coefficient.to_text();
                push_string(&mut t, &variable.to_text());
                assert(t@ =~= ast_text(self@));
                t
            },
        }
    }
}


// ============================================================================
// TEXT ORDER AND SORTED NAME LISTS
// ============================================================================

/// Lexicographic order of texts, by character.
pub open spec fn text_lt(a: Seq<char>, b: Seq<char>) -> bool
    decreases a.len(),
{
    if a.len() == 0 {
        b.len() > 0
    } else if b.len() == 0 {
        false
    } else if a[0] != b[0] {
        a[0] < b[0]
    } else {
        text_lt(a.drop_first(), b.drop_first())
    }
}

/// Strictly increasing in text order: sorted, each text once.
pub open spec fn sorted_unique(s: Seq<Seq<char>>) -> bool {
    forall|i: int, j: int| 0 <= i < j < s.len() ==> text_lt(#[trigger] s[i], #[trigger] s[j])
}

proof fn lemma_text_lt_irrefl(a: Seq<char>)
    ensures
        !text_lt(a, a),
    decreases a.len(),
{
    if a.len() > 0 {
        lemma_text_lt_irrefl(a.drop_first());
    }
}

proof fn lemma_text_lt_trans(a: Seq<char>, b: Seq<char>, c: Seq<char>)
    requires
        text_lt(a, b),
        text_lt(b, c),
    ensures
        text_lt(a, c),
    decreases a.len(),
{
    if a.len() > 0 && b.len() > 0 && c.len() > 0 && a[0] == b[0] && b[0] == c[0] {
        lemma_text_lt_trans(a.drop_first(), b.drop_first(), c.drop_first());
    }
}

proof fn lemma_text_lt_total(a: Seq<char>, b: Seq<char>)
    ensures
        a == b || text_lt(a, b) || text_lt(b, a),
    decreases a.len(),
{
    if a.len() > 0 && b.len() > 0 && a[0] == b[0] {
        lemma_text_lt_total(a.drop_first(), b.drop_first());
        if a.drop_first() == b.drop_first() {
            assert(a =~= seq![a[0]] + a.drop_first());
            assert(b =~= seq![b[0]] + b.drop_first());
        }
    } else if a.len() == 0 && b.len() == 0 {
        assert(a =~= b);
    }
}

proof fn lemma_text_lt_skip(a: Seq<char>, b: Seq<char>, i: int)
    requires
        0 <= i <= a.len(),
        i <= b.len(),
        a.take(i) == b.take(i),
    ensures
        text_lt(a, b) == text_lt(a.skip(i), b.skip(i)),
    decreases i,
{
    if i > 0 {
        assert(a[0] == a.take(i)[0]);
        assert(b[0] == b.take(i)[0]);
        assert(a.drop_first().take(i - 1) =~= a.take(i).drop_first());
        assert(b.drop_first().take(i - 1) =~= b.take(i).drop_first());
        lemma_text_lt_skip(a.drop_first(), b.drop_first(), i - 1);
        assert(a.drop_first().skip(i - 1) =~= a.skip(i));
        assert(b.drop_first().skip(i - 1) =~= b.skip(i));
    } else {
        assert(a.skip(0) =~= a);
        assert(b.skip(0) =~= b);
    }
}

/// Whether `a` comes before `b` in text order.
fn text_less(a: &str, b: &str) -> (r: bool)
    ensures
        r == text_lt(a@, b@),
{
    let x = chars_of(a);
    let y = chars_of(b);
    let mut i: usize = 0;
    while i < x.len() && i < y.len() && x[i] == y[i]
        invariant
            i <= x@.len(),
            i <= y@.len(),
            x@.take(i as int) == y@.take(i as int),
        decreases x@.len() - i,
    {
        i = i + 1;
        assert(x@.take(i as int) =~= x@.take(i - 1).push(x@[i - 1]));
        assert(y@.take(i as int) =~= y@.take(i - 1).push(y@[i - 1]));
    }
    proof {
        lemma_text_lt_skip(x@, y@, i as int);
    }
    if i == x.len() {
        i < y.len()
    } else if i == y.len() {
        false
    } else {
        proof {
            assert(x@.skip(i as int)[0] == x@[i as int]);
            assert(y@.skip(i as int)[0] == y@[i as int]);
        }
        x[i] < y[i]
    }
}

/// The set of texts in a sequence of strings.
pub open spec fn name_set(v: Seq<String>) -> Set<Seq<char>> {
    string_views(v).to_set()
}

/// Inserts a name into a sorted list of distinct names, unless it is there.
fn insert_sorted(v: &mut Vec<String>, x: &String)
    requires
        sorted_unique(string_views(old(v)@)),
    ensures
        sorted_unique(string_views(final(v)@)),
        name_set(final(v)@) == name_set(old(v)@).insert(x@),
{
    let ghost s0 = string_views(v@);
    let mut k: usize = 0;
    while k < v.len() && text_less(v[k].as_str(), x.as_str())
        invariant
            k <= v@.len(),
            s0 == string_views(v@),
            forall|i: int| 0 <= i < k ==> text_lt(#[trigger] s0[i], x@),
        decreases v@.len() - k,
    {
        k = k + 1;
    }
    if k < v.len() && str_eq(v[k].as_str(), x.as_str()) {
        proof {
            assert(s0[k as int] == x@);
            assert(s0.to_set() =~= s0.to_set().insert(x@));
        }
        return;
    }
    proof {
        if k < v@.len() {
            lemma_text_lt_total(s0[k as int], x@);
        }
    }
    v.insert(k, x.clone());
    proof {
        let s1 = string_views(v@);
        assert(s1 =~= s0.insert(k as int, x@));
        assert forall|i: int, j: int| 0 <= i < j < s1.len() implies text_lt(#[trigger] s1[i], #[trigger] s1[j]) by {
            if j < k {
            } else if j == k {
            } else if i < k {
                assert(text_lt(s0[i], x@));
                assert(text_lt(x@, s0[k as int]));
                if j - 1 > k {
                    assert(text_lt(s0[k as int], s0[j - 1]));
                    lemma_text_lt_trans(x@, s0[k as int], s0[j - 1]);
                }
                lemma_text_lt_trans(s0[i], x@, s0[j - 1]);
            } else if i == k {
                if j - 1 > k {
                    assert(text_lt(s0[k as int], s0[j - 1]));
                    lemma_text_lt_trans(x@, s0[k as int], s0[j - 1]);
                }
            } else {
                assert(s1[i] == s0[i - 1] && s1[j] == s0[j - 1]);
            }
        }
        assert forall|t: Seq<char>| s1.to_set().contains(t) <==> s0.to_set().insert(x@).contains(t) by {
            if s1.contains(t) {
                let i = choose|i: int| 0 <= i < s1.len() && s1[i] == t;
                if i < k {
                    assert(s0[i] == t);
                } else if i > k {
                    assert(s0[i - 1] == t);
                }
            }
            if s0.contains(t) {
                let i = choose|i: int| 0 <= i < s0.len() && s0[i] == t;
                if i < k {
                    assert(s1[i] == t);
                } else {
                    assert(s1[i + 1] == t);
                }
            }
            if t == x@ {
                assert(s1[k as int] == t);
            }
        }
        assert(s1.to_set() =~= s0.to_set().insert(x@));
    }
}

// ============================================================================
// AST ANALYSIS
// ============================================================================

/// Whether the expression contains a variable.
pub open spec fn has_vars(a: AstView) -> bool
    decreases a,
{
    match a {
        AstView::Variable(_) => true,
        AstView::Number(_) => false,
        AstView::BinaryOp { left, right, .. } => has_vars(*left) || has_vars(*right),
        AstView::UnaryOp { operand, .. } => has_vars(*operand),
        AstView::FunctionCall { args, .. } => args_have_vars(args),
        AstView::Equation { left, right } => has_vars(*left) || has_vars(*right),
        AstView::Inequality { left, right, .. } => has_vars(*left) || has_vars(*right),
        AstView::ImplicitMul { coefficient, variable } => has_vars(*coefficient) || has_vars(*variable),
    }
}

/// Whether some argument contains a variable.
pub open spec fn args_have_vars(args: Seq<AstView>) -> bool
    decreases args,
{
    if args.len() == 0 {
        false
    } else {
        args_have_vars(args.drop_last()) || has_vars(args.last())
    }
}

/// The variable names in the expression.
pub open spec fn vars_of(a: AstView) -> Set<Seq<char>>
    decreases a,
{
    match a {
        AstView::Variable(v) => set![v],
        AstView::Number(_) => Set::empty(),
        AstView::BinaryOp { left, right, .. } => vars_of(*left) + vars_of(*right),
        AstView::UnaryOp { operand, .. } => vars_of(*operand),
        AstView::FunctionCall { args, .. } => args_vars(args),
        AstView::Equation { left, right } => vars_of(*left) + vars_of(*right),
        AstView::Inequality { left, right, .. } => vars_of(*left) + vars_of(*right),
        AstView::ImplicitMul { coefficient, variable } => vars_of(*coefficient) + vars_of(*variable),
    }
}

/// The variable names in the arguments.
pub open spec fn args_vars(args: Seq<AstView>) -> Set<Seq<char>>
    decreases args,
{
    if args.len() == 0 {
        Set::empty()
    } else {
        args_vars(args.drop_last()) + vars_of(args.last())
    }
}

/// The function names called in the expression.
pub open spec fn funcs_of(a: AstView) -> Set<Seq<char>>
    decreases a,
{
    match a {
        AstView::FunctionCall { name, args } => set![name] + args_funcs(args),
        AstView::BinaryOp { left, right, .. } => funcs_of(*left) + funcs_of(*right),
        AstView::UnaryOp { operand, .. } => funcs_of(*operand),
        AstView::Equation { left, right } => funcs_of(*left) + funcs_of(*right),
        AstView::Inequality { left, right, .. } => funcs_of(*left) + funcs_of(*right),
        AstView::ImplicitMul { coefficient, variable } => funcs_of(*coefficient) + funcs_of(*variable),
        _ => Set::empty(),
    }
}

/// The function names called in the arguments.
pub open spec fn args_funcs(args: Seq<AstView>) -> Set<Seq<char>>
    decreases args,
{
    if args.len() == 0 {
        Set::empty()
    } else {
        args_funcs(args.drop_last()) + funcs_of(args.last())
    }
}

/// The whole part of a numeral as a `u32`, saturating.
pub open spec fn numeral_u32(v: (Seq<u8>, Seq<u8>)) -> nat {
    if seq_value(v.0) <= u32::MAX {
        seq_value(v.0)
    } else {
        u32::MAX as nat
    }
}

/// The larger of two numbers.
pub open spec fn max_nat2(a: nat, b: nat) -> nat {
    if a >= b {
        a
    } else {
        b
    }
}

/// The highest exponent on a variable: a variable counts 1, a power of a
/// variable expression by a number counts that number's whole part.
pub open spec fn max_deg(a: AstView) -> nat
    decreases a,
{
    match a {
        AstView::Variable(_) => 1,
        AstView::Number(_) => 0,
        AstView::BinaryOp { op, left, right } => if op == BinaryOperator::Power && has_vars(*left)
            && (*right is Number) {
            numeral_u32(right->Number_0)
        } else {
            max_nat2(max_deg(*left), max_deg(*right))
        },
        AstView::UnaryOp { operand, .. } => max_deg(*operand),
        AstView::FunctionCall { args, .. } => args_max_deg(args),
        AstView::Equation { left, right } => max_nat2(max_deg(*left), max_deg(*right)),
        AstView::Inequality { left, right, .. } => max_nat2(max_deg(*left), max_deg(*right)),
        AstView::ImplicitMul { coefficient, variable } => max_nat2(max_deg(*coefficient), max_deg(*variable)),
    }
}

/// The highest exponent on a variable over the arguments (0 for none).
pub open spec fn args_max_deg(args: Seq<AstView>) -> nat
    decreases args,
{
    if args.len() == 0 {
        0
    } else {
        max_nat2(args_max_deg(args.drop_last()), max_deg(args.last()))
    }
}

/// Whether the expression has only numbers: no variable, call or implicit product.
pub open spec fn purely_numeric(a: AstView) -> bool
    decreases a,
{
    match a {
        AstView::Number(_) => true,
        AstView::Variable(_) => false,
        AstView::BinaryOp { left, right, .. } => purely_numeric(*left) && purely_numeric(*right),
        AstView::UnaryOp { operand, .. } => purely_numeric(*operand),
        AstView::FunctionCall { .. } => false,
        AstView::Equation { left, right } => purely_numeric(*left) && purely_numeric(*right),
        AstView::Inequality { left, right, .. } => purely_numeric(*left) && purely_numeric(*right),
        AstView::ImplicitMul { .. } => false,
    }
}

/// Whether every number in the expression is one of the whole numbers 0 to 9.
pub open spec fn single_digits(a: AstView) -> bool
    decreases a,
{
    match a {
        AstView::Number(v) => v.1.len() == 0 && seq_value(v.0) <= 9,
        AstView::Variable(_) => true,
        AstView::BinaryOp { left, right, .. } => single_digits(*left) && single_digits(*right),
        AstView::UnaryOp { operand, .. } => single_digits(*operand),
        AstView::FunctionCall { args, .. } => args_single_digits(args),
        AstView::Equation { left, right } => single_digits(*left) && single_digits(*right),
        AstView::Inequality { left, right, .. } => single_digits(*left) && single_digits(*right),
        AstView::ImplicitMul { coefficient, variable } => single_digits(*coefficient) && single_digits(*variable),
    }
}

/// Whether every number in the arguments is a single digit.
pub open spec fn args_single_digits(args: Seq<AstView>) -> bool
    decreases args,
{
    if args.len() == 0 {
        true
    } else {
        args_single_digits(args.drop_last()) && single_digits(args.last())
    }
}

/// Whether the expression divides one purely numeric expression by another.
pub open spec fn fractions_in(a: AstView) -> bool
    decreases a,
{
    match a {
        AstView::BinaryOp { op, left, right } => if op == BinaryOperator::Divide {
            purely_numeric(*left) && purely_numeric(*right)
        } else {
            fractions_in(*left) || fractions_in(*right)
        },
        AstView::UnaryOp { operand, .. } => fractions_in(*operand),
        AstView::Equation { left, right } => fractions_in(*left) || fractions_in(*right),
        _ => false,
    }
}

/// An absolute value at the top or within binary operations.
pub open spec fn abs_in(a: AstView) -> bool
    decreases a,
{
    match a {
        AstView::UnaryOp { op, .. } => op == UnaryOperator::AbsoluteValue,
        AstView::BinaryOp { left, right, .. } => abs_in(*left) || abs_in(*right),
        _ => false,
    }
}

/// A modulo at the top or within binary operations.
pub open spec fn modulo_in(a: AstView) -> bool
    decreases a,
{
    match a {
        AstView::BinaryOp { op, left, right } => op == BinaryOperator::Modulo || modulo_in(*left) || modulo_in(
            *right,
        ),
        _ => false,
    }
}

/// A power within binary and unary operations.
pub open spec fn power_in(a: AstView) -> bool
    decreases a,
{
    match a {
        AstView::BinaryOp { op, left, right } => op == BinaryOperator::Power || power_in(*left) || power_in(*right),
        AstView::UnaryOp { operand, .. } => power_in(*operand),
        _ => false,
    }
}

/// A power whose base contains a variable, within binary, unary and implicit products.
pub open spec fn power_on_var_in(a: AstView) -> bool
    decreases a,
{
    match a {
        AstView::BinaryOp { op, left, right } => if op == BinaryOperator::Power {
            has_vars(*left)
        } else {
            power_on_var_in(*left) || power_on_var_in(*right)
        },
        AstView::UnaryOp { operand, .. } => power_on_var_in(*operand),
        AstView::ImplicitMul { coefficient, variable } => power_on_var_in(*coefficient) || power_on_var_in(
            *variable,
        ),
        _ => false,
    }
}

/// A sum or difference whose two sides use the same, non-empty, set of variables.
pub open spec fn like_terms(a: AstView) -> bool {
    match a {
        AstView::BinaryOp { op, left, right } => (op == BinaryOperator::Add || op == BinaryOperator::Subtract)
            && vars_of(*left) != Set::<Seq<char>>::empty() && vars_of(*left) == vars_of(*right),
        _ => false,
    }
}

/// A binary operation with a binary operation as an operand.
pub open spec fn multiple_ops(a: AstView) -> bool {
    match a {
        AstView::BinaryOp { left, right, .. } => (*left is BinaryOp) || (*right is BinaryOp),
        _ => false,
    }
}

/// An addition or multiplication, at the top or within binary operations.
pub open spec fn commutable_in(a: AstView) -> bool
    decreases a,
{
    match a {
        AstView::BinaryOp { op, left, right } => op == BinaryOperator::Add || op == BinaryOperator::Multiply
            || commutable_in(*left) || commutable_in(*right),
        _ => false,
    }
}

/// Whether the view is a sum or a difference.
pub open spec fn is_sum(a: AstView) -> bool {
    a matches AstView::BinaryOp { op, .. } && (op == BinaryOperator::Add || op == BinaryOperator::Subtract)
}

/// A product whose right operand is a sum or difference: `a * (b + c)` or `a(b + c)`.
pub open spec fn distributable(a: AstView) -> bool {
    match a {
        AstView::BinaryOp { op, right, .. } => op == BinaryOperator::Multiply && is_sum(*right),
        AstView::ImplicitMul { variable, .. } => is_sum(*variable),
        _ => false,
    }
}


// ============================================================================
// AST ANALYSIS HELPERS
// ============================================================================

/// Stepping the argument prefix by one extends its view by the next argument.
proof fn lemma_args_step(args: Seq<AstNode>, i: int)
    requires
        0 <= i < args.len(),
    ensures
        args_view(args.take(i + 1)).drop_last() == args_view(args.take(i)),
        args_view(args.take(i + 1)).last() == ast_view(args[i]),
        args_view(args.take(i + 1)).len() == i + 1,
{
    assert(args.take(i).push(args[i]) =~= args.take(i + 1));
    lemma_args_view_push(args.take(i), args[i]);
    lemma_args_view_index(args.take(i));
}

/// Whether the expression contains a variable.
fn contains_variables(ast: &AstNode) -> (b: bool)
    ensures
        b == has_vars(ast@),
    decreases *ast,
{
    match ast {
        AstNode::Variable(_) => true,
        AstNode::Number(_) => false,
        AstNode::BinaryOp { left, right, .. } => contains_variables(left) || contains_variables(right),
        AstNode::UnaryOp { operand, .. } => contains_variables(operand),
        AstNode::FunctionCall { args, .. } => {
            let mut found = false;
            let mut i: usize = 0;
            while i < args.len()
                invariant
                    *ast == (AstNode::FunctionCall { name: ast->name, args: *args }),
                    i <= args@.len(),
                    found == args_have_vars(args_view(args@.take(i as int))),
                decreases args@.len() - i,
            {
                proof {
                    assert(decreases_to!(*ast => ast->args));
                    assert(decreases_to!(ast->args => ast->args@));
                    assert(decreases_to!(args@ => args@[i as int]));
                    lemma_args_step(args@, i as int);
                }
                let here = contains_variables(&args[i]);
                found = found || here;
                i = i + 1;
            }
            proof {
                assert(args@.take(i as int) =~= args@);
            }
            found
        },
        AstNode::Equation { left, right } => contains_variables(left) || contains_variables(right),
        AstNode::Inequality { left, right, .. } => contains_variables(left) || contains_variables(right),
        AstNode::ImplicitMul { coefficient, variable } => contains_variables(coefficient) || contains_variables(
            variable,
        ),
    }
}

/// Adds the variable names of the expression to a sorted list of distinct names.
fn collect_variables_inner(ast: &AstNode, vars: &mut Vec<String>)
    requires
        sorted_unique(string_views(old(vars)@)),
    ensures
        sorted_unique(string_views(final(vars)@)),
        name_set(final(vars)@) == name_set(old(vars)@) + vars_of(ast@),
    decreases *ast,
{
    let ghost s0 = name_set(vars@);
    match ast {
        AstNode::Variable(name) => {
            insert_sorted(vars, name);
            proof {
                assert(s0.insert(name@) =~= s0 + set![name@]);
            }
        },
        AstNode::Number(_) => {
            assert(s0 + Set::<Seq<char>>::empty() =~= s0);
        },
        AstNode::BinaryOp { left, right, .. } => {
            collect_variables_inner(left, vars);
            collect_variables_inner(right, vars);
            assert(s0 + vars_of(left@) + vars_of(right@) =~= s0 + vars_of(ast@));
        },
        AstNode::UnaryOp { operand, .. } => collect_variables_inner(operand, vars),
        AstNode::FunctionCall { args, .. } => {
            let mut i: usize = 0;
            proof {
                assert(args_vars(args_view(args@.take(0))) =~= Set::<Seq<char>>::empty());
                assert(s0 + Set::<Seq<char>>::empty() =~= s0);
            }
            while i < args.len()
                invariant
                    *ast == (AstNode::FunctionCall { name: ast->name, args: *args }),
                    i <= args@.len(),
                    sorted_unique(string_views(vars@)),
                    name_set(vars@) == s0 + args_vars(args_view(args@.take(i as int))),
                decreases args@.len() - i,
            {
                proof {
                    assert(decreases_to!(*ast => ast->args));
                    assert(decreases_to!(ast->args => ast->args@));
                    assert(decreases_to!(args@ => args@[i as int]));
                    lemma_args_step(args@, i as int);
                }
                let ghost before = name_set(vars@);
                collect_variables_inner(&args[i], vars);
                i = i + 1;
                proof {
                    let pv = args_view(args@.take(i - 1));
                    assert(args_vars(args_view(args@.take(i as int))) == args_vars(pv) + vars_of(args@[i - 1]@));
                    assert(name_set(vars@) =~= s0 + args_vars(args_view(args@.take(i as int))));
                }
            }
            proof {
                assert(args@.take(i as int) =~= args@);
            }
        },
        AstNode::Equation { left, right } => {
            collect_variables_inner(left, vars);
            collect_variables_inner(right, vars);
            assert(s0 + vars_of(left@) + vars_of(right@) =~= s0 + vars_of(ast@));
        },
        AstNode::Inequality { left, right, .. } => {
            collect_variables_inner(left, vars);
            collect_variables_inner(right, vars);
            assert(s0 + vars_of(left@) + vars_of(right@) =~= s0 + vars_of(ast@));
        },
        AstNode::ImplicitMul { coefficient, variable } => {
            collect_variables_inner(coefficient, vars);
            collect_variables_inner(variable, vars);
            assert(s0 + vars_of(coefficient@) + vars_of(variable@) =~= s0 + vars_of(ast@));
        },
    }
}

/// The distinct variable names of the expression, sorted.
fn collect_variables(ast: &AstNode) -> (vars: Vec<String>)
    ensures
        sorted_unique(string_views(vars@)),
        name_set(vars@) == vars_of(ast@),
{
    let mut vars: Vec<String> = Vec::new();
    proof {
        assert(string_views(vars@) =~= Seq::<Seq<char>>::empty());
        assert(name_set(vars@) =~= Set::<Seq<char>>::empty());
    }
    collect_variables_inner(ast, &mut vars);
    assert(Set::<Seq<char>>::empty() + vars_of(ast@) =~= vars_of(ast@));
    vars
}

/// Adds the function names called in the expression to a sorted list of distinct names.
fn collect_functions_inner(ast: &AstNode, funcs: &mut Vec<String>)
    requires
        sorted_unique(string_views(old(funcs)@)),
    ensures
        sorted_unique(string_views(final(funcs)@)),
        name_set(final(funcs)@) == name_set(old(funcs)@) + funcs_of(ast@),
    decreases *ast,
{
    let ghost s0 = name_set(funcs@);
    match ast {
        AstNode::FunctionCall { name, args } => {
            insert_sorted(funcs, name);
            let ghost s1 = name_set(funcs@);
            let mut i: usize = 0;
            proof {
                assert(args_funcs(args_view(args@.take(0))) =~= Set::<Seq<char>>::empty());
                assert(s1 + Set::<Seq<char>>::empty() =~= s1);
            }
            while i < args.len()
                invariant
                    *ast == (AstNode::FunctionCall { name: *name, args: *args }),
                    i <= args@.len(),
                    sorted_unique(string_views(funcs@)),
                    name_set(funcs@) == s1 + args_funcs(args_view(args@.take(i as int))),
                decreases args@.len() - i,
            {
                proof {
                    assert(decreases_to!(*ast => ast->args));
                    assert(decreases_to!(ast->args => ast->args@));
                    assert(decreases_to!(args@ => args@[i as int]));
                    lemma_args_step(args@, i as int);
                }
                collect_functions_inner(&args[i], funcs);
                i = i + 1;
                proof {
                    let pv = args_view(args@.take(i - 1));
                    assert(args_funcs(args_view(args@.take(i as int))) == args_funcs(pv) + funcs_of(args@[i - 1]@));
                    assert(name_set(funcs@) =~= s1 + args_funcs(args_view(args@.take(i as int))));
                }
            }
            proof {
                assert(args@.take(i as int) =~= args@);
                assert(name_set(funcs@) =~= s0 + funcs_of(ast@));
            }
        },
        AstNode::BinaryOp { left, right, .. } => {
            collect_functions_inner(left, funcs);
            collect_functions_inner(right, funcs);
            assert(s0 + funcs_of(left@) + funcs_of(right@) =~= s0 + funcs_of(ast@));
        },
        AstNode::UnaryOp { operand, .. } => collect_functions_inner(operand, funcs),
        AstNode::Equation { left, right } => {
            collect_functions_inner(left, funcs);
            collect_functions_inner(right, funcs);
            assert(s0 + funcs_of(left@) + funcs_of(right@) =~= s0 + funcs_of(ast@));
        },
        AstNode::Inequality { left, right, .. } => {
            collect_functions_inner(left, funcs);
            collect_functions_inner(right, funcs);
            assert(s0 + funcs_of(left@) + funcs_of(right@) =~= s0 + funcs_of(ast@));
        },
        AstNode::ImplicitMul { coefficient, variable } => {
            collect_functions_inner(coefficient, funcs);
            collect_functions_inner(variable, funcs);
            assert(s0 + funcs_of(coefficient@) + funcs_of(variable@) =~= s0 + funcs_of(ast@));
        },
        _ => {
            assert(s0 + funcs_of(ast@) =~= s0);
        },
    }
}

/// The distinct function names called in the expression, sorted.
fn collect_functions(ast: &AstNode) -> (funcs: Vec<String>)
    ensures
        sorted_unique(string_views(funcs@)),
        name_set(funcs@) == funcs_of(ast@),
{
    let mut funcs: Vec<String> = Vec::new();
    proof {
        assert(string_views(funcs@) =~= Seq::<Seq<char>>::empty());
        assert(name_set(funcs@) =~= Set::<Seq<char>>::empty());
    }
    collect_functions_inner(ast, &mut funcs);
    assert(Set::<Seq<char>>::empty() + funcs_of(ast@) =~= funcs_of(ast@));
    funcs
}

/// The highest exponent on a variable in the expression.
fn max_variable_degree(ast: &AstNode) -> (d: u32)
    ensures
        d == max_deg(ast@),
    decreases *ast,
{
    match ast {
        AstNode::Variable(_) => 1,
        AstNode::Number(_) => 0,
        AstNode::BinaryOp { op, left, right } => {
            if *op == BinaryOperator::Power && contains_variables(left) {
                match &**right {
                    AstNode::Number(n) => {
                        return n.truncate_u32();
                    },
                    _ => {},
                }
            }
            let a = max_variable_degree(left);
            let b = max_variable_degree(right);
            if a >= b {
                a
            } else {
                b
            }
        },
        AstNode::UnaryOp { operand, .. } => max_variable_degree(operand),
        AstNode::FunctionCall { args, .. } => {
            let mut m: u32 = 0;
            let mut i: usize = 0;
            while i < args.len()
                invariant
                    *ast == (AstNode::FunctionCall { name: ast->name, args: *args }),
                    i <= args@.len(),
                    m == args_max_deg(args_view(args@.take(i as int))),
                decreases args@.len() - i,
            {
                proof {
                    assert(decreases_to!(*ast => ast->args));
                    assert(decreases_to!(ast->args => ast->args@));
                    assert(decreases_to!(args@ => args@[i as int]));
                    lemma_args_step(args@, i as int);
                }
                let d = max_variable_degree(&args[i]);
                if d > m {
                    m = d;
                }
                i = i + 1;
            }
            proof {
                assert(args@.take(i as int) =~= args@);
            }
            m
        },
        AstNode::Equation { left, right } | AstNode::Inequality { left, right, .. } | AstNode::ImplicitMul {
            coefficient: left,
            variable: right,
        } => {
            let a = max_variable_degree(left);
            let b = max_variable_degree(right);
            if a >= b {
                a
            } else {
                b
            }
        },
    }
}

/// Whether the expression has only numbers.
fn is_purely_numeric(ast: &AstNode) -> (b: bool)
    ensures
        b == purely_numeric(ast@),
    decreases *ast,
{
    match ast {
        AstNode::Number(_) => true,
        AstNode::Variable(_) => false,
        AstNode::BinaryOp { left, right, .. } => is_purely_numeric(left) && is_purely_numeric(right),
        AstNode::UnaryOp { operand, .. } => is_purely_numeric(operand),
        AstNode::FunctionCall { .. } => false,
        AstNode::Equation { left, right } => is_purely_numeric(left) && is_purely_numeric(right),
        AstNode::Inequality { left, right, .. } => is_purely_numeric(left) && is_purely_numeric(right),
        AstNode::ImplicitMul { .. } => false,
    }
}

/// Whether every number in the expression is a single digit.
fn all_single_digit(ast: &AstNode) -> (b: bool)
    ensures
        b == single_digits(ast@),
    decreases *ast,
{
    match ast {
        AstNode::Number(n) => n.is_single_digit(),
        AstNode::Variable(_) => true,
        AstNode::BinaryOp { left, right, .. } => all_single_digit(left) && all_single_digit(right),
        AstNode::UnaryOp { operand, .. } => all_single_digit(operand),
        AstNode::FunctionCall { args, .. } => {
            let mut all = true;
            let mut i: usize = 0;
            while i < args.len()
                invariant
                    *ast == (AstNode::FunctionCall { name: ast->name, args: *args }),
                    i <= args@.len(),
                    all == args_single_digits(args_view(args@.take(i as int))),
                decreases args@.len() - i,
            {
                proof {
                    assert(decreases_to!(*ast => ast->args));
                    assert(decreases_to!(ast->args => ast->args@));
                    assert(decreases_to!(args@ => args@[i as int]));
                    lemma_args_step(args@, i as int);
                }
                let here = all_single_digit(&args[i]);
                all = all && here;
                i = i + 1;
            }
            proof {
                assert(args@.take(i as int) =~= args@);
            }
            all
        },
        AstNode::Equation { left, right } => all_single_digit(left) && all_single_digit(right),
        AstNode::Inequality { left, right, .. } => all_single_digit(left) && all_single_digit(right),
        AstNode::ImplicitMul { coefficient, variable } => all_single_digit(coefficient) && all_single_digit(
            variable,
        ),
    }
}

/// Whether the expression divides one purely numeric expression by another.
fn involves_fractions(ast: &AstNode) -> (b: bool)
    ensures
        b == fractions_in(ast@),
    decreases *ast,
{
    match ast {
        AstNode::BinaryOp { op, left, right } => {
            if *op == BinaryOperator::Divide {
                is_purely_numeric(left) && is_purely_numeric(right)
            } else {
                involves_fractions(left) || involves_fractions(right)
            }
        },
        AstNode::UnaryOp { operand, .. } => involves_fractions(operand),
        AstNode::Equation { left, right } => involves_fractions(left) || involves_fractions(right),
        _ => false,
    }
}

/// An absolute value at the top or within binary operations.
fn has_absolute_value(ast: &AstNode) -> (b: bool)
    ensures
        b == abs_in(ast@),
    decreases *ast,
{
    match ast {
        AstNode::UnaryOp { op, .. } => *op == UnaryOperator::AbsoluteValue,
        AstNode::BinaryOp { left, right, .. } => has_absolute_value(left) || has_absolute_value(right),
        _ => false,
    }
}

/// A modulo at the top or within binary operations.
fn has_modulo(ast: &AstNode) -> (b: bool)
    ensures
        b == modulo_in(ast@),
    decreases *ast,
{
    match ast {
        AstNode::BinaryOp { op, left, right } => *op == BinaryOperator::Modulo || has_modulo(left) || has_modulo(
            right,
        ),
        _ => false,
    }
}

/// A power within binary and unary operations.
fn has_exponentiation(ast: &AstNode) -> (b: bool)
    ensures
        b == power_in(ast@),
    decreases *ast,
{
    match ast {
        AstNode::BinaryOp { op, left, right } => *op == BinaryOperator::Power || has_exponentiation(left)
            || has_exponentiation(right),
        AstNode::UnaryOp { operand, .. } => has_exponentiation(operand),
        _ => false,
    }
}

/// A power whose base contains a variable.
fn has_power_on_variable(ast: &AstNode) -> (b: bool)
    ensures
        b == power_on_var_in(ast@),
    decreases *ast,
{
    match ast {
        AstNode::BinaryOp { op, left, right } => {
            if *op == BinaryOperator::Power {
                contains_variables(left)
            } else {
                has_power_on_variable(left) || has_power_on_variable(right)
            }
        },
        AstNode::UnaryOp { operand, .. } => has_power_on_variable(operand),
        AstNode::ImplicitMul { coefficient, variable } => has_power_on_variable(coefficient)
            || has_power_on_variable(variable),
        _ => false,
    }
}

/// Whether every name of `a` is in `b`.
fn names_within(a: &Vec<String>, b: &Vec<String>) -> (r: bool)
    ensures
        r == name_set(a@).subset_of(name_set(b@)),
{
    let mut i: usize = 0;
    while i < a.len()
        invariant
            i <= a@.len(),
            forall|k: int| 0 <= k < i ==> name_set(b@).contains(#[trigger] a@[k]@),
        decreases a@.len() - i,
    {
        let mut found = false;
        let mut j: usize = 0;
        while j < b.len()
            invariant
                j <= b@.len(),
                i < a@.len(),
                found ==> name_set(b@).contains(a@[i as int]@),
                !found ==> forall|q: int| 0 <= q < j ==> (#[trigger] b@[q])@ != a@[i as int]@,
            decreases b@.len() - j,
        {
            if str_eq(b[j].as_str(), a[i].as_str()) {
                found = true;
                assert(string_views(b@)[j as int] == a@[i as int]@);
            }
            j = j + 1;
        }
        if !found {
            proof {
                assert(!name_set(b@).contains(a@[i as int]@)) by {
                    if name_set(b@).contains(a@[i as int]@) {
                        let q = choose|q: int| 0 <= q < string_views(b@).len() && string_views(b@)[q] == a@[i as int]@;
                        assert(b@[q]@ == a@[i as int]@);
                    }
                }
                assert(string_views(a@)[i as int] == a@[i as int]@);
                assert(!name_set(a@).subset_of(name_set(b@)));
            }
            return false;
        }
        i = i + 1;
    }
    proof {
        assert forall|t: Seq<char>| name_set(a@).contains(t) implies name_set(b@).contains(t) by {
            let k = choose|k: int| 0 <= k < string_views(a@).len() && string_views(a@)[k] == t;
            assert(a@[k]@ == t);
        }
    }
    true
}

/// A sum or difference whose two sides use the same, non-empty, set of variables.
fn has_like_terms(ast: &AstNode) -> (b: bool)
    ensures
        b == like_terms(ast@),
{
    match ast {
        AstNode::BinaryOp { op, left, right } => {
            if *op != BinaryOperator::Add && *op != BinaryOperator::Subtract {
                return false;
            }
            let left_vars = collect_variables(left);
            let right_vars = collect_variables(right);
            if left_vars.len() == 0 {
                proof {
                    assert(string_views(left_vars@) =~= Seq::<Seq<char>>::empty());
                    assert(name_set(left_vars@) =~= Set::<Seq<char>>::empty());
                }
                return false;
            }
            proof {
                assert(string_views(left_vars@)[0] == left_vars@[0]@);
                assert(name_set(left_vars@).contains(left_vars@[0]@));
            }
            let r = names_within(&left_vars, &right_vars) && names_within(&right_vars, &left_vars);
            proof {
                if r {
                    assert(name_set(left_vars@) =~= name_set(right_vars@));
                }
            }
            r
        },
        _ => false,
    }
}

/// A binary operation with a binary operation as an operand.
fn has_multiple_operations(ast: &AstNode) -> (b: bool)
    ensures
        b == multiple_ops(ast@),
{
    match ast {
        AstNode::BinaryOp { left, right, .. } => is_binary_node(left) || is_binary_node(right),
        _ => false,
    }
}

/// Whether the node is a binary operation.
fn is_binary_node(a: &AstNode) -> (b: bool)
    ensures
        b == (a@ is BinaryOp),
{
    match a {
        AstNode::BinaryOp { .. } => true,
        _ => false,
    }
}

/// An addition or multiplication, at the top or within binary operations.
fn has_commutable_operations(ast: &AstNode) -> (b: bool)
    ensures
        b == commutable_in(ast@),
    decreases *ast,
{
    match ast {
        AstNode::BinaryOp { op, left, right } => *op == BinaryOperator::Add || *op == BinaryOperator::Multiply
            || has_commutable_operations(left) || has_commutable_operations(right),
        _ => false,
    }
}

/// Whether the node is a sum or a difference.
fn is_sum_node(a: &AstNode) -> (b: bool)
    ensures
        b == is_sum(a@),
{
    match a {
        AstNode::BinaryOp { op, .. } => *op == BinaryOperator::Add || *op == BinaryOperator::Subtract,
        _ => false,
    }
}

/// A product whose right operand is a sum or difference.
fn has_distributable_form(ast: &AstNode) -> (b: bool)
    ensures
        b == distributable(ast@),
{
    match ast {
        AstNode::BinaryOp { op, right, .. } => *op == BinaryOperator::Multiply && is_sum_node(right),
        AstNode::ImplicitMul { variable, .. } => is_sum_node(variable),
        _ => false,
    }
}

// ============================================================================
// PATTERN CLASSIFICATION
// ============================================================================

/// What kind of problem an expression is: what rule retrieval matches on.
#[derive(Debug, Clone)]
pub struct PatternClassification {
    /// The primary mathematical domain.
    pub domain: Domain,
    /// The pattern type for rule matching.
    pub pattern_type: PatternType,
    /// Further patterns that may also apply.
    pub secondary_patterns: Vec<PatternType>,
    /// Whether the expression contains variables.
    pub has_variables: bool,
    /// Whether the expression is an equation.
    pub is_equation: bool,
    /// Whether the expression is an inequality.
    pub is_inequality: bool,
    /// The distinct variables, in sorted order.
    pub variables: Vec<String>,
    /// The highest exponent found on any variable.
    pub max_variable_degree: u32,
    /// The distinct function names used, in sorted order.
    pub functions_used: Vec<String>,
}

/// A trigonometric function name.
pub open spec fn is_trig_name(f: Seq<char>) -> bool {
    f == "sin"@ || f == "cos"@ || f == "tan"@ || f == "asin"@ || f == "acos"@ || f == "atan"@ || f == "sinh"@
        || f == "cosh"@ || f == "tanh"@
}

/// Whether `f` begins with `p`.
pub open spec fn begins_with(f: Seq<char>, p: Seq<char>) -> bool {
    p.len() <= f.len() && f.subrange(0, p.len() as int) == p
}

/// The pattern of a single-digit arithmetic expression.
pub open spec fn single_digit_pattern(a: AstView) -> (Domain, PatternType) {
    match a {
        AstView::BinaryOp { op, .. } => match op {
            BinaryOperator::Add => (Domain::CoreArithmetic, PatternType::SingleDigitAddition),
            BinaryOperator::Subtract => (Domain::CoreArithmetic, PatternType::SingleDigitSubtraction),
            BinaryOperator::Multiply => (Domain::CoreArithmetic, PatternType::SingleDigitMultiplication),
            BinaryOperator::Divide => (Domain::CoreArithmetic, PatternType::SingleDigitDivision),
            BinaryOperator::Power => (Domain::PreAlgebra, PatternType::ExponentEvaluation),
            BinaryOperator::Modulo => (Domain::AbstractApplied, PatternType::ModularArithmetic),
        },
        AstView::UnaryOp { op, .. } => match op {
            UnaryOperator::Negate => (Domain::CoreArithmetic, PatternType::SingleDigitSubtraction),
            UnaryOperator::Factorial => (Domain::AbstractApplied, PatternType::Permutation),
            UnaryOperator::AbsoluteValue => (Domain::PreAlgebra, PatternType::AbsoluteValue),
        },
        _ => (Domain::CoreArithmetic, PatternType::SingleDigitAddition),
    }
}

/// The pattern of a multi-digit arithmetic expression.
pub open spec fn multi_digit_pattern(a: AstView) -> (Domain, PatternType) {
    match a {
        AstView::BinaryOp { op, .. } => match op {
            BinaryOperator::Add => (Domain::ExtendedArithmetic, PatternType::MultiDigitAddition),
            BinaryOperator::Subtract => (Domain::ExtendedArithmetic, PatternType::MultiDigitSubtraction),
            BinaryOperator::Multiply => (Domain::ExtendedArithmetic, PatternType::MultiDigitMultiplication),
            BinaryOperator::Divide => (Domain::ExtendedArithmetic, PatternType::MultiDigitDivision),
            BinaryOperator::Power => (Domain::PreAlgebra, PatternType::ExponentEvaluation),
            BinaryOperator::Modulo => (Domain::AbstractApplied, PatternType::ModularArithmetic),
        },
        _ => (Domain::ExtendedArithmetic, PatternType::MultiDigitAddition),
    }
}

/// Whether the view is a division.
pub open spec fn is_division(a: AstView) -> bool {
    a matches AstView::BinaryOp { op, .. } && op == BinaryOperator::Divide
}

/// The pattern of an expression with fractions.
pub open spec fn fraction_pattern(a: AstView) -> (Domain, PatternType) {
    match a {
        AstView::BinaryOp { op, left, right } => if (is_division(*left) || is_division(*right)) && op
            != BinaryOperator::Power && op != BinaryOperator::Modulo {
            match op {
                BinaryOperator::Add => (Domain::PreAlgebra, PatternType::FractionAddition),
                BinaryOperator::Subtract => (Domain::PreAlgebra, PatternType::FractionSubtraction),
                BinaryOperator::Multiply => (Domain::PreAlgebra, PatternType::FractionMultiplication),
                _ => (Domain::PreAlgebra, PatternType::FractionDivision),
            }
        } else if op == BinaryOperator::Divide {
            (Domain::PreAlgebra, PatternType::FractionSimplification)
        } else {
            (Domain::PreAlgebra, PatternType::FractionAddition)
        },
        _ => (Domain::PreAlgebra, PatternType::FractionSimplification),
    }
}

/// The domain and primary pattern of an expression: by the functions it
/// calls first (trigonometry, logarithms, roots, absolute value, gcd/lcm,
/// modulo), then inequalities, then expressions with variables (equations by
/// degree, like terms, powers of variables), then purely numeric arithmetic
/// (powers, fractions, single or multiple digits).
pub open spec fn pattern_of(a: AstView) -> (Domain, PatternType) {
    let fs = funcs_of(a);
    let deg = max_deg(a);
    if exists|f: Seq<char>| fs.contains(f) && #[trigger] is_trig_name(f) {
        (
            Domain::Trigonometry,
            if fs.contains("sin"@) || fs.contains("cos"@) || fs.contains("tan"@) {
                PatternType::TrigEvaluation
            } else if exists|f: Seq<char>| fs.contains(f) && #[trigger] begins_with(f, "a"@) {
                PatternType::InverseTrig
            } else {
                PatternType::TrigEvaluation
            },
        )
    } else if fs.contains("log"@) || fs.contains("ln"@) {
        (Domain::AdvancedAlgebra, PatternType::Logarithm)
    } else if fs.contains("sqrt"@) {
        (Domain::PreAlgebra, PatternType::SquareRoot)
    } else if fs.contains("cbrt"@) {
        (Domain::PreAlgebra, PatternType::NthRoot)
    } else if fs.contains("abs"@) || abs_in(a) {
        (Domain::PreAlgebra, PatternType::AbsoluteValue)
    } else if fs.contains("gcd"@) {
        (Domain::PreAlgebra, PatternType::GCD)
    } else if fs.contains("lcm"@) {
        (Domain::PreAlgebra, PatternType::LCM)
    } else if fs.contains("mod"@) || modulo_in(a) {
        (Domain::AbstractApplied, PatternType::ModularArithmetic)
    } else if a is Inequality {
        (Domain::Algebra, PatternType::LinearInequalitySolve)
    } else if has_vars(a) {
        if a is Equation {
            if deg == 2 {
                (Domain::Algebra, PatternType::QuadraticEquationSolve)
            } else {
                (Domain::Algebra, PatternType::LinearEquationSolve)
            }
        } else if like_terms(a) {
            (Domain::Algebra, PatternType::LikeTermsCombination)
        } else if power_on_var_in(a) {
            if deg == 2 {
                (Domain::Algebra, PatternType::PolynomialMultiplication)
            } else {
                (Domain::PreAlgebra, PatternType::ExponentEvaluation)
            }
        } else {
            (Domain::Algebra, PatternType::VariableSubstitution)
        }
    } else if purely_numeric(a) {
        if power_in(a) {
            (Domain::PreAlgebra, PatternType::ExponentEvaluation)
        } else if fractions_in(a) {
            fraction_pattern(a)
        } else if single_digits(a) {
            single_digit_pattern(a)
        } else {
            multi_digit_pattern(a)
        }
    } else {
        (Domain::CoreArithmetic, PatternType::SingleDigitAddition)
    }
}

/// Further patterns: order of operations for nested operations, commutative
/// rewriting for additions and multiplications, distribution for `a * (b + c)`.
pub open spec fn secondary_of(a: AstView) -> Seq<PatternType> {
    (if multiple_ops(a) {
        seq![PatternType::OrderOfOperations]
    } else {
        Seq::empty()
    }) + (if commutable_in(a) {
        seq![PatternType::CommutativeApplication]
    } else {
        Seq::empty()
    }) + (if distributable(a) {
        seq![PatternType::DistributiveExpansion]
    } else {
        Seq::empty()
    })
}

/// The arithmetic operation a pattern names, for the patterns of single- and
/// multi-digit arithmetic.
pub open spec fn pattern_operation(p: PatternType) -> Option<BinaryOperator> {
    match p {
        PatternType::SingleDigitAddition => Some(BinaryOperator::Add),
        PatternType::MultiDigitAddition => Some(BinaryOperator::Add),
        PatternType::SingleDigitSubtraction => Some(BinaryOperator::Subtract),
        PatternType::MultiDigitSubtraction => Some(BinaryOperator::Subtract),
        PatternType::SingleDigitMultiplication => Some(BinaryOperator::Multiply),
        PatternType::MultiDigitMultiplication => Some(BinaryOperator::Multiply),
        PatternType::SingleDigitDivision => Some(BinaryOperator::Divide),
        PatternType::MultiDigitDivision => Some(BinaryOperator::Divide),
        _ => None,
    }
}

/// A sum, difference or product of two numbers is classified by a pattern
/// that names that very operation: `7 - 3` is a subtraction, never an addition.
pub proof fn law_operation_pattern(op: BinaryOperator, x: (Seq<u8>, Seq<u8>), y: (Seq<u8>, Seq<u8>))
    requires
        op == BinaryOperator::Add || op == BinaryOperator::Subtract || op == BinaryOperator::Multiply,
    ensures
        pattern_operation(
            pattern_of(
                AstView::BinaryOp {
                    op,
                    left: Box::new(AstView::Number(x)),
                    right: Box::new(AstView::Number(y)),
                },
            ).1,
        ) == Some(op),
{
    let l = AstView::Number(x);
    let r = AstView::Number(y);
    let a = AstView::BinaryOp { op, left: Box::new(l), right: Box::new(r) };
    assert(funcs_of(l) =~= Set::<Seq<char>>::empty());
    assert(funcs_of(r) =~= Set::<Seq<char>>::empty());
    assert(funcs_of(a) =~= Set::<Seq<char>>::empty());
    assert(!abs_in(l));
    assert(!abs_in(r));
    assert(!abs_in(a));
    assert(!modulo_in(l));
    assert(!modulo_in(r));
    assert(!modulo_in(a));
    assert(!has_vars(l));
    assert(!has_vars(r));
    assert(!has_vars(a));
    assert(purely_numeric(l));
    assert(purely_numeric(r));
    assert(purely_numeric(a));
    assert(!power_in(l));
    assert(!power_in(r));
    assert(!power_in(a));
    assert(!fractions_in(l));
    assert(!fractions_in(r));
    assert(!fractions_in(a));
}

/// The classification of a sum, difference or product of two numbers names
/// that operation as its pattern.
pub proof fn law_classification_names_operation(a: AstView, c: PatternClassification)
    requires
        classification_of(a, c),
        a matches AstView::BinaryOp { op, left, right } && (op == BinaryOperator::Add || op
            == BinaryOperator::Subtract || op == BinaryOperator::Multiply) && *left is Number && *right is Number,
    ensures
        pattern_operation(c.pattern_type) == Some(a->BinaryOp_op),
{
    if let AstView::BinaryOp { op, left, right } = a {
        law_operation_pattern(op, left->Number_0, right->Number_0);
        assert(a == AstView::BinaryOp {
            op,
            left: Box::new(AstView::Number(left->Number_0)),
            right: Box::new(AstView::Number(right->Number_0)),
        });
    }
}

/// `c` is the classification of the expression `a`.
pub open spec fn classification_of(a: AstView, c: PatternClassification) -> bool {
    &&& (c.domain, c.pattern_type) == pattern_of(a)
    &&& c.secondary_patterns@ == secondary_of(a)
    &&& c.has_variables == has_vars(a)
    &&& c.is_equation == (a is Equation)
    &&& c.is_inequality == (a is Inequality)
    &&& sorted_unique(string_views(c.variables@))
    &&& name_set(c.variables@) == vars_of(a)
    &&& c.max_variable_degree == max_deg(a)
    &&& sorted_unique(string_views(c.functions_used@))
    &&& name_set(c.functions_used@) == funcs_of(a)
}

// ============================================================================
// PATTERN DETERMINATION
// ============================================================================

/// Whether the list holds the name.
fn has_name(v: &Vec<String>, name: &str) -> (b: bool)
    ensures
        b == name_set(v@).contains(name@),
{
    let mut i: usize = 0;
    while i < v.len()
        invariant
            i <= v@.len(),
            forall|k: int| 0 <= k < i ==> (#[trigger] v@[k])@ != name@,
        decreases v@.len() - i,
    {
        if str_eq(v[i].as_str(), name) {
            assert(string_views(v@)[i as int] == name@);
            return true;
        }
        i = i + 1;
    }
    proof {
        if name_set(v@).contains(name@) {
            let k = choose|k: int| 0 <= k < string_views(v@).len() && string_views(v@)[k] == name@;
            assert(v@[k]@ == name@);
        }
    }
    false
}

/// Whether a name is a trigonometric function.
fn trig_name_test(f: &str) -> (b: bool)
    ensures
        b == is_trig_name(f@),
{
    str_eq(f, "sin") || str_eq(f, "cos") || str_eq(f, "tan") || str_eq(f, "asin") || str_eq(f, "acos")
        || str_eq(f, "atan") || str_eq(f, "sinh") || str_eq(f, "cosh") || str_eq(f, "tanh")
}

/// Whether the list holds a trigonometric function name.
fn any_trig(v: &Vec<String>) -> (b: bool)
    ensures
        b == exists|f: Seq<char>| name_set(v@).contains(f) && #[trigger] is_trig_name(f),
{
    let mut i: usize = 0;
    while i < v.len()
        invariant
            i <= v@.len(),
            forall|k: int| 0 <= k < i ==> !is_trig_name(#[trigger] v@[k]@),
        decreases v@.len() - i,
    {
        if trig_name_test(v[i].as_str()) {
            assert(string_views(v@)[i as int] == v@[i as int]@);
            assert(name_set(v@).contains(v@[i as int]@));
            return true;
        }
        i = i + 1;
    }
    proof {
        assert forall|f: Seq<char>| name_set(v@).contains(f) implies !#[trigger] is_trig_name(f) by {
            let k = choose|k: int| 0 <= k < string_views(v@).len() && string_views(v@)[k] == f;
            assert(v@[k]@ == f);
        }
    }
    false
}

/// Whether the list holds a name beginning with `a`.
fn any_begins_with_a(v: &Vec<String>) -> (b: bool)
    ensures
        b == exists|f: Seq<char>| name_set(v@).contains(f) && #[trigger] begins_with(f, "a"@),
{
    let mut i: usize = 0;
    while i < v.len()
        invariant
            i <= v@.len(),
            forall|k: int| 0 <= k < i ==> !begins_with(#[trigger] v@[k]@, "a"@),
        decreases v@.len() - i,
    {
        if starts_with(v[i].as_str(), "a") {
            assert(begins_with(v@[i as int]@, "a"@));
            assert(string_views(v@)[i as int] == v@[i as int]@);
            assert(name_set(v@).contains(v@[i as int]@));
            return true;
        }
        i = i + 1;
    }
    proof {
        assert forall|f: Seq<char>| name_set(v@).contains(f) implies !#[trigger] begins_with(f, "a"@) by {
            let k = choose|k: int| 0 <= k < string_views(v@).len() && string_views(v@)[k] == f;
            assert(v@[k]@ == f);
        }
    }
    false
}

/// The pattern of a single-digit arithmetic expression.
fn classify_single_digit_operation(ast: &AstNode) -> (r: (Domain, PatternType))
    ensures
        r == single_digit_pattern(ast@),
{
    match ast {
        AstNode::BinaryOp { op, .. } => match op {
            BinaryOperator::Add => (Domain::CoreArithmetic, PatternType::SingleDigitAddition),
            BinaryOperator::Subtract => (Domain::CoreArithmetic, PatternType::SingleDigitSubtraction),
            BinaryOperator::Multiply => (Domain::CoreArithmetic, PatternType::SingleDigitMultiplication),
            BinaryOperator::Divide => (Domain::CoreArithmetic, PatternType::SingleDigitDivision),
            BinaryOperator::Power => (Domain::PreAlgebra, PatternType::ExponentEvaluation),
            BinaryOperator::Modulo => (Domain::AbstractApplied, PatternType::ModularArithmetic),
        },
        AstNode::UnaryOp { op, .. } => match op {
            UnaryOperator::Negate => (Domain::CoreArithmetic, PatternType::SingleDigitSubtraction),
            UnaryOperator::Factorial => (Domain::AbstractApplied, PatternType::Permutation),
            UnaryOperator::AbsoluteValue => (Domain::PreAlgebra, PatternType::AbsoluteValue),
        },
        _ => (Domain::CoreArithmetic, PatternType::SingleDigitAddition),
    }
}

/// The pattern of a multi-digit arithmetic expression.
fn classify_multi_digit_operation(ast: &AstNode) -> (r: (Domain, PatternType))
    ensures
        r == multi_digit_pattern(ast@),
{
    match ast {
        AstNode::BinaryOp { op, .. } => match op {
            BinaryOperator::Add => (Domain::ExtendedArithmetic, PatternType::MultiDigitAddition),
            BinaryOperator::Subtract => (Domain::ExtendedArithmetic, PatternType::MultiDigitSubtraction),
            BinaryOperator::Multiply => (Domain::ExtendedArithmetic, PatternType::MultiDigitMultiplication),
            BinaryOperator::Divide => (Domain::ExtendedArithmetic, PatternType::MultiDigitDivision),
            BinaryOperator::Power => (Domain::PreAlgebra, PatternType::ExponentEvaluation),
            BinaryOperator::Modulo => (Domain::AbstractApplied, PatternType::ModularArithmetic),
        },
        _ => (Domain::ExtendedArithmetic, PatternType::MultiDigitAddition),
    }
}

/// Whether the node is a division.
fn is_division_node(a: &AstNode) -> (b: bool)
    ensures
        b == is_division(a@),
{
    match a {
        AstNode::BinaryOp { op, .. } => *op == BinaryOperator::Divide,
        _ => false,
    }
}

/// The pattern of an expression with fractions.
fn classify_fraction_operation(ast: &AstNode) -> (r: (Domain, PatternType))
    ensures
        r == fraction_pattern(ast@),
{
    match ast {
        AstNode::BinaryOp { op, left, right } => {
            let left_is_frac = is_division_node(left);
            let right_is_frac = is_division_node(right);
            if left_is_frac || right_is_frac {
                match op {
                    BinaryOperator::Add => {
                        return (Domain::PreAlgebra, PatternType::FractionAddition);
                    },
                    BinaryOperator::Subtract => {
                        return (Domain::PreAlgebra, PatternType::FractionSubtraction);
                    },
                    BinaryOperator::Multiply => {
                        return (Domain::PreAlgebra, PatternType::FractionMultiplication);
                    },
                    BinaryOperator::Divide => {
                        return (Domain::PreAlgebra, PatternType::FractionDivision);
                    },
                    _ => {},
                }
            }
            if *op == BinaryOperator::Divide {
                return (Domain::PreAlgebra, PatternType::FractionSimplification);
            }
            (Domain::PreAlgebra, PatternType::FractionAddition)
        },
        _ => (Domain::PreAlgebra, PatternType::FractionSimplification),
    }
}

/// The domain and primary pattern of an expression, from its analysis.
fn determine_pattern(
    ast: &AstNode,
    has_variables: bool,
    is_equation: bool,
    is_inequality: bool,
    max_degree: u32,
    functions: &Vec<String>,
) -> (r: (Domain, PatternType))
    requires
        has_variables == has_vars(ast@),
        is_equation == (ast@ is Equation),
        is_inequality == (ast@ is Inequality),
        max_degree == max_deg(ast@),
        name_set(functions@) == funcs_of(ast@),
    ensures
        r == pattern_of(ast@),
{
    if any_trig(functions) {
        let pattern = if has_name(functions, "sin") || has_name(functions, "cos") || has_name(functions, "tan") {
            PatternType::TrigEvaluation
        } else if any_begins_with_a(functions) {
            PatternType::InverseTrig
        } else {
            PatternType::TrigEvaluation
        };
        return (Domain::Trigonometry, pattern);
    }
    if has_name(functions, "log") || has_name(functions, "ln") {
        return (Domain::AdvancedAlgebra, PatternType::Logarithm);
    }
    if has_name(functions, "sqrt") {
        return (Domain::PreAlgebra, PatternType::SquareRoot);
    }
    if has_name(functions, "cbrt") {
        return (Domain::PreAlgebra, PatternType::NthRoot);
    }
    if has_name(functions, "abs") || has_absolute_value(ast) {
        return (Domain::PreAlgebra, PatternType::AbsoluteValue);
    }
    if has_name(functions, "gcd") {
        return (Domain::PreAlgebra, PatternType::GCD);
    }
    if has_name(functions, "lcm") {
        return (Domain::PreAlgebra, PatternType::LCM);
    }
    if has_name(functions, "mod") || has_modulo(ast) {
        return (Domain::AbstractApplied, PatternType::ModularArithmetic);
    }
    if is_inequality {
        return (Domain::Algebra, PatternType::LinearInequalitySolve);
    }
    if has_variables {
        if is_equation {
            if max_degree == 1 {
                return (Domain::Algebra, PatternType::LinearEquationSolve);
            } else if max_degree == 2 {
                return (Domain::Algebra, PatternType::QuadraticEquationSolve);
            }
            return (Domain::Algebra, PatternType::LinearEquationSolve);
        }
        if has_like_terms(ast) {
            return (Domain::Algebra, PatternType::LikeTermsCombination);
        }
        if has_power_on_variable(ast) {
            if max_degree == 2 {
                return (Domain::Algebra, PatternType::PolynomialMultiplication);
            }
            return (Domain::PreAlgebra, PatternType::ExponentEvaluation);
        }
        return (Domain::Algebra, PatternType::VariableSubstitution);
    }
    if is_purely_numeric(ast) {
        if has_exponentiation(ast) {
            return (Domain::PreAlgebra, PatternType::ExponentEvaluation);
        }
        if involves_fractions(ast) {
            return classify_fraction_operation(ast);
        }
        if all_single_digit(ast) {
            return classify_single_digit_operation(ast);
        }
        return classify_multi_digit_operation(ast);
    }
    (Domain::CoreArithmetic, PatternType::SingleDigitAddition)
}

/// Further patterns that may also apply.
fn determine_secondary_patterns(ast: &AstNode) -> (r: Vec<PatternType>)
    ensures
        r@ == secondary_of(ast@),
{
    let mut secondary: Vec<PatternType> = Vec::new();
    let m = has_multiple_operations(ast);
    if m {
        secondary.push(PatternType::OrderOfOperations);
    }
    let ghost s1 = secondary@;
    let c = has_commutable_operations(ast);
    if c {
        secondary.push(PatternType::CommutativeApplication);
    }
    let ghost s2 = secondary@;
    let d = has_distributable_form(ast);
    if d {
        secondary.push(PatternType::DistributiveExpansion);
    }
    proof {
        let e = Seq::<PatternType>::empty();
        assert(s1 =~= (if m { seq![PatternType::OrderOfOperations] } else { e }));
        assert(s2 =~= s1 + (if c { seq![PatternType::CommutativeApplication] } else { e }));
        assert(secondary@ =~= s2 + (if d { seq![PatternType::DistributiveExpansion] } else { e }));
    }
    secondary
}

/// Classifies a parsed expression: its domain and primary pattern, further
/// patterns, whether it has variables or is an equation or inequality, its
/// variables and functions (sorted, each once) and the highest exponent on a
/// variable.
pub fn classify(ast: &AstNode) -> (c: PatternClassification)
    ensures
        classification_of(ast@, c),
{
    let has_variables = contains_variables(ast);
    let is_equation = match ast {
        AstNode::Equation { .. } => true,
        _ => false,
    };
    let is_inequality = match ast {
        AstNode::Inequality { .. } => true,
        _ => false,
    };
    let variables = collect_variables(ast);
    let max_degree = max_variable_degree(ast);
    let functions = collect_functions(ast);
    let (domain, primary_pattern) = determine_pattern(
        ast,
        has_variables,
        is_equation,
        is_inequality,
        max_degree,
        &functions,
    );
    let secondary = determine_secondary_patterns(ast);
    PatternClassification {
        domain,
        pattern_type: primary_pattern,
        secondary_patterns: secondary,
        has_variables,
        is_equation,
        is_inequality,
        variables,
        max_variable_degree: max_degree,
        functions_used: functions,
    }
}

} // verus!
