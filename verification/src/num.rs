//! Numbers as the predicate evaluator sees them: a numeral is parsed into
//! a normalized decimal form (or an infinity, or not-a-number), and two
//! such forms are compared exactly.
//!
//! A finite non-zero number is kept as `±0.d₁d₂…dₙ × 10^exponent`, where
//! the digit string has no leading and no trailing zero.  That form is
//! unique for each value, so equality of values is equality of forms, and
//! ordering is sign, then exponent, then digit order.

use vstd::prelude::*;

verus! {

/// A parsed numeric value.
#[derive(Debug, PartialEq)]
pub enum NumericValue {
    /// Not a number: no comparison with it holds, not even equality.
    Nan,
    /// Negative infinity: below every other value.
    NegInfinity,
    /// Positive infinity: above every other value.
    PosInfinity,
    /// Zero; a negative zero is collapsed into this.
    Zero,
    /// `±0.digits × 10^exponent`, with digits in `'0'..='9'`, the first
    /// and the last digit not `'0'`.
    Decimal { negative: bool, digits: Vec<char>, exponent: i128 },
}

/// The mathematical content of a `NumericValue`.
pub enum NumView {
    Nan,
    NegInfinity,
    PosInfinity,
    Zero,
    Decimal { negative: bool, digits: Seq<char>, exponent: int },
}

impl View for NumericValue {
    type V = NumView;

    open spec fn view(&self) -> NumView {
        match self {
            NumericValue::Nan => NumView::Nan,
            NumericValue::NegInfinity => NumView::NegInfinity,
            NumericValue::PosInfinity => NumView::PosInfinity,
            NumericValue::Zero => NumView::Zero,
            NumericValue::Decimal { negative, digits, exponent } => NumView::Decimal {
                negative: *negative,
                digits: digits@,
                exponent: *exponent as int,
            },
        }
    }
}

pub open spec fn is_digit(c: char) -> bool {
    '0' <= c && c <= '9'
}

/// A normalized decimal digit string: non-empty, all digits, and neither
/// starting nor ending in a zero.
pub open spec fn normalized_digits(d: Seq<char>) -> bool {
    &&& d.len() > 0
    &&& forall|i: int| 0 <= i < d.len() ==> is_digit(#[trigger] d[i])
    &&& d[0] != '0'
    &&& d[d.len() - 1] != '0'
}

/// A well-formed parsed value.
pub open spec fn num_wf(v: NumView) -> bool {
    match v {
        NumView::Decimal { negative, digits, exponent } => normalized_digits(digits),
        _ => true,
    }
}

/// Digit-string order: the order of the values `0.x` and `0.y` for two
/// normalized digit strings `x` and `y`.
pub open spec fn lex_lt(x: Seq<char>, y: Seq<char>) -> bool
    decreases x.len(),
{
    if y.len() == 0 {
        false
    } else if x.len() == 0 {
        true
    } else if x[0] != y[0] {
        x[0] < y[0]
    } else {
        lex_lt(x.drop_first(), y.drop_first())
    }
}

/// Magnitude order of two positive decimals.
pub open spec fn magnitude_lt(dx: Seq<char>, ex: int, dy: Seq<char>, ey: int) -> bool {
    ex < ey || (ex == ey && lex_lt(dx, dy))
}

/// Exact equality of two parsed values.  As for doubles, nothing equals
/// not-a-number, not even itself.
pub open spec fn num_eq(a: NumView, b: NumView) -> bool {
    match (a, b) {
        (NumView::NegInfinity, NumView::NegInfinity) => true,
        (NumView::PosInfinity, NumView::PosInfinity) => true,
        (NumView::Zero, NumView::Zero) => true,
        (
            NumView::Decimal { negative: nx, digits: dx, exponent: ex },
            NumView::Decimal { negative: ny, digits: dy, exponent: ey },
        ) => nx == ny && dx == dy && ex == ey,
        _ => false,
    }
}

/// Exact order of two parsed values.  As for doubles, no order relation
/// holds of not-a-number.
pub open spec fn num_lt(a: NumView, b: NumView) -> bool {
    match (a, b) {
        (NumView::Nan, _) => false,
        (_, NumView::Nan) => false,
        (NumView::NegInfinity, NumView::NegInfinity) => false,
        (NumView::NegInfinity, _) => true,
        (_, NumView::NegInfinity) => false,
        (NumView::PosInfinity, _) => false,
        (_, NumView::PosInfinity) => true,
        (NumView::Zero, NumView::Zero) => false,
        (NumView::Zero, NumView::Decimal { negative, .. }) => !negative,
        (NumView::Decimal { negative, .. }, NumView::Zero) => negative,
        (
            NumView::Decimal { negative: nx, digits: dx, exponent: ex },
            NumView::Decimal { negative: ny, digits: dy, exponent: ey },
        ) => {
            if nx != ny {
                nx
            } else if nx {
                magnitude_lt(dy, ey, dx, ex)
            } else {
                magnitude_lt(dx, ex, dy, ey)
            }
        },
    }
}

impl NumericValue {
    /// Exact equality test.
    pub fn eq_value(&self, other: &NumericValue) -> (r: bool)
        ensures
            r == num_eq(self@, other@),
    {
        match (self, other) {
            (NumericValue::NegInfinity, NumericValue::NegInfinity) => true,
            (NumericValue::PosInfinity, NumericValue::PosInfinity) => true,
            (NumericValue::Zero, NumericValue::Zero) => true,
            (
                NumericValue::Decimal { negative: nx, digits: dx, exponent: ex },
                NumericValue::Decimal { negative: ny, digits: dy, exponent: ey },
            ) => *nx == *ny && *ex == *ey && eq_digits(dx, dy),
            _ => false,
        }
    }

    /// A copy with the same content.
    pub fn dup(&self) -> (r: NumericValue)
        ensures
            r@ == self@,
    {
        match self {
            NumericValue::Nan => NumericValue::Nan,
            NumericValue::NegInfinity => NumericValue::NegInfinity,
            NumericValue::PosInfinity => NumericValue::PosInfinity,
            NumericValue::Zero => NumericValue::Zero,
            NumericValue::Decimal { negative, digits, exponent } => {
                let copied = digits.clone();
                assert(copied@ =~= digits@);
                NumericValue::Decimal { negative: *negative, digits: copied, exponent: *exponent }
            },
        }
    }

    /// Exact order test.
    pub fn lt_value(&self, other: &NumericValue) -> (r: bool)
        ensures
            r == num_lt(self@, other@),
    {
        match (self, other) {
            (NumericValue::Nan, _) => false,
            (_, NumericValue::Nan) => false,
            (NumericValue::NegInfinity, NumericValue::NegInfinity) => false,
            (NumericValue::NegInfinity, _) => true,
            (_, NumericValue::NegInfinity) => false,
            (NumericValue::PosInfinity, _) => false,
            (_, NumericValue::PosInfinity) => true,
            (NumericValue::Zero, NumericValue::Zero) => false,
            (NumericValue::Zero, NumericValue::Decimal { negative, .. }) => !*negative,
            (NumericValue::Decimal { negative, .. }, NumericValue::Zero) => *negative,
            (
                NumericValue::Decimal { negative: nx, digits: dx, exponent: ex },
                NumericValue::Decimal { negative: ny, digits: dy, exponent: ey },
            ) => {
                if *nx != *ny {
                    *nx
                } else if *nx {
                    magnitude_lt_exec(dy, *ey, dx, *ex)
                } else {
                    magnitude_lt_exec(dx, *ex, dy, *ey)
                }
            },
        }
    }
}

fn eq_digits(x: &Vec<char>, y: &Vec<char>) -> (r: bool)
    ensures
        r == (x@ == y@),
{
    if x.len() != y.len() {
        return false;
    }
    let mut i: usize = 0;
    while i < x.len()
        invariant
            x@.len() == y@.len(),
            i <= x@.len(),
            forall|j: int| 0 <= j < i ==> x@[j] == y@[j],
        decreases x@.len() - i,
    {
        if x[i] != y[i] {
            return false;
        }
        i = i + 1;
    }
    proof {
        assert(x@ =~= y@);
    }
    true
}

fn lex_lt_exec(x: &Vec<char>, y: &Vec<char>) -> (r: bool)
    ensures
        r == lex_lt(x@, y@),
{
    let n = if x.len() < y.len() {
        x.len()
    } else {
        y.len()
    };
    proof {
        assert(x@.skip(0) =~= x@);
        assert(y@.skip(0) =~= y@);
    }
    let mut i: usize = 0;
    while i < n
        invariant
            n <= x@.len(),
            n <= y@.len(),
            n == if x@.len() < y@.len() {
                x@.len()
            } else {
                y@.len()
            },
            i <= n,
            lex_lt(x@, y@) == lex_lt(x@.skip(i as int), y@.skip(i as int)),
        decreases n - i,
    {
        let cx = x[i];
        let cy = y[i];
        proof {
            assert(x@.skip(i as int)[0] == x@[i as int]);
            assert(y@.skip(i as int)[0] == y@[i as int]);
            assert(x@.skip(i as int).drop_first() =~= x@.skip(i + 1));
            assert(y@.skip(i as int).drop_first() =~= y@.skip(i + 1));
        }
        if cx != cy {
            return cx < cy;
        }
        i = i + 1;
    }
    proof {
        assert(x@.skip(n as int).len() == x@.len() - n);
        assert(y@.skip(n as int).len() == y@.len() - n);
    }
    x.len() < y.len()
}

fn magnitude_lt_exec(dx: &Vec<char>, ex: i128, dy: &Vec<char>, ey: i128) -> (r: bool)
    ensures
        r == magnitude_lt(dx@, ex as int, dy@, ey as int),
{
    if ex < ey {
        true
    } else if ex > ey {
        false
    } else {
        lex_lt_exec(dx, dy)
    }
}

// ---------------------------------------------------------------------
// The numeral grammar: sign, then one of the words "inf", "infinity",
// "nan" (in any letter case), or digits with an optional decimal point
// and an optional decimal exponent.
// ---------------------------------------------------------------------

pub open spec fn all_digits(s: Seq<char>) -> bool {
    forall|i: int| 0 <= i < s.len() ==> is_digit(#[trigger] s[i])
}

/// Splits a leading `+` or `-` off; the flag says whether it was `-`.
pub open spec fn sign_split(s: Seq<char>) -> (bool, Seq<char>) {
    if s.len() > 0 && (s[0] == '+' || s[0] == '-') {
        (s[0] == '-', s.drop_first())
    } else {
        (false, s)
    }
}

/// The upper-case partner of the lower-case letters the words use.
pub open spec fn upper_of(c: char) -> char {
    if c == 'i' {
        'I'
    } else if c == 'n' {
        'N'
    } else if c == 'f' {
        'F'
    } else if c == 't' {
        'T'
    } else if c == 'y' {
        'Y'
    } else if c == 'a' {
        'A'
    } else {
        c
    }
}

pub open spec fn char_eq_ci(a: char, b: char) -> bool {
    a == b || a == upper_of(b)
}

/// `s` spells the lower-case word `w`, in any letter case.
pub open spec fn matches_ci(s: Seq<char>, w: Seq<char>) -> bool {
    s.len() == w.len() && forall|i: int| 0 <= i < s.len() ==> char_eq_ci(#[trigger] s[i], w[i])
}

pub open spec fn inf_word() -> Seq<char> {
    seq!['i', 'n', 'f']
}

pub open spec fn infinity_word() -> Seq<char> {
    seq!['i', 'n', 'f', 'i', 'n', 'i', 't', 'y']
}

pub open spec fn nan_word() -> Seq<char> {
    seq!['n', 'a', 'n']
}

/// The first position at or after `from` holding `a` or `b`.
pub open spec fn first_at_from(s: Seq<char>, a: char, b: char, from: int) -> Option<int>
    decreases s.len() - from,
{
    if from < 0 || from >= s.len() {
        None
    } else if s[from] == a || s[from] == b {
        Some(from)
    } else {
        first_at_from(s, a, b, from + 1)
    }
}

/// What `first_at_from` returns holds `a` or `b`, and nothing before it does.
proof fn lemma_first_at_facts(s: Seq<char>, a: char, b: char, from: int)
    requires
        0 <= from,
    ensures
        match first_at_from(s, a, b, from) {
            Some(i) => from <= i < s.len() && (s[i] == a || s[i] == b) && forall|j: int|
                from <= j < i ==> s[j] != a && s[j] != b,
            None => forall|j: int| from <= j < s.len() ==> s[j] != a && s[j] != b,
        },
    decreases s.len() - from,
{
    if from < s.len() && s[from] != a && s[from] != b {
        lemma_first_at_facts(s, a, b, from + 1);
    }
}

/// The digits of a mantissa: everything around the decimal point, if one
/// is there.
pub open spec fn mantissa_digits(m: Seq<char>) -> Seq<char> {
    match first_at_from(m, '.', '.', 0) {
        None => m,
        Some(i) => m.take(i) + m.skip(i + 1),
    }
}

/// How many of the mantissa's digits stand before the decimal point.
pub open spec fn mantissa_intlen(m: Seq<char>) -> int {
    match first_at_from(m, '.', '.', 0) {
        None => m.len() as int,
        Some(i) => i,
    }
}

/// A well-formed mantissa: digits with at most one decimal point, and at
/// least one digit.
pub open spec fn mantissa_ok(m: Seq<char>) -> bool {
    match first_at_from(m, '.', '.', 0) {
        None => m.len() > 0 && all_digits(m),
        Some(i) => m.len() >= 2 && all_digits(m.take(i)) && all_digits(m.skip(i + 1)),
    }
}

/// The value of a digit string, most significant digit first.
pub open spec fn digits_value(s: Seq<char>) -> int
    decreases s.len(),
{
    if s.len() == 0 {
        0
    } else {
        10 * digits_value(s.drop_last()) + digit_val(s.last())
    }
}

pub open spec fn digit_val(c: char) -> int {
    if c == '0' { 0 }
    else if c == '1' { 1 }
    else if c == '2' { 2 }
    else if c == '3' { 3 }
    else if c == '4' { 4 }
    else if c == '5' { 5 }
    else if c == '6' { 6 }
    else if c == '7' { 7 }
    else if c == '8' { 8 }
    else { 9 }
}

pub open spec fn pow10(n: nat) -> int
    decreases n,
{
    if n == 0 {
        1
    } else {
        10 * pow10((n - 1) as nat)
    }
}

proof fn lemma_digits_value_bound(s: Seq<char>)
    ensures
        0 <= digits_value(s) < pow10(s.len()),
    decreases s.len(),
{
    if s.len() > 0 {
        lemma_digits_value_bound(s.drop_last());
    }
}

/// How many zeros the digit string starts with.
pub open spec fn leading_zeros(s: Seq<char>) -> int
    decreases s.len(),
{
    if s.len() > 0 && s[0] == '0' {
        1 + leading_zeros(s.drop_first())
    } else {
        0
    }
}

/// How many zeros the digit string ends in.
pub open spec fn trailing_zeros(s: Seq<char>) -> int
    decreases s.len(),
{
    if s.len() > 0 && s[s.len() - 1] == '0' {
        1 + trailing_zeros(s.drop_last())
    } else {
        0
    }
}

proof fn lemma_leading_zeros_facts(s: Seq<char>)
    ensures
        0 <= leading_zeros(s) <= s.len(),
        forall|j: int| 0 <= j < leading_zeros(s) ==> s[j] == '0',
        leading_zeros(s) < s.len() ==> s[leading_zeros(s)] != '0',
    decreases s.len(),
{
    if s.len() > 0 && s[0] == '0' {
        lemma_leading_zeros_facts(s.drop_first());
        assert forall|j: int| 0 <= j < leading_zeros(s) implies s[j] == '0' by {
            if j >= 1 {
                assert(s.drop_first()[j - 1] == s[j]);
            }
        }
    }
}

proof fn lemma_trailing_zeros_facts(s: Seq<char>)
    ensures
        0 <= trailing_zeros(s) <= s.len(),
        forall|j: int| s.len() - trailing_zeros(s) <= j < s.len() ==> s[j] == '0',
        trailing_zeros(s) < s.len() ==> s[s.len() - 1 - trailing_zeros(s)] != '0',
    decreases s.len(),
{
    if s.len() > 0 && s[s.len() - 1] == '0' {
        lemma_trailing_zeros_facts(s.drop_last());
        assert(forall|j: int| 0 <= j < s.len() - 1 ==> s.drop_last()[j] == s[j]);
    }
}

/// Exponents beyond this magnitude are clamped; every value a JSON
/// document can carry lies far inside the limit, so the clamp never
/// changes how a term compares against a document value.
pub open spec fn exp_limit() -> int {
    100000000000000000
}

/// A well-formed exponent part: an optional sign, then digits.
pub open spec fn exp_ok(es: Seq<char>) -> bool {
    {
        let (neg, ds) = sign_split(es);
        ds.len() > 0 && all_digits(ds)
    }
}

/// The value of an exponent part, clamped at the limit.
pub open spec fn exp_value(es: Seq<char>) -> int {
    {
        let (neg, ds) = sign_split(es);
        let stripped = ds.skip(leading_zeros(ds));
        let mag = if stripped.len() > 17 {
            exp_limit()
        } else {
            digits_value(stripped)
        };
        if neg {
            -mag
        } else {
            mag
        }
    }
}

/// Builds the normalized form of `±0.d × 10^e`: leading zeros move into
/// the exponent, trailing zeros vanish, and no digits at all mean zero.
pub open spec fn make_decimal(neg: bool, d: Seq<char>, e: int) -> NumView {
    {
        let lead = leading_zeros(d);
        let d1 = d.skip(lead);
        if d1.len() == 0 {
            NumView::Zero
        } else {
            NumView::Decimal {
                negative: neg,
                digits: d1.take(d1.len() - trailing_zeros(d1)),
                exponent: e - lead,
            }
        }
    }
}

/// The value a numeral denotes, if it denotes one.
pub open spec fn spec_parse_numeral(s: Seq<char>) -> Option<NumView> {
    {
        let (neg, body) = sign_split(s);
        if matches_ci(body, inf_word()) || matches_ci(body, infinity_word()) {
            Some(
                if neg {
                    NumView::NegInfinity
                } else {
                    NumView::PosInfinity
                },
            )
        } else if matches_ci(body, nan_word()) {
            Some(NumView::Nan)
        } else {
            match first_at_from(body, 'e', 'E', 0) {
                None => if mantissa_ok(body) {
                    Some(make_decimal(neg, mantissa_digits(body), mantissa_intlen(body)))
                } else {
                    None
                },
                Some(ei) => {
                    let m = body.take(ei);
                    let es = body.skip(ei + 1);
                    if mantissa_ok(m) && exp_ok(es) {
                        Some(
                            make_decimal(
                                neg,
                                mantissa_digits(m),
                                mantissa_intlen(m) + exp_value(es),
                            ),
                        )
                    } else {
                        None
                    }
                },
            }
        }
    }
}

proof fn lemma_pow10_mono(a: nat, b: nat)
    requires
        a <= b,
    ensures
        pow10(a) <= pow10(b),
    decreases b,
{
    if a < b {
        lemma_pow10_mono(a, (b - 1) as nat);
        lemma_digits_value_bound(seq![]);
        assert(pow10(b) == 10 * pow10((b - 1) as nat));
        assert(pow10(a) >= 1) by {
            lemma_pow10_positive(a);
        }
    }
}

proof fn lemma_pow10_positive(n: nat)
    ensures
        pow10(n) >= 1,
    decreases n,
{
    if n > 0 {
        lemma_pow10_positive((n - 1) as nat);
    }
}

/// The normalized form is well formed whenever the raw digits are digits.
proof fn lemma_make_decimal_wf(neg: bool, d: Seq<char>, e: int)
    requires
        all_digits(d),
    ensures
        num_wf(make_decimal(neg, d, e)),
{
    lemma_leading_zeros_facts(d);
    let lead = leading_zeros(d);
    let d1 = d.skip(lead);
    if d1.len() > 0 {
        lemma_trailing_zeros_facts(d1);
        assert(d1[0] == d[lead]);
        assert(d1[0] != '0');
        let keep = d1.len() - trailing_zeros(d1);
        assert(trailing_zeros(d1) < d1.len());
        let d2 = d1.take(keep);
        assert(d2[0] == d1[0]);
        assert(d2[d2.len() - 1] == d1[d1.len() - 1 - trailing_zeros(d1)]);
        assert(forall|i: int| 0 <= i < d2.len() ==> d2[i] == d[lead + i] && is_digit(d[lead + i]));
    }
}

// ---------------------------------------------------------------------
// The executable numeral parser.
// ---------------------------------------------------------------------

/// Copies `v[from..to]` into a vector of its own.
fn sub_vec(v: &Vec<char>, from: usize, to: usize) -> (out: Vec<char>)
    requires
        from <= to <= v@.len(),
    ensures
        out@ == v@.subrange(from as int, to as int),
{
    let mut out: Vec<char> = Vec::new();
    let mut i: usize = from;
    while i < to
        invariant
            from <= i <= to,
            to <= v@.len(),
            out@ == v@.subrange(from as int, i as int),
        decreases to - i,
    {
        out.push(v[i]);
        assert(out@ =~= v@.subrange(from as int, i + 1));
        i = i + 1;
    }
    out
}

fn all_digits_exec(v: &Vec<char>) -> (b: bool)
    ensures
        b == all_digits(v@),
{
    let mut i: usize = 0;
    while i < v.len()
        invariant
            i <= v@.len(),
            forall|j: int| 0 <= j < i ==> is_digit(#[trigger] v@[j]),
        decreases v@.len() - i,
    {
        let c = v[i];
        if c < '0' || c > '9' {
            return false;
        }
        i = i + 1;
    }
    true
}

fn find_at(v: &Vec<char>, a: char, b: char, from: usize) -> (r: Option<usize>)
    ensures
        match r {
            Some(i) => Some(i as int) == first_at_from(v@, a, b, from as int) && from <= i
                < v@.len(),
            None => first_at_from(v@, a, b, from as int) is None,
        },
{
    let mut i: usize = from;
    while i < v.len()
        invariant
            from <= i,
            first_at_from(v@, a, b, from as int) == first_at_from(v@, a, b, i as int),
        decreases v@.len() - i,
    {
        let c = v[i];
        if c == a || c == b {
            return Some(i);
        }
        i = i + 1;
    }
    None
}

fn upper_of_exec(c: char) -> (r: char)
    ensures
        r == upper_of(c),
{
    match c {
        'i' => 'I',
        'n' => 'N',
        'f' => 'F',
        't' => 'T',
        'y' => 'Y',
        'a' => 'A',
        _ => c,
    }
}

fn matches_ci_exec(v: &Vec<char>, w: &Vec<char>) -> (b: bool)
    ensures
        b == matches_ci(v@, w@),
{
    if v.len() != w.len() {
        return false;
    }
    let mut i: usize = 0;
    while i < v.len()
        invariant
            v@.len() == w@.len(),
            i <= v@.len(),
            forall|j: int| 0 <= j < i ==> char_eq_ci(#[trigger] v@[j], w@[j]),
        decreases v@.len() - i,
    {
        let c = v[i];
        if !(c == w[i] || c == upper_of_exec(w[i])) {
            return false;
        }
        i = i + 1;
    }
    true
}

fn digit_val_exec(c: char) -> (r: u64)
    requires
        is_digit(c),
    ensures
        r as int == digit_val(c),
        r <= 9,
{
    match c {
        '0' => 0,
        '1' => 1,
        '2' => 2,
        '3' => 3,
        '4' => 4,
        '5' => 5,
        '6' => 6,
        '7' => 7,
        '8' => 8,
        _ => 9,
    }
}

fn digits_value_exec(v: &Vec<char>) -> (r: u64)
    requires
        all_digits(v@),
        v@.len() <= 17,
    ensures
        r as int == digits_value(v@),
{
    proof {
        reveal_with_fuel(pow10, 19);
    }
    let mut acc: u64 = 0;
    let mut i: usize = 0;
    while i < v.len()
        invariant
            all_digits(v@),
            v@.len() <= 17,
            i <= v@.len(),
            acc as int == digits_value(v@.take(i as int)),
            (acc as int) < pow10(i as nat),
        decreases v@.len() - i,
    {
        proof {
            lemma_pow10_mono(i as nat + 1, 18);
            assert(pow10(18) == 1000000000000000000) by {
                reveal_with_fuel(pow10, 19);
            }
            assert(v@.take(i + 1).drop_last() =~= v@.take(i as int));
            assert(v@.take(i + 1).last() == v@[i as int]);
        }
        let d = digit_val_exec(v[i]);
        acc = 10 * acc + d;
        i = i + 1;
    }
    proof {
        assert(v@.take(v@.len() as int) =~= v@);
    }
    acc
}

fn count_leading_zeros(v: &Vec<char>) -> (r: usize)
    ensures
        r as int == leading_zeros(v@),
{
    let mut i: usize = 0;
    while i < v.len()
        invariant
            i <= v@.len(),
            forall|j: int| 0 <= j < i ==> v@[j] == '0',
        decreases v@.len() - i,
    {
        if v[i] != '0' {
            proof {
                lemma_leading_zeros_facts(v@);
            }
            return i;
        }
        i = i + 1;
    }
    proof {
        lemma_leading_zeros_facts(v@);
    }
    i
}

fn count_trailing_zeros(v: &Vec<char>) -> (r: usize)
    ensures
        r as int == trailing_zeros(v@),
{
    let n = v.len();
    let mut k: usize = 0;
    while k < n
        invariant
            n == v@.len(),
            k <= n,
            forall|j: int| n - k <= j < n ==> v@[j] == '0',
        decreases n - k,
    {
        if v[n - 1 - k] != '0' {
            proof {
                lemma_trailing_zeros_facts(v@);
            }
            return k;
        }
        k = k + 1;
    }
    proof {
        lemma_trailing_zeros_facts(v@);
    }
    k
}

/// Builds the normalized value of `±0.d × 10^e`.
fn build_decimal(neg: bool, d: Vec<char>, e: i128) -> (r: NumericValue)
    requires
        all_digits(d@),
        -200000000000000000000 <= e <= 200000000000000000000,
    ensures
        r@ == make_decimal(neg, d@, e as int),
        num_wf(r@),
{
    proof {
        lemma_make_decimal_wf(neg, d@, e as int);
        lemma_leading_zeros_facts(d@);
    }
    let lead = count_leading_zeros(&d);
    if lead == d.len() {
        assert(d@.skip(lead as int).len() == 0);
        return NumericValue::Zero;
    }
    let d1 = sub_vec(&d, lead, d.len());
    assert(d1@ =~= d@.skip(lead as int));
    let tz = count_trailing_zeros(&d1);
    proof {
        lemma_trailing_zeros_facts(d1@);
        assert(d1@[0] != '0');
        assert(trailing_zeros(d1@) < d1@.len());
    }
    let digits = sub_vec(&d1, 0, d1.len() - tz);
    assert(digits@ =~= d1@.take(d1@.len() - trailing_zeros(d1@)));
    NumericValue::Decimal { negative: neg, digits, exponent: e - lead as i128 }
}

/// Recognises and evaluates a mantissa: its digits and how many of them
/// stand before the decimal point.
fn parse_mantissa(m: &Vec<char>) -> (r: Option<(Vec<char>, usize)>)
    ensures
        match r {
            Some(p) => mantissa_ok(m@) && p.0@ == mantissa_digits(m@) && p.1 as int
                == mantissa_intlen(m@) && all_digits(p.0@) && p.1 <= m@.len(),
            None => !mantissa_ok(m@),
        },
{
    match find_at(m, '.', '.', 0) {
        None => {
            if m.len() > 0 && all_digits_exec(m) {
                let d = sub_vec(m, 0, m.len());
                assert(d@ =~= m@);
                Some((d, m.len()))
            } else {
                None
            }
        },
        Some(i) => {
            if m.len() < 2 {
                return None;
            }
            let intpart = sub_vec(m, 0, i);
            let mut frac = sub_vec(m, i + 1, m.len());
            assert(intpart@ =~= m@.take(i as int));
            assert(frac@ =~= m@.skip(i + 1));
            if !all_digits_exec(&intpart) || !all_digits_exec(&frac) {
                return None;
            }
            let mut d = intpart;
            d.append(&mut frac);
            assert(all_digits(d@));
            Some((d, i))
        },
    }
}

/// Recognises and evaluates an exponent part, clamping at the limit.
fn parse_exp(es: &Vec<char>) -> (r: Option<i128>)
    ensures
        match r {
            Some(v) => exp_ok(es@) && v as int == exp_value(es@) && -exp_limit() <= v as int
                <= exp_limit(),
            None => !exp_ok(es@),
        },
{
    let mut neg = false;
    let mut start: usize = 0;
    if es.len() > 0 && (es[0] == '+' || es[0] == '-') {
        neg = es[0] == '-';
        start = 1;
    }
    let ds = sub_vec(es, start, es.len());
    proof {
        if start == 1 {
            assert(ds@ =~= es@.drop_first());
        } else {
            assert(ds@ =~= es@);
        }
        assert(sign_split(es@) == (neg, ds@));
    }
    if ds.len() == 0 {
        return None;
    }
    if !all_digits_exec(&ds) {
        return None;
    }
    let lead = count_leading_zeros(&ds);
    proof {
        lemma_leading_zeros_facts(ds@);
    }
    let stripped = sub_vec(&ds, lead, ds.len());
    assert(stripped@ =~= ds@.skip(lead as int));
    let mag: u64 = if stripped.len() > 17 {
        assert(exp_limit() == 100000000000000000);
        100000000000000000u64
    } else {
        proof {
            lemma_digits_value_bound(stripped@);
            lemma_pow10_mono(stripped@.len(), 17);
            assert(pow10(17) == 100000000000000000) by {
                reveal_with_fuel(pow10, 18);
            }
        }
        digits_value_exec(&stripped)
    };
    if neg {
        Some(-(mag as i128))
    } else {
        Some(mag as i128)
    }
}

/// Parses a numeral: an optional sign, then `inf`, `infinity` or `nan`
/// in any letter case, or digits with an optional decimal point and an
/// optional decimal exponent — the forms a double-precision literal may
/// take.
pub fn parse_numeral(s: &str) -> (r: Option<NumericValue>)
    ensures
        match r {
            Some(v) => spec_parse_numeral(s@) == Some(v@) && num_wf(v@),
            None => spec_parse_numeral(s@) is None,
        },
{
    let chars = crate::text::chars_of(s);
    let n = chars.len();
    let mut neg = false;
    let mut start: usize = 0;
    if n > 0 && (chars[0] == '+' || chars[0] == '-') {
        neg = chars[0] == '-';
        start = 1;
    }
    let body = sub_vec(&chars, start, n);
    proof {
        if start == 1 {
            assert(body@ =~= s@.drop_first());
        } else {
            assert(body@ =~= s@);
        }
        assert(sign_split(s@) == (neg, body@));
    }
    let infw: Vec<char> = vec!['i', 'n', 'f'];
    let infinityw: Vec<char> = vec!['i', 'n', 'f', 'i', 'n', 'i', 't', 'y'];
    let nanw: Vec<char> = vec!['n', 'a', 'n'];
    assert(infw@ =~= inf_word());
    assert(infinityw@ =~= infinity_word());
    assert(nanw@ =~= nan_word());
    if matches_ci_exec(&body, &infw) || matches_ci_exec(&body, &infinityw) {
        return Some(
            if neg {
                NumericValue::NegInfinity
            } else {
                NumericValue::PosInfinity
            },
        );
    }
    if matches_ci_exec(&body, &nanw) {
        return Some(NumericValue::Nan);
    }
    match find_at(&body, 'e', 'E', 0) {
        None => {
            match parse_mantissa(&body) {
                Some(p) => {
                    let (d, il) = p;
                    let r = build_decimal(neg, d, il as i128);
                    Some(r)
                },
                None => None,
            }
        },
        Some(ei) => {
            let m = sub_vec(&body, 0, ei);
            let es = sub_vec(&body, ei + 1, body.len());
            assert(m@ =~= body@.take(ei as int));
            assert(es@ =~= body@.skip(ei + 1));
            match parse_mantissa(&m) {
                Some(p) => {
                    let (d, il) = p;
                    match parse_exp(&es) {
                        Some(ev) => {
                            let r = build_decimal(neg, d, il as i128 + ev);
                            Some(r)
                        },
                        None => None,
                    }
                },
                None => None,
            }
        },
    }
}

} // verus!
