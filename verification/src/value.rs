//! The values that a chip computes with.
//!
//! Values and every operation on them belong to `yolol_devices`. This module
//! gives them a mathematical model and states, operation by operation, what
//! the engine relies on. The functions marked `external_body` are statements
//! about that crate and are not proved; everything else is.

use vstd::prelude::*;
use yolol_devices::value::ValueTrait;
use yolol_devices::value::YololInt;
use yolol_devices::value::YololValue;

verus! {

#[verifier::external_type_specification]
#[verifier::external_body]
pub struct ExYololValue(YololValue);

/// What a value holds: a fixed-point number, kept as its count of
/// thousandths, or a text.
pub enum ValueModel {
    Int(i64),
    Text(Seq<char>),
}

/// What a `YololValue` holds. Its fields are private to `yolol_devices`, so
/// the content is named here and the functions below say how each operation
/// acts on it.
pub uninterp spec fn value_model(v: YololValue) -> ValueModel;

/// The text that `yolol_devices` writes for a number when it meets a text
/// (`YololString::from(&YololInt)`).
pub uninterp spec fn number_text(raw: i64) -> Seq<char>;

/// The thousandths of `a / b` as `yolol_devices` rounds them, for `b != 0`.
pub uninterp spec fn quotient(a: i64, b: i64) -> i64;

/// The thousandths of the absolute value as `yolol_devices` computes it.
pub uninterp spec fn magnitude(raw: i64) -> i64;

/// The thousandths of the square root as `yolol_devices` computes it.
pub uninterp spec fn square_root(raw: i64) -> i64;

/// `a - b` on texts in `yolol_devices`; `None` where it fails.
pub uninterp spec fn text_difference(a: Seq<char>, b: Seq<char>) -> Option<Seq<char>>;

/// A value of the device network.
#[derive(Debug)]
pub struct Value {
    pub inner: YololValue,
}

impl View for Value {
    type V = ValueModel;

    open spec fn view(&self) -> ValueModel {
        value_model(self.inner)
    }
}

/// The models of a sequence of values.
pub open spec fn models(values: Seq<Value>) -> Seq<ValueModel> {
    Seq::new(values.len(), |i: int| values[i]@)
}

// ---------------------------------------------------------------------------
// Arithmetic on thousandths
// ---------------------------------------------------------------------------

/// `n`, held to the range of `i64`.
pub open spec fn clip(n: int) -> i64 {
    if n > i64::MAX {
        i64::MAX
    } else if n < i64::MIN {
        i64::MIN
    } else {
        n as i64
    }
}

/// `n` modulo 2^64, as a signed 64-bit number.
pub open spec fn wrapped(n: int) -> i64 {
    let m = n % 0x1_0000_0000_0000_0000;
    if m > i64::MAX {
        (m - 0x1_0000_0000_0000_0000) as i64
    } else {
        m as i64
    }
}

pub open spec fn magnitude_of(n: int) -> int {
    if n < 0 {
        -n
    } else {
        n
    }
}

/// `n / d` rounded toward zero (0 where `d` is 0).
pub open spec fn toward_zero(n: int, d: int) -> int {
    if d == 0 {
        0
    } else if (n >= 0) == (d > 0) {
        magnitude_of(n) / magnitude_of(d)
    } else {
        -(magnitude_of(n) / magnitude_of(d))
    }
}

/// Rounding toward zero leaves less than one divisor between the quotient
/// times the divisor and the number, on the side of zero.
pub proof fn lemma_toward_zero(n: int, d: int)
    requires
        d > 0,
    ensures
        n >= 0 ==> toward_zero(n, d) * d <= n < toward_zero(n, d) * d + d,
        n < 0 ==> toward_zero(n, d) * d - d < n <= toward_zero(n, d) * d,
        n >= 0 ==> toward_zero(n, d) >= 0,
        n <= 0 ==> toward_zero(n, d) <= 0,
{
    let m = magnitude_of(n);
    let q = m / d;
    assert(q * d <= m < q * d + d && q >= 0) by (nonlinear_arith)
        requires
            m >= 0,
            d > 0,
            q == m / d,
    ;
    assert((-q) * d == -(q * d)) by (nonlinear_arith);
}

pub open spec fn factorial(n: nat) -> nat
    decreases n,
{
    if n == 0 {
        1
    } else {
        n * factorial((n - 1) as nat)
    }
}

/// The number that stands for a truth value.
pub open spec fn flag(b: bool) -> ValueModel {
    if b {
        ValueModel::Int(1000)
    } else {
        ValueModel::Int(0)
    }
}

/// A value counts as true when it is a number other than zero.
pub open spec fn truth(v: ValueModel) -> bool {
    v matches ValueModel::Int(x) && x != 0
}

/// A character that takes a single byte in a `String`.
pub open spec fn is_plain(c: char) -> bool {
    c <= '\u{7f}'
}

/// `a` comes before `b` when texts are ordered by their code points.
pub open spec fn text_before(a: Seq<char>, b: Seq<char>) -> bool
    decreases a.len(),
{
    if b.len() == 0 {
        false
    } else if a.len() == 0 {
        true
    } else if a[0] != b[0] {
        (a[0] as u32) < (b[0] as u32)
    } else {
        text_before(a.drop_first(), b.drop_first())
    }
}

/// The text a value is taken as when one operand is a text.
pub open spec fn text_form(v: ValueModel) -> Seq<char> {
    match v {
        ValueModel::Int(x) => number_text(x),
        ValueModel::Text(s) => s,
    }
}

// ---------------------------------------------------------------------------
// The operations, on models
// ---------------------------------------------------------------------------

pub open spec fn same(a: ValueModel, b: ValueModel) -> bool {
    match (a, b) {
        (ValueModel::Int(x), ValueModel::Int(y)) => x == y,
        (ValueModel::Text(s), ValueModel::Text(t)) => s == t,
        _ => false,
    }
}

pub open spec fn before(a: ValueModel, b: ValueModel) -> bool {
    match (a, b) {
        (ValueModel::Int(x), ValueModel::Int(y)) => x < y,
        _ => text_before(text_form(a), text_form(b)),
    }
}

pub open spec fn at_most(a: ValueModel, b: ValueModel) -> bool {
    match (a, b) {
        (ValueModel::Int(x), ValueModel::Int(y)) => x <= y,
        _ => text_form(a) == text_form(b) || text_before(text_form(a), text_form(b)),
    }
}

pub open spec fn sum(a: ValueModel, b: ValueModel) -> ValueModel {
    match (a, b) {
        (ValueModel::Int(x), ValueModel::Int(y)) => ValueModel::Int(clip(x + y)),
        _ => ValueModel::Text(text_form(a) + text_form(b)),
    }
}

/// Subtraction cuts the left text at byte positions, which is only safe
/// where every character is a single byte.
pub open spec fn difference_defined(a: ValueModel, b: ValueModel) -> bool {
    a matches ValueModel::Text(s) ==> vstd::utf8::is_ascii_chars(s)
}

pub open spec fn difference(a: ValueModel, b: ValueModel) -> Option<ValueModel> {
    match (a, b) {
        (ValueModel::Int(x), ValueModel::Int(y)) => Some(ValueModel::Int(clip(x - y))),
        _ => match text_difference(text_form(a), text_form(b)) {
            Some(s) => Some(ValueModel::Text(s)),
            None => None,
        },
    }
}

pub open spec fn product(a: ValueModel, b: ValueModel) -> Option<ValueModel> {
    match (a, b) {
        (ValueModel::Int(x), ValueModel::Int(y)) => Some(
            ValueModel::Int(toward_zero(wrapped(x * y) as int, 1000) as i64),
        ),
        _ => None,
    }
}

pub open spec fn ratio(a: ValueModel, b: ValueModel) -> Option<ValueModel> {
    match (a, b) {
        (ValueModel::Int(x), ValueModel::Int(y)) => if y == 0 {
            None
        } else {
            Some(ValueModel::Int(quotient(x, y)))
        },
        _ => None,
    }
}

/// The multiple of `y` that the remainder takes from `x`.
pub open spec fn remainder_steps(x: i64, y: i64) -> int {
    toward_zero(x as int, y as int) + if x > 0 {
        1int
    } else {
        0int
    }
}

pub open spec fn fits(n: int) -> bool {
    i64::MIN <= n <= i64::MAX
}

/// The remainder is computed in 64 bits without a check; it is defined where
/// no step of that computation leaves the range.
pub open spec fn remainder_defined(a: ValueModel, b: ValueModel) -> bool {
    match (a, b) {
        (ValueModel::Int(x), ValueModel::Int(y)) => y != 0 ==> {
            &&& fits(toward_zero(x as int, y as int))
            &&& fits(remainder_steps(x, y))
            &&& fits(y * remainder_steps(x, y))
            &&& fits(x - y * remainder_steps(x, y))
        },
        _ => true,
    }
}

pub open spec fn remainder(a: ValueModel, b: ValueModel) -> Option<ValueModel> {
    match (a, b) {
        (ValueModel::Int(x), ValueModel::Int(y)) => if y == 0 {
            None
        } else {
            Some(ValueModel::Int((x - y * remainder_steps(x, y)) as i64))
        },
        _ => None,
    }
}

pub open spec fn absolute(a: ValueModel) -> Option<ValueModel> {
    match a {
        ValueModel::Int(x) => Some(ValueModel::Int(magnitude(x))),
        ValueModel::Text(_) => None,
    }
}

pub open spec fn root(a: ValueModel) -> Option<ValueModel> {
    match a {
        ValueModel::Int(x) => Some(ValueModel::Int(square_root(x))),
        ValueModel::Text(_) => None,
    }
}

/// The largest whole number whose factorial, in thousandths, fits in 64 bits.
pub const FACTORIAL_LIMIT: i64 = 18;

/// A factorial is computed by a loop over the whole part and scaled without
/// a check; it is defined up to `FACTORIAL_LIMIT`.
pub open spec fn factorial_defined(a: ValueModel) -> bool {
    a matches ValueModel::Int(x) ==> toward_zero(x as int, 1000) <= FACTORIAL_LIMIT
}

pub open spec fn factorial_of(a: ValueModel) -> Option<ValueModel> {
    match a {
        ValueModel::Int(x) => {
            let w = toward_zero(x as int, 1000);
            if w < 0 {
                Some(ValueModel::Int(i64::MIN))
            } else {
                Some(ValueModel::Int((factorial(w as nat) * 1000) as i64))
            }
        },
        ValueModel::Text(_) => None,
    }
}

pub open spec fn negation(a: ValueModel) -> ValueModel {
    match a {
        ValueModel::Int(x) => flag(x == 0),
        ValueModel::Text(_) => flag(false),
    }
}

pub open spec fn successor(a: ValueModel) -> ValueModel {
    match a {
        ValueModel::Int(x) => ValueModel::Int(clip(x + 1000)),
        ValueModel::Text(s) => ValueModel::Text(s.push(' ')),
    }
}

/// Taking the last character off a text cuts it one byte before its end.
pub open spec fn predecessor_defined(a: ValueModel) -> bool {
    a matches ValueModel::Text(s) ==> (s.len() > 0 ==> is_plain(s.last()))
}

pub open spec fn predecessor(a: ValueModel) -> ValueModel {
    match a {
        ValueModel::Int(x) => ValueModel::Int(clip(x - 1000)),
        ValueModel::Text(s) => if s.len() == 0 {
            a
        } else {
            ValueModel::Text(s.drop_last())
        },
    }
}

/// The model of what an operation handed back.
pub open spec fn outcome(r: Option<Value>) -> Option<ValueModel> {
    match r {
        Some(v) => Some(v@),
        None => None,
    }
}

/// What is known of an operation that goes through the machine's
/// transcendental functions: it fails on a text and gives some number
/// otherwise. Which number is not fixed by the operands.
pub open spec fn number_or_nothing(operands_are_numbers: bool, r: Option<ValueModel>) -> bool {
    if operands_are_numbers {
        r matches Some(ValueModel::Int(_))
    } else {
        r is None
    }
}

// ---------------------------------------------------------------------------
// Calls into yolol_devices
// ---------------------------------------------------------------------------

/// `YololInt::new_raw` builds the number from its thousandths unchanged.
#[verifier::external_body]
pub(crate) fn make_number(raw: i64) -> (r: Value)
    ensures
        value_model(r.inner) == ValueModel::Int(raw),
{
    Value { inner: YololValue::Int(YololInt::new_raw(raw)) }
}

/// `YololValue::from(&str)` builds the text with the same characters.
#[verifier::external_body]
pub(crate) fn make_text(s: &str) -> (r: Value)
    ensures
        value_model(r.inner) == ValueModel::Text(s@),
{
    Value { inner: YololValue::from(s) }
}

/// `YololValue::default()` is the number zero.
#[verifier::external_body]
pub(crate) fn make_default() -> (r: Value)
    ensures
        r@ == ValueModel::Int(0),
{
    Value { inner: YololValue::default() }
}

/// The derived `Clone` of `YololValue` copies what the value holds.
#[verifier::external_body]
pub(crate) fn copy_value(v: &Value) -> (r: Value)
    ensures
        r@ == v@,
{
    Value { inner: v.inner.clone() }
}

/// Tells the two variants of `YololValue` apart.
#[verifier::external_body]
pub(crate) fn holds_text(v: &Value) -> (r: bool)
    ensures
        r == (v@ is Text),
{
    match &v.inner {
        YololValue::String(_) => true,
        YololValue::Int(_) => false,
    }
}

/// The characters of a text value (`YololString` dereferences to its `String`).
#[verifier::external_body]
pub(crate) fn text_of(v: &Value) -> (r: Option<String>)
    ensures
        match r {
            Some(t) => v@ == ValueModel::Text(t@),
            None => v@ is Int,
        },
{
    match &v.inner {
        YololValue::String(s) => Some(s.to_string()),
        YololValue::Int(_) => None,
    }
}

/// `i64::from(&YololInt)` divides the thousandths by 1000, toward zero.
#[verifier::external_body]
pub(crate) fn whole_of(v: &Value) -> (r: Option<i64>)
    ensures
        match v@ {
            ValueModel::Int(x) => r == Some(toward_zero(x as int, 1000) as i64),
            ValueModel::Text(_) => r is None,
        },
{
    match &v.inner {
        YololValue::Int(i) => Some(i64::from(i)),
        YololValue::String(_) => None,
    }
}

/// `bool::from(&YololValue)`: a number other than zero; never a text.
#[verifier::external_body]
pub(crate) fn truth_of(v: &Value) -> (r: bool)
    ensures
        r == truth(v@),
{
    bool::from(&v.inner)
}

/// `YololValue::from(bool)` is the number one or zero.
#[verifier::external_body]
pub(crate) fn make_flag(b: bool) -> (r: Value)
    ensures
        r@ == flag(b),
{
    Value { inner: YololValue::from(b) }
}

/// `YololValue::or` takes both operands as truth values.
#[verifier::external_body]
pub(crate) fn or_values(a: &Value, b: &Value) -> (r: Value)
    ensures
        r@ == flag(truth(a@) || truth(b@)),
{
    Value { inner: a.inner.or(&b.inner) }
}

/// `YololValue::and` takes both operands as truth values.
#[verifier::external_body]
pub(crate) fn and_values(a: &Value, b: &Value) -> (r: Value)
    ensures
        r@ == flag(truth(a@) && truth(b@)),
{
    Value { inner: a.inner.and(&b.inner) }
}

/// `==` on `YololValue`: equal numbers or equal texts; a number never equals
/// a text.
#[verifier::external_body]
pub(crate) fn same_values(a: &Value, b: &Value) -> (r: bool)
    ensures
        r == same(a@, b@),
{
    a.inner == b.inner
}

/// `<` on `YololValue`: numbers by size; with a text on either side, both
/// sides as texts, in the order of `String`.
#[verifier::external_body]
pub(crate) fn value_before(a: &Value, b: &Value) -> (r: bool)
    ensures
        r == before(a@, b@),
{
    a.inner < b.inner
}

/// `<=` on `YololValue`, ordered as `<` is.
#[verifier::external_body]
pub(crate) fn value_at_most(a: &Value, b: &Value) -> (r: bool)
    ensures
        r == at_most(a@, b@),
{
    a.inner <= b.inner
}

/// `&YololValue + &YololValue`: numbers add and stay in range; with a text
/// on either side the two texts are joined.
#[verifier::external_body]
pub(crate) fn add_values(a: &Value, b: &Value) -> (r: Value)
    ensures
        r@ == sum(a@, b@),
        (a@ is Int && b@ is Text) ==> r@ == ValueModel::Text(
            number_text(a@->Int_0) + b@->Text_0,
        ),
{
    Value { inner: &a.inner + &b.inner }
}

/// `&YololValue - &YololValue`: numbers subtract and stay in range; texts go
/// through the subtraction of `YololString`.
#[verifier::external_body]
pub(crate) fn subtract_values(a: &Value, b: &Value) -> (r: Option<Value>)
    requires
        difference_defined(a@, b@),
    ensures
        outcome(r) == difference(a@, b@),
        (a@ is Text && b@ is Text) ==> (outcome(r) is Some <==> text_difference(
            a@->Text_0,
            b@->Text_0,
        ) is Some),
{
    match &a.inner - &b.inner {
        Some(v) => Some(Value { inner: v }),
        None => None,
    }
}

/// `&YololValue * &YololValue`: the product of the thousandths wraps in 64
/// bits and is then divided by 1000; a text on either side fails.
#[verifier::external_body]
pub(crate) fn multiply_values(a: &Value, b: &Value) -> (r: Option<Value>)
    ensures
        outcome(r) == product(a@, b@),
{
    match &a.inner * &b.inner {
        Some(v) => Some(Value { inner: v }),
        None => None,
    }
}

/// `&YololValue / &YololValue`: fails on a text and on a zero divisor.
#[verifier::external_body]
pub(crate) fn divide_values(a: &Value, b: &Value) -> (r: Option<Value>)
    ensures
        outcome(r) == ratio(a@, b@),
        (a@ is Int && b@ is Int && b@->Int_0 != 0) ==> outcome(r) == Some(
            ValueModel::Int(quotient(a@->Int_0, b@->Int_0)),
        ),
{
    match &a.inner / &b.inner {
        Some(v) => Some(Value { inner: v }),
        None => None,
    }
}

/// `&YololValue % &YololValue`: fails on a text and on a zero divisor;
/// otherwise `x - y * (x / y + 1)` for a positive `x` and `x - y * (x / y)`
/// for another.
#[verifier::external_body]
pub(crate) fn remainder_values(a: &Value, b: &Value) -> (r: Option<Value>)
    requires
        remainder_defined(a@, b@),
    ensures
        outcome(r) == remainder(a@, b@),
{
    match &a.inner % &b.inner {
        Some(v) => Some(Value { inner: v }),
        None => None,
    }
}

/// `ValueTrait::pow` goes through `f64::powf`.
#[verifier::external_body]
pub(crate) fn power_values(a: &Value, b: &Value) -> (r: Option<Value>)
    ensures
        number_or_nothing(a@ is Int && b@ is Int, outcome(r)),
{
    match a.inner.pow(&b.inner) {
        Some(v) => Some(Value { inner: v }),
        None => None,
    }
}

/// `ValueTrait::abs`: fails on a text.
#[verifier::external_body]
pub(crate) fn absolute_value(a: &Value) -> (r: Option<Value>)
    ensures
        outcome(r) == absolute(a@),
        a@ is Int ==> outcome(r) == Some(ValueModel::Int(magnitude(a@->Int_0))),
{
    match a.inner.abs() {
        Some(v) => Some(Value { inner: v }),
        None => None,
    }
}

/// `ValueTrait::sqrt`: fails on a text.
#[verifier::external_body]
pub(crate) fn root_value(a: &Value) -> (r: Option<Value>)
    ensures
        outcome(r) == root(a@),
        a@ is Int ==> outcome(r) == Some(ValueModel::Int(square_root(a@->Int_0))),
{
    match a.inner.sqrt() {
        Some(v) => Some(Value { inner: v }),
        None => None,
    }
}

/// `ValueTrait::sin` goes through `f64::sin`.
#[verifier::external_body]
pub(crate) fn sine_value(a: &Value) -> (r: Option<Value>)
    ensures
        number_or_nothing(a@ is Int, outcome(r)),
{
    match a.inner.sin() {
        Some(v) => Some(Value { inner: v }),
        None => None,
    }
}

/// `ValueTrait::cos` goes through `f64::cos`.
#[verifier::external_body]
pub(crate) fn cosine_value(a: &Value) -> (r: Option<Value>)
    ensures
        number_or_nothing(a@ is Int, outcome(r)),
{
    match a.inner.cos() {
        Some(v) => Some(Value { inner: v }),
        None => None,
    }
}

/// `ValueTrait::tan` divides the sine by the cosine, or gives a fixed number
/// where the cosine is zero.
#[verifier::external_body]
pub(crate) fn tangent_value(a: &Value) -> (r: Option<Value>)
    ensures
        number_or_nothing(a@ is Int, outcome(r)),
{
    match a.inner.tan() {
        Some(v) => Some(Value { inner: v }),
        None => None,
    }
}

/// `ValueTrait::asin` goes through `f64::asin`.
#[verifier::external_body]
pub(crate) fn arcsine_value(a: &Value) -> (r: Option<Value>)
    ensures
        number_or_nothing(a@ is Int, outcome(r)),
{
    match a.inner.asin() {
        Some(v) => Some(Value { inner: v }),
        None => None,
    }
}

/// `ValueTrait::acos` goes through `f64::acos`.
#[verifier::external_body]
pub(crate) fn arccosine_value(a: &Value) -> (r: Option<Value>)
    ensures
        number_or_nothing(a@ is Int, outcome(r)),
{
    match a.inner.acos() {
        Some(v) => Some(Value { inner: v }),
        None => None,
    }
}

/// `ValueTrait::atan` goes through `f64::atan`.
#[verifier::external_body]
pub(crate) fn arctangent_value(a: &Value) -> (r: Option<Value>)
    ensures
        number_or_nothing(a@ is Int, outcome(r)),
{
    match a.inner.atan() {
        Some(v) => Some(Value { inner: v }),
        None => None,
    }
}

/// `ValueTrait::fac`: the factorial of the whole part, in thousandths; the
/// smallest number for a negative whole part; fails on a text.
#[verifier::external_body]
pub(crate) fn factorial_value(a: &Value) -> (r: Option<Value>)
    requires
        factorial_defined(a@),
    ensures
        outcome(r) == factorial_of(a@),
{
    match a.inner.fac() {
        Some(v) => Some(Value { inner: v }),
        None => None,
    }
}

/// `ValueTrait::not`: one for the number zero, zero for anything else.
#[verifier::external_body]
pub(crate) fn negate_value(a: &Value) -> (r: Value)
    ensures
        r@ == negation(a@),
{
    Value { inner: a.inner.not() }
}

/// `ValueTrait::pre_inc` adds one to a number, staying in range, and a space
/// to a text.
#[verifier::external_body]
pub(crate) fn increment_value(a: &mut Value)
    ensures
        final(a)@ == successor(old(a)@),
{
    a.inner.pre_inc();
}

/// `ValueTrait::pre_dec` takes one from a number, staying in range, and the
/// last character from a text; an empty text stays as it is.
#[verifier::external_body]
pub(crate) fn decrement_value(a: &mut Value)
    requires
        predecessor_defined(old(a)@),
    ensures
        final(a)@ == predecessor(old(a)@),
{
    a.inner.pre_dec();
}

// ---------------------------------------------------------------------------
// Values as the rest of the engine sees them
// ---------------------------------------------------------------------------

impl Value {
    /// The number with the given count of thousandths.
    pub fn number(raw: i64) -> (r: Value)
        ensures
            r@ == ValueModel::Int(raw),
    {
        make_number(raw)
    }

    /// The text with the characters of `s`.
    pub fn text(s: &str) -> (r: Value)
        ensures
            r@ == ValueModel::Text(s@),
    {
        make_text(s)
    }

    pub fn is_text(&self) -> (r: bool)
        ensures
            r == (self@ is Text),
    {
        holds_text(self)
    }

    /// Whether the value counts as true in a condition.
    pub fn truthy(&self) -> (r: bool)
        ensures
            r == truth(self@),
    {
        truth_of(self)
    }

    /// The whole part of a number, rounded toward zero; `None` for a text.
    pub fn whole(&self) -> (r: Option<i64>)
        ensures
            r == match self@ {
                ValueModel::Int(x) => Some(toward_zero(x as int, 1000) as i64),
                ValueModel::Text(_) => None,
            },
    {
        whole_of(self)
    }

    /// The characters of a text; `None` for a number.
    pub fn as_text(&self) -> (r: Option<String>)
        ensures
            match r {
                Some(t) => self@ == ValueModel::Text(t@),
                None => self@ is Int,
            },
    {
        text_of(self)
    }

    /// The thousandths of a number; `None` for a text.
    ///
    /// `yolol_devices` hands out the whole part only. The thousandths below
    /// it are what is left after taking the whole part away, scaled up by a
    /// multiplication so that they become a whole part themselves.
    pub fn raw(&self) -> (r: Option<i64>)
        ensures
            r == match self@ {
                ValueModel::Int(x) => Some(x),
                ValueModel::Text(_) => None,
            },
    {
        let w: i64 = match whole_of(self) {
            Some(w) => w,
            None => {
                return None;
            },
        };
        let ghost x: i64 = self@->Int_0;
        proof {
            lemma_toward_zero(x as int, 1000);
        }
        let base = make_number(w * 1000);
        let rest = match subtract_values(self, &base) {
            Some(rest) => rest,
            None => {
                return None;
            },
        };
        let ghost f: int = x - w * 1000;
        assert(-1000 < f < 1000);
        assert(rest@ == ValueModel::Int(f as i64));
        let scale = make_number(1_000_000);
        let scaled = match multiply_values(&rest, &scale) {
            Some(scaled) => scaled,
            None => {
                return None;
            },
        };
        proof {
            assert(wrapped(f * 1_000_000) == f * 1_000_000);
            lemma_toward_zero(f * 1_000_000, 1000);
            lemma_toward_zero(f * 1000, 1000);
        }
        match whole_of(&scaled) {
            Some(low) => Some(w * 1000 + low),
            None => None,
        }
    }
}

impl Clone for Value {
    fn clone(&self) -> (r: Self)
        ensures
            r@ == self@,
    {
        copy_value(self)
    }
}

impl Default for Value {
    /// The number zero, which every variable starts as.
    fn default() -> (r: Self)
        ensures
            r@ == ValueModel::Int(0),
    {
        make_default()
    }
}

} // verus!
