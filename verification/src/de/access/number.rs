use vstd::prelude::*;
use vstd::utf8::{decode_utf8, valid_utf8};

use crate::ascii::{is_digit, is_ascii_digit, DIGIT_ZERO, MINUS, PLUS};
use crate::error::ConvertError;
use crate::utf8::string_from_utf8;
use crate::value::number::Number;

verus! {

// ---------------------------------------------------------------- decimal text

/// The value of a string of decimal digits, most significant first.
pub open spec fn decimal(d: Seq<u8>) -> int
    decreases d.len(),
{
    if d.len() == 0 {
        0
    } else {
        decimal(d.drop_last()) * 10 + (d.last() - DIGIT_ZERO)
    }
}

pub open spec fn all_digits(d: Seq<u8>) -> bool {
    forall|k: int| 0 <= k < d.len() ==> is_digit(#[trigger] d[k])
}

/// What `str::parse` gives for an integer type: an optional `+` (or `-`, for a
/// signed type), then one or more decimal digits. The value, or `None`.
pub open spec fn parse_integer(rep: Seq<u8>, signed: bool) -> Option<int> {
    if rep.len() == 0 {
        None
    } else {
        let neg = signed && rep[0] == MINUS;
        let digits = if rep[0] == PLUS || neg { rep.drop_first() } else { rep };
        if digits.len() > 0 && all_digits(digits) {
            Some(if neg { -decimal(digits) } else { decimal(digits) })
        } else {
            None
        }
    }
}

/// Whether the text converts to an integer within `min..=max`.
pub open spec fn integer_in_range(rep: Seq<u8>, signed: bool, min: int, max: int) -> bool {
    parse_integer(rep, signed) matches Some(v) && min <= v <= max
}

proof fn lemma_decimal_nonneg(d: Seq<u8>)
    requires
        all_digits(d),
    ensures
        decimal(d) >= 0,
    decreases d.len(),
{
    if d.len() > 0 {
        assert(all_digits(d.drop_last()));
        lemma_decimal_nonneg(d.drop_last());
    }
}

/// Appending digits never makes the value smaller.
proof fn lemma_decimal_prefix(d: Seq<u8>, n: int)
    requires
        all_digits(d),
        0 <= n <= d.len(),
    ensures
        decimal(d.take(n)) <= decimal(d),
    decreases d.len(),
{
    if n < d.len() {
        assert(all_digits(d.drop_last()));
        assert(d.drop_last().take(n) =~= d.take(n));
        lemma_decimal_prefix(d.drop_last(), n);
        lemma_decimal_nonneg(d.drop_last());
        assert(is_digit(d[d.len() - 1]));
    } else {
        assert(d.take(n) =~= d);
    }
}

/// Reads the sign and the magnitude of an integer as `str::parse` does.
/// `None` when the text is no integer or its magnitude does not fit in `u128`.
fn integer_magnitude(rep: &[u8], signed: bool) -> (r: Option<(bool, u128)>)
    ensures
        r matches Some((neg, m)) ==> parse_integer(rep@, signed) == Some(if neg { -(m as int) } else { m as int }),
        r matches Some((neg, m)) ==> (neg ==> signed),
        r is None ==> match parse_integer(rep@, signed) {
            None => true,
            Some(v) => v > u128::MAX || v < -(u128::MAX as int),
        },
{
    if rep.len() == 0 {
        return None;
    }
    let neg = signed && rep[0] == MINUS;
    let start: usize = if rep[0] == PLUS || neg { 1 } else { 0 };
    let ghost digits = if rep@[0] == PLUS || neg { rep@.drop_first() } else { rep@ };
    assert(digits =~= rep@.subrange(start as int, rep@.len() as int));
    if start >= rep.len() {
        assert(digits.len() == 0);
        assert(parse_integer(rep@, signed) is None);
        return None;
    }
    let mut acc: u128 = 0;
    let mut k: usize = start;
    while k < rep.len()
        invariant
            start <= k <= rep.len(),
            rep.len() > 0,
            neg == (signed && rep@[0] == MINUS),
            digits == (if rep@[0] == PLUS || neg { rep@.drop_first() } else { rep@ }),
            digits =~= rep@.subrange(start as int, rep@.len() as int),
            forall|j: int| 0 <= j < k - start ==> is_digit(#[trigger] digits[j]),
            acc == decimal(digits.take(k - start)),
        decreases rep.len() - k,
    {
        let c = rep[k];
        if !is_ascii_digit(c) {
            assert(!all_digits(digits)) by {
                assert(!is_digit(digits[k - start]));
            }
            assert(parse_integer(rep@, signed) is None);
            return None;
        }
        let ghost n = k - start;
        assert(digits.take(n + 1).drop_last() =~= digits.take(n));
        let step = acc.checked_mul(10);
        match step {
            Some(t) => match t.checked_add((c - DIGIT_ZERO) as u128) {
                Some(u) => {
                    acc = u;
                },
                None => {
                    proof {
                        if all_digits(digits) {
                            lemma_decimal_prefix(digits, n + 1);
                        }
                    }
                    return None;
                },
            },
            None => {
                proof {
                    if all_digits(digits) {
                        lemma_decimal_prefix(digits, n + 1);
                        lemma_decimal_nonneg(digits.take(n + 1));
                    }
                }
                return None;
            },
        }
        k = k + 1;
    }
    assert(digits.take(k - start) =~= digits);
    Some((neg, acc))
}

/// The value of an integer for a signed target, when it fits in `i128`.
fn signed_value(rep: &[u8]) -> (r: Option<i128>)
    ensures
        r matches Some(v) ==> parse_integer(rep@, true) == Some(v as int),
        r is None ==> !integer_in_range(rep@, true, i128::MIN as int, i128::MAX as int),
{
    match integer_magnitude(rep, true) {
        Some((neg, m)) => {
            if neg {
                if m < 0x8000_0000_0000_0000_0000_0000_0000_0000u128 {
                    Some(0 - (m as i128))
                } else if m == 0x8000_0000_0000_0000_0000_0000_0000_0000u128 {
                    Some(i128::MIN)
                } else {
                    None
                }
            } else if m <= 0x7FFF_FFFF_FFFF_FFFF_FFFF_FFFF_FFFF_FFFFu128 {
                Some(m as i128)
            } else {
                None
            }
        },
        None => None,
    }
}

/// The value of an integer for an unsigned target, when it fits in `u128`.
pub(crate) fn unsigned_value(rep: &[u8]) -> (r: Option<u128>)
    ensures
        r matches Some(v) ==> parse_integer(rep@, false) == Some(v as int),
        r is None ==> !integer_in_range(rep@, false, 0, u128::MAX as int),
{
    match integer_magnitude(rep, false) {
        Some((neg, m)) => {
            if neg {
                None
            } else {
                Some(m)
            }
        },
        None => None,
    }
}

// ---------------------------------------------------------------- the builder

/// Collects the text of a number while it is read, with whether it is an
/// integer or a float.
pub struct NumberBuilder {
    buff: Vec<u8>,
    ty: Number<(), ()>,
}

impl NumberBuilder {
    /// The text collected so far.
    pub closed spec fn rep(&self) -> Seq<u8> {
        self.buff@
    }

    /// Whether a fraction dot or an exponent mark was seen.
    pub closed spec fn is_float(&self) -> bool {
        self.ty is Float
    }

    pub fn new() -> (r: Self)
        ensures
            r.rep() == Seq::<u8>::empty(),
            !r.is_float(),
    {
        Self { buff: Vec::new(), ty: Number::Integer(()) }
    }

    pub fn ty(&self) -> (r: &Number<(), ()>)
        ensures
            (r is Float) == self.is_float(),
    {
        &self.ty
    }

    /// The collected text.
    pub fn representation(&self) -> (r: &[u8])
        ensures
            r@ == self.rep(),
    {
        self.buff.as_slice()
    }

    /// Converts the collected text into a `T`.
    pub fn build<T: FromNumberBuilder>(self) -> (r: Result<T, ConvertError>)
        ensures
            r is Ok <==> T::accepts(self.rep(), self.is_float()),
            r matches Ok(v) ==> T::converts_to(self.rep(), self.is_float(), v),
            r matches Err(e) ==> e == T::rejection(self.is_float()),
    {
        T::from_number_builder(self)
    }

    pub fn push(&mut self, c: u8)
        ensures
            final(self).rep() == old(self).rep().push(c),
            final(self).is_float() == old(self).is_float(),
    {
        self.buff.push(c)
    }

    pub fn extend_from_slice(&mut self, slice: &[u8])
        ensures
            final(self).rep() == old(self).rep() + slice@,
            final(self).is_float() == old(self).is_float(),
    {
        let mut i: usize = 0;
        while i < slice.len()
            invariant
                0 <= i <= slice.len(),
                self.rep() == old(self).rep() + slice@.take(i as int),
                self.is_float() == old(self).is_float(),
            decreases slice.len() - i,
        {
            assert(slice@.take(i + 1) =~= slice@.take(i as int).push(slice@[i as int]));
            self.buff.push(slice[i]);
            i = i + 1;
        }
        assert(slice@.take(i as int) =~= slice@);
    }

    /// Records the dot of a fraction: the number becomes a float.
    pub fn visit_fraction_dot(&mut self, dot: u8)
        ensures
            final(self).rep() == old(self).rep().push(dot),
            final(self).is_float(),
    {
        self.ty = Number::Float(());
        self.buff.push(dot)
    }

    /// Records the mark of an exponent: the number becomes a float.
    pub fn visit_exponent_e(&mut self, exp: u8)
        ensures
            final(self).rep() == old(self).rep().push(exp),
            final(self).is_float(),
    {
        self.ty = Number::Float(());
        self.buff.push(exp)
    }
}

/// One step of collecting the text of a number: a byte pushed, bytes
/// pushed, the dot of a fraction, or the mark of an exponent.
pub enum BuildStep {
    Push(u8),
    Extend(Seq<u8>),
    FractionDot(u8),
    ExponentE(u8),
}

/// The bytes that a step adds to the text.
pub open spec fn step_text(step: BuildStep) -> Seq<u8> {
    match step {
        BuildStep::Push(c) => seq![c],
        BuildStep::Extend(b) => b,
        BuildStep::FractionDot(c) => seq![c],
        BuildStep::ExponentE(c) => seq![c],
    }
}

/// Whether a step makes the number a float.
pub open spec fn marks_float(step: BuildStep) -> bool {
    step is FractionDot || step is ExponentE
}

/// The bytes that the steps add, in order.
pub open spec fn steps_text(steps: Seq<BuildStep>) -> Seq<u8>
    decreases steps.len(),
{
    if steps.len() == 0 {
        Seq::empty()
    } else {
        steps_text(steps.drop_last()) + step_text(steps.last())
    }
}

/// What the contracts of `push`, `extend_from_slice`, `visit_fraction_dot`
/// and `visit_exponent_e` say of one call: `after` is `before` with `step`
/// taken.
pub open spec fn steps_to(before: NumberBuilder, step: BuildStep, after: NumberBuilder) -> bool {
    &&& after.rep() == before.rep() + step_text(step)
    &&& after.is_float() == (before.is_float() || marks_float(step))
}

/// A builder made by `new` and taken through any sequence of steps holds the
/// bytes of the steps, in order, and is a float exactly when one of the
/// steps was the dot of a fraction or the mark of an exponent.
pub proof fn lemma_float_exactly_when_marked(states: Seq<NumberBuilder>, steps: Seq<BuildStep>)
    requires
        states.len() == steps.len() + 1,
        states[0].rep() == Seq::<u8>::empty(),
        !states[0].is_float(),
        forall|i: int| 0 <= i < steps.len() ==> steps_to(states[i], #[trigger] steps[i], states[i + 1]),
    ensures
        states.last().rep() == steps_text(steps),
        states.last().is_float() <==> exists|i: int| 0 <= i < steps.len() && marks_float(#[trigger] steps[i]),
    decreases steps.len(),
{
    if steps.len() > 0 {
        let n = steps.len() - 1;
        let fewer = steps.drop_last();
        let earlier = states.drop_last();
        assert forall|i: int| 0 <= i < fewer.len() implies steps_to(earlier[i], #[trigger] fewer[i], earlier[i + 1]) by {
            assert(steps_to(states[i], steps[i], states[i + 1]));
        }
        lemma_float_exactly_when_marked(earlier, fewer);
        assert(steps_to(states[n], steps[n], states[n + 1]));
        if states.last().is_float() && !marks_float(steps[n]) {
            let i = choose|i: int| 0 <= i < fewer.len() && marks_float(#[trigger] fewer[i]);
            assert(marks_float(steps[i]));
        }
        if exists|i: int| 0 <= i < steps.len() && marks_float(#[trigger] steps[i]) {
            let i = choose|i: int| 0 <= i < steps.len() && marks_float(#[trigger] steps[i]);
            if i < n {
                assert(marks_float(fewer[i]));
            }
        }
    }
}

impl Default for NumberBuilder {
    fn default() -> (r: Self)
        ensures
            r.rep() == Seq::<u8>::empty(),
            !r.is_float(),
    {
        Self::new()
    }
}

// ---------------------------------------------------------------- conversions

/// A type that the text of a number converts into.
pub trait FromNumberBuilder: Sized {
    /// Whether the text `rep`, read as a float when `is_float` holds, converts.
    spec fn accepts(rep: Seq<u8>, is_float: bool) -> bool;

    /// Whether `v` is what the text converts to.
    spec fn converts_to(rep: Seq<u8>, is_float: bool, v: Self) -> bool;

    /// The error for a text that does not convert.
    spec fn rejection(is_float: bool) -> ConvertError;

    fn from_number_builder(builder: NumberBuilder) -> (r: Result<Self, ConvertError>)
        ensures
            r is Ok <==> Self::accepts(builder.rep(), builder.is_float()),
            r matches Ok(v) ==> Self::converts_to(builder.rep(), builder.is_float(), v),
            r matches Err(e) ==> e == Self::rejection(builder.is_float()),
    ;
}

impl FromNumberBuilder for u8 {
    open spec fn accepts(rep: Seq<u8>, is_float: bool) -> bool {
        integer_in_range(rep, false, u8::MIN as int, u8::MAX as int)
    }

    open spec fn converts_to(rep: Seq<u8>, is_float: bool, v: Self) -> bool {
        parse_integer(rep, false) == Some(v as int)
    }

    open spec fn rejection(is_float: bool) -> ConvertError {
        ConvertError::InvalidIntegerConvert
    }

    fn from_number_builder(builder: NumberBuilder) -> (r: Result<Self, ConvertError>) {
        match unsigned_value(builder.representation()) {
            Some(v) if v <= u8::MAX as u128 => Ok(v as u8),
            _ => Err(ConvertError::InvalidIntegerConvert),
        }
    }
}

impl FromNumberBuilder for u16 {
    open spec fn accepts(rep: Seq<u8>, is_float: bool) -> bool {
        integer_in_range(rep, false, u16::MIN as int, u16::MAX as int)
    }

    open spec fn converts_to(rep: Seq<u8>, is_float: bool, v: Self) -> bool {
        parse_integer(rep, false) == Some(v as int)
    }

    open spec fn rejection(is_float: bool) -> ConvertError {
        ConvertError::InvalidIntegerConvert
    }

    fn from_number_builder(builder: NumberBuilder) -> (r: Result<Self, ConvertError>) {
        match unsigned_value(builder.representation()) {
            Some(v) if v <= u16::MAX as u128 => Ok(v as u16),
            _ => Err(ConvertError::InvalidIntegerConvert),
        }
    }
}

impl FromNumberBuilder for u32 {
    open spec fn accepts(rep: Seq<u8>, is_float: bool) -> bool {
        integer_in_range(rep, false, u32::MIN as int, u32::MAX as int)
    }

    open spec fn converts_to(rep: Seq<u8>, is_float: bool, v: Self) -> bool {
        parse_integer(rep, false) == Some(v as int)
    }

    open spec fn rejection(is_float: bool) -> ConvertError {
        ConvertError::InvalidIntegerConvert
    }

    fn from_number_builder(builder: NumberBuilder) -> (r: Result<Self, ConvertError>) {
        match unsigned_value(builder.representation()) {
            Some(v) if v <= u32::MAX as u128 => Ok(v as u32),
            _ => Err(ConvertError::InvalidIntegerConvert),
        }
    }
}

impl FromNumberBuilder for u64 {
    open spec fn accepts(rep: Seq<u8>, is_float: bool) -> bool {
        integer_in_range(rep, false, u64::MIN as int, u64::MAX as int)
    }

    open spec fn converts_to(rep: Seq<u8>, is_float: bool, v: Self) -> bool {
        parse_integer(rep, false) == Some(v as int)
    }

    open spec fn rejection(is_float: bool) -> ConvertError {
        ConvertError::InvalidIntegerConvert
    }

    fn from_number_builder(builder: NumberBuilder) -> (r: Result<Self, ConvertError>) {
        match unsigned_value(builder.representation()) {
            Some(v) if v <= u64::MAX as u128 => Ok(v as u64),
            _ => Err(ConvertError::InvalidIntegerConvert),
        }
    }
}

impl FromNumberBuilder for u128 {
    open spec fn accepts(rep: Seq<u8>, is_float: bool) -> bool {
        integer_in_range(rep, false, u128::MIN as int, u128::MAX as int)
    }

    open spec fn converts_to(rep: Seq<u8>, is_float: bool, v: Self) -> bool {
        parse_integer(rep, false) == Some(v as int)
    }

    open spec fn rejection(is_float: bool) -> ConvertError {
        ConvertError::InvalidIntegerConvert
    }

    fn from_number_builder(builder: NumberBuilder) -> (r: Result<Self, ConvertError>) {
        match unsigned_value(builder.representation()) {
            Some(v) => Ok(v),
            None => Err(ConvertError::InvalidIntegerConvert),
        }
    }
}

impl FromNumberBuilder for i8 {
    open spec fn accepts(rep: Seq<u8>, is_float: bool) -> bool {
        integer_in_range(rep, true, i8::MIN as int, i8::MAX as int)
    }

    open spec fn converts_to(rep: Seq<u8>, is_float: bool, v: Self) -> bool {
        parse_integer(rep, true) == Some(v as int)
    }

    open spec fn rejection(is_float: bool) -> ConvertError {
        ConvertError::InvalidIntegerConvert
    }

    fn from_number_builder(builder: NumberBuilder) -> (r: Result<Self, ConvertError>) {
        match signed_value(builder.representation()) {
            Some(v) if i8::MIN as i128 <= v && v <= i8::MAX as i128 => Ok(v as i8),
            _ => Err(ConvertError::InvalidIntegerConvert),
        }
    }
}

impl FromNumberBuilder for i16 {
    open spec fn accepts(rep: Seq<u8>, is_float: bool) -> bool {
        integer_in_range(rep, true, i16::MIN as int, i16::MAX as int)
    }

    open spec fn converts_to(rep: Seq<u8>, is_float: bool, v: Self) -> bool {
        parse_integer(rep, true) == Some(v as int)
    }

    open spec fn rejection(is_float: bool) -> ConvertError {
        ConvertError::InvalidIntegerConvert
    }

    fn from_number_builder(builder: NumberBuilder) -> (r: Result<Self, ConvertError>) {
        match signed_value(builder.representation()) {
            Some(v) if i16::MIN as i128 <= v && v <= i16::MAX as i128 => Ok(v as i16),
            _ => Err(ConvertError::InvalidIntegerConvert),
        }
    }
}

impl FromNumberBuilder for i32 {
    open spec fn accepts(rep: Seq<u8>, is_float: bool) -> bool {
        integer_in_range(rep, true, i32::MIN as int, i32::MAX as int)
    }

    open spec fn converts_to(rep: Seq<u8>, is_float: bool, v: Self) -> bool {
        parse_integer(rep, true) == Some(v as int)
    }

    open spec fn rejection(is_float: bool) -> ConvertError {
        ConvertError::InvalidIntegerConvert
    }

    fn from_number_builder(builder: NumberBuilder) -> (r: Result<Self, ConvertError>) {
        match signed_value(builder.representation()) {
            Some(v) if i32::MIN as i128 <= v && v <= i32::MAX as i128 => Ok(v as i32),
            _ => Err(ConvertError::InvalidIntegerConvert),
        }
    }
}

impl FromNumberBuilder for i64 {
    open spec fn accepts(rep: Seq<u8>, is_float: bool) -> bool {
        integer_in_range(rep, true, i64::MIN as int, i64::MAX as int)
    }

    open spec fn converts_to(rep: Seq<u8>, is_float: bool, v: Self) -> bool {
        parse_integer(rep, true) == Some(v as int)
    }

    open spec fn rejection(is_float: bool) -> ConvertError {
        ConvertError::InvalidIntegerConvert
    }

    fn from_number_builder(builder: NumberBuilder) -> (r: Result<Self, ConvertError>) {
        match signed_value(builder.representation()) {
            Some(v) if i64::MIN as i128 <= v && v <= i64::MAX as i128 => Ok(v as i64),
            _ => Err(ConvertError::InvalidIntegerConvert),
        }
    }
}

impl FromNumberBuilder for i128 {
    open spec fn accepts(rep: Seq<u8>, is_float: bool) -> bool {
        integer_in_range(rep, true, i128::MIN as int, i128::MAX as int)
    }

    open spec fn converts_to(rep: Seq<u8>, is_float: bool, v: Self) -> bool {
        parse_integer(rep, true) == Some(v as int)
    }

    open spec fn rejection(is_float: bool) -> ConvertError {
        ConvertError::InvalidIntegerConvert
    }

    fn from_number_builder(builder: NumberBuilder) -> (r: Result<Self, ConvertError>) {
        match signed_value(builder.representation()) {
            Some(v) => Ok(v),
            None => Err(ConvertError::InvalidIntegerConvert),
        }
    }
}

/// Whether the text of a number ends with a digit: an exponent mark, or its
/// sign, with no digit after it leaves the text no number (std's float
/// parsing refuses it).
pub open spec fn ends_with_digit(rep: Seq<u8>) -> bool {
    rep.len() > 0 && is_digit(rep.last())
}

/// The text of the number itself, kept as it was written, when it is a
/// whole number text.
impl FromNumberBuilder for String {
    open spec fn accepts(rep: Seq<u8>, is_float: bool) -> bool {
        valid_utf8(rep) && ends_with_digit(rep)
    }

    open spec fn converts_to(rep: Seq<u8>, is_float: bool, v: Self) -> bool {
        v@ == decode_utf8(rep)
    }

    open spec fn rejection(is_float: bool) -> ConvertError {
        ConvertError::InvalidFloatConvert
    }

    fn from_number_builder(builder: NumberBuilder) -> (r: Result<Self, ConvertError>) {
        let rep = builder.representation();
        if rep.len() == 0 || !is_ascii_digit(rep[rep.len() - 1]) {
            return Err(ConvertError::InvalidFloatConvert);
        }
        match string_from_utf8(rep) {
            Some(s) => Ok(s),
            None => Err(ConvertError::InvalidFloatConvert),
        }
    }
}

/// An integer when the text is one, a float otherwise.
impl<I: FromNumberBuilder, F: FromNumberBuilder> FromNumberBuilder for Number<I, F> {
    open spec fn accepts(rep: Seq<u8>, is_float: bool) -> bool {
        if is_float {
            F::accepts(rep, true)
        } else {
            I::accepts(rep, false)
        }
    }

    open spec fn converts_to(rep: Seq<u8>, is_float: bool, v: Self) -> bool {
        match v {
            Number::Integer(i) => !is_float && I::converts_to(rep, false, i),
            Number::Float(f) => is_float && F::converts_to(rep, true, f),
        }
    }

    open spec fn rejection(is_float: bool) -> ConvertError {
        if is_float {
            F::rejection(true)
        } else {
            I::rejection(false)
        }
    }

    fn from_number_builder(builder: NumberBuilder) -> (r: Result<Self, ConvertError>) {
        let float = match builder.ty() {
            Number::Integer(()) => false,
            Number::Float(()) => true,
        };
        if float {
            match F::from_number_builder(builder) {
                Ok(f) => Ok(Number::Float(f)),
                Err(e) => Err(e),
            }
        } else {
            match I::from_number_builder(builder) {
                Ok(i) => Ok(Number::Integer(i)),
                Err(e) => Err(e),
            }
        }
    }
}

} // verus!
