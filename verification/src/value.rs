//! A type-erased metric sample value, used where dynamic dispatch over
//! [`crate::erased::MetricGroup`] needs to carry a scalar reading (e.g. a
//! gauge's current value) without naming a concrete type.

use vstd::prelude::*;
use crate::float;
use crate::sink;
use crate::sink::FormatError;
use crate::sink::TextSink;
use crate::text;

verus! {

/// The bits of positive infinity in IEEE 754 double precision.
pub const INFINITY_BITS: u64 = 0x7ff0_0000_0000_0000;

/// The bits of negative infinity in IEEE 754 double precision.
pub const NEG_INFINITY_BITS: u64 = 0xfff0_0000_0000_0000;

/// The bit that holds the sign in IEEE 754 double precision.
pub const SIGN_BIT: u64 = 0x8000_0000_0000_0000;

/// A double-precision reading as plain values: its IEEE 754 bits, and its
/// decimal text, which only counts where the reading is finite.
#[derive(Debug)]
pub struct FloatSample {
    /// The IEEE 754 bits.
    pub bits: u64,
    /// The shortest decimal text that reads back as the same number.
    pub shown: String,
}

/// Whether `bits` encode a NaN: a full exponent and a mantissa other than zero.
pub open spec fn is_nan_bits(bits: u64) -> bool {
    bits % SIGN_BIT > INFINITY_BITS
}

/// Whether two doubles are equal as numbers: the two zeros are, and a NaN is
/// equal to nothing, itself included.
impl vstd::std_specs::cmp::PartialEqSpecImpl for FloatSample {
    open spec fn obeys_eq_spec() -> bool {
        true
    }

    open spec fn eq_spec(&self, other: &Self) -> bool {
        &&& !is_nan_bits(self.bits)
        &&& !is_nan_bits(other.bits)
        &&& float::order(self.bits) == float::order(other.bits)
    }
}

impl PartialEq for FloatSample {
    fn eq(&self, other: &Self) -> (same: bool) {
        if self.bits % SIGN_BIT > INFINITY_BITS || other.bits % SIGN_BIT > INFINITY_BITS {
            return false;
        }
        self.bits == other.bits || (self.bits % SIGN_BIT == 0 && other.bits % SIGN_BIT == 0)
    }
}

impl Clone for FloatSample {
    fn clone(&self) -> (copy: Self)
        ensures
            copy == *self,
    {
        FloatSample { bits: self.bits, shown: self.shown.clone() }
    }
}

/// A single Prometheus sample value.
#[derive(Debug)]
pub enum Value {
    /// An unsigned integer.
    U64(u64),
    /// A signed integer.
    I64(i64),
    /// A floating-point number.
    F64(FloatSample),
}

/// Whether two sample values are of the same type and equal as numbers.
impl vstd::std_specs::cmp::PartialEqSpecImpl for Value {
    open spec fn obeys_eq_spec() -> bool {
        true
    }

    open spec fn eq_spec(&self, other: &Self) -> bool {
        match (*self, *other) {
            (Value::U64(a), Value::U64(b)) => a == b,
            (Value::I64(a), Value::I64(b)) => a == b,
            (Value::F64(a), Value::F64(b)) => {
                &&& !is_nan_bits(a.bits)
                &&& !is_nan_bits(b.bits)
                &&& float::order(a.bits) == float::order(b.bits)
            },
            _ => false,
        }
    }
}

impl PartialEq for Value {
    fn eq(&self, other: &Self) -> (same: bool) {
        match (self, other) {
            (Value::U64(a), Value::U64(b)) => *a == *b,
            (Value::I64(a), Value::I64(b)) => *a == *b,
            (Value::F64(a), Value::F64(b)) => *a == *b,
            _ => false,
        }
    }
}

impl Clone for Value {
    fn clone(&self) -> (copy: Self)
        ensures
            copy == *self,
    {
        match self {
            Value::U64(n) => Value::U64(*n),
            Value::I64(n) => Value::I64(*n),
            Value::F64(f) => Value::F64(f.clone()),
        }
    }
}

/// How a sample value is written: integers in decimal, infinities as `+Inf`
/// and `-Inf`, not-a-number as `NaN`, other floats as their decimal text.
pub open spec fn value_text(v: Value) -> Seq<char> {
    match v {
        Value::U64(n) => text::decimal(n as nat),
        Value::I64(n) => text::signed_decimal(n as int),
        Value::F64(f) => if is_nan_bits(f.bits) {
            "NaN"@
        } else if f.bits == INFINITY_BITS {
            "+Inf"@
        } else if f.bits == NEG_INFINITY_BITS {
            "-Inf"@
        } else {
            f.shown@
        },
    }
}

/// The pieces that a sample value is written in: a `-` on its own before the
/// digits of a negative integer.
pub open spec fn value_pieces(v: Value) -> Seq<Seq<char>> {
    match v {
        Value::U64(n) => sink::number_pieces(n as int),
        Value::I64(n) => sink::number_pieces(n as int),
        Value::F64(_) => seq![value_text(v)],
    }
}

/// The pieces of a sample value are its text.
pub proof fn lemma_value_pieces(v: Value)
    ensures
        text::joined(value_pieces(v)) == value_text(v),
{
    match v {
        Value::U64(n) => sink::lemma_number_pieces(n as int),
        Value::I64(n) => sink::lemma_number_pieces(n as int),
        Value::F64(_) => text::lemma_joined_one(value_text(v)),
    }
}

impl Value {
    /// Write this value per the exposition format: the usual decimal text of
    /// an infinity is `inf`, which Prometheus does not accept — this
    /// normalizes to `+Inf` / `-Inf` / `NaN`. Integers are written as plain
    /// decimal.
    pub fn write_prom<W: TextSink>(&self, out: &mut W) -> (r: Result<(), FormatError>)
        requires
            old(out).wf(),
        ensures
            sink::wrote(*old(out), *final(out), value_pieces(*self), r),
    {
        match self {
            Value::U64(n) => sink::write_u64(out, *n),
            Value::I64(n) => sink::write_i64(out, *n),
            Value::F64(f) => {
                if f.bits % SIGN_BIT > INFINITY_BITS {
                    sink::put_str(out, "NaN")
                } else if f.bits == INFINITY_BITS {
                    sink::put_str(out, "+Inf")
                } else if f.bits == NEG_INFINITY_BITS {
                    sink::put_str(out, "-Inf")
                } else {
                    sink::put_str(out, f.shown.as_str())
                }
            },
        }
    }
}

/// A sample value is written as the number it is: an integer in decimal, a
/// double with a full exponent as `NaN` where it has a mantissa and as `+Inf`
/// or `-Inf` by its sign where it has none, and any other double as its own
/// decimal text.
pub proof fn law_values_are_written_as_numbers(v: Value)
    ensures
        match v {
            Value::U64(n) => value_text(v) == text::decimal(n as nat),
            Value::I64(n) => value_text(v) == if n < 0 {
                seq!['-'] + text::decimal((-n) as nat)
            } else {
                text::decimal(n as nat)
            },
            Value::F64(f) => {
                let exponent = (f.bits / 0x10_0000_0000_0000) % 0x800;
                let mantissa = f.bits % 0x10_0000_0000_0000;
                value_text(v) == if exponent == 0x7ff && mantissa != 0 {
                    "NaN"@
                } else if exponent == 0x7ff && f.bits < 0x8000_0000_0000_0000 {
                    "+Inf"@
                } else if exponent == 0x7ff {
                    "-Inf"@
                } else {
                    f.shown@
                }
            },
        },
{
    if let Value::F64(f) = v {
        let bits = f.bits;
        assert((bits % 0x8000_0000_0000_0000u64 > 0x7ff0_0000_0000_0000u64) == ((bits
            / 0x10_0000_0000_0000u64) % 0x800u64 == 0x7ff && bits % 0x10_0000_0000_0000u64 != 0))
            by (bit_vector);
        assert((bits == 0x7ff0_0000_0000_0000u64 || bits == 0xfff0_0000_0000_0000u64) == ((bits
            / 0x10_0000_0000_0000u64) % 0x800u64 == 0x7ff && bits % 0x10_0000_0000_0000u64 == 0))
            by (bit_vector);
    }
}

/// A sink is handed the text of a sample value in one piece, but for the `-`
/// of a negative integer, which is a piece of its own.
pub proof fn law_values_are_written_in_pieces<W: TextSink>()
    ensures
        forall|v: &Value, out: &mut W, r: Result<(), FormatError>| #[trigger]
            call_ensures(Value::write_prom::<W>, (v, out), r) ==> sink::wrote(
                *out,
                *final(out),
                match *v {
                    Value::I64(n) => if n < 0 {
                        seq![seq!['-'], text::decimal((-n) as nat)]
                    } else {
                        seq![text::decimal(n as nat)]
                    },
                    Value::U64(n) => seq![text::decimal(n as nat)],
                    Value::F64(_) => seq![value_text(*v)],
                },
                r,
            ),
{
}

/// Doubles are equal where neither is a NaN and they have the same bits or are
/// both zero; integers where they are the same; and values of different types
/// never.
pub proof fn law_values_are_equal_as_numbers(a: Value, b: Value)
    ensures
        vstd::std_specs::cmp::PartialEqSpec::eq_spec(&a, &b) == match (a, b) {
            (Value::U64(m), Value::U64(n)) => m == n,
            (Value::I64(m), Value::I64(n)) => m == n,
            (Value::F64(x), Value::F64(y)) => {
                let nan_x = x.bits % 0x8000_0000_0000_0000 > 0x7ff0_0000_0000_0000;
                let nan_y = y.bits % 0x8000_0000_0000_0000 > 0x7ff0_0000_0000_0000;
                let zero_x = x.bits % 0x8000_0000_0000_0000 == 0;
                let zero_y = y.bits % 0x8000_0000_0000_0000 == 0;
                !nan_x && !nan_y && (x.bits == y.bits || (zero_x && zero_y))
            },
            _ => false,
        },
        a matches Value::F64(x) ==> (b matches Value::F64(y) ==> (
        vstd::std_specs::cmp::PartialEqSpec::eq_spec(&x, &y)
            == vstd::std_specs::cmp::PartialEqSpec::eq_spec(&a, &b))),
{
}

/// A copy of a sample value is the same value, and two are compared by what
/// they are as numbers.
pub proof fn law_values_are_copied_and_compared<'a>()
    ensures
        forall|v: &'a Value, copy: Value| #[trigger]
            call_ensures(Value::clone, (v,), copy) ==> copy == *v,
        forall|f: &'a FloatSample, copy: FloatSample| #[trigger]
            call_ensures(FloatSample::clone, (f,), copy) ==> copy == *f,
        forall|a: &'a FloatSample, b: &'a FloatSample, same: bool| #[trigger]
            call_ensures(FloatSample::eq, (a, b), same) ==> {
                let nan_a = a.bits % 0x8000_0000_0000_0000 > 0x7ff0_0000_0000_0000;
                let nan_b = b.bits % 0x8000_0000_0000_0000 > 0x7ff0_0000_0000_0000;
                let zero_a = a.bits % 0x8000_0000_0000_0000 == 0;
                let zero_b = b.bits % 0x8000_0000_0000_0000 == 0;
                same <==> !nan_a && !nan_b && (a.bits == b.bits || (zero_a && zero_b))
            },
        forall|a: &'a Value, b: &'a Value, same: bool| #[trigger]
            call_ensures(Value::eq, (a, b), same) ==> match (*a, *b) {
                (Value::U64(m), Value::U64(n)) => same == (m == n),
                (Value::I64(m), Value::I64(n)) => same == (m == n),
                (Value::F64(x), Value::F64(y)) => same
                    == vstd::std_specs::cmp::PartialEqSpec::eq_spec(&x, &y),
                _ => !same,
            },
{
}

} // verus!
