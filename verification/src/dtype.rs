//! Logical types: the physical-width class of a primitive column and the
//! encoding-independent type of an array.

use vstd::prelude::*;

verus! {

/// The physical-width class of an integer column.
#[derive(Clone, Copy, Debug, PartialEq, Eq, Structural)]
pub enum PType {
    U8,
    U16,
    U32,
    U64,
    I8,
    I16,
    I32,
    I64,
}

impl PType {
    /// Number of bits of one element.
    pub open spec fn spec_bit_width(self) -> nat {
        match self {
            PType::U8 | PType::I8 => 8,
            PType::U16 | PType::I16 => 16,
            PType::U32 | PType::I32 => 32,
            PType::U64 | PType::I64 => 64,
        }
    }

    /// Two to the power of the bit width: the number of distinct values.
    pub open spec fn modulus(self) -> int {
        match self {
            PType::U8 | PType::I8 => 0x100,
            PType::U16 | PType::I16 => 0x1_0000,
            PType::U32 | PType::I32 => 0x1_0000_0000,
            PType::U64 | PType::I64 => 0x1_0000_0000_0000_0000,
        }
    }

    pub open spec fn spec_is_signed_int(self) -> bool {
        self is I8 || self is I16 || self is I32 || self is I64
    }

    /// The unsigned type of the same width.
    pub open spec fn spec_to_unsigned(self) -> PType {
        match self {
            PType::U8 | PType::I8 => PType::U8,
            PType::U16 | PType::I16 => PType::U16,
            PType::U32 | PType::I32 => PType::U32,
            PType::U64 | PType::I64 => PType::U64,
        }
    }

    /// Smallest value of the type.
    pub open spec fn min_value(self) -> int {
        if self.spec_is_signed_int() {
            -(self.modulus() / 2)
        } else {
            0
        }
    }

    /// Largest value of the type.
    pub open spec fn max_value(self) -> int {
        if self.spec_is_signed_int() {
            self.modulus() / 2 - 1
        } else {
            self.modulus() - 1
        }
    }

    /// Whether `v` is a value of the type.
    pub open spec fn holds(self, v: int) -> bool {
        self.min_value() <= v <= self.max_value()
    }

    /// The value of the type that is congruent to `x` modulo two to the bit
    /// width: what fixed-width arithmetic yields where the exact result is `x`.
    pub open spec fn wrap(self, x: int) -> int {
        let m = x % self.modulus();
        if m > self.max_value() {
            m - self.modulus()
        } else {
            m
        }
    }

    #[verifier::when_used_as_spec(spec_bit_width_u32)]
    pub fn bit_width(self) -> (w: u32)
        ensures
            w == self.spec_bit_width(),
    {
        match self {
            PType::U8 | PType::I8 => 8,
            PType::U16 | PType::I16 => 16,
            PType::U32 | PType::I32 => 32,
            PType::U64 | PType::I64 => 64,
        }
    }

    pub open spec fn spec_bit_width_u32(self) -> u32 {
        self.spec_bit_width() as u32
    }

    /// Number of bytes of one element.
    pub fn byte_width(self) -> (w: usize)
        ensures
            w * 8 == self.spec_bit_width(),
    {
        match self {
            PType::U8 | PType::I8 => 1,
            PType::U16 | PType::I16 => 2,
            PType::U32 | PType::I32 => 4,
            PType::U64 | PType::I64 => 8,
        }
    }

    #[verifier::when_used_as_spec(spec_is_signed_int)]
    pub fn is_signed_int(self) -> (b: bool)
        ensures
            b == self.spec_is_signed_int(),
    {
        match self {
            PType::I8 | PType::I16 | PType::I32 | PType::I64 => true,
            _ => false,
        }
    }

    #[verifier::when_used_as_spec(spec_to_unsigned)]
    pub fn to_unsigned(self) -> (u: PType)
        ensures
            u == self.spec_to_unsigned(),
    {
        match self {
            PType::U8 | PType::I8 => PType::U8,
            PType::U16 | PType::I16 => PType::U16,
            PType::U32 | PType::I32 => PType::U32,
            PType::U64 | PType::I64 => PType::U64,
        }
    }

    /// Two to the power of the bit width, as a machine integer.
    pub fn modulus_i128(self) -> (m: i128)
        ensures
            m == self.modulus(),
    {
        match self {
            PType::U8 | PType::I8 => 0x100,
            PType::U16 | PType::I16 => 0x1_0000,
            PType::U32 | PType::I32 => 0x1_0000_0000,
            PType::U64 | PType::I64 => 0x1_0000_0000_0000_0000,
        }
    }

    /// Smallest value, as a machine integer.
    pub fn min_i128(self) -> (v: i128)
        ensures
            v == self.min_value(),
    {
        match self {
            PType::I8 => -0x80,
            PType::I16 => -0x8000,
            PType::I32 => -0x8000_0000,
            PType::I64 => -0x8000_0000_0000_0000,
            _ => 0,
        }
    }

    /// Largest value, as a machine integer.
    pub fn max_i128(self) -> (v: i128)
        ensures
            v == self.max_value(),
    {
        match self {
            PType::U8 => 0xff,
            PType::U16 => 0xffff,
            PType::U32 => 0xffff_ffff,
            PType::U64 => 0xffff_ffff_ffff_ffff,
            PType::I8 => 0x7f,
            PType::I16 => 0x7fff,
            PType::I32 => 0x7fff_ffff,
            PType::I64 => 0x7fff_ffff_ffff_ffff,
        }
    }

    /// Whether `v` is a value of the type.
    pub fn contains(self, v: i128) -> (b: bool)
        ensures
            b == self.holds(v as int),
    {
        self.min_i128() <= v && v <= self.max_i128()
    }
}


/// The mathematical content of a [`DType`]: names as character sequences,
/// children as a sequence.
pub enum DTypeView {
    Primitive(PType, bool),
    Utf8(bool),
    Struct(Seq<Seq<char>>, Seq<DTypeView>),
}

impl DTypeView {
    /// Whether values of the type may be null. A struct type is never
    /// nullable itself.
    pub open spec fn nullability(self) -> bool {
        match self {
            DTypeView::Primitive(_, n) => n,
            DTypeView::Utf8(n) => n,
            DTypeView::Struct(_, _) => false,
        }
    }

    /// The type that differs from this one in nullability alone.
    pub open spec fn with_nullability(self, nullable: bool) -> DTypeView {
        match self {
            DTypeView::Primitive(p, _) => DTypeView::Primitive(p, nullable),
            DTypeView::Utf8(_) => DTypeView::Utf8(nullable),
            DTypeView::Struct(names, fields) => DTypeView::Struct(names, fields),
        }
    }
}

/// The logical type of an array: what its values are, whatever encoding holds
/// them. The flag of a primitive or text type says whether nulls may occur.
/// The order of a struct's fields is part of the type.
#[derive(Debug)]
pub enum DType {
    Primitive(PType, bool),
    Utf8(bool),
    Struct(Vec<String>, Vec<DType>),
}

/// The character sequences of a list of names.
pub open spec fn names_view(names: Seq<String>) -> Seq<Seq<char>> {
    Seq::new(names.len(), |i: int| names[i]@)
}

impl View for DType {
    type V = DTypeView;

    open spec fn view(&self) -> DTypeView
        decreases self,
    {
        match self {
            DType::Primitive(p, n) => DTypeView::Primitive(*p, *n),
            DType::Utf8(n) => DTypeView::Utf8(*n),
            DType::Struct(names, fields) => DTypeView::Struct(
                names_view(names@),
                Seq::new(
                    fields.len() as nat,
                    |i: int|
                        if 0 <= i < fields.len() {
                            fields[i]@
                        } else {
                            DTypeView::Utf8(false)
                        },
                ),
            ),
        }
    }
}


/// A copy of a list of names.
pub fn clone_names(names: &Vec<String>) -> (r: Vec<String>)
    ensures
        r@ == names@,
{
    let mut r: Vec<String> = Vec::new();
    let mut i: usize = 0;
    while i < names.len()
        invariant
            i <= names.len(),
            r@ == names@.take(i as int),
        decreases names.len() - i,
    {
        r.push(names[i].clone());
        i += 1;
    }
    assert(names@.take(names.len() as int) == names@);
    r
}

impl DType {
    /// Whether values of the type may be null.
    pub fn nullability(&self) -> (n: bool)
        ensures
            n == self@.nullability(),
    {
        match self {
            DType::Primitive(_, n) => *n,
            DType::Utf8(n) => *n,
            DType::Struct(_, _) => false,
        }
    }

    /// The type that differs from this one in nullability alone.
    pub fn with_nullability(self, nullable: bool) -> (d: DType)
        ensures
            d@ == self@.with_nullability(nullable),
    {
        match self {
            DType::Primitive(p, _) => DType::Primitive(p, nullable),
            DType::Utf8(_) => DType::Utf8(nullable),
            DType::Struct(names, fields) => DType::Struct(names, fields),
        }
    }
}

} // verus!
