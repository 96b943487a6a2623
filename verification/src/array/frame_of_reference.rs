//! The frame-of-reference encoding: integers held as narrow unsigned offsets
//! from one reference value, shifted left on the way back.

use vstd::prelude::*;
use vstd::arithmetic::power2::*;
use vstd::bits::*;
use crate::array::primitive::PrimitiveArray;
use crate::array::{capped, in_bounds, Array, Canonical};
use crate::dtype::{DType, DTypeView, PType};
use crate::error::EncError;
use crate::scalar::{Scalar, Value};
use crate::validity::LogicalValidity;

verus! {

/// The integer that an offset stands for: the offset times two to the power
/// of `shift`, plus the reference, in the arithmetic of the target type.
/// Bits shifted beyond the width of the type are lost, and the sum wraps.
pub open spec fn for_decode(ptype: PType, child: int, reference: int, shift: nat) -> int {
    ptype.wrap(child * pow2(shift) + reference)
}

/// The values of a frame-of-reference array over the given offsets: null
/// where the offset is null, decoded elsewhere.
pub open spec fn for_values(ptype: PType, child: Seq<Value>, reference: int, shift: nat) -> Seq<
    Value,
> {
    Seq::new(
        child.len(),
        |i: int|
            match child[i] {
                Value::Int(c) => Value::Int(for_decode(ptype, c, reference, shift)),
                _ => Value::Null,
            },
    )
}

/// An offset decodes to the very integer that it was made from: where `v`
/// is a value of the type and equals the shifted offset plus the reference in
/// the arithmetic of that type, decoding returns `v`.
pub proof fn lemma_round_trip(ptype: PType, v: int, child: int, reference: int, shift: nat)
    requires
        ptype.holds(v),
        (v - (child * pow2(shift) + reference)) % ptype.modulus() == 0,
    ensures
        for_decode(ptype, child, reference, shift) == v,
{
    let exact = child * pow2(shift) + reference;
    let m = ptype.modulus();
    vstd::arithmetic::div_mod::lemma_mod_equivalence(v, exact, m);
    assert(exact % m == v % m);
    if v >= 0 {
        vstd::arithmetic::div_mod::lemma_small_mod(v as nat, m as nat);
    } else {
        vstd::arithmetic::div_mod::lemma_small_mod((v + m) as nat, m as nat);
        vstd::arithmetic::div_mod::lemma_mod_add_multiples_vanish(v, m);
    }
}

/// The integer that `child` stands for under `reference` and `shift`.
pub fn decode_value(ptype: PType, child: i128, reference: i128, shift: u8) -> (v: i128)
    requires
        ptype.spec_to_unsigned().holds(child as int),
        ptype.holds(reference as int),
    ensures
        v == for_decode(ptype, child as int, reference as int, shift as nat),
        ptype.holds(v as int),
{
    let width = ptype.bit_width();
    let modulus = ptype.modulus_i128();
    proof {
        lemma2_to64();
        lemma2_to64_rest();
    }
    let ghost exact: int = child * pow2(shift as nat);
    let shifted: i128 = if shift as u32 >= width {
        proof {
            let rest = (shift - width) as nat;
            lemma_pow2_adds(width as nat, rest);
            assert(pow2(width as nat) == ptype.modulus());
            assert(exact == ptype.modulus() * (child * pow2(rest))) by (nonlinear_arith)
                requires
                    exact == child * pow2(shift as nat),
                    pow2(shift as nat) == pow2(width as nat) * pow2(rest),
                    pow2(width as nat) == ptype.modulus(),
            ;
            lemma_multiple_mod(ptype, child * pow2(rest));
        }
        0
    } else {
        let factor: u64 = 1u64 << shift;
        proof {
            lemma_pow2_strictly_increases(shift as nat, 64);
            lemma_u64_shl_is_mul(1, shift as u64);
            assert(factor == pow2(shift as nat));
            assert(child * factor < 0x1_0000_0000_0000_0000 * 0x1_0000_0000_0000_0000)
                by (nonlinear_arith)
                requires
                    0 <= child < 0x1_0000_0000_0000_0000,
                    0 <= factor < 0x1_0000_0000_0000_0000,
            ;
            assert(0 <= child * factor) by (nonlinear_arith)
                requires
                    0 <= child,
                    0 <= factor,
            ;
        }
        let product: u128 = (child as u128) * (factor as u128);
        (product % (modulus as u128)) as i128
    };
    assert(shifted == exact % ptype.modulus());
    let sum = shifted + reference;
    let reduced = if sum < 0 {
        sum + modulus
    } else if sum >= modulus {
        sum - modulus
    } else {
        sum
    };
    proof {
        lemma_sum_mod(ptype, exact, reference as int, reduced as int);
    }
    if reduced > ptype.max_i128() {
        reduced - modulus
    } else {
        reduced
    }
}

proof fn lemma_multiple_mod(ptype: PType, k: int)
    ensures
        (ptype.modulus() * k) % ptype.modulus() == 0,
{
    vstd::arithmetic::div_mod::lemma_mod_multiples_basic(k, ptype.modulus());
    assert(ptype.modulus() * k == k * ptype.modulus()) by (nonlinear_arith);
}

proof fn lemma_sum_mod(ptype: PType, exact: int, reference: int, reduced: int)
    requires
        0 <= reduced < ptype.modulus(),
        reduced == exact % ptype.modulus() + reference || reduced == exact % ptype.modulus()
            + reference + ptype.modulus() || reduced == exact % ptype.modulus() + reference
            - ptype.modulus(),
    ensures
        reduced == (exact + reference) % ptype.modulus(),
{
    let m = ptype.modulus();
    let q = exact / m;
    vstd::arithmetic::div_mod::lemma_fundamental_div_mod(exact, m);
    let d: int = if reduced == exact % m + reference {
        0
    } else if reduced == exact % m + reference + m {
        -1
    } else {
        1
    };
    assert((q + d) * m == q * m + d * m) by (nonlinear_arith);
    assert(m * q == q * m) by (nonlinear_arith);
    vstd::arithmetic::div_mod::lemma_fundamental_div_mod_converse(
        exact + reference,
        m,
        q + d,
        reduced,
    );
}

/// What a frame-of-reference array keeps beside its child: the reference
/// value, never null, and the shift.
#[derive(Debug)]
pub struct FoRMetadata {
    reference: Scalar,
    shift: u8,
}

/// An integer column held as offsets from a reference value.
///
/// Element `i` is `for_decode` of offset `i` of the child, null where the
/// child is null. The child holds the offsets in the unsigned type of the
/// width of the column's own type.
#[derive(Debug)]
pub struct FoRArray {
    child: Box<Array>,
    metadata: FoRMetadata,
}

impl View for FoRArray {
    type V = Seq<Value>;

    open spec fn view(&self) -> Seq<Value>
        decreases self,
    {
        for_values(
            self.spec_ptype(),
            self.spec_child()@,
            self.reference_value(),
            self.spec_shift() as nat,
        )
    }
}

impl FoRArray {
    /// The array of offsets.
    pub closed spec fn spec_child(&self) -> Array {
        *self.child
    }

    /// The reference value.
    pub closed spec fn spec_reference(&self) -> Scalar {
        self.metadata.reference
    }

    pub closed spec fn spec_shift(&self) -> u8 {
        self.metadata.shift
    }

    /// The physical type of the decoded values: that of the reference.
    pub open spec fn spec_ptype(&self) -> PType {
        match self.spec_reference() {
            Scalar::Primitive { ptype, .. } => ptype,
            _ => PType::U8,
        }
    }

    /// The reference value as an integer.
    pub open spec fn reference_value(&self) -> int {
        match self.spec_reference() {
            Scalar::Primitive { value: Some(r), .. } => r as int,
            _ => 0,
        }
    }

    pub open spec fn spec_dtype(&self) -> DTypeView {
        self.spec_reference().spec_dtype()
    }

    /// The reference is a non-null integer of its type. The child is well
    /// formed, of the unsigned type of the same width, and as nullable as the
    /// array itself.
    pub open spec fn wf(&self) -> bool
        decreases self,
    {
        &&& self.spec_reference() is Primitive
        &&& self.spec_reference().wf()
        &&& !(self.spec_reference()@ is Null)
        &&& self.spec_child().wf()
        &&& self.spec_child().spec_dtype() == DTypeView::Primitive(
            self.spec_ptype().spec_to_unsigned(),
            self.spec_dtype().nullability(),
        )
    }

    /// The array that decodes `child` with `reference` and `shift`. The
    /// reference takes the nullability of the child.
    ///
    /// Fails with `NullReference` if `reference` is null; else with
    /// `MismatchedTypes` if `reference` is no integer scalar, or `child` is
    /// not of the unsigned integer type of the same width; else with
    /// `ValueOutOfRange` if `reference` holds no value of its own type.
    pub fn try_new(child: Array, reference: Scalar, shift: u8) -> (r: Result<FoRArray, EncError>)
        requires
            child.wf(),
        ensures
            match r {
                Ok(a) => {
                    &&& FoRArray::accepts(child, reference)
                    &&& a.wf()
                    &&& a.spec_child() == child
                    &&& a.spec_shift() == shift
                    &&& a.spec_reference()@ == reference@
                    &&& a.spec_dtype() == reference.spec_dtype().with_nullability(
                        child.spec_dtype().nullability(),
                    )
                },
                Err(e) => {
                    &&& !FoRArray::accepts(child, reference)
                    &&& e == FoRArray::refusal(child, reference)
                },
            },
    {
        if reference.is_null() {
            return Err(EncError::NullReference);
        }
        let (ptype, value) = match &reference {
            Scalar::Primitive { ptype, value: Some(v), .. } => (*ptype, *v),
            _ => {
                return Err(EncError::MismatchedTypes);
            },
        };
        let nullable = match child.dtype() {
            DType::Primitive(p, n) => {
                if p != ptype.to_unsigned() {
                    return Err(EncError::MismatchedTypes);
                }
                n
            },
            _ => {
                return Err(EncError::MismatchedTypes);
            },
        };
        if !ptype.contains(value) {
            return Err(EncError::ValueOutOfRange);
        }
        let reference = match reference.cast_nullability(nullable) {
            Ok(r) => r,
            Err(e) => {
                return Err(e);
            },
        };
        Ok(FoRArray { child: Box::new(child), metadata: FoRMetadata { reference, shift } })
    }

    /// Whether `try_new` accepts this child with this reference.
    pub open spec fn accepts(child: Array, reference: Scalar) -> bool {
        &&& reference matches Scalar::Primitive { ptype, value: Some(v), .. }
        &&& ptype.holds(v as int)
        &&& child.spec_dtype() matches DTypeView::Primitive(p, _)
        &&& p == ptype.spec_to_unsigned()
    }

    /// The error with which `try_new` refuses a child and a reference that
    /// it does not accept.
    pub open spec fn refusal(child: Array, reference: Scalar) -> EncError {
        if reference@ is Null {
            EncError::NullReference
        } else if reference matches Scalar::Primitive { ptype, .. } && child.spec_dtype()
            == DTypeView::Primitive(ptype.spec_to_unsigned(), child.spec_dtype().nullability()) {
            EncError::ValueOutOfRange
        } else {
            EncError::MismatchedTypes
        }
    }

    /// The child: the offsets, in the unsigned type of the width of the
    /// decoded type.
    pub fn encoded(&self) -> (child: &Array)
        requires
            self.wf(),
        ensures
            *child == self.spec_child(),
            child.wf(),
            child@.len() == self@.len(),
            child.spec_dtype() == DTypeView::Primitive(
                self.spec_ptype().spec_to_unsigned(),
                self.spec_dtype().nullability(),
            ),
    {
        &*self.child
    }

    /// The reference value.
    pub fn reference(&self) -> (r: &Scalar)
        ensures
            *r == self.spec_reference(),
    {
        &self.metadata.reference
    }

    /// The number of bits by which an offset is shifted left.
    pub fn shift(&self) -> (s: u8)
        ensures
            s == self.spec_shift(),
    {
        self.metadata.shift
    }

    /// What the array keeps beside its child.
    pub fn metadata(&self) -> (m: &FoRMetadata)
        ensures
            m.spec_reference() == self.spec_reference(),
            m.spec_shift() == self.spec_shift(),
    {
        &self.metadata
    }

    /// The physical type of the decoded values.
    pub fn ptype(&self) -> (p: PType)
        requires
            self.wf(),
        ensures
            p == self.spec_ptype(),
            self.spec_dtype() == DTypeView::Primitive(p, self.spec_dtype().nullability()),
    {
        match &self.metadata.reference {
            Scalar::Primitive { ptype, .. } => *ptype,
            _ => {
                proof {
                    assert(false);
                }
                PType::U8
            },
        }
    }

    /// The reference as a machine integer.
    fn reference_i128(&self) -> (r: i128)
        requires
            self.wf(),
        ensures
            r == self.reference_value(),
            self.spec_ptype().holds(r as int),
    {
        match &self.metadata.reference {
            Scalar::Primitive { value: Some(v), .. } => *v,
            _ => {
                proof {
                    assert(false);
                }
                0
            },
        }
    }

    fn nullable(&self) -> (n: bool)
        requires
            self.wf(),
        ensures
            n == self.spec_dtype().nullability(),
    {
        self.metadata.reference.nullability()
    }

    pub fn len(&self) -> (n: usize)
        requires
            self.wf(),
        ensures
            n == self@.len(),
        decreases self,
    {
        self.child.len()
    }

    pub fn is_empty(&self) -> (b: bool)
        requires
            self.wf(),
        ensures
            b == (self@.len() == 0),
    {
        self.len() == 0
    }

    pub fn dtype(&self) -> (d: DType)
        requires
            self.wf(),
        ensures
            d@ == self.spec_dtype(),
    {
        DType::Primitive(self.ptype(), self.nullable())
    }

    /// Element `index`, decoded from the one offset at `index`.
    pub fn scalar_at(&self, index: usize) -> (r: Result<Scalar, EncError>)
        requires
            self.wf(),
            index < self@.len(),
        ensures
            r matches Ok(s) && s.wf() && s@ == self@[index as int] && s.spec_dtype()
                == self.spec_dtype(),
        decreases self,
    {
        let ptype = self.ptype();
        let nullable = self.nullable();
        let offset = self.child.scalar_at(index)?;
        match offset {
            Scalar::Primitive { value: Some(c), .. } => {
                let v = decode_value(ptype, c, self.reference_i128(), self.metadata.shift);
                Ok(Scalar::Primitive { ptype, nullable, value: Some(v) })
            },
            _ => Ok(Scalar::Primitive { ptype, nullable, value: None }),
        }
    }

    /// The elements `[start, stop)`: the same reference and shift over the
    /// slice of the child.
    ///
    /// Fails with `OutOfBounds` if `start > stop` or `stop > len()`.
    pub fn slice(&self, start: usize, stop: usize) -> (r: Result<Array, EncError>)
        requires
            self.wf(),
        ensures
            in_bounds(self@.len(), start as nat, stop as nat) ==> (r matches Ok(a) && a.wf() && a@
                == self@.subrange(start as int, stop as int) && a.spec_dtype()
                == self.spec_dtype()),
            !in_bounds(self@.len(), start as nat, stop as nat) ==> r == Err::<Array, EncError>(
                EncError::OutOfBounds { start, stop, len: self@.len() as usize },
            ),
        decreases self,
    {
        let child = self.child.slice(start, stop)?;
        let reference = Scalar::Primitive {
            ptype: self.ptype(),
            nullable: self.nullable(),
            value: Some(self.reference_i128()),
        };
        let sliced = FoRArray {
            child: Box::new(child),
            metadata: FoRMetadata { reference, shift: self.metadata.shift },
        };
        assert(sliced@ =~= self@.subrange(start as int, stop as int));
        Ok(Array::FoR(sliced))
    }

    /// The byte footprint of the child. The reference and the shift are not
    /// counted.
    pub open spec fn spec_nbytes(&self) -> nat
        decreases self,
    {
        self.spec_child().spec_nbytes()
    }

    /// The byte footprint, capped at the largest length: that of the child.
    pub fn nbytes(&self) -> (n: usize)
        requires
            self.wf(),
        ensures
            n == capped(self.spec_nbytes()),
            n == capped(self.spec_child().spec_nbytes()),
        decreases self,
    {
        self.child.nbytes()
    }

    /// Whether element `index` holds a value: whether the child does.
    pub fn is_valid(&self, index: usize) -> (b: bool)
        requires
            self.wf(),
            index < self@.len(),
        ensures
            b == !(self@[index as int] is Null),
        decreases self,
    {
        proof {
            self.spec_child().lemma_primitive_shape();
        }
        self.child.is_valid(index)
    }

    /// The validity of every element: that of the child.
    pub fn logical_validity(&self) -> (v: LogicalValidity)
        requires
            self.wf(),
        ensures
            v@ == Seq::new(self@.len(), |i: int| !(self@[i] is Null)),
        decreases self,
    {
        proof {
            self.spec_child().lemma_primitive_shape();
        }
        let v = self.child.logical_validity();
        assert(v@ =~= Seq::new(self@.len(), |i: int| !(self@[i] is Null)));
        v
    }

    /// The decoded column: every offset shifted and added to the reference
    /// in the arithmetic of the target type, nulls where the child has nulls.
    pub fn decompress(&self) -> (r: Result<PrimitiveArray, EncError>)
        requires
            self.wf(),
        ensures
            r matches Ok(a) && a.wf() && a@ == self@ && a.spec_dtype() == self.spec_dtype(),
        decreases self, 0nat,
    {
        let ptype = self.ptype();
        let reference = self.reference_i128();
        let shift = self.metadata.shift;
        let offsets = self.child.canonicalize()?;
        let n = offsets.len();
        let mut values: Vec<i128> = Vec::new();
        let mut flags: Vec<bool> = Vec::new();
        let mut i: usize = 0;
        while i < n
            invariant
                offsets.wf(),
                offsets@ == self.spec_child()@,
                offsets.spec_dtype() == DTypeView::Primitive(
                    ptype.spec_to_unsigned(),
                    self.spec_dtype().nullability(),
                ),
                ptype == self.spec_ptype(),
                ptype.holds(reference as int),
                reference == self.reference_value(),
                shift == self.spec_shift(),
                n == offsets@.len(),
                i <= n,
                values.len() == i,
                flags.len() == i,
                forall|k: int| 0 <= k < i ==> (#[trigger] flags[k]) == !(self@[k] is Null),
                forall|k: int| 0 <= k < i ==> ptype.holds(#[trigger] values[k] as int),
                forall|k: int|
                    0 <= k < i && flags[k] ==> self@[k] == Value::Int(#[trigger] values[k] as int),
            decreases n - i,
        {
            let offset = offsets.scalar_at(i)?;
            assert(offset@ == self.spec_child()@[i as int]);
            assert(offset is Primitive);
            match offset {
                Scalar::Primitive { value: Some(c), .. } => {
                    assert(self@[i as int] == Value::Int(
                        for_decode(ptype, c as int, reference as int, shift as nat),
                    ));
                    values.push(decode_value(ptype, c, reference, shift));
                    flags.push(true);
                },
                _ => {
                    assert(self@[i as int] is Null);
                    values.push(reference);
                    flags.push(false);
                },
            }
            i += 1;
        }
        let validity = if self.nullable() {
            Some(flags)
        } else {
            proof {
                self.lemma_non_nullable();
            }
            None
        };
        match PrimitiveArray::try_new(ptype, values, validity) {
            Ok(decoded) => {
                assert(decoded@ =~= self@);
                Ok(decoded)
            },
            Err(e) => {
                proof {
                    assert(false);
                }
                Err(e)
            },
        }
    }

    /// The decoded column, as an array.
    pub fn canonicalize(&self) -> (r: Result<Array, EncError>)
        requires
            self.wf(),
        ensures
            r matches Ok(a) && a.wf() && a.is_canonical() && a@ == self@ && a.spec_dtype()
                == self.spec_dtype(),
        decreases self, 1nat,
    {
        match self.decompress() {
            Ok(decoded) => Ok(Array::Primitive(decoded)),
            Err(e) => Err(e),
        }
    }

    /// The array, decoded in full.
    pub fn into_canonical(self) -> (r: Result<Canonical, EncError>)
        requires
            self.wf(),
        ensures
            r matches Ok(Canonical::Primitive(a)) && a.wf() && a@ == self@ && a.spec_dtype()
                == self.spec_dtype(),
    {
        match self.decompress() {
            Ok(decoded) => Ok(Canonical::Primitive(decoded)),
            Err(e) => Err(e),
        }
    }
}

impl FoRArray {
    /// Every element is an integer or null.
    pub proof fn lemma_shape(&self)
        ensures
            forall|i: int|
                0 <= i < self@.len() ==> (#[trigger] self@[i]) is Null || self@[i] is Int,
    {
        let values = for_values(
            self.spec_ptype(),
            self.spec_child()@,
            self.reference_value(),
            self.spec_shift() as nat,
        );
        assert(self@ == values);
        assert forall|i: int| 0 <= i < values.len() implies (#[trigger] values[i]) is Null
            || values[i] is Int by {
            match self.spec_child()@[i] {
                Value::Int(c) => {},
                _ => {},
            }
        }
    }

    /// An element decodes to the very integer that its offset was made from:
    /// where `v` is a value of the array's type and equals the shifted offset
    /// plus the reference in the arithmetic of that type, element `i` is `v`.
    pub proof fn lemma_round_trip_at(&self, i: int, offset: int, v: int)
        requires
            0 <= i < self@.len(),
            self.spec_child()@[i] == Value::Int(offset),
            self.spec_ptype().holds(v),
            (v - (offset * pow2(self.spec_shift() as nat) + self.reference_value()))
                % self.spec_ptype().modulus() == 0,
        ensures
            self@[i] == Value::Int(v),
    {
        lemma_round_trip(
            self.spec_ptype(),
            v,
            offset,
            self.reference_value(),
            self.spec_shift() as nat,
        );
    }

    /// A well-formed array of a non-nullable type has no nulls.
    pub proof fn lemma_non_nullable(&self)
        requires
            self.wf(),
            !self.spec_dtype().nullability(),
        ensures
            forall|i: int| 0 <= i < self@.len() ==> !((#[trigger] self@[i]) is Null),
        decreases self,
    {
        self.spec_child().lemma_non_nullable();
        self.spec_child().lemma_primitive_shape();
    }
}

impl FoRMetadata {
    /// The metadata of the given reference and shift.
    pub fn new(reference: Scalar, shift: u8) -> (m: FoRMetadata)
        ensures
            m.spec_reference() == reference,
            m.spec_shift() == shift,
    {
        FoRMetadata { reference, shift }
    }

    pub closed spec fn spec_reference(&self) -> Scalar {
        self.reference
    }

    pub closed spec fn spec_shift(&self) -> u8 {
        self.shift
    }

    /// The reference value.
    pub fn reference(&self) -> (r: &Scalar)
        ensures
            *r == self.spec_reference(),
    {
        &self.reference
    }

    /// The number of bits by which an offset is shifted left.
    pub fn shift(&self) -> (s: u8)
        ensures
            s == self.spec_shift(),
    {
        self.shift
    }
}

} // verus!
