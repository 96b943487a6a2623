//! The canonical integer column: one machine integer per element and an
//! optional validity mask.

use vstd::prelude::*;
use crate::array::{capped, mul_capped};
use crate::dtype::{DType, DTypeView, PType};
use crate::error::EncError;
use crate::scalar::{Scalar, Value};
use crate::validity::LogicalValidity;

verus! {

/// An uncompressed column of integers of one physical type.
///
/// Without a validity mask the column is non-nullable. With one, element `i`
/// is null exactly where the mask holds `false`.
#[derive(Debug)]
pub struct PrimitiveArray {
    ptype: PType,
    values: Vec<i128>,
    validity: Option<Vec<bool>>,
}

/// The values of an integer column: `Int` where the element is valid, `Null`
/// where the mask says it is not.
pub open spec fn primitive_values(values: Seq<i128>, validity: Option<Seq<bool>>) -> Seq<Value> {
    Seq::new(
        values.len(),
        |i: int|
            if validity matches Some(mask) && !mask[i] {
                Value::Null
            } else {
                Value::Int(values[i] as int)
            },
    )
}

impl PrimitiveArray {
    pub closed spec fn spec_ptype(&self) -> PType {
        self.ptype
    }

    pub closed spec fn spec_values(&self) -> Seq<i128> {
        self.values@
    }

    pub closed spec fn spec_validity(&self) -> Option<Seq<bool>> {
        match self.validity {
            Some(mask) => Some(mask@),
            None => None,
        }
    }

    /// Every stored integer is a value of the physical type, and the mask,
    /// if there is one, has one flag per element.
    pub open spec fn wf(&self) -> bool {
        &&& forall|i: int|
            0 <= i < self.spec_values().len() ==> self.spec_ptype().holds(
                #[trigger] self.spec_values()[i] as int,
            )
        &&& self.spec_validity() matches Some(mask) ==> mask.len() == self.spec_values().len()
    }

    pub open spec fn spec_dtype(&self) -> DTypeView {
        DTypeView::Primitive(self.spec_ptype(), self.spec_validity() is Some)
    }

    /// A column of `values`, all valid if `validity` is `None`, else valid
    /// where the mask holds `true`.
    ///
    /// Fails with `MismatchedLengths` if the mask has another length than
    /// `values`, else with `ValueOutOfRange` if some integer is not a value of
    /// `ptype`.
    pub fn try_new(ptype: PType, values: Vec<i128>, validity: Option<Vec<bool>>) -> (r: Result<
        PrimitiveArray,
        EncError,
    >)
        ensures
            match r {
                Ok(a) => {
                    &&& a.wf()
                    &&& a.spec_ptype() == ptype
                    &&& a.spec_values() == values@
                    &&& a.spec_validity() == match validity {
                        Some(mask) => Some(mask@),
                        None => None,
                    }
                    &&& a@ == primitive_values(
                        values@,
                        match validity {
                            Some(mask) => Some(mask@),
                            None => None,
                        },
                    )
                },
                Err(e) => {
                    if validity matches Some(mask) && mask.len() != values.len() {
                        e == EncError::MismatchedLengths
                    } else {
                        e == EncError::ValueOutOfRange && exists|i: int|
                            0 <= i < values.len() && !ptype.holds(#[trigger] values[i] as int)
                    }
                },
            },
    {
        match &validity {
            Some(mask) => {
                if mask.len() != values.len() {
                    return Err(EncError::MismatchedLengths);
                }
            },
            None => {},
        }
        let mut i: usize = 0;
        while i < values.len()
            invariant
                i <= values.len(),
                validity matches Some(mask) ==> mask.len() == values.len(),
                forall|j: int| 0 <= j < i ==> ptype.holds(#[trigger] values[j] as int),
            decreases values.len() - i,
        {
            if !ptype.contains(values[i]) {
                return Err(EncError::ValueOutOfRange);
            }
            i += 1;
        }
        Ok(PrimitiveArray { ptype, values, validity })
    }

    /// The non-nullable column without elements.
    pub fn empty(ptype: PType) -> (r: PrimitiveArray)
        ensures
            r.wf(),
            r@.len() == 0,
            r.spec_dtype() == DTypeView::Primitive(ptype, false),
    {
        PrimitiveArray { ptype, values: Vec::new(), validity: None }
    }

    pub fn len(&self) -> (n: usize)
        ensures
            n == self@.len(),
    {
        self.values.len()
    }

    pub fn is_empty(&self) -> (b: bool)
        ensures
            b == (self@.len() == 0),
    {
        self.values.len() == 0
    }

    pub fn ptype(&self) -> (p: PType)
        ensures
            p == self.spec_ptype(),
    {
        self.ptype
    }

    pub fn dtype(&self) -> (d: DType)
        ensures
            d@ == self.spec_dtype(),
    {
        DType::Primitive(self.ptype, self.validity.is_some())
    }

    /// Whether element `index` holds a value.
    pub fn is_valid(&self, index: usize) -> (b: bool)
        requires
            self.wf(),
            index < self@.len(),
        ensures
            b == !(self@[index as int] is Null),
    {
        match &self.validity {
            Some(mask) => mask[index],
            None => true,
        }
    }

    /// The validity of every element.
    pub fn logical_validity(&self) -> (v: LogicalValidity)
        requires
            self.wf(),
        ensures
            v@ == Seq::new(self@.len(), |i: int| !(self@[i] is Null)),
    {
        match &self.validity {
            Some(mask) => {
                let mut flags: Vec<bool> = Vec::new();
                let mut i: usize = 0;
                while i < mask.len()
                    invariant
                        i <= mask.len(),
                        flags@ == mask@.take(i as int),
                    decreases mask.len() - i,
                {
                    flags.push(mask[i]);
                    i += 1;
                }
                assert(mask@.take(mask.len() as int) == mask@);
                let v = LogicalValidity::Mask(flags);
                assert(v@ =~= Seq::new(self@.len(), |i: int| !(self@[i] is Null)));
                v
            },
            None => {
                let v = LogicalValidity::AllValid(self.values.len());
                assert(v@ =~= Seq::new(self@.len(), |i: int| !(self@[i] is Null)));
                v
            },
        }
    }

    /// The element at `index`, as a scalar of the column's type.
    pub fn scalar_at(&self, index: usize) -> (s: Scalar)
        requires
            self.wf(),
            index < self@.len(),
        ensures
            s.wf(),
            s@ == self@[index as int],
            s.spec_dtype() == self.spec_dtype(),
    {
        let nullable = self.validity.is_some();
        if self.is_valid(index) {
            Scalar::Primitive { ptype: self.ptype, nullable, value: Some(self.values[index]) }
        } else {
            Scalar::Primitive { ptype: self.ptype, nullable, value: None }
        }
    }

    /// The integer stored at `index`, or `None` where the element is null.
    pub fn get(&self, index: usize) -> (v: Option<i128>)
        requires
            self.wf(),
            index < self@.len(),
        ensures
            match v {
                Some(x) => self@[index as int] == Value::Int(x as int) && self.spec_ptype().holds(
                    x as int,
                ),
                None => self@[index as int] is Null,
            },
    {
        if self.is_valid(index) {
            Some(self.values[index])
        } else {
            None
        }
    }

    /// A new column of the elements `[start, stop)`.
    pub fn slice(&self, start: usize, stop: usize) -> (r: PrimitiveArray)
        requires
            self.wf(),
            start <= stop <= self@.len(),
        ensures
            r.wf(),
            r@ == self@.subrange(start as int, stop as int),
            r.spec_dtype() == self.spec_dtype(),
    {
        let mut values: Vec<i128> = Vec::new();
        let mut i: usize = start;
        while i < stop
            invariant
                start <= i <= stop <= self.values.len(),
                values@ == self.values@.subrange(start as int, i as int),
            decreases stop - i,
        {
            values.push(self.values[i]);
            i += 1;
        }
        let validity = match &self.validity {
            Some(mask) => {
                let mut flags: Vec<bool> = Vec::new();
                let mut j: usize = start;
                while j < stop
                    invariant
                        start <= j <= stop <= mask.len(),
                        flags@ == mask@.subrange(start as int, j as int),
                    decreases stop - j,
                {
                    flags.push(mask[j]);
                    j += 1;
                }
                Some(flags)
            },
            None => None,
        };
        let r = PrimitiveArray { ptype: self.ptype, values, validity };
        assert(r@ =~= self@.subrange(start as int, stop as int));
        r
    }

    /// Number of bytes of the column's elements at their physical width.
    pub open spec fn spec_nbytes(&self) -> nat {
        self@.len() * (self.spec_ptype().spec_bit_width() / 8)
    }

    /// The byte footprint, capped at the largest length.
    pub fn nbytes(&self) -> (n: usize)
        ensures
            n == capped(self.spec_nbytes()),
    {
        mul_capped(self.values.len(), self.ptype.byte_width())
    }
}

impl View for PrimitiveArray {
    type V = Seq<Value>;

    open spec fn view(&self) -> Seq<Value> {
        primitive_values(self.spec_values(), self.spec_validity())
    }
}

} // verus!
