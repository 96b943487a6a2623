//! The canonical text column.

use vstd::prelude::*;
use vstd::string::StringSliceAdditionalSpecFns;
use crate::array::{add_capped, capped};
use crate::dtype::{DType, DTypeView};
use crate::error::EncError;
use crate::scalar::{Scalar, Value};
use crate::validity::LogicalValidity;

verus! {

/// An uncompressed column of texts.
///
/// Without a validity mask the column is non-nullable. With one, element `i`
/// is null exactly where the mask holds `false`.
#[derive(Debug)]
pub struct Utf8Array {
    values: Vec<String>,
    validity: Option<Vec<bool>>,
}

/// The values of a text column: `Text` where the element is valid, `Null`
/// where the mask says it is not.
pub open spec fn utf8_values(values: Seq<String>, validity: Option<Seq<bool>>) -> Seq<Value> {
    Seq::new(
        values.len(),
        |i: int|
            if validity matches Some(mask) && !mask[i] {
                Value::Null
            } else {
                Value::Text(values[i]@)
            },
    )
}

/// Number of bytes of a text in UTF-8, as the length of a string in memory.
pub open spec fn utf8_len(text: Seq<char>) -> usize {
    vstd::utf8::encode_utf8(text).len() as usize
}

/// Number of bytes of the texts in UTF-8.
pub open spec fn text_bytes(values: Seq<String>) -> nat
    decreases values.len(),
{
    if values.len() == 0 {
        0
    } else {
        text_bytes(values.drop_last()) + utf8_len(values.last()@) as nat
    }
}

impl View for Utf8Array {
    type V = Seq<Value>;

    open spec fn view(&self) -> Seq<Value> {
        utf8_values(self.spec_values(), self.spec_validity())
    }
}

impl Utf8Array {
    pub closed spec fn spec_values(&self) -> Seq<String> {
        self.values@
    }

    pub closed spec fn spec_validity(&self) -> Option<Seq<bool>> {
        match self.validity {
            Some(mask) => Some(mask@),
            None => None,
        }
    }

    /// The mask, if there is one, has one flag per element.
    pub open spec fn wf(&self) -> bool {
        self.spec_validity() matches Some(mask) ==> mask.len() == self.spec_values().len()
    }

    pub open spec fn spec_dtype(&self) -> DTypeView {
        DTypeView::Utf8(self.spec_validity() is Some)
    }

    /// A column of `values`, all valid if `validity` is `None`, else valid
    /// where the mask holds `true`. Fails with `MismatchedLengths` if the mask
    /// has another length than `values`.
    pub fn try_new(values: Vec<String>, validity: Option<Vec<bool>>) -> (r: Result<
        Utf8Array,
        EncError,
    >)
        ensures
            match r {
                Ok(a) => {
                    &&& validity matches Some(mask) ==> mask.len() == values.len()
                    &&& a.wf()
                    &&& a.spec_values() == values@
                    &&& a.spec_validity() == match validity {
                        Some(mask) => Some(mask@),
                        None => None,
                    }
                },
                Err(e) => {
                    &&& e == EncError::MismatchedLengths
                    &&& validity matches Some(mask) && mask.len() != values.len()
                },
            },
    {
        match &validity {
            Some(mask) => {
                if mask.len() != values.len() {
                    return Err(EncError::MismatchedLengths);
                }
            },
            None => {},
        }
        Ok(Utf8Array { values, validity })
    }

    pub fn len(&self) -> (n: usize)
        ensures
            n == self@.len(),
    {
        self.values.len()
    }

    pub fn is_empty(&self) -> (b: bool)
        ensures
            b == (self@.len() == 0),
    {
        self.values.len() == 0
    }

    pub fn dtype(&self) -> (d: DType)
        ensures
            d@ == self.spec_dtype(),
    {
        DType::Utf8(self.validity.is_some())
    }

    /// Whether element `index` holds a value.
    pub fn is_valid(&self, index: usize) -> (b: bool)
        requires
            self.wf(),
            index < self@.len(),
        ensures
            b == !(self@[index as int] is Null),
    {
        match &self.validity {
            Some(mask) => mask[index],
            None => true,
        }
    }

    /// The validity of every element.
    pub fn logical_validity(&self) -> (v: LogicalValidity)
        requires
            self.wf(),
        ensures
            v@ == Seq::new(self@.len(), |i: int| !(self@[i] is Null)),
    {
        match &self.validity {
            Some(mask) => {
                let mut flags: Vec<bool> = Vec::new();
                let mut i: usize = 0;
                while i < mask.len()
                    invariant
                        i <= mask.len(),
                        flags@ == mask@.take(i as int),
                    decreases mask.len() - i,
                {
                    flags.push(mask[i]);
                    i += 1;
                }
                assert(mask@.take(mask.len() as int) == mask@);
                let v = LogicalValidity::Mask(flags);
                assert(v@ =~= Seq::new(self@.len(), |i: int| !(self@[i] is Null)));
                v
            },
            None => {
                let v = LogicalValidity::AllValid(self.values.len());
                assert(v@ =~= Seq::new(self@.len(), |i: int| !(self@[i] is Null)));
                v
            },
        }
    }

    /// The element at `index`, as a scalar of the column's type.
    pub fn scalar_at(&self, index: usize) -> (s: Scalar)
        requires
            self.wf(),
            index < self@.len(),
        ensures
            s.wf(),
            s@ == self@[index as int],
            s.spec_dtype() == self.spec_dtype(),
    {
        let nullable = self.validity.is_some();
        if self.is_valid(index) {
            Scalar::Utf8 { nullable, text: Some(self.values[index].clone()) }
        } else {
            Scalar::Utf8 { nullable, text: None }
        }
    }

    /// Number of bytes of the texts in UTF-8.
    pub open spec fn spec_nbytes(&self) -> nat {
        text_bytes(self.spec_values())
    }

    /// The byte footprint, capped at the largest length.
    pub fn nbytes(&self) -> (n: usize)
        ensures
            n == capped(self.spec_nbytes()),
    {
        let mut n: usize = 0;
        let mut i: usize = 0;
        while i < self.values.len()
            invariant
                i <= self.values.len(),
                n == capped(text_bytes(self.values@.take(i as int))),
            decreases self.values.len() - i,
        {
            assert(self.values@.take(i + 1).drop_last() == self.values@.take(i as int));
            assert(self.values@.take(i + 1).last() == self.values@[i as int]);
            let text = self.values[i].as_str();
            assert(text.spec_bytes() == vstd::utf8::encode_utf8(self.values@[i as int]@));
            assert(text.len() == utf8_len(self.values@[i as int]@));
            n = add_capped(n, text.len());
            i += 1;
        }
        assert(self.values@.take(self.values.len() as int) == self.values@);
        n
    }

    /// The text stored at `index`, or `None` where the element is null.
    pub fn get(&self, index: usize) -> (v: Option<&String>)
        requires
            self.wf(),
            index < self@.len(),
        ensures
            match v {
                Some(text) => self@[index as int] == Value::Text(text@),
                None => self@[index as int] is Null,
            },
    {
        if self.is_valid(index) {
            Some(&self.values[index])
        } else {
            None
        }
    }

    /// A new column of the elements `[start, stop)`.
    pub fn slice(&self, start: usize, stop: usize) -> (r: Utf8Array)
        requires
            self.wf(),
            start <= stop <= self@.len(),
        ensures
            r.wf(),
            r@ == self@.subrange(start as int, stop as int),
            r.spec_dtype() == self.spec_dtype(),
    {
        let mut values: Vec<String> = Vec::new();
        let mut i: usize = start;
        while i < stop
            invariant
                start <= i <= stop <= self.values.len(),
                values@ == self.values@.subrange(start as int, i as int),
            decreases stop - i,
        {
            values.push(self.values[i].clone());
            i += 1;
        }
        let validity = match &self.validity {
            Some(mask) => {
                let mut flags: Vec<bool> = Vec::new();
                let mut j: usize = start;
                while j < stop
                    invariant
                        start <= j <= stop <= mask.len(),
                        flags@ == mask@.subrange(start as int, j as int),
                    decreases stop - j,
                {
                    flags.push(mask[j]);
                    j += 1;
                }
                Some(flags)
            },
            None => None,
        };
        let r = Utf8Array { values, validity };
        assert(r@ =~= self@.subrange(start as int, stop as int));
        r
    }
}

} // verus!
