//! Arrays: the closed set of physical encodings and the operations that
//! every one of them provides.

pub mod frame_of_reference;
pub mod primitive;
pub mod roaring;
pub mod struct_;
pub mod utf8;

use vstd::prelude::*;
use crate::aligned::{chunks_wf, ends, flat, lemma_ends_push};
use crate::array::frame_of_reference::FoRArray;
use crate::array::primitive::PrimitiveArray;
use crate::array::roaring::RoaringIntArray;
use crate::array::struct_::StructArray;
use crate::array::utf8::Utf8Array;
use crate::dtype::{DType, DTypeView};
use crate::error::EncError;
use crate::scalar::{Scalar, Value};
use crate::validity::LogicalValidity;

verus! {

/// An array in one of the physical encodings. Its view is the sequence of
/// its logical values, which is what every operation speaks of: two arrays
/// with the same view and the same logical type are interchangeable.
///
/// An array owns its children. It is never changed once made: slicing and
/// decoding make new arrays.
#[derive(Debug)]
pub enum Array {
    Primitive(PrimitiveArray),
    Utf8(Utf8Array),
    Struct(StructArray),
    FoR(FoRArray),
    RoaringInt(RoaringIntArray),
}

impl View for Array {
    type V = Seq<Value>;

    open spec fn view(&self) -> Seq<Value>
        decreases self,
    {
        match self {
            Array::Primitive(a) => a@,
            Array::Utf8(a) => a@,
            Array::Struct(a) => a@,
            Array::FoR(a) => a@,
            Array::RoaringInt(a) => a@,
        }
    }
}

/// An array in an uncompressed, directly addressable encoding.
#[derive(Debug)]
pub enum Canonical {
    Primitive(PrimitiveArray),
    Utf8(Utf8Array),
    Struct(StructArray),
}

impl Canonical {
    /// The canonical array as an array.
    pub open spec fn spec_array(self) -> Array {
        match self {
            Canonical::Primitive(a) => Array::Primitive(a),
            Canonical::Utf8(a) => Array::Utf8(a),
            Canonical::Struct(a) => Array::Struct(a),
        }
    }

    /// The canonical array as an array.
    pub fn into_array(self) -> (a: Array)
        ensures
            a == self.spec_array(),
    {
        match self {
            Canonical::Primitive(a) => Array::Primitive(a),
            Canonical::Utf8(a) => Array::Utf8(a),
            Canonical::Struct(a) => Array::Struct(a),
        }
    }
}

/// A byte count as a machine length: the count itself, or the largest length
/// where the count is larger.
pub open spec fn capped(bytes: nat) -> usize {
    if bytes > usize::MAX {
        usize::MAX
    } else {
        bytes as usize
    }
}

/// The sum of two byte counts, capped at the largest length.
pub fn add_capped(a: usize, b: usize) -> (sum: usize)
    ensures
        sum == capped((a + b) as nat),
{
    match a.checked_add(b) {
        Some(sum) => sum,
        None => usize::MAX,
    }
}

/// The product of two byte counts, capped at the largest length.
pub fn mul_capped(a: usize, b: usize) -> (product: usize)
    ensures
        product == capped((a * b) as nat),
{
    match a.checked_mul(b) {
        Some(product) => product,
        None => usize::MAX,
    }
}

/// Whether `[start, stop)` lies inside an array of `len` elements.
pub open spec fn in_bounds(len: nat, start: nat, stop: nat) -> bool {
    start <= stop <= len
}

/// Allows the slice `[start, stop)` of an array of `len` elements, or says
/// why not.
pub fn check_slice_bounds(len: usize, start: usize, stop: usize) -> (r: Result<(), EncError>)
    ensures
        in_bounds(len as nat, start as nat, stop as nat) ==> r is Ok,
        !in_bounds(len as nat, start as nat, stop as nat) ==> r == Err::<(), EncError>(
            EncError::OutOfBounds { start, stop, len },
        ),
{
    if start > stop || stop > len {
        Err(EncError::OutOfBounds { start, stop, len })
    } else {
        Ok(())
    }
}

impl Array {
    /// The invariant of the encoding that holds the array.
    pub open spec fn wf(&self) -> bool
        decreases self,
    {
        match self {
            Array::Primitive(a) => a.wf(),
            Array::Utf8(a) => a.wf(),
            Array::Struct(a) => a.wf(),
            Array::FoR(a) => a.wf(),
            Array::RoaringInt(a) => a.wf(),
        }
    }

    /// The logical type of the array.
    pub open spec fn spec_dtype(&self) -> DTypeView
        decreases self,
    {
        match self {
            Array::Primitive(a) => a.spec_dtype(),
            Array::Utf8(a) => a.spec_dtype(),
            Array::Struct(a) => a.spec_dtype(),
            Array::FoR(a) => a.spec_dtype(),
            Array::RoaringInt(a) => a.spec_dtype(),
        }
    }

    /// The rows behind which a batch of the array ends, when it is handed
    /// out in batches: a struct is cut where any of its columns is, a bitmap
    /// where its container changes, and another array at its end alone.
    pub open spec fn cuts(&self) -> Set<int>
        decreases self,
    {
        match self {
            Array::Struct(a) => a.cuts(),
            Array::RoaringInt(a) => a.cuts(),
            _ => Set::new(|row: int| row > 0 && row == self@.len()),
        }
    }

    /// Whether the array and all its children are in an uncompressed,
    /// directly addressable encoding.
    pub open spec fn is_canonical(&self) -> bool
        decreases self,
    {
        match self {
            Array::Primitive(_) => true,
            Array::Utf8(_) => true,
            Array::Struct(a) => a.is_canonical(),
            Array::FoR(_) => false,
            Array::RoaringInt(_) => false,
        }
    }

    /// The bytes that the values of the array take in its encoding: those of
    /// the elements of a canonical column at their physical width, those of
    /// the child of a frame-of-reference array, four for each member of a
    /// bitmap, and the sum over the columns of a struct.
    pub open spec fn spec_nbytes(&self) -> nat
        decreases self,
    {
        match self {
            Array::Primitive(a) => a.spec_nbytes(),
            Array::Utf8(a) => a.spec_nbytes(),
            Array::Struct(a) => a.spec_nbytes(),
            Array::FoR(a) => a.spec_nbytes(),
            Array::RoaringInt(a) => a.spec_nbytes(),
        }
    }

    /// The byte footprint, capped at the largest length.
    pub fn nbytes(&self) -> (n: usize)
        requires
            self.wf(),
        ensures
            n == capped(self.spec_nbytes()),
        decreases self,
    {
        match self {
            Array::Primitive(a) => a.nbytes(),
            Array::Utf8(a) => a.nbytes(),
            Array::Struct(a) => a.nbytes(),
            Array::FoR(a) => a.nbytes(),
            Array::RoaringInt(a) => a.nbytes(),
        }
    }

    /// Number of elements.
    pub fn len(&self) -> (n: usize)
        requires
            self.wf(),
        ensures
            n == self@.len(),
        decreases self,
    {
        match self {
            Array::Primitive(a) => a.len(),
            Array::Utf8(a) => a.len(),
            Array::Struct(a) => a.len(),
            Array::FoR(a) => a.len(),
            Array::RoaringInt(a) => a.len(),
        }
    }

    /// Whether the array has no elements.
    pub fn is_empty(&self) -> (b: bool)
        requires
            self.wf(),
        ensures
            b == (self@.len() == 0),
    {
        self.len() == 0
    }

    /// The logical type, rebuilt from what the encoding holds.
    pub fn dtype(&self) -> (d: DType)
        requires
            self.wf(),
        ensures
            d@ == self.spec_dtype(),
        decreases self,
    {
        match self {
            Array::Primitive(a) => a.dtype(),
            Array::Utf8(a) => a.dtype(),
            Array::Struct(a) => a.dtype(),
            Array::FoR(a) => a.dtype(),
            Array::RoaringInt(a) => a.dtype(),
        }
    }

    /// The element at `index`, decoded alone. The caller checks `index`
    /// against `len()` first.
    pub fn scalar_at(&self, index: usize) -> (r: Result<Scalar, EncError>)
        requires
            self.wf(),
            index < self@.len(),
        ensures
            r matches Ok(s) && s.wf() && s@ == self@[index as int] && s.spec_dtype()
                == self.spec_dtype(),
        decreases self,
    {
        match self {
            Array::Primitive(a) => Ok(a.scalar_at(index)),
            Array::Utf8(a) => Ok(a.scalar_at(index)),
            Array::Struct(a) => a.scalar_at(index),
            Array::FoR(a) => a.scalar_at(index),
            Array::RoaringInt(a) => a.scalar_at(index),
        }
    }

    /// A new array of the elements `[start, stop)`, which owns what it holds.
    ///
    /// Fails with `OutOfBounds` if `start > stop` or `stop > len()`.
    pub fn slice(&self, start: usize, stop: usize) -> (r: Result<Array, EncError>)
        requires
            self.wf(),
        ensures
            in_bounds(self@.len(), start as nat, stop as nat) ==> (r matches Ok(a) && a.wf() && a@
                == self@.subrange(start as int, stop as int) && a.spec_dtype()
                == self.spec_dtype() && (self.is_canonical() ==> a.is_canonical())),
            !in_bounds(self@.len(), start as nat, stop as nat) ==> r == Err::<Array, EncError>(
                EncError::OutOfBounds { start, stop, len: self@.len() as usize },
            ),
        decreases self,
    {
        match self {
            Array::Primitive(a) => {
                check_slice_bounds(a.len(), start, stop)?;
                Ok(Array::Primitive(a.slice(start, stop)))
            },
            Array::Utf8(a) => {
                check_slice_bounds(a.len(), start, stop)?;
                Ok(Array::Utf8(a.slice(start, stop)))
            },
            Array::Struct(a) => a.slice(start, stop),
            Array::FoR(a) => a.slice(start, stop),
            Array::RoaringInt(a) => {
                check_slice_bounds(a.len(), start, stop)?;
                Ok(Array::Primitive(a.slice(start, stop)))
            },
        }
    }

    /// Whether element `index` holds a value. A struct is valid everywhere:
    /// nulls belong to its fields.
    pub fn is_valid(&self, index: usize) -> (b: bool)
        requires
            self.wf(),
            index < self@.len(),
        ensures
            b == !(self@[index as int] is Null),
        decreases self,
    {
        match self {
            Array::Primitive(a) => a.is_valid(index),
            Array::Utf8(a) => a.is_valid(index),
            Array::Struct(a) => a.is_valid(index),
            Array::FoR(a) => a.is_valid(index),
            Array::RoaringInt(a) => true,
        }
    }

    /// The validity of every element.
    pub fn logical_validity(&self) -> (v: LogicalValidity)
        requires
            self.wf(),
        ensures
            v@ == Seq::new(self@.len(), |i: int| !(self@[i] is Null)),
        decreases self,
    {
        match self {
            Array::Primitive(a) => a.logical_validity(),
            Array::Utf8(a) => a.logical_validity(),
            Array::Struct(a) => a.logical_validity(),
            Array::FoR(a) => a.logical_validity(),
            Array::RoaringInt(a) => {
                let v = LogicalValidity::AllValid(a.len());
                assert(v@ =~= Seq::new(self@.len(), |i: int| !(self@[i] is Null)));
                v
            },
        }
    }

    /// The same values in an uncompressed encoding.
    pub fn canonicalize(&self) -> (r: Result<Array, EncError>)
        requires
            self.wf(),
        ensures
            r matches Ok(a) && a.wf() && a.is_canonical() && a@ == self@ && a.spec_dtype()
                == self.spec_dtype(),
        decreases self,
    {
        match self {
            Array::Primitive(a) => Ok(Array::Primitive(a.slice(0, a.len()))),
            Array::Utf8(a) => Ok(Array::Utf8(a.slice(0, a.len()))),
            Array::Struct(a) => a.canonicalize(),
            Array::FoR(a) => a.canonicalize(),
            Array::RoaringInt(a) => Ok(Array::Primitive(a.slice(0, a.len()))),
        }
    }

    /// The array, decompressed in full: the same values and the same logical
    /// type in an uncompressed encoding.
    pub fn into_canonical(self) -> (r: Result<Canonical, EncError>)
        requires
            self.wf(),
        ensures
            r matches Ok(c) && c.spec_array().wf() && c.spec_array().is_canonical()
                && c.spec_array()@ == self@ && c.spec_array().spec_dtype() == self.spec_dtype(),
    {
        match self.canonicalize() {
            Ok(Array::Primitive(a)) => Ok(Canonical::Primitive(a)),
            Ok(Array::Utf8(a)) => Ok(Canonical::Utf8(a)),
            Ok(Array::Struct(a)) => Ok(Canonical::Struct(a)),
            Ok(_) => {
                proof {
                    assert(false);
                }
                Err(EncError::MismatchedTypes)
            },
            Err(e) => Err(e),
        }
    }

    /// Slicing composes: the slice `[0, y - x)` of the slice `[x, y)` is
    /// allowed and holds the values of the slice `[x, y)`.
    pub proof fn lemma_slice_of_slice(&self, x: nat, y: nat)
        requires
            in_bounds(self@.len(), x, y),
        ensures
            in_bounds(self@.subrange(x as int, y as int).len(), 0, (y - x) as nat),
            self@.subrange(x as int, y as int).subrange(0, y - x) == self@.subrange(
                x as int,
                y as int,
            ),
    {
    }

    /// The canonical batches of the array: in order they hold its values.
    /// A struct hands out the aligned batches of its columns, a bitmap one
    /// batch for each of its containers, another array one batch of all its
    /// values, and an empty array no batch.
    pub fn iter_arrow(&self) -> (batches: Vec<Array>)
        requires
            self.wf(),
        ensures
            flat(batches@) == self@,
            chunks_wf(batches@),
            forall|b: int|
                0 <= b < batches.len() ==> {
                    &&& (#[trigger] batches[b]).is_canonical()
                    &&& batches[b].spec_dtype() == self.spec_dtype()
                    &&& batches[b]@.len() > 0
                },
            ends(batches@) == self.cuts(),
        decreases self,
    {
        match self {
            Array::Struct(a) => a.iter_arrow(),
            Array::RoaringInt(a) => {
                let batches = a.iter_arrow();
                assert(chunks_wf(batches@)) by {
                    if batches.len() > 0 {
                        assert(batches[0].spec_dtype() == self.spec_dtype());
                    }
                }
                batches
            },
            _ => {
                let mut batches: Vec<Array> = Vec::new();
                if self.len() > 0 {
                    match self.canonicalize() {
                        Ok(whole) => {
                            proof {
                                crate::aligned::lemma_flat_push(batches@, whole);
                                assert(flat(batches@) + whole@ =~= whole@);
                                lemma_ends_push(batches@, whole);
                                assert(ends(batches@) =~= Set::<int>::empty()) by {
                                    assert forall|row: int| !ends(batches@).contains(row) by {
                                    }
                                }
                                assert(ends(batches@).insert(whole@.len() as int) =~= self.cuts());
                            }
                            batches.push(whole);
                        },
                        Err(_) => {
                            proof {
                                assert(false);
                            }
                        },
                    }
                } else {
                    proof {
                        assert(ends(batches@) =~= self.cuts());
                    }
                }
                batches
            },
        }
    }

    /// The values of an array of an integer type are integers or nulls.
    pub proof fn lemma_primitive_shape(&self)
        requires
            self.spec_dtype() is Primitive,
        ensures
            forall|i: int|
                0 <= i < self@.len() ==> (#[trigger] self@[i]) is Null || self@[i] is Int,
    {
        assert forall|i: int| 0 <= i < self@.len() implies (#[trigger] self@[i]) is Null
            || self@[i] is Int by {
            match self {
                Array::Primitive(a) => {
                    assert(self@[i] == a@[i]);
                },
                Array::Utf8(a) => {
                    assert(false);
                },
                Array::Struct(a) => {
                    assert(false);
                },
                Array::FoR(a) => {
                    a.lemma_shape();
                },
                Array::RoaringInt(a) => {
                    assert(self@[i] == a@[i]);
                },
            }
        }
    }

    /// A well-formed array of a non-nullable type has no nulls.
    pub proof fn lemma_non_nullable(&self)
        requires
            self.wf(),
            !self.spec_dtype().nullability(),
        ensures
            forall|i: int| 0 <= i < self@.len() ==> !((#[trigger] self@[i]) is Null),
        decreases self,
    {
        match self {
            Array::Primitive(a) => {},
            Array::Utf8(a) => {},
            Array::Struct(a) => {
                assert forall|i: int| 0 <= i < self@.len() implies !((#[trigger] self@[i])
                     is Null) by {
                    a.lemma_row(i);
                }
            },
            Array::FoR(a) => {
                a.lemma_non_nullable();
            },
            Array::RoaringInt(a) => {},
        }
    }
}

} // verus!
