//! Single values: the mathematical value of one array element, and the
//! executable scalar that carries such a value with its logical type.

use vstd::prelude::*;
use crate::dtype::{clone_names, names_view, DType, DTypeView, PType};
use crate::error::EncError;

verus! {

/// What one element of an array is, whatever encoding holds it.
pub enum Value {
    Null,
    Int(int),
    Text(Seq<char>),
    Struct(Seq<Value>),
}

/// One value together with its logical type.
#[derive(Debug)]
pub enum Scalar {
    /// An integer of the given physical type, or null.
    Primitive { ptype: PType, nullable: bool, value: Option<i128> },
    /// A text, or null.
    Utf8 { nullable: bool, text: Option<String> },
    /// One value per named field.
    Struct { names: Vec<String>, fields: Vec<Scalar> },
}

impl View for Scalar {
    type V = Value;

    open spec fn view(&self) -> Value
        decreases self,
    {
        match self {
            Scalar::Primitive { value: Some(v), .. } => Value::Int(*v as int),
            Scalar::Primitive { value: None, .. } => Value::Null,
            Scalar::Utf8 { text: Some(s), .. } => Value::Text(s@),
            Scalar::Utf8 { text: None, .. } => Value::Null,
            Scalar::Struct { fields, .. } => Value::Struct(
                Seq::new(
                    fields.len() as nat,
                    |i: int|
                        if 0 <= i < fields.len() {
                            fields[i]@
                        } else {
                            Value::Null
                        },
                ),
            ),
        }
    }
}

impl Scalar {
    /// The logical type that the scalar carries.
    pub open spec fn spec_dtype(&self) -> DTypeView
        decreases self,
    {
        match self {
            Scalar::Primitive { ptype, nullable, .. } => DTypeView::Primitive(*ptype, *nullable),
            Scalar::Utf8 { nullable, .. } => DTypeView::Utf8(*nullable),
            Scalar::Struct { names, fields } => DTypeView::Struct(
                names_view(names@),
                Seq::new(
                    fields.len() as nat,
                    |i: int|
                        if 0 <= i < fields.len() {
                            fields[i].spec_dtype()
                        } else {
                            DTypeView::Utf8(false)
                        },
                ),
            ),
        }
    }

    /// A scalar is well formed when its value is one of its type: an integer
    /// within the range of its physical type, null only where nulls may
    /// occur, one field value per field name.
    pub open spec fn wf(&self) -> bool
        decreases self,
    {
        match self {
            Scalar::Primitive { ptype, nullable, value: Some(v) } => ptype.holds(*v as int),
            Scalar::Primitive { nullable, value: None, .. } => *nullable,
            Scalar::Utf8 { nullable, text } => text is None ==> *nullable,
            Scalar::Struct { names, fields } => {
                &&& names.len() == fields.len()
                &&& forall|i: int| 0 <= i < fields.len() ==> (#[trigger] fields[i]).wf()
            },
        }
    }

    pub open spec fn spec_is_null(&self) -> bool {
        self@ is Null
    }

    /// An integer scalar. Fails with `ValueOutOfRange` if `value` is not a
    /// value of `ptype`.
    pub fn primitive(ptype: PType, value: i128, nullable: bool) -> (r: Result<Scalar, EncError>)
        ensures
            ptype.holds(value as int) ==> r == Ok::<Scalar, EncError>(
                Scalar::Primitive { ptype, nullable, value: Some(value) },
            ),
            !ptype.holds(value as int) ==> r == Err::<Scalar, EncError>(EncError::ValueOutOfRange),
    {
        if ptype.contains(value) {
            Ok(Scalar::Primitive { ptype, nullable, value: Some(value) })
        } else {
            Err(EncError::ValueOutOfRange)
        }
    }

    /// The null of a nullable integer type.
    pub fn null(ptype: PType) -> (s: Scalar)
        ensures
            s == (Scalar::Primitive { ptype, nullable: true, value: None }),
            s.wf(),
            s@ is Null,
    {
        Scalar::Primitive { ptype, nullable: true, value: None }
    }

    /// Whether the scalar holds no value.
    #[verifier::when_used_as_spec(spec_is_null)]
    pub fn is_null(&self) -> (b: bool)
        ensures
            b == (self@ is Null),
    {
        match self {
            Scalar::Primitive { value, .. } => value.is_none(),
            Scalar::Utf8 { text, .. } => text.is_none(),
            Scalar::Struct { .. } => false,
        }
    }

    /// The integer that the scalar holds, if it holds one.
    pub fn as_i128(&self) -> (v: Option<i128>)
        ensures
            match v {
                Some(x) => self@ == Value::Int(x as int),
                None => !(self@ is Int),
            },
    {
        match self {
            Scalar::Primitive { value, .. } => *value,
            _ => None,
        }
    }

    /// The physical type of an integer scalar.
    pub fn ptype(&self) -> (p: Option<PType>)
        ensures
            match p {
                Some(x) => self.spec_dtype() matches DTypeView::Primitive(y, _) && x == y,
                None => !(self.spec_dtype() is Primitive),
            },
    {
        match self {
            Scalar::Primitive { ptype, .. } => Some(*ptype),
            _ => None,
        }
    }

    /// The logical type that the scalar carries.
    pub fn dtype(&self) -> (d: DType)
        ensures
            d@ == self.spec_dtype(),
        decreases self,
    {
        match self {
            Scalar::Primitive { ptype, nullable, .. } => DType::Primitive(*ptype, *nullable),
            Scalar::Utf8 { nullable, .. } => DType::Utf8(*nullable),
            Scalar::Struct { names, fields } => {
                let mut dtypes: Vec<DType> = Vec::new();
                let mut f: usize = 0;
                while f < fields.len()
                    invariant
                        self is Struct,
                        self->fields == fields,
                        f <= fields.len(),
                        dtypes.len() == f,
                        forall|k: int|
                            0 <= k < f ==> (#[trigger] dtypes[k])@ == fields[k].spec_dtype(),
                    decreases fields.len() - f,
                {
                    dtypes.push(fields[f].dtype());
                    f += 1;
                }
                let d = DType::Struct(clone_names(names), dtypes);
                proof {
                    assert(d@->Struct_1 =~= self.spec_dtype()->Struct_1);
                }
                d
            },
        }
    }

    /// Whether the scalar's type admits nulls. A struct does not: nulls
    /// belong to its fields.
    pub fn nullability(&self) -> (n: bool)
        ensures
            n == self.spec_dtype().nullability(),
    {
        match self {
            Scalar::Primitive { nullable, .. } => *nullable,
            Scalar::Utf8 { nullable, .. } => *nullable,
            Scalar::Struct { .. } => false,
        }
    }

    /// The same value under the type that differs from the scalar's own in
    /// nullability alone. A null cannot become non-nullable: that fails with
    /// `UnexpectedNull`. A struct scalar is returned as it is.
    pub fn cast_nullability(self, nullable: bool) -> (r: Result<Scalar, EncError>)
        ensures
            (self@ is Null && !nullable) ==> r == Err::<Scalar, EncError>(EncError::UnexpectedNull),
            !(self@ is Null && !nullable) ==> (r matches Ok(s) && s@ == self@ && s.spec_dtype()
                == self.spec_dtype().with_nullability(nullable) && (self.wf() ==> s.wf())),
    {
        match self {
            Scalar::Primitive { ptype, nullable: _, value } => {
                if value.is_none() && !nullable {
                    Err(EncError::UnexpectedNull)
                } else {
                    Ok(Scalar::Primitive { ptype, nullable, value })
                }
            },
            Scalar::Utf8 { nullable: _, text } => {
                if text.is_none() && !nullable {
                    Err(EncError::UnexpectedNull)
                } else {
                    Ok(Scalar::Utf8 { nullable, text })
                }
            },
            Scalar::Struct { names, fields } => Ok(Scalar::Struct { names, fields }),
        }
    }
}

} // verus!
