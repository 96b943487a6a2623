//! The struct-of-columns encoding: named child arrays of one length.

use vstd::prelude::*;
use crate::aligned::{
    chunked, chunks_wf, cuts_of, cuts_upto, ends, flat, lemma_cut_step, lemma_ends_empty,
    lemma_ends_push, lemma_flat_prefix, lemma_flat_push, lemma_offset_push, lemma_offset_step,
    chunk_starts_within, offset_of, AlignedIterator,
};
use crate::array::{add_capped, capped, check_slice_bounds, in_bounds, Array};
use crate::dtype::{clone_names, names_view, DType, DTypeView};
use crate::error::EncError;
use crate::scalar::{Scalar, Value};
use crate::validity::LogicalValidity;

verus! {

/// The rows of a struct: row `i` holds element `i` of each column, in the
/// order of the columns. With no column there is no row.
pub open spec fn struct_rows(columns: Seq<Seq<Value>>) -> Seq<Value> {
    Seq::new(
        if columns.len() == 0 {
            0
        } else {
            columns[0].len()
        },
        |i: int| Value::Struct(Seq::new(columns.len(), |f: int| columns[f][i])),
    )
}

/// The rows `[from, upto)` of a struct are the rows of the struct of the
/// same ranges of its columns.
pub proof fn lemma_rows_subrange(
    columns: Seq<Seq<Value>>,
    pieces: Seq<Seq<Value>>,
    from: int,
    upto: int,
)
    requires
        columns.len() == pieces.len(),
        columns.len() > 0,
        0 <= from <= upto,
        forall|f: int| 0 <= f < columns.len() ==> upto <= (#[trigger] columns[f]).len(),
        forall|f: int|
            0 <= f < columns.len() ==> (#[trigger] pieces[f]) == columns[f].subrange(from, upto),
    ensures
        struct_rows(pieces) == struct_rows(columns).subrange(from, upto),
{
    let got = struct_rows(pieces);
    let want = struct_rows(columns).subrange(from, upto);
    assert(pieces[0] == columns[0].subrange(from, upto));
    assert(got.len() == want.len());
    assert forall|i: int| 0 <= i < got.len() implies got[i] == want[i] by {
        assert(Seq::new(pieces.len(), |f: int| pieces[f][i]) =~= Seq::new(
            columns.len(),
            |f: int| columns[f][from + i],
        ));
    }
    assert(got =~= want);
}

/// Whether all the given lengths are one length.
pub open spec fn all_equal(lens: Seq<usize>) -> bool {
    forall|i: int, j: int| 0 <= i < lens.len() && 0 <= j < lens.len() ==> lens[i] == lens[j]
}

/// `itertools::Itertools::all_equal` on the lengths: whether every length
/// equals the first. No length at all counts as equal.
#[verifier::external_body]
fn lengths_all_equal(lens: &Vec<usize>) -> (b: bool)
    ensures
        b == all_equal(lens@),
{
    itertools::Itertools::all_equal(&mut lens.iter())
}

/// An array of named columns of one length. The struct itself has no nulls.
#[derive(Debug)]
pub struct StructArray {
    names: Vec<String>,
    fields: Vec<Array>,
}

impl View for StructArray {
    type V = Seq<Value>;

    open spec fn view(&self) -> Seq<Value>
        decreases self, 1nat,
    {
        struct_rows(self.columns())
    }
}

impl StructArray {
    /// The names of the columns, in order.
    pub closed spec fn spec_names(&self) -> Seq<String> {
        self.names@
    }

    /// The columns, in order.
    pub closed spec fn spec_fields(&self) -> Seq<Array> {
        self.fields@
    }

    /// The values of each column.
    pub open spec fn columns(&self) -> Seq<Seq<Value>>
        decreases self, 0nat,
    {
        Seq::new(
            self.spec_fields().len(),
            |f: int|
                if 0 <= f < self.spec_fields().len() {
                    self.spec_fields()[f]@
                } else {
                    Seq::empty()
                },
        )
    }

    /// What `new` asks of names and columns: one name per column, and one
    /// length for all columns.
    pub open spec fn aligned(names: Seq<String>, fields: Seq<Array>) -> bool {
        &&& names.len() == fields.len()
        &&& forall|i: int, j: int|
            0 <= i < fields.len() && 0 <= j < fields.len() ==> (#[trigger] fields[i]@).len() == (
            #[trigger] fields[j]@).len()
    }

    /// Every column is well formed, and names and columns are aligned.
    pub open spec fn wf(&self) -> bool
        decreases self,
    {
        &&& StructArray::aligned(self.spec_names(), self.spec_fields())
        &&& forall|f: int|
            0 <= f < self.spec_fields().len() ==> (#[trigger] self.spec_fields()[f]).wf()
    }

    pub open spec fn spec_dtype(&self) -> DTypeView
        decreases self,
    {
        DTypeView::Struct(
            names_view(self.spec_names()),
            Seq::new(
                self.spec_fields().len(),
                |f: int|
                    if 0 <= f < self.spec_fields().len() {
                        self.spec_fields()[f].spec_dtype()
                    } else {
                        DTypeView::Utf8(false)
                    },
            ),
        )
    }

    pub open spec fn is_canonical(&self) -> bool
        decreases self,
    {
        forall|f: int|
            0 <= f < self.spec_fields().len() ==> (#[trigger] self.spec_fields()[f]).is_canonical()
    }

    /// Whether `new` accepts these names and columns.
    pub fn can_hold(names: &Vec<String>, fields: &Vec<Array>) -> (b: bool)
        requires
            forall|f: int| 0 <= f < fields.len() ==> (#[trigger] fields[f]).wf(),
        ensures
            b == StructArray::aligned(names@, fields@),
    {
        let mut lens: Vec<usize> = Vec::new();
        let mut f: usize = 0;
        while f < fields.len()
            invariant
                f <= fields.len(),
                lens.len() == f,
                forall|k: int| 0 <= k < fields.len() ==> (#[trigger] fields[k]).wf(),
                forall|k: int| 0 <= k < f ==> (#[trigger] lens[k]) == fields[k]@.len(),
            decreases fields.len() - f,
        {
            lens.push(fields[f].len());
            f += 1;
        }
        let same = lengths_all_equal(&lens);
        proof {
            if same {
                assert forall|i: int, j: int|
                    0 <= i < fields.len() && 0 <= j < fields.len() implies (#[trigger] fields[i]@).len()
                    == (#[trigger] fields[j]@).len() by {
                    assert(lens[i] == lens[j]);
                }
            } else {
                let (i, j) = choose|i: int, j: int|
                    0 <= i < lens.len() && 0 <= j < lens.len() && lens[i] != lens[j];
                assert(fields[i]@.len() != fields[j]@.len());
            }
        }
        same && names.len() == fields.len()
    }

    /// The struct of the given columns under the given names.
    ///
    /// Columns of different lengths are a fault of the caller, who tests
    /// with `can_hold` where that is in doubt.
    pub fn new(names: Vec<String>, fields: Vec<Array>) -> (r: Self)
        requires
            StructArray::aligned(names@, fields@),
            forall|f: int| 0 <= f < fields.len() ==> (#[trigger] fields[f]).wf(),
        ensures
            r.wf(),
            r.spec_names() == names@,
            r.spec_fields() == fields@,
            r@.len() == (if fields.len() == 0 {
                0
            } else {
                fields[0]@.len()
            }),
    {
        let r = Self { names, fields };
        proof {
            r.lemma_len();
        }
        r
    }

    /// Columns of different lengths are never accepted.
    pub proof fn lemma_mismatch_refused(names: Seq<String>, fields: Seq<Array>, i: int, j: int)
        requires
            0 <= i < fields.len(),
            0 <= j < fields.len(),
            fields[i]@.len() != fields[j]@.len(),
        ensures
            !StructArray::aligned(names, fields),
    {
    }

    /// The length of a struct is the length of its first column, and with
    /// that of every column; without columns it is zero.
    pub proof fn lemma_len(&self)
        ensures
            self.spec_fields().len() == 0 ==> self@.len() == 0,
            self.spec_fields().len() > 0 ==> self@.len() == self.spec_fields()[0]@.len(),
            self.wf() ==> forall|f: int|
                0 <= f < self.spec_fields().len() ==> (#[trigger] self.spec_fields()[f]@).len()
                    == self@.len(),
    {
        assert(self@ == struct_rows(self.columns()));
        assert(self.columns().len() == self.spec_fields().len());
        if self.spec_fields().len() > 0 {
            assert(self.columns()[0] == self.spec_fields()[0]@);
        }
        if self.wf() {
            assert forall|f: int| 0 <= f < self.spec_fields().len() implies (
            #[trigger] self.spec_fields()[f]@).len() == self@.len() by {
                assert(self.spec_fields()[f]@.len() == self.spec_fields()[0]@.len());
            }
        }
    }

    /// Row `i` of a struct is the tuple of element `i` of each column, in the
    /// order of the columns.
    pub proof fn lemma_row(&self, i: int)
        requires
            0 <= i < self@.len(),
        ensures
            self@[i] == Value::Struct(
                Seq::new(self.spec_fields().len(), |f: int| self.spec_fields()[f]@[i]),
            ),
    {
        assert(Seq::new(self.columns().len(), |f: int| self.columns()[f][i]) =~= Seq::new(
            self.spec_fields().len(),
            |f: int| self.spec_fields()[f]@[i],
        ));
    }

    /// Number of rows: the common length of the columns, zero without
    /// columns.
    pub fn len(&self) -> (n: usize)
        requires
            self.wf(),
        ensures
            n == self@.len(),
        decreases self,
    {
        proof {
            self.lemma_len();
        }
        if self.fields.len() == 0 {
            0
        } else {
            assert(self.spec_fields()[0].wf());
            self.fields[0].len()
        }
    }

    pub fn is_empty(&self) -> (b: bool)
        requires
            self.wf(),
        ensures
            b == (self@.len() == 0),
    {
        self.len() == 0
    }

    /// The struct type of the columns' names and types.
    pub fn dtype(&self) -> (d: DType)
        requires
            self.wf(),
        ensures
            d@ == self.spec_dtype(),
        decreases self,
    {
        let mut dtypes: Vec<DType> = Vec::new();
        let mut f: usize = 0;
        while f < self.fields.len()
            invariant
                self.wf(),
                f <= self.fields.len(),
                dtypes.len() == f,
                forall|k: int|
                    0 <= k < f ==> (#[trigger] dtypes[k])@ == self.fields[k].spec_dtype(),
            decreases self.fields.len() - f,
        {
            assert(self.spec_fields()[f as int].wf());
            dtypes.push(self.fields[f].dtype());
            f += 1;
        }
        let d = DType::Struct(clone_names(&self.names), dtypes);
        proof {
            let got = d@->Struct_1;
            let want = self.spec_dtype()->Struct_1;
            assert(got =~= want);
        }
        d
    }

    /// Row `index`: the scalar of each column at `index`, in the order of the
    /// columns. The first column that fails ends the work with its error.
    pub fn scalar_at(&self, index: usize) -> (r: Result<Scalar, EncError>)
        requires
            self.wf(),
            index < self@.len(),
        ensures
            r matches Ok(s) && s.wf() && s@ == self@[index as int] && s.spec_dtype()
                == self.spec_dtype() && s@ == Value::Struct(
                Seq::new(self.spec_fields().len(), |f: int| self.spec_fields()[f]@[index as int]),
            ),
        decreases self,
    {
        let mut scalars: Vec<Scalar> = Vec::new();
        let mut f: usize = 0;
        while f < self.fields.len()
            invariant
                self.wf(),
                index < self@.len(),
                f <= self.fields.len(),
                scalars.len() == f,
                forall|k: int|
                    0 <= k < f ==> {
                        &&& (#[trigger] scalars[k]).wf()
                        &&& scalars[k]@ == self.fields[k]@[index as int]
                        &&& scalars[k].spec_dtype() == self.fields[k].spec_dtype()
                    },
            decreases self.fields.len() - f,
        {
            proof {
                self.lemma_len();
                assert(self.spec_fields()[f as int].wf());
                assert(self.spec_fields()[f as int]@.len() == self@.len());
            }
            let s = self.fields[f].scalar_at(index)?;
            scalars.push(s);
            f += 1;
        }
        let s = Scalar::Struct { names: clone_names(&self.names), fields: scalars };
        proof {
            self.lemma_row(index as int);
            let got = s@->Struct_0;
            assert(got =~= Seq::new(
                self.spec_fields().len(),
                |f: int| self.spec_fields()[f]@[index as int],
            ));
            let got_types = s.spec_dtype()->Struct_1;
            let want_types = self.spec_dtype()->Struct_1;
            assert(got_types =~= want_types);
        }
        Ok(s)
    }

    /// The rows `[start, stop)`: the bounds are checked once, then every
    /// column is sliced to the same range.
    ///
    /// Fails with `OutOfBounds` if `start > stop` or `stop > len()`.
    pub fn slice(&self, start: usize, stop: usize) -> (r: Result<Array, EncError>)
        requires
            self.wf(),
        ensures
            in_bounds(self@.len(), start as nat, stop as nat) ==> (r matches Ok(a) && a.wf() && a@
                == self@.subrange(start as int, stop as int) && a.spec_dtype()
                == self.spec_dtype() && (self.is_canonical() ==> a.is_canonical())),
            !in_bounds(self@.len(), start as nat, stop as nat) ==> r == Err::<Array, EncError>(
                EncError::OutOfBounds { start, stop, len: self@.len() as usize },
            ),
        decreases self,
    {
        check_slice_bounds(self.len(), start, stop)?;
        let mut fields: Vec<Array> = Vec::new();
        let mut f: usize = 0;
        while f < self.fields.len()
            invariant
                self.wf(),
                start <= stop <= self@.len(),
                f <= self.fields.len(),
                fields.len() == f,
                forall|k: int|
                    0 <= k < f ==> {
                        &&& (#[trigger] fields[k]).wf()
                        &&& fields[k]@ == self.fields[k]@.subrange(start as int, stop as int)
                        &&& fields[k].spec_dtype() == self.fields[k].spec_dtype()
                        &&& self.fields[k].is_canonical() ==> fields[k].is_canonical()
                    },
            decreases self.fields.len() - f,
        {
            proof {
                self.lemma_len();
                assert(self.spec_fields()[f as int].wf());
                assert(self.spec_fields()[f as int]@.len() == self@.len());
            }
            let field = self.fields[f].slice(start, stop)?;
            fields.push(field);
            f += 1;
        }
        proof {
            assert forall|i: int, j: int|
                0 <= i < fields.len() && 0 <= j < fields.len() implies (#[trigger] fields[i]@).len()
                == (#[trigger] fields[j]@).len() by {
                self.lemma_len();
                assert(self.spec_fields()[i]@.len() == self@.len());
                assert(self.spec_fields()[j]@.len() == self@.len());
            }
        }
        let sliced = StructArray::new(clone_names(&self.names), fields);
        proof {
            self.lemma_len();
            sliced.lemma_len();
            if self.spec_fields().len() > 0 {
                assert(self.spec_fields()[0]@.len() == self@.len());
            }
            assert(sliced@.len() == self@.subrange(start as int, stop as int).len());
            assert forall|i: int| 0 <= i < sliced@.len() implies sliced@[i] == self@.subrange(
                start as int,
                stop as int,
            )[i] by {
                sliced.lemma_row(i);
                self.lemma_row(start + i);
                assert(Seq::new(sliced.spec_fields().len(), |f: int| sliced.spec_fields()[f]@[i])
                    =~= Seq::new(
                    self.spec_fields().len(),
                    |f: int| self.spec_fields()[f]@[start + i],
                ));
            }
            assert(sliced@ =~= self@.subrange(start as int, stop as int));
            let got_types = sliced.spec_dtype()->Struct_1;
            let want_types = self.spec_dtype()->Struct_1;
            assert(got_types =~= want_types);
        }
        Ok(Array::Struct(sliced))
    }

    /// The byte footprint of the first `n` columns together.
    pub open spec fn nbytes_upto(&self, n: nat) -> nat
        decreases self, 0nat, n,
    {
        if n == 0 || n > self.spec_fields().len() {
            0
        } else {
            self.nbytes_upto((n - 1) as nat) + self.spec_fields()[n - 1].spec_nbytes()
        }
    }

    /// The byte footprint of all columns together.
    pub open spec fn spec_nbytes(&self) -> nat
        decreases self, 1nat, 0nat,
    {
        self.nbytes_upto(self.spec_fields().len())
    }

    /// The byte footprint, capped at the largest length.
    pub fn nbytes(&self) -> (n: usize)
        requires
            self.wf(),
        ensures
            n == capped(self.spec_nbytes()),
        decreases self,
    {
        let mut n: usize = 0;
        let mut f: usize = 0;
        while f < self.fields.len()
            invariant
                self.wf(),
                f <= self.fields.len(),
                n == capped(self.nbytes_upto(f as nat)),
            decreases self.fields.len() - f,
        {
            assert(self.spec_fields()[f as int].wf());
            n = add_capped(n, self.fields[f].nbytes());
            f += 1;
        }
        n
    }

    /// A struct has no nulls of its own: every row is valid.
    pub fn is_valid(&self, index: usize) -> (b: bool)
        requires
            self.wf(),
            index < self@.len(),
        ensures
            b,
            !(self@[index as int] is Null),
    {
        true
    }

    /// A struct has no nulls of its own: every row is valid.
    pub fn logical_validity(&self) -> (v: LogicalValidity)
        requires
            self.wf(),
        ensures
            v@ == Seq::new(self@.len(), |i: int| !(self@[i] is Null)),
            v == LogicalValidity::AllValid(self@.len() as usize),
    {
        let v = LogicalValidity::AllValid(self.len());
        assert(v@ =~= Seq::new(self@.len(), |i: int| !(self@[i] is Null)));
        v
    }

    /// The struct of the canonical forms of the columns.
    pub fn canonicalize(&self) -> (r: Result<Array, EncError>)
        requires
            self.wf(),
        ensures
            r matches Ok(a) && a.wf() && a.is_canonical() && a@ == self@ && a.spec_dtype()
                == self.spec_dtype(),
        decreases self,
    {
        let mut fields: Vec<Array> = Vec::new();
        let mut f: usize = 0;
        while f < self.fields.len()
            invariant
                self.wf(),
                f <= self.fields.len(),
                fields.len() == f,
                forall|k: int|
                    0 <= k < f ==> {
                        &&& (#[trigger] fields[k]).wf()
                        &&& fields[k]@ == self.fields[k]@
                        &&& fields[k].spec_dtype() == self.fields[k].spec_dtype()
                        &&& fields[k].is_canonical()
                    },
            decreases self.fields.len() - f,
        {
            assert(self.spec_fields()[f as int].wf());
            let field = self.fields[f].canonicalize()?;
            fields.push(field);
            f += 1;
        }
        let canonical = StructArray::new(clone_names(&self.names), fields);
        proof {
            assert(canonical.columns() =~= self.columns());
            let got_types = canonical.spec_dtype()->Struct_1;
            let want_types = self.spec_dtype()->Struct_1;
            assert(got_types =~= want_types);
        }
        Ok(Array::Struct(canonical))
    }

    /// The struct batches of columns that come in chunks: the rows are cut
    /// wherever a chunk of any column ends, and each piece becomes one struct
    /// under the given names.
    pub fn align(names: &Vec<String>, columns: Vec<Vec<Array>>) -> (batches: Vec<Array>)
        requires
            names.len() == columns.len(),
            AlignedIterator::aligned(columns@),
        ensures
            flat(batches@) == struct_rows(
                Seq::new(columns.len() as nat, |f: int| flat(columns[f]@)),
            ),
            forall|b: int|
                0 <= b < batches.len() ==> {
                    &&& (#[trigger] batches[b]).wf()
                    &&& batches[b]@.len() > 0
                    &&& batches[b] matches Array::Struct(rows)
                    &&& rows.spec_names() == names@
                    &&& rows.spec_fields().len() == columns.len()
                    &&& forall|f: int|
                        0 <= f < columns.len() ==> (#[trigger] rows.spec_fields()[f]).spec_dtype()
                            == columns[f][0].spec_dtype()
                    &&& StructArray::all_canonical(chunked(columns@)) ==> batches[b].is_canonical()
                },
            ends(batches@) == cuts_of(chunked(columns@)),
    {
        let ghost sources = chunked(columns@);
        let ghost width = columns.len();
        let ghost whole = Seq::new(width as nat, |f: int| flat(sources[f]));
        let ghost rows = struct_rows(whole);
        proof {
            assert(Seq::new(width as nat, |f: int| flat(columns[f]@)) =~= whole);
            assert forall|f: int| 0 <= f < width implies (#[trigger] whole[f]).len()
                == rows.len() by {
                assert(flat(columns[f]@).len() == flat(columns[0]@).len());
            }
        }
        let mut it = AlignedIterator::new(columns);
        let mut batches: Vec<Array> = Vec::new();
        proof {
            assert(flat(batches@) =~= rows.take(0));
            assert(batches@.take(0) =~= Seq::<Array>::empty());
            lemma_ends_empty();
            assert(cuts_upto(cuts_of(sources), 0) =~= Set::<int>::empty());
        }
        loop
            invariant
                it.wf(),
                names.len() == width,
                sources.len() == width,
                it.sources() == sources,
                whole == Seq::new(width as nat, |f: int| flat(sources[f])),
                rows == struct_rows(whole),
                rows.len() == it.total(),
                forall|f: int| 0 <= f < width ==> (#[trigger] whole[f]).len() == rows.len(),
                it.position() <= it.total(),
                flat(batches@) == rows.take(it.position() as int),
                offset_of(batches@, batches.len() as int) == it.position(),
                forall|b: int|
                    0 <= b < batches.len() ==> {
                        &&& (#[trigger] batches[b]).wf()
                        &&& batches[b]@.len() > 0
                        &&& batches[b] matches Array::Struct(rows)
                        &&& rows.spec_names() == names@
                        &&& rows.spec_fields().len() == width
                        &&& forall|f: int|
                            0 <= f < width ==> (#[trigger] rows.spec_fields()[f]).spec_dtype()
                                == sources[f][0].spec_dtype()
                        &&& StructArray::all_canonical(sources) ==> batches[b].is_canonical()
                    },
                ends(batches@) == cuts_upto(cuts_of(sources), it.position() as int),
            ensures
                it.position() == it.total(),
            decreases it.total() - it.position(),
        {
            let ghost from = it.position() as int;
            match it.next() {
                None => {
                    break ;
                },
                Some(pieces) => {
                    let ghost upto = it.position() as int;
                    proof {
                        assert forall|f: int| 0 <= f < width implies (#[trigger] pieces[f])@
                            == whole[f].subrange(from, upto) by {
                        }
                        assert forall|i: int, j: int|
                            0 <= i < pieces.len() && 0 <= j < pieces.len() implies (
                        #[trigger] pieces[i]@).len() == (#[trigger] pieces[j]@).len() by {
                            assert(pieces[i]@ == whole[i].subrange(from, upto));
                            assert(pieces[j]@ == whole[j].subrange(from, upto));
                        }
                    }
                    let batch = StructArray::new(clone_names(names), pieces);
                    proof {
                        assert forall|f: int| 0 <= f < width implies (
                        #[trigger] batch.columns()[f]) == whole[f].subrange(from, upto) by {
                            assert(pieces[f]@ == whole[f].subrange(from, upto));
                        }
                        lemma_rows_subrange(whole, batch.columns(), from, upto);
                        lemma_flat_push(batches@, Array::Struct(batch));
                        assert(rows.take(from) + rows.subrange(from, upto) =~= rows.take(upto));
                        lemma_offset_push(batches@, Array::Struct(batch), batches.len() as int);
                        if StructArray::all_canonical(sources) {
                            assert forall|f: int| 0 <= f < batch.spec_fields().len() implies (
                            #[trigger] batch.spec_fields()[f]).is_canonical() by {
                                assert forall|k: int| 0 <= k < sources[f].len() implies (
                                #[trigger] sources[f][k]).is_canonical() by {
                                }
                            }
                        }
                        lemma_ends_push(batches@, Array::Struct(batch));
                        assert forall|row: int| from < row < upto implies !cuts_of(
                            sources,
                        ).contains(row) by {
                            if cuts_of(sources).contains(row) {
                                let (f, k) = choose|f: int, k: int|
                                    0 <= f < sources.len() && 0 < k <= sources[f].len()
                                        && #[trigger] offset_of(sources[f], k) == row;
                                assert(chunk_starts_within(sources, from, upto));
                            }
                        }
                        lemma_cut_step(cuts_of(sources), from, upto);
                    }
                    batches.push(Array::Struct(batch));
                },
            }
        }
        proof {
            assert(rows.take(rows.len() as int) == rows);
            assert forall|row: int| cuts_of(sources).contains(row) implies row
                <= it.position() by {
                let (f, k) = choose|f: int, k: int|
                    0 <= f < sources.len() && 0 < k <= sources[f].len() && #[trigger] offset_of(
                        sources[f],
                        k,
                    ) == row;
                lemma_flat_prefix(sources[f], k);
                assert(whole[f].len() == rows.len());
            }
            assert(cuts_upto(cuts_of(sources), it.position() as int) =~= cuts_of(sources));
        }
        batches
    }

    /// The rows behind which a batch of the struct ends: those behind which
    /// a batch of some column ends.
    pub open spec fn cuts(&self) -> Set<int>
        decreases self,
    {
        Set::new(
            |row: int|
                exists|f: int|
                    0 <= f < self.spec_fields().len() && (
                    #[trigger] self.spec_fields()[f]).cuts().contains(row),
        )
    }

    /// Whether every chunk of every column is canonical.
    pub open spec fn all_canonical(sources: Seq<Seq<Array>>) -> bool {
        forall|f: int, k: int|
            0 <= f < sources.len() && 0 <= k < sources[f].len() ==> (
            #[trigger] sources[f][k]).is_canonical()
    }

    /// The canonical batches of the struct: each column is asked for its own
    /// batches, and those are aligned. Every batch is a canonical struct of
    /// the same type as this one, and the batches in order hold its rows.
    pub fn iter_arrow(&self) -> (batches: Vec<Array>)
        requires
            self.wf(),
        ensures
            flat(batches@) == self@,
            chunks_wf(batches@),
            forall|b: int|
                0 <= b < batches.len() ==> {
                    &&& (#[trigger] batches[b]).is_canonical()
                    &&& batches[b].spec_dtype() == self.spec_dtype()
                    &&& batches[b]@.len() > 0
                    &&& batches[b] is Struct
                },
            ends(batches@) == self.cuts(),
        decreases self,
    {
        let mut columns: Vec<Vec<Array>> = Vec::new();
        let mut f: usize = 0;
        while f < self.fields.len()
            invariant
                self.wf(),
                f <= self.fields.len(),
                columns.len() == f,
                forall|k: int|
                    0 <= k < f ==> {
                        &&& chunks_wf((#[trigger] columns[k])@)
                        &&& flat(columns[k]@) == self.fields[k]@
                        &&& ends(columns[k]@) == self.fields[k].cuts()
                        &&& forall|c: int|
                            0 <= c < columns[k].len() ==> (#[trigger] columns[k][c]).is_canonical()
                                && columns[k][c].spec_dtype() == self.fields[k].spec_dtype()
                    },
            decreases self.fields.len() - f,
        {
            assert(self.spec_fields()[f as int].wf());
            let chunks = self.fields[f].iter_arrow();
            columns.push(chunks);
            f += 1;
        }
        let rows = self.len();
        proof {
            self.lemma_len();
            assert forall|f: int| 0 <= f < columns.len() implies flat(
                (#[trigger] columns[f])@,
            ).len() == flat(columns[0]@).len() by {
                assert(self.spec_fields()[f]@.len() == self@.len());
                assert(self.spec_fields()[0]@.len() == self@.len());
            }
            if columns.len() > 0 {
                assert(self.spec_fields()[0]@.len() == self@.len());
            }
            assert(Seq::new(columns.len() as nat, |f: int| flat(columns[f]@)) =~= self.columns());
            assert(StructArray::all_canonical(chunked(columns@)));
        }
        let ghost sources = columns@;
        let batches = StructArray::align(&self.names, columns);
        proof {
            assert(cuts_of(chunked(sources)) =~= self.cuts()) by {
                assert forall|row: int| cuts_of(chunked(sources)).contains(
                    row,
                ) implies self.cuts().contains(row) by {
                    let (f, k) = choose|f: int, k: int|
                        0 <= f < sources.len() && 0 < k <= chunked(sources)[f].len()
                            && #[trigger] offset_of(chunked(sources)[f], k) == row;
                    assert(ends(sources[f]@).contains(row));
                    assert(self.spec_fields()[f].cuts().contains(row));
                }
                assert forall|row: int| self.cuts().contains(row) implies cuts_of(
                    chunked(sources),
                ).contains(row) by {
                    let f = choose|f: int|
                        0 <= f < self.spec_fields().len() && (
                        #[trigger] self.spec_fields()[f]).cuts().contains(row);
                    assert(ends(sources[f]@).contains(row));
                    let k = choose|k: int|
                        0 < k <= sources[f]@.len() && #[trigger] offset_of(sources[f]@, k) == row;
                    assert(offset_of(chunked(sources)[f], k) == row);
                }
            }
            assert forall|b: int| 0 <= b < batches.len() implies {
                &&& (#[trigger] batches[b]).is_canonical()
                &&& batches[b].spec_dtype() == self.spec_dtype()
            } by {
                let rows = batches[b]->Struct_0;
                let got_types = rows.spec_dtype()->Struct_1;
                let want_types = self.spec_dtype()->Struct_1;
                assert forall|f: int| 0 <= f < got_types.len() implies got_types[f]
                    == want_types[f] by {
                    assert(rows.spec_fields()[f].spec_dtype() == sources[f][0].spec_dtype());
                    assert(sources[f].len() > 0) by {
                        rows.lemma_len();
                        assert(flat(sources[f]@).len() == self@.len());
                        if sources[f].len() == 0 {
                            assert(flat(batches@).len() == 0);
                            lemma_flat_prefix(batches@, b + 1);
                            lemma_offset_step(batches@, b);
                        }
                    }
                }
                assert(got_types =~= want_types);
            }
        }
        batches
    }

    /// The columns, in order.
    pub fn fields(&self) -> (r: &Vec<Array>)
        ensures
            r@ == self.spec_fields(),
    {
        &self.fields
    }

    /// The names of the columns, in order.
    pub fn names(&self) -> (r: &Vec<String>)
        ensures
            r@ == self.spec_names(),
    {
        &self.names
    }
}

} // verus!
