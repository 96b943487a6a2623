//! The bitmap-compressed integer column: a sparse or monotonic column of
//! unsigned integers held as a compressed set, read back by rank.

use vstd::prelude::*;
use vstd::set_lib::*;
use croaring::Bitmap;
use crate::aligned::{
    cuts_upto, ends, flat, lemma_cut_step, lemma_ends_empty, lemma_ends_push, lemma_flat_push,
};
use crate::array::primitive::PrimitiveArray;
use crate::array::{capped, mul_capped, Array};
use crate::dtype::{DType, DTypeView, PType};
use crate::error::EncError;
use crate::scalar::{Scalar, Value};

verus! {

/// `croaring::Bitmap`, a compressed set of 32-bit integers. What it holds
/// is spoken of as `bitmap_values`.
#[verifier::external_type_specification]
#[verifier::external_body]
pub struct ExBitmap(croaring::Bitmap);

/// The set of integers that a bitmap holds.
pub uninterp spec fn bitmap_values(bitmap: Bitmap) -> Set<u32>;

/// How many members of `s` are smaller than `v`.
pub open spec fn rank_of(s: Set<u32>, v: u32) -> nat {
    s.filter(|x: u32| x < v).len()
}

/// The member of `s` with exactly `i` smaller members: the element of rank
/// `i`, counting from zero.
pub open spec fn select_of(s: Set<u32>, i: nat) -> u32 {
    choose|v: u32| s.contains(v) && rank_of(s, v) == i
}

/// The values of a bitmap column: its members in increasing order.
pub open spec fn bitmap_column(s: Set<u32>) -> Seq<Value> {
    Seq::new(s.len(), |i: int| Value::Int(select_of(s, i as nat) as int))
}

/// `croaring::Bitmap::new`: the bitmap that holds nothing.
#[verifier::external_body]
fn bitmap_new() -> (bitmap: Bitmap)
    ensures
        bitmap_values(bitmap) == Set::<u32>::empty(),
{
    Bitmap::new()
}

/// `croaring::Bitmap::add`: afterwards the bitmap holds `element` and what it
/// held before.
#[verifier::external_body]
fn bitmap_add(bitmap: &mut Bitmap, element: u32)
    ensures
        bitmap_values(*final(bitmap)) == bitmap_values(*old(bitmap)).insert(element),
{
    bitmap.add(element)
}

/// `croaring::Bitmap::cardinality`: the number of integers held.
#[verifier::external_body]
fn bitmap_cardinality(bitmap: &Bitmap) -> (n: u64)
    ensures
        n == bitmap_values(*bitmap).len(),
{
    bitmap.cardinality()
}

/// `croaring::Bitmap::maximum`: the largest integer held, `None` for an empty
/// bitmap.
#[verifier::external_body]
fn bitmap_maximum(bitmap: &Bitmap) -> (m: Option<u32>)
    ensures
        match m {
            Some(v) => bitmap_values(*bitmap).contains(v) && forall|x: u32|
                bitmap_values(*bitmap).contains(x) ==> x <= v,
            None => bitmap_values(*bitmap) == Set::<u32>::empty(),
        },
{
    bitmap.maximum()
}

/// `croaring::Bitmap::select`: where the bitmap holds more than `rank`
/// integers, the one with exactly `rank` smaller ones; else `None`.
#[verifier::external_body]
fn bitmap_select(bitmap: &Bitmap, rank: u32) -> (r: Option<u32>)
    ensures
        match r {
            Some(v) => bitmap_values(*bitmap).contains(v) && rank_of(bitmap_values(*bitmap), v)
                == rank,
            None => bitmap_values(*bitmap).len() <= rank,
        },
{
    bitmap.select(rank)
}

/// Every set of 32-bit integers is finite.
pub proof fn lemma_u32_set_finite(s: Set<u32>)
    ensures
        s.finite(),
        s.len() <= 0x1_0000_0000,
{
    let all = set_int_range(0, 0x1_0000_0000);
    let narrow = |i: int| i as u32;
    let image = all.map(narrow);
    lemma_int_range(0, 0x1_0000_0000);
    all.lemma_map_finite(narrow);
    lemma_map_size_bound(all, image, narrow);
    assert(s.subset_of(image)) by {
        assert forall|x: u32| s.contains(x) implies image.contains(x) by {
            assert(all.contains(x as int) && x == narrow(x as int));
        }
    }
    lemma_len_subset(s, image);
}

/// Among the members of a set, a larger one has more smaller members.
pub proof fn lemma_rank_increases(s: Set<u32>, a: u32, b: u32)
    requires
        s.contains(a),
        a < b,
    ensures
        rank_of(s, a) < rank_of(s, b),
{
    lemma_u32_set_finite(s);
    let below_a = s.filter(|x: u32| x < a);
    let below_b = s.filter(|x: u32| x < b);
    s.lemma_len_filter(|x: u32| x < a);
    s.lemma_len_filter(|x: u32| x < b);
    assert(below_a.insert(a).subset_of(below_b));
    lemma_len_subset(below_a.insert(a), below_b);
}

/// The member of a given rank is unique: `select_of` is the member that has
/// that rank.
pub proof fn lemma_select_of(s: Set<u32>, v: u32)
    requires
        s.contains(v),
    ensures
        select_of(s, rank_of(s, v)) == v,
        rank_of(s, v) < s.len(),
{
    let i = rank_of(s, v);
    let w = select_of(s, i);
    assert(s.contains(w) && rank_of(s, w) == i);
    if w < v {
        lemma_rank_increases(s, w, v);
    }
    if v < w {
        lemma_rank_increases(s, v, w);
    }
    lemma_u32_set_finite(s);
    let below = s.filter(|x: u32| x < v);
    s.lemma_len_filter(|x: u32| x < v);
    assert(below.insert(v).subset_of(s));
    lemma_len_subset(below.insert(v), s);
}

/// The container that holds an integer of a bitmap: integers that agree in
/// all but their low sixteen bits share one.
pub open spec fn container_of(value: Value) -> int {
    match value {
        Value::Int(v) => v / 0x1_0000,
        _ => 0,
    }
}

/// Whether every batch is a well-formed, canonical and non-empty array of
/// the given logical type.
pub open spec fn canonical_batches(batches: Seq<Array>, dtype: DTypeView) -> bool {
    forall|b: int|
        0 <= b < batches.len() ==> {
            &&& (#[trigger] batches[b]).wf()
            &&& batches[b].is_canonical()
            &&& batches[b].spec_dtype() == dtype
            &&& batches[b]@.len() > 0
        }
}

/// A batch of the rows `[from, upto)` extends batches of the rows before
/// `from` to batches of the rows before `upto`.
pub proof fn lemma_push_batch(
    batches: Seq<Array>,
    batch: Array,
    whole: Seq<Value>,
    from: int,
    upto: int,
)
    requires
        0 <= from < upto <= whole.len(),
        flat(batches) == whole.take(from),
        batch@ == whole.subrange(from, upto),
        batch.wf(),
        batch.is_canonical(),
        canonical_batches(batches, batch.spec_dtype()),
    ensures
        flat(batches.push(batch)) == whole.take(upto),
        canonical_batches(batches.push(batch), batch.spec_dtype()),
{
    lemma_flat_push(batches, batch);
    assert(whole.take(from) + whole.subrange(from, upto) =~= whole.take(upto));
}

/// Whether every integer of the sequence is smaller than the next.
pub open spec fn strictly_increasing(values: Seq<u32>) -> bool {
    forall|i: int, j: int| 0 <= i < j < values.len() ==> values[i] < values[j]
}

/// Rank and select agree with the order of a sorted sequence: in the set of
/// the integers of a strictly increasing sequence, the integer at index `i`
/// has rank `i`, and the set has as many members as the sequence has
/// integers.
pub proof fn lemma_sorted_rank(values: Seq<u32>, i: int)
    requires
        strictly_increasing(values),
        0 <= i < values.len(),
    ensures
        values.to_set().len() == values.len(),
        rank_of(values.to_set(), values[i]) == i,
        select_of(values.to_set(), i as nat) == values[i],
{
    let s = values.to_set();
    assert(values.no_duplicates());
    values.unique_seq_to_set();
    let head = values.take(i);
    assert(head.no_duplicates());
    head.unique_seq_to_set();
    let below = s.filter(|x: u32| x < values[i]);
    assert(below =~= head.to_set()) by {
        assert forall|x: u32| below.contains(x) implies head.to_set().contains(x) by {
            let k = choose|k: int| 0 <= k < values.len() && values[k] == x;
            if k >= i {
                if k > i {
                    assert(values[i] < values[k]);
                }
            }
            assert(head[k] == x);
        }
        assert forall|x: u32| head.to_set().contains(x) implies below.contains(x) by {
            let k = choose|k: int| 0 <= k < head.len() && head[k] == x;
            assert(values[k] == x);
            assert(values[k] < values[i]);
        }
    }
    assert(s.contains(values[i]));
    lemma_select_of(s, values[i]);
}

/// The column of the set of a strictly increasing sequence holds the
/// integers of the sequence, in their order.
pub proof fn lemma_sorted_column(values: Seq<u32>)
    requires
        strictly_increasing(values),
    ensures
        bitmap_column(values.to_set()) == Seq::new(
            values.len(),
            |i: int| Value::Int(values[i] as int),
        ),
{
    let got = bitmap_column(values.to_set());
    let want = Seq::new(values.len(), |i: int| Value::Int(values[i] as int));
    if values.len() == 0 {
        assert(values.to_set() =~= Set::<u32>::empty());
    } else {
        lemma_sorted_rank(values, 0);
    }
    assert forall|i: int| 0 <= i < want.len() implies got[i] == want[i] by {
        lemma_sorted_rank(values, i);
    }
    assert(got =~= want);
}

/// A bitmap-compressed column of unsigned integers.
///
/// Element `i` is the member of the bitmap with exactly `i` smaller members.
/// Every member is a value of the declared physical type.
#[derive(Debug)]
pub struct RoaringIntArray {
    bitmap: Bitmap,
    ptype: PType,
}

impl View for RoaringIntArray {
    type V = Seq<Value>;

    open spec fn view(&self) -> Seq<Value> {
        bitmap_column(self.members())
    }
}

impl RoaringIntArray {
    /// The set of integers in the column.
    pub closed spec fn members(&self) -> Set<u32> {
        bitmap_values(self.bitmap)
    }

    pub closed spec fn spec_ptype(&self) -> PType {
        self.ptype
    }

    /// The physical type is unsigned and holds every member, and the number
    /// of members is a machine length.
    pub open spec fn wf(&self) -> bool {
        &&& !self.spec_ptype().spec_is_signed_int()
        &&& forall|v: u32| self.members().contains(v) ==> self.spec_ptype().holds(v as int)
        &&& self.members().len() <= usize::MAX
    }

    pub open spec fn spec_dtype(&self) -> DTypeView {
        DTypeView::Primitive(self.spec_ptype(), false)
    }

    /// The column of the integers that `bitmap` holds, read as `ptype`.
    ///
    /// Fails with `MismatchedTypes` if `ptype` is signed, else with
    /// `ValueOutOfRange` if the bitmap holds an integer that is no value of
    /// `ptype`, or more integers than a length can count.
    pub fn try_new(bitmap: Bitmap, ptype: PType) -> (r: Result<RoaringIntArray, EncError>)
        ensures
            match r {
                Ok(a) => {
                    &&& a.wf()
                    &&& a.members() == bitmap_values(bitmap)
                    &&& a.spec_ptype() == ptype
                },
                Err(e) => if ptype.spec_is_signed_int() {
                    e == EncError::MismatchedTypes
                } else {
                    &&& e == EncError::ValueOutOfRange
                    &&& (exists|v: u32| #[trigger]
                        bitmap_values(bitmap).contains(v) && !ptype.holds(v as int))
                        || bitmap_values(bitmap).len() > usize::MAX
                },
            },
    {
        if ptype.is_signed_int() {
            return Err(EncError::MismatchedTypes);
        }
        match bitmap_maximum(&bitmap) {
            Some(m) => {
                if !ptype.contains(m as i128) {
                    return Err(EncError::ValueOutOfRange);
                }
            },
            None => {},
        }
        let n = bitmap_cardinality(&bitmap);
        if n > usize::MAX as u64 {
            return Err(EncError::ValueOutOfRange);
        }
        Ok(RoaringIntArray { bitmap, ptype })
    }

    /// The column that holds each of `values` once, in increasing order.
    ///
    /// Fails as `try_new` does on the bitmap of these values.
    pub fn from_values(values: &Vec<u32>, ptype: PType) -> (r: Result<RoaringIntArray, EncError>)
        ensures
            match r {
                Ok(a) => {
                    &&& a.wf()
                    &&& a.members() == values@.to_set()
                    &&& a.spec_ptype() == ptype
                    &&& strictly_increasing(values@) ==> a@ == Seq::new(
                        values@.len(),
                        |i: int| Value::Int(values[i] as int),
                    )
                },
                Err(e) => if ptype.spec_is_signed_int() {
                    e == EncError::MismatchedTypes
                } else {
                    &&& e == EncError::ValueOutOfRange
                    &&& (exists|v: u32| #[trigger]
                        values@.to_set().contains(v) && !ptype.holds(v as int))
                        || values@.to_set().len() > usize::MAX
                },
            },
    {
        let mut bitmap = bitmap_new();
        let mut i: usize = 0;
        while i < values.len()
            invariant
                i <= values.len(),
                bitmap_values(bitmap) == values@.take(i as int).to_set(),
            decreases values.len() - i,
        {
            bitmap_add(&mut bitmap, values[i]);
            proof {
                let before = values@.take(i as int);
                let after = values@.take(i + 1);
                assert(after == before.push(values@[i as int]));
                assert(after.to_set() =~= before.to_set().insert(values@[i as int])) by {
                    assert forall|x: u32| after.to_set().contains(x) implies before.to_set().insert(
                        values@[i as int],
                    ).contains(x) by {
                        let k = choose|k: int| 0 <= k < after.len() && after[k] == x;
                        if k < i {
                            assert(before[k] == x);
                        }
                    }
                    assert forall|x: u32|
                        before.to_set().insert(values@[i as int]).contains(x) implies after.to_set().contains(
                        x,
                    ) by {
                        if x == values@[i as int] {
                            assert(after[i as int] == x);
                        } else {
                            let k = choose|k: int| 0 <= k < before.len() && before[k] == x;
                            assert(after[k] == x);
                        }
                    }
                }
            }
            i += 1;
        }
        assert(values@.take(values.len() as int) == values@);
        proof {
            if strictly_increasing(values@) {
                lemma_sorted_column(values@);
            }
        }
        RoaringIntArray::try_new(bitmap, ptype)
    }

    pub fn len(&self) -> (n: usize)
        requires
            self.wf(),
        ensures
            n == self@.len(),
    {
        bitmap_cardinality(&self.bitmap) as usize
    }

    pub fn is_empty(&self) -> (b: bool)
        requires
            self.wf(),
        ensures
            b == (self@.len() == 0),
    {
        bitmap_cardinality(&self.bitmap) == 0
    }

    pub fn ptype(&self) -> (p: PType)
        ensures
            p == self.spec_ptype(),
    {
        self.ptype
    }

    pub fn dtype(&self) -> (d: DType)
        ensures
            d@ == self.spec_dtype(),
    {
        DType::Primitive(self.ptype, false)
    }

    /// Four bytes for each member.
    pub open spec fn spec_nbytes(&self) -> nat {
        self@.len() * 4
    }

    /// The byte footprint, capped at the largest length.
    pub fn nbytes(&self) -> (n: usize)
        requires
            self.wf(),
        ensures
            n == capped(self.spec_nbytes()),
    {
        mul_capped(self.len(), 4)
    }

    /// The integer of rank `index` among the members.
    pub fn get(&self, index: usize) -> (v: u32)
        requires
            self.wf(),
            index < self@.len(),
        ensures
            self.members().contains(v),
            rank_of(self.members(), v) == index,
            v == select_of(self.members(), index as nat),
            self@[index as int] == Value::Int(v as int),
    {
        proof {
            lemma_u32_set_finite(self.members());
        }
        match bitmap_select(&self.bitmap, index as u32) {
            Some(v) => {
                proof {
                    lemma_select_of(self.members(), v);
                }
                v
            },
            None => {
                proof {
                    assert(false);
                }
                0
            },
        }
    }

    /// The element at `index`: the member of the bitmap with exactly `index`
    /// smaller members, as a scalar of the declared physical type.
    pub fn scalar_at(&self, index: usize) -> (r: Result<Scalar, EncError>)
        requires
            self.wf(),
            index < self@.len(),
        ensures
            r matches Ok(s) && s.wf() && s@ == self@[index as int] && s.spec_dtype()
                == self.spec_dtype() && s@ == Value::Int(
                select_of(self.members(), index as nat) as int,
            ),
    {
        let bitmap_value = self.get(index);
        let value = Some(bitmap_value as i128);
        Ok(Scalar::Primitive { ptype: self.ptype, nullable: false, value })
    }

    /// The canonical batches of the column, one for each container of the
    /// bitmap: a batch holds the members that agree in all but their low
    /// sixteen bits, and the batches come in the order of the members.
    pub fn iter_arrow(&self) -> (batches: Vec<Array>)
        requires
            self.wf(),
        ensures
            flat(batches@) == self@,
            canonical_batches(batches@, self.spec_dtype()),
            ends(batches@) == self.cuts(),
    {
        let n = self.len();
        let mut batches: Vec<Array> = Vec::new();
        let mut current: Vec<i128> = Vec::new();
        let mut emitted: usize = 0;
        let mut i: usize = 0;
        proof {
            assert(flat(batches@) =~= self@.take(0));
            lemma_ends_empty();
            assert(cuts_upto(self.cuts(), 0) =~= Set::<int>::empty());
        }
        while i < n
            invariant
                self.wf(),
                n == self@.len(),
                emitted <= i <= n,
                i > 0 ==> emitted < i,
                i == 0 ==> batches.len() == 0,
                current.len() == i - emitted,
                flat(batches@) == self@.take(emitted as int),
                self.run(current@, emitted as int),
                canonical_batches(batches@, self.spec_dtype()),
                ends(batches@) == cuts_upto(self.cuts(), emitted as int),
                forall|row: int| emitted < row < i ==> !self.cuts().contains(row),
            decreases n - i,
        {
            let v = self.get(i) as i128;
            if current.len() > 0 && v / 0x1_0000 != current[0] / 0x1_0000 {
                proof {
                    assert(self@[i - 1] == Value::Int(current[i - 1 - emitted] as int));
                    assert(self.cuts().contains(i as int));
                }
                let batch = self.batch_of(current, Ghost(emitted as int));
                proof {
                    lemma_push_batch(batches@, batch, self@, emitted as int, i as int);
                    lemma_ends_push(batches@, batch);
                    lemma_cut_step(self.cuts(), emitted as int, i as int);
                }
                batches.push(batch);
                current = Vec::new();
                emitted = i;
            } else {
                proof {
                    if current.len() > 0 {
                        assert(self@[i - 1] == Value::Int(current[i - 1 - emitted] as int));
                        assert(!self.cuts().contains(i as int));
                    }
                }
            }
            let ghost before = current@;
            current.push(v);
            proof {
                assert forall|k: int| 0 <= k < current.len() implies {
                    &&& emitted + k < self@.len()
                    &&& self@[emitted + k] == Value::Int(#[trigger] current[k] as int)
                    &&& self.spec_ptype().holds(current[k] as int)
                    &&& current[k] / 0x1_0000 == current[0] / 0x1_0000
                } by {
                    if k < before.len() {
                        assert(current[k] == before[k]);
                    }
                }
            }
            i += 1;
        }
        if current.len() > 0 {
            let batch = self.batch_of(current, Ghost(emitted as int));
            proof {
                assert(self.cuts().contains(n as int));
                lemma_push_batch(batches@, batch, self@, emitted as int, n as int);
                lemma_ends_push(batches@, batch);
                lemma_cut_step(self.cuts(), emitted as int, n as int);
            }
            batches.push(batch);
        }
        proof {
            assert(self@.take(n as int) == self@);
            assert(cuts_upto(self.cuts(), n as int) =~= self.cuts());
        }
        batches
    }

    /// The rows behind which a batch of the column ends: the last, and
    /// those behind which the container changes.
    pub open spec fn cuts(&self) -> Set<int> {
        Set::new(
            |row: int|
                0 < row <= self@.len() && (row == self@.len() || container_of(self@[row - 1])
                    != container_of(self@[row])),
        )
    }

    /// The members collected for the next batch are the members of the
    /// column from `from` on, values of its type, and of one container.
    pub open spec fn run(&self, members: Seq<i128>, from: int) -> bool {
        forall|k: int|
            0 <= k < members.len() ==> {
                &&& from + k < self@.len()
                &&& self@[from + k] == Value::Int(#[trigger] members[k] as int)
                &&& self.spec_ptype().holds(members[k] as int)
                &&& members[k] / 0x1_0000 == members[0] / 0x1_0000
            }
    }

    /// The canonical column of the given members.
    fn batch_of(&self, members: Vec<i128>, Ghost(from): Ghost<int>) -> (batch: Array)
        requires
            members.len() > 0,
            0 <= from,
            self.run(members@, from),
        ensures
            batch.wf(),
            batch.is_canonical(),
            batch.spec_dtype() == self.spec_dtype(),
            batch@ == self@.subrange(from, from + members.len()),
    {
        let ghost wanted = members@;
        match PrimitiveArray::try_new(self.ptype, members, None) {
            Ok(column) => {
                proof {
                    assert(self.run(wanted, from));
                    assert(from + wanted.len() <= self@.len()) by {
                        assert(self@[from + wanted.len() - 1] == Value::Int(
                            wanted[wanted.len() - 1] as int,
                        ));
                    }
                    assert forall|k: int| 0 <= k < column@.len() implies #[trigger] column@[k]
                        == self@[from + k] by {
                        assert(self@[from + k] == Value::Int(wanted[k] as int));
                    }
                    assert(column@ =~= self@.subrange(from, from + wanted.len()));
                }
                Array::Primitive(column)
            },
            Err(_) => {
                proof {
                    assert(false);
                }
                Array::Primitive(PrimitiveArray::empty(self.ptype))
            },
        }
    }

    /// The elements `[start, stop)`, decoded into a canonical column.
    pub fn slice(&self, start: usize, stop: usize) -> (r: PrimitiveArray)
        requires
            self.wf(),
            start <= stop <= self@.len(),
        ensures
            r.wf(),
            r@ == self@.subrange(start as int, stop as int),
            r.spec_dtype() == self.spec_dtype(),
    {
        let mut values: Vec<i128> = Vec::new();
        let mut i: usize = start;
        while i < stop
            invariant
                self.wf(),
                start <= i <= stop <= self@.len(),
                values.len() == i - start,
                forall|j: int|
                    0 <= j < values.len() ==> Value::Int(#[trigger] values[j] as int) == self@[start
                        + j] && self.spec_ptype().holds(values[j] as int),
            decreases stop - i,
        {
            let v = self.get(i);
            values.push(v as i128);
            i += 1;
        }
        match PrimitiveArray::try_new(self.ptype, values, None) {
            Ok(r) => {
                assert(r@ =~= self@.subrange(start as int, stop as int));
                r
            },
            Err(_) => {
                proof {
                    assert(false);
                }
                PrimitiveArray::empty(self.ptype)
            },
        }
    }
}

} // verus!
