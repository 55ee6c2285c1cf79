//! The record: an identifier, an element count that is fixed when the record
//! is made, and that many elements, behind one owning handle.

use crate::layout::{extent_of, record_fits, InstanceLayoutInfo};
use vstd::prelude::*;

verus! {

/// Why a record could not be made.
#[derive(Clone, Copy, Debug, PartialEq, Eq)]
pub enum ConstructionError {
    /// No record of that many elements of that type can exist: its size
    /// would not fit in `isize`.
    LayoutOverflow,
    /// The allocator did not provide the storage for the record.
    AllocationFailed,
}

/// What a record holds: its identifier and its elements, in order.
pub struct RecordModel<T> {
    pub id: u32,
    pub elements: Seq<T>,
}

impl<T> RecordModel<T> {
    /// The number of elements.
    pub open spec fn length(self) -> nat {
        self.elements.len()
    }

    /// The element at index `i`, where there is one.
    pub open spec fn get(self, i: u16) -> Option<T> {
        if (i as nat) < self.length() {
            Some(self.elements[i as int])
        } else {
            None
        }
    }

    /// The same record with `value` in place of the element at index `i`.
    pub open spec fn set(self, i: u16, value: T) -> RecordModel<T> {
        RecordModel { id: self.id, elements: self.elements.update(i as int, value) }
    }
}

/// Whether `model` is what construction from `id`, `length` and `init` may
/// give: the identifier and the length are the ones asked for, and each
/// element is a value that `init` may return for its index.
pub open spec fn initialized_by<T, F: Fn(usize) -> T>(
    model: RecordModel<T>,
    id: u32,
    length: u16,
    init: F,
) -> bool {
    &&& model.id == id
    &&& model.length() == length
    &&& forall|i: int|
        0 <= i < length ==> call_ensures(init, (i as usize,), #[trigger] model.elements[i])
}

/// The handle that owns a record of elements of type `T`.
pub struct OwnedInstanceRef<T> {
    id: u32,
    length: u16,
    items: Vec<T>,
}

impl<T> View for OwnedInstanceRef<T> {
    type V = RecordModel<T>;

    closed spec fn view(&self) -> RecordModel<T> {
        RecordModel { id: self.id, elements: self.items@ }
    }
}

/// `Vec::as_mut_slice`, taken on trust: the slice shows the elements of the
/// vector, and what it holds when the borrow ends is what the vector then
/// holds. To this, which vstd states of the same function, it adds that a
/// slice cannot grow or shrink, so that it ends with the length it starts
/// with, and that the call does not unwind.
#[verifier::external_body]
fn whole_slice_mut<T>(items: &mut Vec<T>) -> (slice: &mut [T])
    ensures
        slice@ == old(items)@,
        final(items)@ == final(slice)@,
        final(slice)@.len() == slice@.len(),
    no_unwind
{
    items.as_mut_slice()
}

/// Empty storage with room for `length` elements, or `None` where the
/// allocator does not provide it. Elements that take no room need none.
fn reserve_slots<T>(length: u16) -> (r: Option<Vec<T>>)
    ensures
        r matches Some(slots) ==> slots@.len() == 0,
        length * vstd::layout::size_of::<T>() == 0 ==> r is Some,
{
    let mut slots: Vec<T> = Vec::new();
    if length == 0 || core::mem::size_of::<T>() == 0 {
        return Some(slots);
    }
    assert(length * vstd::layout::size_of::<T>() != 0) by (nonlinear_arith)
        requires
            length != 0,
            vstd::layout::size_of::<T>() != 0,
    ;
    match slots.try_reserve(usize::from(length)) {
        Ok(_) => Some(slots),
        Err(_) => None,
    }
}

impl<T> OwnedInstanceRef<T> {
    #[verifier::type_invariant]
    spec fn is_whole(&self) -> bool {
        &&& self.items@.len() == self.length
        &&& record_fits(extent_of::<T>(), self.length as nat)
    }

    /// Makes a record with the given identifier and `length` elements, the
    /// element at index `i` being `default_elem_func(i)`.
    ///
    /// Fails with `LayoutOverflow`, before anything is allocated and before
    /// `default_elem_func` is called, where no such record can exist, and
    /// with `AllocationFailed` where the allocator does not provide the
    /// storage. A record whose elements take no room, because there are none
    /// or because they are of size zero, asks nothing of the allocator and
    /// is made whenever it can exist.
    pub fn new(id: u32, length: u16, default_elem_func: impl Fn(usize) -> T) -> (r: Result<
        OwnedInstanceRef<T>,
        ConstructionError,
    >)
        requires
            forall|i: usize| i < length ==> call_requires(default_elem_func, (i,)),
        ensures
            match r {
                Ok(record) => record_fits(extent_of::<T>(), length as nat) && initialized_by(
                    record@,
                    id,
                    length,
                    default_elem_func,
                ),
                Err(ConstructionError::LayoutOverflow) => !record_fits(
                    extent_of::<T>(),
                    length as nat,
                ),
                Err(ConstructionError::AllocationFailed) => record_fits(
                    extent_of::<T>(),
                    length as nat,
                ),
            },
            length * vstd::layout::size_of::<T>() > isize::MAX ==> r == Err::<Self, _>(
                ConstructionError::LayoutOverflow,
            ),
            length * vstd::layout::size_of::<T>() == 0 && record_fits(
                extent_of::<T>(),
                length as nat,
            ) ==> r is Ok,
    {
        match InstanceLayoutInfo::<T>::new(length) {
            Ok(_) => {},
            Err(_) => {
                return Err(ConstructionError::LayoutOverflow);
            },
        }
        let storage = reserve_slots::<T>(length);
        Self::with_storage(id, length, storage, default_elem_func)
    }

    /// Makes the record in `storage`, which is what the allocator gave when
    /// it was asked for room for `length` elements: empty storage, or `None`
    /// where it gave none. Fails with `AllocationFailed` exactly where
    /// `storage` is `None`, without calling `default_elem_func`.
    pub fn with_storage(
        id: u32,
        length: u16,
        storage: Option<Vec<T>>,
        default_elem_func: impl Fn(usize) -> T,
    ) -> (r: Result<OwnedInstanceRef<T>, ConstructionError>)
        requires
            record_fits(extent_of::<T>(), length as nat),
            storage matches Some(slots) ==> slots@.len() == 0,
            forall|i: usize| i < length ==> call_requires(default_elem_func, (i,)),
        ensures
            match storage {
                Some(_) => r matches Ok(record) && initialized_by(
                    record@,
                    id,
                    length,
                    default_elem_func,
                ),
                None => r == Err::<Self, _>(ConstructionError::AllocationFailed),
            },
    {
        let mut items: Vec<T> = match storage {
            Some(slots) => slots,
            None => {
                return Err(ConstructionError::AllocationFailed);
            },
        };
        let mut i: u16 = 0;
        while i < length
            invariant
                i <= length,
                items@.len() == i,
                forall|k: usize| k < length ==> call_requires(default_elem_func, (k,)),
                forall|k: int|
                    0 <= k < i ==> call_ensures(default_elem_func, (k as usize,), #[trigger] items@[k]),
            decreases length - i,
        {
            let value = default_elem_func(usize::from(i));
            items.push(value);
            i += 1;
        }
        Ok(OwnedInstanceRef { id, length, items })
    }

    /// The identifier the record was made with.
    pub fn id(&self) -> (r: u32)
        ensures
            r == self@.id,
    {
        self.id
    }

    /// The number of elements, which is the one the record was made with. A
    /// record of that many elements can exist.
    pub fn length(&self) -> (r: u16)
        ensures
            r == self@.length(),
            record_fits(extent_of::<T>(), r as nat),
    {
        proof {
            use_type_invariant(self);
        }
        self.length
    }

    /// All elements, in order of index.
    pub fn as_slice(&self) -> (r: &[T])
        ensures
            r@ == self@.elements,
    {
        self.items.as_slice()
    }

    /// All elements, in order of index, for writing. The identifier and the
    /// number of elements stay as they are.
    pub fn as_mut_slice(&mut self) -> (r: &mut [T])
        ensures
            r@ == old(self)@.elements,
            final(r)@.len() == r@.len(),
            final(self)@ == (RecordModel { id: old(self)@.id, elements: final(r)@ }),
    {
        proof {
            use_type_invariant(&*self);
        }
        whole_slice_mut(&mut self.items)
    }

    /// The element at index `i`, or `None` where `i` is not below the
    /// length.
    pub fn get(&self, i: u16) -> (r: Option<&T>)
        ensures
            match r {
                Some(slot) => self@.get(i) == Some(*slot),
                None => self@.get(i) is None,
            },
    {
        proof {
            use_type_invariant(self);
        }
        let length = self.length();
        if i >= length {
            return None;
        }
        Some(&self.items[usize::from(i)])
    }

    /// The element at index `i` for writing, or `None` where `i` is not
    /// below the length. What is written replaces that element and nothing
    /// else.
    pub fn get_mut(&mut self, i: u16) -> (r: Option<&mut T>)
        ensures
            match r {
                Some(slot) => old(self)@.get(i) == Some(*slot) && final(self)@ == old(self)@.set(
                    i,
                    *final(slot),
                ),
                None => old(self)@.get(i) is None && final(self)@ == old(self)@,
            },
    {
        proof {
            use_type_invariant(&*self);
        }
        let length = self.length();
        if i >= length {
            return None;
        }
        Some(&mut self.items[usize::from(i)])
    }
}

/// Reading the identifier and the length of a record that was just made
/// gives back the values that it was made with.
pub proof fn lemma_header_round_trip<T, F: Fn(usize) -> T>(
    id: u32,
    length: u16,
    init: F,
    record: OwnedInstanceRef<T>,
    read_id: u32,
    read_length: u16,
)
    requires
        call_ensures(OwnedInstanceRef::<T>::new, (id, length, init), Ok(record)),
        call_ensures(OwnedInstanceRef::<T>::id, (&record,), read_id),
        call_ensures(OwnedInstanceRef::<T>::length, (&record,), read_length),
    ensures
        read_id == id,
        read_length == length,
{
}

/// After a value was written at a valid index, reading at that index gives
/// the written value, reading at any other index gives what was there
/// before, and the identifier and the length are what they were.
pub proof fn lemma_element_round_trip<T>(before: RecordModel<T>, i: u16, value: T)
    requires
        i < before.length(),
    ensures
        before.set(i, value).get(i) == Some(value),
        forall|j: u16| j != i ==> #[trigger] before.set(i, value).get(j) == before.get(j),
        before.set(i, value).id == before.id,
        before.set(i, value).length() == before.length(),
{
}

/// Reading at an index that is not below the length of a record, as
/// `length` reports it, finds nothing.
pub proof fn lemma_get_out_of_range<T>(
    record: OwnedInstanceRef<T>,
    length: u16,
    i: u16,
    found: Option<&T>,
)
    requires
        call_ensures(OwnedInstanceRef::<T>::length, (&record,), length),
        call_ensures(OwnedInstanceRef::<T>::get, (&record, i), found),
        i >= length,
    ensures
        found is None,
{
}

} // verus!
