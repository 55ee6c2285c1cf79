//! Byte layout of a record: a 4-byte identifier, a 2-byte element count and a
//! run of equally sized elements, placed one after the other the way a C
//! compiler places the fields of a struct.
//!
//! The mathematical side is a handful of spec functions over [`Extent`]s; the
//! executable side is [`Layout`], a size and an alignment that are known to
//! describe an allocatable region, and [`InstanceLayoutInfo`], the offsets of a
//! whole record.

use core::marker::PhantomData;
use vstd::arithmetic::power2::is_pow2;
use vstd::layout::{align_of, size_of};
use vstd::prelude::*;

verus! {

/// Size and alignment of a region of memory, in bytes.
pub struct Extent {
    pub size: nat,
    pub align: nat,
}

/// The least multiple of `align` that is not below `n`.
pub open spec fn round_up(n: nat, align: nat) -> nat {
    if n % align == 0 {
        n
    } else {
        (n + (align - n % align)) as nat
    }
}

/// The greater of two numbers.
pub open spec fn larger(a: nat, b: nat) -> nat {
    if a >= b {
        a
    } else {
        b
    }
}

/// Whether a region of this size and alignment can exist: the alignment is a
/// power of two, and the size, rounded up to the alignment, fits in `isize`.
pub open spec fn is_layout(e: Extent) -> bool {
    is_pow2(e.align as int) && round_up(e.size, e.align) <= isize::MAX
}

/// Where a field `next` starts when it is placed behind a region `e`.
pub open spec fn offset_behind(e: Extent, next: Extent) -> nat {
    round_up(e.size, next.align)
}

/// The region `e` with a field `next` placed behind it.
pub open spec fn joined(e: Extent, next: Extent) -> Extent {
    Extent { size: offset_behind(e, next) + next.size, align: larger(e.align, next.align) }
}

/// The region `e` with its size rounded up to its own alignment.
pub open spec fn padded(e: Extent) -> Extent {
    Extent { size: round_up(e.size, e.align), align: e.align }
}

/// `count` elements of extent `elem`, back to back.
pub open spec fn array_extent(elem: Extent, count: nat) -> Extent {
    Extent { size: count * elem.size, align: elem.align }
}

/// Size and alignment of a value of type `T`.
pub open spec fn extent_of<T>() -> Extent {
    Extent { size: size_of::<T>(), align: align_of::<T>() }
}

/// The empty region that a record starts from.
pub open spec fn base_extent() -> Extent {
    Extent { size: 0, align: 1 }
}

/// The identifier field: four bytes, aligned to four.
pub open spec fn id_extent() -> Extent {
    Extent { size: 4, align: 4 }
}

/// The element-count field: two bytes, aligned to two.
pub open spec fn length_extent() -> Extent {
    Extent { size: 2, align: 2 }
}

/// The identifier and the element count together: six bytes, aligned to four.
pub open spec fn header_extent() -> Extent {
    Extent { size: 6, align: 4 }
}

/// Where everything in a record lies, and how large the record is.
pub struct RecordShape {
    pub size: nat,
    pub align: nat,
    pub id_offset: nat,
    pub length_offset: nat,
    pub array_offset: nat,
}

/// The shape of a record of `length` elements of extent `elem`.
pub open spec fn record_shape(elem: Extent, length: nat) -> RecordShape {
    let array_offset = round_up(6, elem.align);
    let align = larger(4, elem.align);
    RecordShape {
        size: round_up(array_offset + length * elem.size, align),
        align,
        id_offset: 0,
        length_offset: 4,
        array_offset,
    }
}

/// Whether a record of `length` elements of extent `elem` can exist.
pub open spec fn record_fits(elem: Extent, length: nat) -> bool {
    is_pow2(elem.align as int) && record_shape(elem, length).size <= isize::MAX
}

/// The shape that comes of placing the fields one after the other: the
/// identifier behind nothing, the element count behind the identifier, the
/// elements behind the count, and padding behind the elements.
pub open spec fn sequential_shape(elem: Extent, length: nat) -> RecordShape {
    let with_id = joined(base_extent(), id_extent());
    let with_length = joined(with_id, length_extent());
    let elements = array_extent(elem, length);
    let whole = padded(joined(with_length, elements));
    RecordShape {
        size: whole.size,
        align: whole.align,
        id_offset: offset_behind(base_extent(), id_extent()),
        length_offset: offset_behind(with_id, length_extent()),
        array_offset: offset_behind(with_length, elements),
    }
}

/// Whether the fields of `shape` follow each other without overlap inside
/// the record: the identifier, then the count, then `length` elements of
/// `elem_size` bytes each.
pub open spec fn fields_in_order(shape: RecordShape, elem_size: nat, length: nat) -> bool {
    &&& shape.id_offset + 4 <= shape.length_offset
    &&& shape.length_offset + 2 <= shape.array_offset
    &&& shape.array_offset + length * elem_size <= shape.size
}

/// Whether every field of `shape` starts at a multiple of its alignment, and
/// the whole is a multiple of its own alignment.
pub open spec fn fields_aligned(shape: RecordShape, elem_align: nat) -> bool {
    &&& shape.id_offset % 4 == 0
    &&& shape.length_offset % 2 == 0
    &&& shape.array_offset % elem_align == 0
    &&& shape.size % shape.align == 0
    &&& shape.align % 4 == 0
    &&& shape.align % elem_align == 0
}

/// `round_up` yields a multiple of the alignment, less than one alignment
/// above its argument.
pub proof fn lemma_round_up_bounds(n: nat, align: nat)
    requires
        0 < align,
    ensures
        round_up(n, align) % align == 0,
        n <= round_up(n, align) < n + align,
{
    let r = n % align;
    if r != 0 {
        assert((n + (align - r)) % (align as int) == 0) by (nonlinear_arith)
            requires
                0 < align,
                r == n % align,
        ;
    }
}

/// No multiple of the alignment lies between a number and its `round_up`.
pub proof fn lemma_round_up_is_least(n: nat, align: nat, m: nat)
    requires
        0 < align,
        n <= m,
        m % align == 0,
    ensures
        round_up(n, align) <= m,
{
    let r = n % align;
    if r != 0 && m < n + (align - r) {
        assert(false) by (nonlinear_arith)
            requires
                0 < align,
                r == n % align,
                0 < r < align,
                m % align == 0,
                n <= m < n + (align - r),
        ;
    }
}

/// A power of two is positive.
pub proof fn lemma_pow2_positive(n: nat)
    requires
        is_pow2(n as int),
    ensures
        n > 0,
{
    reveal(is_pow2);
}

/// One, two and four are powers of two, and the only ones up to four.
pub proof fn lemma_small_pow2(n: nat)
    ensures
        n <= 4 ==> (is_pow2(n as int) <==> n == 1 || n == 2 || n == 4),
{
    reveal_with_fuel(is_pow2, 4);
}

/// The greater of four and a power of two is a power of two that both divide.
pub proof fn lemma_record_align(elem_align: nat)
    requires
        is_pow2(elem_align as int),
    ensures
        is_pow2(larger(4, elem_align) as int),
        larger(4, elem_align) % 4 == 0,
        larger(4, elem_align) % elem_align == 0,
{
    lemma_pow2_positive(elem_align);
    lemma_small_pow2(elem_align);
    lemma_small_pow2(4);
    if elem_align > 4 {
        reveal_with_fuel(is_pow2, 3);
    }
}

/// The shape of a record is the one that placing its fields one after
/// the other gives, and the record fits exactly when its elements alone and
/// its fields together, before padding, make regions that can exist.
pub proof fn lemma_record_shape_is_sequential(elem: Extent, length: nat)
    requires
        is_pow2(elem.align as int),
    ensures
        record_shape(elem, length) == sequential_shape(elem, length),
        joined(base_extent(), id_extent()) == id_extent(),
        joined(id_extent(), length_extent()) == header_extent(),
        record_fits(elem, length) <==> is_layout(array_extent(elem, length)) && is_layout(
            joined(header_extent(), array_extent(elem, length)),
        ),
{
    let elements = array_extent(elem, length);
    let unpadded = joined(header_extent(), elements);
    let whole = round_up(unpadded.size, unpadded.align);
    lemma_pow2_positive(elem.align);
    lemma_record_align(elem.align);
    lemma_round_up_bounds(6, elem.align);
    lemma_round_up_bounds(unpadded.size, unpadded.align);
    if record_fits(elem, length) {
        // the padded size is a multiple of the record's alignment, and so
        // of the element's: no smaller multiple can hold the elements
        assert(whole % elem.align == 0) by {
            lemma_small_pow2(elem.align);
            if elem.align == 2 {
                assert(whole % 4 == 0);
            }
        }
        lemma_round_up_is_least(elements.size, elem.align, whole);
    }
}

/// In the shape of a record the fields follow each other without overlap,
/// each starts at a multiple of its alignment, and the identifier comes first.
pub proof fn lemma_record_shape_fields(elem: Extent, length: nat)
    requires
        is_pow2(elem.align as int),
    ensures
        fields_in_order(record_shape(elem, length), elem.size, length),
        fields_aligned(record_shape(elem, length), elem.align),
        record_shape(elem, length).id_offset == 0,
{
    let shape = record_shape(elem, length);
    lemma_pow2_positive(elem.align);
    lemma_record_align(elem.align);
    lemma_round_up_bounds(6, elem.align);
    lemma_round_up_bounds(shape.array_offset + length * elem.size, shape.align);
}

/// A record whose elements alone exceed `isize` does not fit.
pub proof fn lemma_oversized_elements_do_not_fit(elem: Extent, length: nat)
    requires
        length * elem.size > isize::MAX,
    ensures
        !record_fits(elem, length),
{
    if is_pow2(elem.align as int) {
        lemma_record_shape_fields(elem, length);
    }
}

/// The size or the alignment asked for does not describe a region that can
/// exist: the alignment is no power of two, or the size is out of range.
#[derive(Clone, Copy, Debug, PartialEq, Eq)]
pub struct LayoutError {}

/// Size and alignment of a region that can exist.
#[derive(Clone, Copy, Debug, PartialEq, Eq)]
pub struct Layout {
    size: usize,
    align: usize,
}

impl View for Layout {
    type V = Extent;

    closed spec fn view(&self) -> Extent {
        Extent { size: self.size as nat, align: self.align as nat }
    }
}

/// Whether `n` is a power of two.
fn is_power_of_two(n: usize) -> (b: bool)
    ensures
        b == is_pow2(n as int),
{
    if n == 0 {
        proof {
            reveal(is_pow2);
        }
        return false;
    }
    let mut m: usize = n;
    while m % 2 == 0
        invariant
            m > 0,
            is_pow2(m as int) == is_pow2(n as int),
        decreases m,
    {
        proof {
            reveal(is_pow2);
        }
        m = m / 2;
    }
    proof {
        reveal(is_pow2);
    }
    m == 1
}

/// `n` rounded up to a multiple of `align`, as long as that fits in `isize`.
fn round_up_checked(n: usize, align: usize) -> (r: Option<usize>)
    requires
        align > 0,
    ensures
        r == if round_up(n as nat, align as nat) <= isize::MAX {
            Some(round_up(n as nat, align as nat) as usize)
        } else {
            None
        },
{
    let rem: usize = n % align;
    let rounded: usize = if rem == 0 {
        n
    } else {
        match n.checked_add(align - rem) {
            Some(sum) => sum,
            None => {
                return None;
            },
        }
    };
    if rounded > isize::MAX as usize {
        None
    } else {
        Some(rounded)
    }
}

impl Layout {
    #[verifier::type_invariant]
    spec fn can_exist(&self) -> bool {
        is_layout(self@)
    }

    /// A layout of the given size and alignment, where one can exist.
    pub fn from_size_align(size: usize, align: usize) -> (r: Result<Layout, LayoutError>)
        ensures
            match r {
                Ok(layout) => layout@ == (Extent { size: size as nat, align: align as nat })
                    && is_layout(layout@),
                Err(_) => !is_layout(Extent { size: size as nat, align: align as nat }),
            },
    {
        if !is_power_of_two(align) {
            return Err(LayoutError {});
        }
        proof {
            lemma_pow2_positive(align as nat);
        }
        match round_up_checked(size, align) {
            Some(_) => Ok(Layout { size, align }),
            None => Err(LayoutError {}),
        }
    }

    /// The size in bytes.
    pub fn size(&self) -> (n: usize)
        ensures
            n == self@.size,
            is_layout(self@),
    {
        proof {
            use_type_invariant(self);
        }
        self.size
    }

    /// The alignment in bytes.
    pub fn align(&self) -> (n: usize)
        ensures
            n == self@.align,
            is_layout(self@),
    {
        proof {
            use_type_invariant(self);
        }
        self.align
    }

    /// The layout of `count` values of type `T`, back to back.
    pub fn array<T>(count: usize) -> (r: Result<Layout, LayoutError>)
        ensures
            match r {
                Ok(layout) => layout@ == array_extent(extent_of::<T>(), count as nat)
                    && is_layout(layout@),
                Err(_) => !is_layout(array_extent(extent_of::<T>(), count as nat)),
            },
    {
        broadcast use vstd::layout::group_align_properties;

        let elem_size: usize = core::mem::size_of::<T>();
        let align: usize = core::mem::align_of::<T>();
        let size: usize = match count.checked_mul(elem_size) {
            Some(product) => product,
            None => {
                proof {
                    lemma_round_up_bounds((count * elem_size) as nat, align as nat);
                }
                return Err(LayoutError {});
            },
        };
        match round_up_checked(size, align) {
            Some(_) => Ok(Layout { size, align }),
            None => Err(LayoutError {}),
        }
    }

    /// This layout with `next` placed behind it, and the offset at which
    /// `next` starts. Trailing padding is not added.
    pub fn extend(&self, next: Layout) -> (r: Result<(Layout, usize), LayoutError>)
        ensures
            match r {
                Ok((whole, offset)) => whole@ == joined(self@, next@) && is_layout(whole@)
                    && offset == offset_behind(self@, next@),
                Err(_) => !is_layout(joined(self@, next@)),
            },
    {
        proof {
            use_type_invariant(self);
            use_type_invariant(&next);
            lemma_pow2_positive(self.align as nat);
            lemma_pow2_positive(next.align as nat);
            lemma_round_up_bounds(joined(self@, next@).size, joined(self@, next@).align);
        }
        let align: usize = if self.align >= next.align {
            self.align
        } else {
            next.align
        };
        let offset: usize = match round_up_checked(self.size, next.align) {
            Some(start) => start,
            None => {
                return Err(LayoutError {});
            },
        };
        let size: usize = match offset.checked_add(next.size) {
            Some(end) => end,
            None => {
                return Err(LayoutError {});
            },
        };
        match round_up_checked(size, align) {
            Some(_) => Ok((Layout { size, align }, offset)),
            None => Err(LayoutError {}),
        }
    }

    /// This layout with its size rounded up to a multiple of its alignment.
    pub fn pad_to_align(&self) -> (r: Layout)
        ensures
            r@ == padded(self@),
            is_layout(r@),
    {
        proof {
            use_type_invariant(self);
            lemma_pow2_positive(self.align as nat);
            lemma_round_up_bounds(self.size as nat, self.align as nat);
        }
        let rem: usize = self.size % self.align;
        let size: usize = if rem == 0 {
            self.size
        } else {
            self.size + (self.align - rem)
        };
        Layout { size, align: self.align }
    }
}

/// The offsets of the fields of a record whose elements are of type `T`, and
/// the layout of the record as a whole.
pub struct InstanceLayoutInfo<T> {
    pub layout: Layout,
    pub id_offset: usize,
    pub length_offset: usize,
    pub array_start_offset: usize,
    /// Ties the offsets to the element type they were computed for.
    pub _marker: PhantomData<T>,
}

impl<T> View for InstanceLayoutInfo<T> {
    type V = RecordShape;

    open spec fn view(&self) -> RecordShape {
        RecordShape {
            size: self.layout@.size,
            align: self.layout@.align,
            id_offset: self.id_offset as nat,
            length_offset: self.length_offset as nat,
            array_offset: self.array_start_offset as nat,
        }
    }
}

/// The empty layout that a record starts from.
fn base_layout() -> (r: Result<Layout, LayoutError>)
    ensures
        r is Ok,
        r.unwrap()@ == base_extent(),
{
    proof {
        lemma_small_pow2(1);
    }
    Layout::from_size_align(0, 1)
}

/// The layout of the identifier field.
fn id_layout() -> (r: Result<Layout, LayoutError>)
    ensures
        r is Ok,
        r.unwrap()@ == id_extent(),
{
    proof {
        lemma_small_pow2(4);
    }
    Layout::from_size_align(4, 4)
}

/// The layout of the element-count field.
fn length_layout() -> (r: Result<Layout, LayoutError>)
    ensures
        r is Ok,
        r.unwrap()@ == length_extent(),
{
    proof {
        lemma_small_pow2(2);
    }
    Layout::from_size_align(2, 2)
}

impl<T> InstanceLayoutInfo<T> {
    /// The layout of a record of `length` elements of type `T`, where such a
    /// record can exist.
    pub fn new(length: u16) -> (r: Result<InstanceLayoutInfo<T>, LayoutError>)
        ensures
            match r {
                Ok(info) => record_fits(extent_of::<T>(), length as nat) && info@ == record_shape(
                    extent_of::<T>(),
                    length as nat,
                ) && info@ == sequential_shape(extent_of::<T>(), length as nat),
                Err(_) => !record_fits(extent_of::<T>(), length as nat),
            },
            r matches Ok(info) ==> fields_in_order(info@, size_of::<T>(), length as nat)
                && fields_aligned(info@, align_of::<T>()) && info@.id_offset == 0
                && info@.size <= isize::MAX,
            length * size_of::<T>() > isize::MAX ==> r is Err,
    {
        broadcast use vstd::layout::group_align_properties;

        proof {
            lemma_record_shape_is_sequential(extent_of::<T>(), length as nat);
            lemma_record_shape_fields(extent_of::<T>(), length as nat);
            lemma_small_pow2(4);
            if length * size_of::<T>() > isize::MAX {
                lemma_oversized_elements_do_not_fit(extent_of::<T>(), length as nat);
            }
        }
        let layout = base_layout()?;
        let (layout, id_offset) = layout.extend(id_layout()?)?;
        let (layout, length_offset) = layout.extend(length_layout()?)?;
        let array_layout = Layout::array::<T>(usize::from(length))?;
        let (layout, array_start_offset) = layout.extend(array_layout)?;
        let layout = layout.pad_to_align();
        Ok(InstanceLayoutInfo { layout, id_offset, length_offset, array_start_offset, _marker: PhantomData })
    }
}

/// Computing the layout of a record twice, for the same element type and
/// the same length, ends the same way both times: both computations fail,
/// or both give the same offsets, size and alignment.
pub proof fn lemma_layout_is_deterministic<T>(
    length: u16,
    first: Result<InstanceLayoutInfo<T>, LayoutError>,
    second: Result<InstanceLayoutInfo<T>, LayoutError>,
)
    requires
        call_ensures(InstanceLayoutInfo::<T>::new, (length,), first),
        call_ensures(InstanceLayoutInfo::<T>::new, (length,), second),
    ensures
        first is Ok <==> second is Ok,
        first is Ok ==> first.unwrap()@ == second.unwrap()@,
{
}

/// The layout of a record up to and including the identifier, and the
/// identifier's offset.
pub fn compute_id_layout_part() -> (r: Result<(Layout, usize), LayoutError>)
    ensures
        r matches Ok((layout, offset)) && layout@ == id_extent() && offset == 0,
{
    proof {
        lemma_small_pow2(4);
    }
    let layout = base_layout()?;
    layout.extend(id_layout()?)
}

/// The layout of a record up to and including the element count, and the
/// count's offset.
pub fn compute_length_layout_part() -> (r: Result<(Layout, usize), LayoutError>)
    ensures
        r matches Ok((layout, offset)) && layout@ == header_extent() && offset == 4,
{
    proof {
        lemma_small_pow2(4);
    }
    let layout = base_layout()?;
    let (layout, _id_offset) = layout.extend(id_layout()?)?;
    layout.extend(length_layout()?)
}

/// The layout of a record of `length` elements of type `T` up to and
/// including the elements, without trailing padding, and the offset of the
/// first element.
pub fn compute_array_layout_part<T>(length: u16) -> (r: Result<(Layout, usize), LayoutError>)
    ensures
        match r {
            Ok((layout, offset)) => record_fits(extent_of::<T>(), length as nat) && layout@
                == joined(header_extent(), array_extent(extent_of::<T>(), length as nat))
                && offset == record_shape(extent_of::<T>(), length as nat).array_offset,
            Err(_) => !record_fits(extent_of::<T>(), length as nat),
        },
{
    broadcast use vstd::layout::group_align_properties;

    proof {
        lemma_record_shape_is_sequential(extent_of::<T>(), length as nat);
    }
    let (layout, _length_offset) = compute_length_layout_part()?;
    let array_layout = Layout::array::<T>(usize::from(length))?;
    layout.extend(array_layout)
}

} // verus!
