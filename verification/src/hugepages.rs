//! Buffers for weights and cached keys and values, and the page arithmetic behind
//! backing large ones with 2 MB pages.

use vstd::prelude::*;

use crate::arith::{max_of, max_usize};

verus! {

/// The smallest allocation, in bytes, for which large pages are asked for.
pub const HUGEPAGE_MIN_BYTES: usize = 2097152;

/// The size of a large page in bytes.
pub const HUGE_PAGE_SIZE: usize = 2097152;

/// The size of an ordinary page in bytes.
pub const PAGE_SIZE: usize = 4096;

/// A growable buffer of plain elements, with room for more of them.
pub struct HugeVec<T> {
    inner: Vec<T>,
    /// For how many elements room was made.
    room: usize,
}

impl<T> View for HugeVec<T> {
    type V = Seq<T>;

    closed spec fn view(&self) -> Seq<T> {
        self.inner@
    }
}

impl<T> HugeVec<T> {
    /// How many elements the buffer has room for: what room was made for, or what it has
    /// grown to.
    pub closed spec fn reserved(&self) -> int {
        max_of(self.room as int, self.inner@.len() as int)
    }
}

impl<T: Copy> HugeVec<T> {
    /// Takes over the elements of a vector. There is no spare room.
    pub fn from_vec(v: Vec<T>) -> (buf: Self)
        ensures
            buf@ == v@,
            buf.reserved() == v@.len(),
    {
        let room: usize = v.len();
        HugeVec { inner: v, room }
    }

    /// Takes over the elements of a vector without asking for large pages.
    pub fn from_vec_no_huge(v: Vec<T>) -> (buf: Self)
        ensures
            buf@ == v@,
            buf.reserved() == v@.len(),
    {
        let room: usize = v.len();
        HugeVec { inner: v, room }
    }

    /// An empty buffer with room for `cap` elements.
    pub fn with_capacity(cap: usize) -> (buf: Self)
        ensures
            buf@ == Seq::<T>::empty(),
            buf.reserved() == cap,
    {
        HugeVec { inner: Vec::with_capacity(cap), room: cap }
    }

    /// The number of elements.
    pub fn len(&self) -> (n: usize)
        ensures
            n == self@.len(),
    {
        self.inner.len()
    }

    /// Whether the buffer holds no element.
    pub fn is_empty(&self) -> (b: bool)
        ensures
            b == (self@.len() == 0),
    {
        self.len() == 0
    }

    /// The number of elements that the buffer has room for.
    pub fn capacity(&self) -> (cap: usize)
        ensures
            cap == self.reserved(),
            cap >= self@.len(),
    {
        max_usize(self.room, self.inner.len())
    }

    /// Whether the buffer lies in memory mapped with large pages. This one lies on
    /// the heap.
    pub fn is_hugepage_backed(&self) -> (b: bool)
        ensures
            !b,
    {
        false
    }

    /// Appends an element.
    pub fn push(&mut self, val: T)
        ensures
            final(self)@ == old(self)@.push(val),
            final(self).reserved() == max_of(old(self).reserved(), final(self)@.len() as int),
    {
        self.inner.push(val);
    }

    /// Appends all elements of `src`.
    pub fn extend_from_slice(&mut self, src: &[T])
        ensures
            final(self)@ == old(self)@ + src@,
            final(self).reserved() == max_of(old(self).reserved(), final(self)@.len() as int),
    {
        let ghost before = self@;
        let ghost room = self.room;
        let mut i: usize = 0;
        while i < src.len()
            invariant
                i <= src@.len(),
                self.room == room,
                self@ == before + src@.take(i as int),
            decreases src@.len() - i,
        {
            self.inner.push(src[i]);
            i = i + 1;
            assert(self@ =~= before + src@.take(i as int));
        }
        assert(src@.take(i as int) =~= src@);
    }

    /// Drops the elements from position `new_len` on.
    pub fn truncate(&mut self, new_len: usize)
        ensures
            final(self)@ == (if new_len <= old(self)@.len() {
                old(self)@.take(new_len as int)
            } else {
                old(self)@
            }),
            final(self).reserved() == old(self).reserved(),
    {
        self.room = self.capacity();
        self.inner.truncate(new_len);
    }

    /// Drops all elements.
    pub fn clear(&mut self)
        ensures
            final(self)@ == Seq::<T>::empty(),
            final(self).reserved() == old(self).reserved(),
    {
        self.truncate(0);
    }

    /// Cuts the buffer to `new_len` elements, or fills it up to that length with `val`.
    pub fn resize(&mut self, new_len: usize, val: T)
        ensures
            final(self)@ == Seq::new(
                new_len as nat,
                |i: int| if i < old(self)@.len() { old(self)@[i] } else { val },
            ),
            final(self).reserved() == max_of(old(self).reserved(), new_len as int),
    {
        let ghost before = self@;
        let ghost room = self.room;
        if new_len <= self.len() {
            self.truncate(new_len);
        } else {
            while self.inner.len() < new_len
                invariant
                    before.len() <= self@.len() <= new_len,
                    self.room == room,
                    forall|i: int| 0 <= i < before.len() ==> self@[i] == before[i],
                    forall|i: int| before.len() <= i < self@.len() ==> self@[i] == val,
                decreases new_len - self@.len(),
            {
                self.inner.push(val);
            }
        }
    }

    /// The element at `i`.
    pub fn get(&self, i: usize) -> (val: T)
        requires
            i < self@.len(),
        ensures
            val == self@[i as int],
    {
        self.inner[i]
    }

    /// Replaces the element at `i`.
    pub fn set(&mut self, i: usize, val: T)
        requires
            i < old(self)@.len(),
        ensures
            final(self)@ == old(self)@.update(i as int, val),
            final(self).reserved() == old(self).reserved(),
    {
        self.inner.set(i, val);
    }

    /// All elements as a slice.
    pub fn as_slice(&self) -> (s: &[T])
        ensures
            s@ == self@,
    {
        self.inner.as_slice()
    }

    /// All elements as a slice, to be changed in place.
    pub fn as_mut_slice(&mut self) -> (s: &mut [T])
        ensures
            s@ == old(self)@,
            final(self)@ == final(s)@,
            final(self).reserved() == max_of(old(self).reserved(), final(s)@.len() as int),
    {
        self.inner_mut().as_mut_slice()
    }

    /// The vector that holds the elements.
    pub(crate) fn inner_mut(&mut self) -> (v: &mut Vec<T>)
        ensures
            v@ == old(self)@,
            final(self)@ == final(v)@,
            final(self).reserved() == max_of(old(self).reserved(), final(v)@.len() as int),
    {
        self.room = self.capacity();
        &mut self.inner
    }

    /// Walks over the elements in order.
    pub fn iter(&self) -> (it: std::slice::Iter<'_, T>)
        ensures
            vstd::std_specs::iter::IteratorSpec::remaining(&it) == self@.as_ref(),
    {
        self.inner.as_slice().iter()
    }

    /// Moves `len` elements from `src` on to `dst` on, as if through a copy of them.
    pub fn copy_within(&mut self, src: usize, len: usize, dst: usize)
        requires
            dst <= src,
            src + len <= old(self)@.len(),
        ensures
            final(self)@.len() == old(self)@.len(),
            forall|i: int|
                0 <= i < final(self)@.len() ==> #[trigger] final(self)@[i] == (if dst <= i < dst
                    + len {
                    old(self)@[src + (i - dst)]
                } else {
                    old(self)@[i]
                }),
            final(self).reserved() == old(self).reserved(),
    {
        let ghost before = self@;
        let ghost room = self.room;
        let total: usize = self.inner.len();
        let mut n: usize = 0;
        while n < len
            invariant
                n <= len,
                self.room == room,
                dst <= src,
                src + len <= before.len(),
                self@.len() == before.len() == total,
                forall|i: int|
                    0 <= i < self@.len() ==> #[trigger] self@[i] == (if dst <= i < dst + n {
                        before[src + (i - dst)]
                    } else {
                        before[i]
                    }),
            decreases len - n,
        {
            let val = self.inner[src + n];
            self.inner.set(dst + n, val);
            n = n + 1;
        }
    }
}

impl<T: Copy> Clone for HugeVec<T> {
    fn clone(&self) -> (copy: Self)
        ensures
            copy@ == self@,
            copy.reserved() == self@.len(),
    {
        let mut copy = HugeVec::with_capacity(self.len());
        copy.extend_from_slice(self.as_slice());
        copy
    }
}

/// The smallest multiple of `unit` that is not less than `n`.
pub open spec fn round_up(n: int, unit: int) -> int {
    ((n + unit - 1) / unit) * unit
}

/// How many bytes to map for `cap` elements of `elem_size` bytes: whole large pages,
/// or `None` where so few bytes are wanted that large pages are not asked for.
pub fn hugepage_region_len(cap: usize, elem_size: usize) -> (len: Option<usize>)
    requires
        cap * elem_size + HUGE_PAGE_SIZE <= usize::MAX,
    ensures
        len == (if cap * elem_size < HUGEPAGE_MIN_BYTES {
            None::<usize>
        } else {
            Some(round_up(cap * elem_size, HUGE_PAGE_SIZE as int) as usize)
        }),
        len is None <==> cap * elem_size < 0x20_0000,
        len matches Some(n) ==> n % 0x20_0000 == 0 && cap * elem_size <= n < cap * elem_size
            + 0x20_0000,
{
    proof {
        assert(cap * elem_size >= 0) by (nonlinear_arith);
        law_region_fits(cap * elem_size);
    }
    let bytes: usize = cap * elem_size;
    if bytes < HUGEPAGE_MIN_BYTES {
        None
    } else {
        let pages: usize = (bytes + (HUGE_PAGE_SIZE - 1)) / HUGE_PAGE_SIZE;
        Some(pages * HUGE_PAGE_SIZE)
    }
}

/// Widens the byte range that starts at `addr` so that it starts on a page.
pub fn align_to_page(addr: usize, len: usize) -> (range: (usize, usize))
    requires
        len + PAGE_SIZE <= usize::MAX,
    ensures
        range.0 % PAGE_SIZE == 0,
        range.0 <= addr < range.0 + PAGE_SIZE,
        range.0 + range.1 == addr + len,
        range.0 % 4096 == 0,
        range.0 <= addr < range.0 + 4096,
{
    let offset: usize = addr % PAGE_SIZE;
    let aligned: usize = addr - offset;
    (aligned, len + offset)
}

/// The byte range to advise as worth large pages, for a buffer at `addr` with room
/// for `capacity` elements of `elem_size` bytes; `None` where the buffer is small.
pub fn hint_range(addr: usize, capacity: usize, elem_size: usize) -> (range: Option<(usize, usize)>)
    requires
        capacity * elem_size + PAGE_SIZE <= usize::MAX,
    ensures
        range is None <==> capacity * elem_size < HUGEPAGE_MIN_BYTES,
        range matches Some(r) ==> {
            &&& r.0 % PAGE_SIZE == 0
            &&& r.0 <= addr < r.0 + PAGE_SIZE
            &&& r.0 + r.1 == addr + capacity * elem_size
        },
        range is None <==> capacity * elem_size < 0x20_0000,
        range matches Some(r) ==> r.0 % 4096 == 0 && r.0 <= addr < r.0 + 4096,
{
    proof {
        assert(capacity * elem_size >= 0) by (nonlinear_arith);
    }
    let bytes: usize = capacity * elem_size;
    if bytes < HUGEPAGE_MIN_BYTES {
        None
    } else {
        Some(align_to_page(addr, bytes))
    }
}

/// A buffer never has room for fewer elements than it holds.
pub proof fn law_room_holds_elements<T>(buf: HugeVec<T>)
    ensures
        buf.reserved() >= buf@.len(),
{
}

/// A mapped region has room for the elements, ends on a large page and wastes less
/// than one.
pub proof fn law_region_fits(bytes: int)
    requires
        bytes >= 0,
    ensures
        bytes <= round_up(bytes, HUGE_PAGE_SIZE as int) < bytes + HUGE_PAGE_SIZE,
        round_up(bytes, HUGE_PAGE_SIZE as int) % (HUGE_PAGE_SIZE as int) == 0,
{
}

/// Rounding up gives the smallest multiple that is not less.
pub proof fn law_rounding_to_units(n: int, unit: int)
    requires
        n >= 0,
        unit > 0,
    ensures
        n <= round_up(n, unit) < n + unit,
        round_up(n, unit) % unit == 0,
{
    let a = n + unit - 1;
    vstd::arithmetic::div_mod::lemma_fundamental_div_mod(a, unit);
    let q = a / unit;
    assert(q * unit == unit * q) by (nonlinear_arith);
    vstd::arithmetic::div_mod::lemma_mod_multiples_basic(q, unit);
}

} // verus!
