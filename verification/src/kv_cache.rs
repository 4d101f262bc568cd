//! The cache of attention keys and values.
//!
//! `KvStore` holds what was computed for the tokens seen so far, layer by layer and
//! head by head, in one of four formats. `InferenceContext` holds the scratch
//! buffers of one request. `F` is the type of the model's real numbers: the cache
//! moves such numbers and never computes with them.

use vstd::prelude::*;

use crate::arith::{max_usize, saturating_product};
use crate::config::Config;
use crate::hugepages::HugeVec;

verus! {

// ---------------------------------------------------------------------------
// Four-bit packing
// ---------------------------------------------------------------------------

/// How many elements share one scale in the four-bit format.
pub const INT4_GROUP_SIZE: usize = 32;

/// The number of whole groups in a head.
pub fn int4_num_groups(head_dim: usize) -> (n: usize)
    ensures
        n == head_dim as int / 32,
{
    head_dim / INT4_GROUP_SIZE
}

/// Whether every code fits in four bits.
pub open spec fn are_nibbles(codes: Seq<u8>) -> bool {
    forall|i: int| 0 <= i < codes.len() ==> #[trigger] codes[i] < 16
}

/// Byte `i` of a packed group: the first half of the group fills the low nibbles,
/// the second half the high ones.
pub open spec fn packed_byte(codes: Seq<u8>, i: int) -> u8 {
    (codes[i] + 16 * codes[i + 16]) as u8
}

/// Packs the 32 codes of a group into the first 16 bytes of `dst`.
pub fn pack_i4_group(codes: &[u8], dst: &mut [u8])
    requires
        codes@.len() >= 32,
        old(dst)@.len() >= 16,
        are_nibbles(codes@),
    ensures
        final(dst)@.len() == old(dst)@.len(),
        forall|i: int| 0 <= i < 16 ==> #[trigger] final(dst)@[i] == packed_byte(codes@, i),
        forall|i: int| 16 <= i < final(dst)@.len() ==> final(dst)@[i] == old(dst)@[i],
{
    let ghost before = dst@;
    let mut i: usize = 0;
    while i < 16
        invariant
            i <= 16,
            codes@.len() >= 32,
            are_nibbles(codes@),
            dst@.len() == before.len() >= 16,
            forall|j: int| 0 <= j < i ==> #[trigger] dst@[j] == packed_byte(codes@, j),
            forall|j: int| i <= j < dst@.len() ==> dst@[j] == before[j],
        decreases 16 - i,
    {
        let lo: u8 = codes[i];
        let hi: u8 = codes[i + 16];
        assert(codes@[i as int] < 16 && codes@[i + 16] < 16);
        assert(lo < 16 && hi < 16 ==> lo | (hi << 4u8) == lo + 16 * hi) by (bit_vector);
        dst[i] = lo | (hi << 4);
        i = i + 1;
    }
}

/// The signed value that a nibble stands for.
pub open spec fn nibble_value(nibble: int) -> int {
    nibble - 8
}

/// Unpacks the 16 bytes of a group into the 32 signed values they stand for, each
/// in -8 to 7, in the first 32 places of `dst`.
pub fn unpack_i4_group(packed: &[u8], dst: &mut [i8])
    requires
        packed@.len() >= 16,
        old(dst)@.len() >= 32,
    ensures
        final(dst)@.len() == old(dst)@.len(),
        forall|i: int|
            0 <= i < 16 ==> #[trigger] final(dst)@[i] == nibble_value(packed@[i] as int % 16),
        forall|i: int|
            16 <= i < 32 ==> #[trigger] final(dst)@[i] == nibble_value(packed@[i - 16] as int / 16),
        forall|i: int| 32 <= i < final(dst)@.len() ==> final(dst)@[i] == old(dst)@[i],
{
    let ghost before = dst@;
    let mut i: usize = 0;
    while i < 16
        invariant
            i <= 16,
            packed@.len() >= 16,
            dst@.len() == before.len() >= 32,
            forall|j: int|
                0 <= j < i ==> #[trigger] dst@[j] == nibble_value(packed@[j] as int % 16),
            forall|j: int|
                16 <= j < i + 16 ==> #[trigger] dst@[j] == nibble_value(packed@[j - 16] as int / 16),
            forall|j: int| 32 <= j < dst@.len() ==> dst@[j] == before[j],
        decreases 16 - i,
    {
        let byte: u8 = packed[i];
        assert(byte & 0x0F == byte % 16 && byte >> 4 == byte / 16) by (bit_vector);
        dst[i] = (byte & 0x0F) as i8 - 8;
        dst[i + 16] = (byte >> 4) as i8 - 8;
        i = i + 1;
    }
}

/// Unpacking a packed group gives every code back, as the signed value it stands for.
pub proof fn law_unpack_undoes_pack(codes: Seq<u8>, packed: Seq<u8>, i: int)
    requires
        codes.len() >= 32,
        are_nibbles(codes),
        packed.len() >= 16,
        forall|j: int| 0 <= j < 16 ==> #[trigger] packed[j] == packed_byte(codes, j),
        0 <= i < 32,
    ensures
        i < 16 ==> nibble_value(packed[i] as int % 16) == nibble_value(codes[i] as int),
        i >= 16 ==> nibble_value(packed[i - 16] as int / 16) == nibble_value(codes[i] as int),
{
    let j = if i < 16 { i } else { i - 16 };
    assert(packed[j] == packed_byte(codes, j));
    assert(codes[j] < 16 && codes[j + 16] < 16);
}

/// Byte `b` of a packed head: group by group, with zeros behind the last whole group.
pub open spec fn packed_head_byte(head: Seq<u8>, b: int) -> u8 {
    if b < (head.len() / 32) * 16 {
        (head[(b / 16) * 32 + b % 16] + 16 * head[(b / 16) * 32 + b % 16 + 16]) as u8
    } else {
        0
    }
}

/// Two codes to a byte, for each head of `head_dim` codes in turn.
pub open spec fn packed_heads(codes: Seq<u8>, head_dim: int, heads: int) -> Seq<u8> {
    let width = head_dim / 2;
    Seq::new(
        (heads * width) as nat,
        |i: int|
            packed_head_byte(
                codes.subrange((i / width) * head_dim, (i / width + 1) * head_dim),
                i % width,
            ),
    )
}

/// Packs one head of codes.
fn pack_head(head: &[u8]) -> (packed: Vec<u8>)
    requires
        are_nibbles(head@),
    ensures
        packed@ == Seq::new(head@.len() / 2, |b: int| packed_head_byte(head@, b)),
{
    let len: usize = head.len();
    let width: usize = len / 2;
    let groups: usize = int4_num_groups(len);
    let mut packed: Vec<u8> = Vec::new();
    let mut buf: Vec<u8> = vec![0; 16];
    let mut g: usize = 0;
    while g < groups
        invariant
            g <= groups,
            len == head@.len(),
            groups == len as int / 32,
            are_nibbles(head@),
            buf@.len() == 16,
            packed@.len() == g * 16,
            forall|j: int| 0 <= j < g * 16 ==> #[trigger] packed@[j] == packed_head_byte(head@, j),
        decreases groups - g,
    {
        let group = vstd::slice::slice_subrange(head, g * 32, g * 32 + 32);
        assert forall|i: int| 0 <= i < group@.len() implies #[trigger] group@[i] < 16 by {
            assert(head@[g * 32 + i] < 16);
        }
        pack_i4_group(group, buf.as_mut_slice());
        let mut i: usize = 0;
        while i < 16
            invariant
                i <= 16,
                g < groups,
                len == head@.len(),
                groups == len as int / 32,
                group@ == head@.subrange(g * 32, g * 32 + 32),
                buf@.len() == 16,
                forall|j: int| 0 <= j < 16 ==> #[trigger] buf@[j] == packed_byte(group@, j),
                packed@.len() == g * 16 + i,
                forall|j: int|
                    0 <= j < g * 16 + i ==> #[trigger] packed@[j] == packed_head_byte(head@, j),
            decreases 16 - i,
        {
            packed.push(buf[i]);
            i = i + 1;
        }
        g = g + 1;
    }
    while packed.len() < width
        invariant
            len == head@.len(),
            groups == len as int / 32,
            width == len as int / 2,
            groups * 16 <= packed@.len() <= width,
            forall|j: int|
                0 <= j < packed@.len() ==> #[trigger] packed@[j] == packed_head_byte(head@, j),
        decreases width - packed@.len(),
    {
        packed.push(0);
    }
    packed
}

/// Packs `heads` heads of `head_dim` codes each.
fn pack_heads(codes: &[u8], head_dim: usize, heads: usize) -> (packed: Vec<u8>)
    requires
        are_nibbles(codes@),
        heads * head_dim <= codes@.len(),
    ensures
        packed@ == packed_heads(codes@, head_dim as int, heads as int),
{
    let len: usize = codes.len();
    let width: usize = head_dim / 2;
    let mut packed: Vec<u8> = Vec::new();
    let mut r: usize = 0;
    proof {
        assert(0 * width == 0) by (nonlinear_arith);
    }
    while r < heads
        invariant
            r <= heads,
            width == head_dim as int / 2,
            len == codes@.len(),
            are_nibbles(codes@),
            heads * head_dim <= len,
            packed@ == packed_heads(codes@, head_dim as int, r as int),
        decreases heads - r,
    {
        proof {
            assert(r * head_dim + head_dim <= heads * head_dim && r * head_dim >= 0)
                by (nonlinear_arith)
                requires
                    r < heads,
            ;
            assert((r + 1) * head_dim == r * head_dim + head_dim) by (nonlinear_arith);
        }
        let head = vstd::slice::slice_subrange(codes, r * head_dim, r * head_dim + head_dim);
        assert forall|i: int| 0 <= i < head@.len() implies #[trigger] head@[i] < 16 by {
            assert(codes@[r * head_dim + i] < 16);
        }
        let mut one = pack_head(head);
        let ghost before = packed@;
        let ghost one_head = one@;
        packed.append(&mut one);
        proof {
            assert((r + 1) * width == r * width + width && r * width >= 0) by (nonlinear_arith);
            let next = packed_heads(codes@, head_dim as int, r + 1);
            assert(packed@.len() == next.len());
            assert forall|i: int| 0 <= i < next.len() implies #[trigger] packed@[i] == next[i] by {
                if i < r * width {
                    assert(packed@[i] == before[i]);
                } else {
                    vstd::arithmetic::div_mod::lemma_fundamental_div_mod_converse(
                        i,
                        width as int,
                        r as int,
                        i - r * width,
                    );
                    assert(packed@[i] == one_head[i - r * width]);
                }
            }
            assert(packed@ =~= next);
        }
        r = r + 1;
    }
    packed
}

// ---------------------------------------------------------------------------
// Moving rows between layouts
// ---------------------------------------------------------------------------

/// The contents of each head.
pub open spec fn head_contents<T>(heads: Seq<HugeVec<T>>) -> Seq<Seq<T>> {
    Seq::new(heads.len(), |h: int| heads[h]@)
}

/// The contents of each vector.
pub open spec fn vec_contents<T>(vecs: Seq<Vec<T>>) -> Seq<Seq<T>> {
    Seq::new(vecs.len(), |h: int| vecs[h]@)
}

/// Head `h`'s part of `rows`, which lies position by position and, within a
/// position, head by head, `width` elements for each.
pub open spec fn head_rows<T>(
    rows: Seq<T>,
    heads: int,
    width: int,
    positions: int,
    h: int,
) -> Seq<T> {
    Seq::new(
        (positions * width) as nat,
        |i: int| rows[(i / width) * (heads * width) + h * width + i % width],
    )
}

/// Every head followed by its part of `rows`.
pub open spec fn heads_appended<T>(
    heads: Seq<Seq<T>>,
    rows: Seq<T>,
    width: int,
    positions: int,
) -> Seq<Seq<T>> {
    Seq::new(
        heads.len(),
        |h: int| heads[h] + head_rows(rows, heads.len() as int, width, positions, h),
    )
}

/// The first `len` elements, or all where there are no more.
pub open spec fn cut<T>(s: Seq<T>, len: int) -> Seq<T> {
    if len <= s.len() {
        s.take(len)
    } else {
        s
    }
}

/// Every head cut to `len` elements.
pub open spec fn heads_cut<T>(heads: Seq<Seq<T>>, len: int) -> Seq<Seq<T>> {
    Seq::new(heads.len(), |h: int| cut(heads[h], len))
}

/// The place of an element in `rows` lies within them.
pub proof fn lemma_row_index(p: int, positions: int, h: int, heads: int, d: int, width: int)
    requires
        0 <= p < positions,
        0 <= h < heads,
        0 <= d < width,
    ensures
        0 <= p * (heads * width) + h * width + d < positions * (heads * width),
        0 <= p * (heads * width),
        0 <= h * width,
        h * width + d < heads * width,
{
    assert(h * width + width <= heads * width && 0 <= h * width) by (nonlinear_arith)
        requires
            0 <= h < heads,
            0 <= width,
    ;
    let row = heads * width;
    assert(p * row + row <= positions * row && 0 <= p * row) by (nonlinear_arith)
        requires
            0 <= p < positions,
            0 <= row,
    ;
}

/// Appends head `h`'s part of `rows` to `dst`.
fn push_head_rows<T: Copy>(
    dst: &mut Vec<T>,
    rows: &[T],
    heads: usize,
    width: usize,
    positions: usize,
    h: usize,
)
    requires
        h < heads,
        positions * (heads * width) <= rows@.len(),
    ensures
        final(dst)@ == old(dst)@ + head_rows(
            rows@,
            heads as int,
            width as int,
            positions as int,
            h as int,
        ),
{
    let ghost before = dst@;
    if positions == 0 || width == 0 {
        proof {
            assert(positions * width == 0) by (nonlinear_arith)
                requires
                    positions == 0 || width == 0,
            ;
            assert(dst@ =~= before + head_rows(
                rows@,
                heads as int,
                width as int,
                positions as int,
                h as int,
            ));
        }
        return;
    }
    let len: usize = rows.len();
    proof {
        lemma_row_index(
            positions - 1,
            positions as int,
            heads - 1,
            heads as int,
            width - 1,
            width as int,
        );
        assert(heads * width <= positions * (heads * width)) by (nonlinear_arith)
            requires
                positions >= 1,
                heads * width >= 0,
        ;
    }
    let row: usize = heads * width;
    let mut p: usize = 0;
    proof {
        assert(0 * width == 0) by (nonlinear_arith);
    }
    while p < positions
        invariant
            p <= positions,
            h < heads,
            width > 0,
            row == heads * width,
            positions * row <= len == rows@.len(),
            dst@ == before + head_rows(rows@, heads as int, width as int, p as int, h as int),
        decreases positions - p,
    {
        let ghost done = dst@;
        let mut d: usize = 0;
        while d < width
            invariant
                p < positions,
                h < heads,
                width > 0,
                d <= width,
                row == heads * width,
                positions * row <= len == rows@.len(),
                dst@.len() == done.len() + d,
                forall|i: int| 0 <= i < done.len() ==> dst@[i] == done[i],
                forall|i: int|
                    0 <= i < d ==> #[trigger] dst@[done.len() + i] == rows@[p * row + h * width + i],
            decreases width - d,
        {
            proof {
                lemma_row_index(
                    p as int,
                    positions as int,
                    h as int,
                    heads as int,
                    d as int,
                    width as int,
                );
            }
            dst.push(rows[p * row + h * width + d]);
            d = d + 1;
        }
        proof {
            assert((p + 1) * width == p * width + width && p * width >= 0) by (nonlinear_arith);
            let next = before + head_rows(
                rows@,
                heads as int,
                width as int,
                p + 1,
                h as int,
            );
            assert(dst@.len() == next.len());
            assert forall|i: int| 0 <= i < next.len() implies #[trigger] dst@[i] == next[i] by {
                let k = i - before.len();
                if i >= done.len() {
                    vstd::arithmetic::div_mod::lemma_fundamental_div_mod_converse(
                        k,
                        width as int,
                        p as int,
                        k - p * width,
                    );
                    let d0 = k - p * width;
                    assert(dst@[done.len() + d0] == rows@[p * row + h * width + d0]);
                    assert(done.len() + d0 == i);
                    assert(next[i] == rows@[(k / width as int) * (heads * width) + h * width + k
                        % width as int]);
                } else {
                    assert(dst@[i] == done[i]);
                }
            }
            assert(dst@ =~= next);
        }
        p = p + 1;
    }
}

/// Appends each head's part of `rows` to that head.
fn append_to_heads<T: Copy>(
    heads: &mut Vec<HugeVec<T>>,
    rows: &[T],
    width: usize,
    positions: usize,
)
    requires
        positions * (old(heads)@.len() * width) <= rows@.len(),
    ensures
        head_contents(final(heads)@) == heads_appended(
            head_contents(old(heads)@),
            rows@,
            width as int,
            positions as int,
        ),
{
    let ghost before = head_contents(heads@);
    let count: usize = heads.len();
    let mut h: usize = 0;
    while h < count
        invariant
            h <= count == heads@.len() == before.len(),
            positions * (count * width) <= rows@.len(),
            forall|g: int|
                0 <= g < h ==> (#[trigger] heads@[g])@ == before[g] + head_rows(
                    rows@,
                    count as int,
                    width as int,
                    positions as int,
                    g,
                ),
            forall|g: int| h <= g < count ==> (#[trigger] heads@[g])@ == before[g],
        decreases count - h,
    {
        push_head_rows(heads[h].inner_mut(), rows, count, width, positions, h);
        h = h + 1;
    }
    proof {
        assert(head_contents(heads@) =~= heads_appended(
            before,
            rows@,
            width as int,
            positions as int,
        ));
    }
}

/// Appends each head's part of `rows` to that head's vector.
fn append_to_vecs<T: Copy>(vecs: &mut Vec<Vec<T>>, rows: &[T], width: usize, positions: usize)
    requires
        positions * (old(vecs)@.len() * width) <= rows@.len(),
    ensures
        vec_contents(final(vecs)@) == heads_appended(
            vec_contents(old(vecs)@),
            rows@,
            width as int,
            positions as int,
        ),
{
    let ghost before = vec_contents(vecs@);
    let count: usize = vecs.len();
    let mut h: usize = 0;
    while h < count
        invariant
            h <= count == vecs@.len() == before.len(),
            positions * (count * width) <= rows@.len(),
            forall|g: int|
                0 <= g < h ==> (#[trigger] vecs@[g])@ == before[g] + head_rows(
                    rows@,
                    count as int,
                    width as int,
                    positions as int,
                    g,
                ),
            forall|g: int| h <= g < count ==> (#[trigger] vecs@[g])@ == before[g],
        decreases count - h,
    {
        push_head_rows(&mut vecs[h], rows, count, width, positions, h);
        h = h + 1;
    }
    proof {
        assert(vec_contents(vecs@) =~= heads_appended(
            before,
            rows@,
            width as int,
            positions as int,
        ));
    }
}

/// Cuts every head to `len` elements.
fn cut_heads<T: Copy>(heads: &mut Vec<HugeVec<T>>, len: usize)
    ensures
        head_contents(final(heads)@) == heads_cut(head_contents(old(heads)@), len as int),
{
    let ghost before = head_contents(heads@);
    let count: usize = heads.len();
    let mut h: usize = 0;
    while h < count
        invariant
            h <= count == heads@.len() == before.len(),
            forall|g: int| 0 <= g < h ==> (#[trigger] heads@[g])@ == cut(before[g], len as int),
            forall|g: int| h <= g < count ==> (#[trigger] heads@[g])@ == before[g],
        decreases count - h,
    {
        heads[h].truncate(len);
        h = h + 1;
    }
    proof {
        assert(head_contents(heads@) =~= heads_cut(before, len as int));
    }
}

/// Cuts every vector to `len` elements.
fn cut_vecs<T: Copy>(vecs: &mut Vec<Vec<T>>, len: usize)
    ensures
        vec_contents(final(vecs)@) == heads_cut(vec_contents(old(vecs)@), len as int),
{
    let ghost before = vec_contents(vecs@);
    let count: usize = vecs.len();
    let mut h: usize = 0;
    while h < count
        invariant
            h <= count == vecs@.len() == before.len(),
            forall|g: int| 0 <= g < h ==> (#[trigger] vecs@[g])@ == cut(before[g], len as int),
            forall|g: int| h <= g < count ==> (#[trigger] vecs@[g])@ == before[g],
        decreases count - h,
    {
        vecs[h].truncate(len);
        h = h + 1;
    }
    proof {
        assert(vec_contents(vecs@) =~= heads_cut(before, len as int));
    }
}

// ---------------------------------------------------------------------------
// One layer
// ---------------------------------------------------------------------------

/// The format in which keys and values are kept.
#[derive(Clone, Copy, Debug, PartialEq, Eq, Structural)]
pub enum KvQuantType {
    F32,
    BF16,
    INT8,
    INT4,
}

/// One layer's keys and values, in the format chosen at run time.
#[allow(inconsistent_fields)]
pub enum KvLayerData<F> {
    /// Full precision.
    F32 { keys_per_head: Vec<HugeVec<F>>, values_per_head: Vec<HugeVec<F>> },
    /// Sixteen-bit patterns.
    BF16 { keys_per_head: Vec<HugeVec<u16>>, values_per_head: Vec<HugeVec<u16>> },
    /// Eight-bit codes with one scale for each position and head.
    INT8 {
        keys_per_head: Vec<HugeVec<i8>>,
        values_per_head: Vec<HugeVec<i8>>,
        keys_scales: Vec<Vec<F>>,
        values_scales: Vec<Vec<F>>,
    },
    /// Packed four-bit codes with one scale for each group of 32 elements:
    /// position by position, and group by group within a position.
    INT4 {
        keys_per_head: Vec<HugeVec<u8>>,
        values_per_head: Vec<HugeVec<u8>>,
        keys_scales: Vec<Vec<F>>,
        values_scales: Vec<Vec<F>>,
    },
}

/// What a layer holds, head by head.
#[allow(inconsistent_fields)]
#[verifier::ext_equal]
pub enum LayerContents<F> {
    F32 { keys: Seq<Seq<F>>, values: Seq<Seq<F>> },
    BF16 { keys: Seq<Seq<u16>>, values: Seq<Seq<u16>> },
    INT8 {
        keys: Seq<Seq<i8>>,
        values: Seq<Seq<i8>>,
        key_scales: Seq<Seq<F>>,
        value_scales: Seq<Seq<F>>,
    },
    INT4 {
        keys: Seq<Seq<u8>>,
        values: Seq<Seq<u8>>,
        key_scales: Seq<Seq<F>>,
        value_scales: Seq<Seq<F>>,
    },
}

impl<F> View for KvLayerData<F> {
    type V = LayerContents<F>;

    open spec fn view(&self) -> LayerContents<F> {
        match self {
            KvLayerData::F32 { keys_per_head, values_per_head } => LayerContents::F32 {
                keys: head_contents(keys_per_head@),
                values: head_contents(values_per_head@),
            },
            KvLayerData::BF16 { keys_per_head, values_per_head } => LayerContents::BF16 {
                keys: head_contents(keys_per_head@),
                values: head_contents(values_per_head@),
            },
            KvLayerData::INT8 { keys_per_head, values_per_head, keys_scales, values_scales } => {
                LayerContents::INT8 {
                    keys: head_contents(keys_per_head@),
                    values: head_contents(values_per_head@),
                    key_scales: vec_contents(keys_scales@),
                    value_scales: vec_contents(values_scales@),
                }
            },
            KvLayerData::INT4 { keys_per_head, values_per_head, keys_scales, values_scales } => {
                LayerContents::INT4 {
                    keys: head_contents(keys_per_head@),
                    values: head_contents(values_per_head@),
                    key_scales: vec_contents(keys_scales@),
                    value_scales: vec_contents(values_scales@),
                }
            },
        }
    }
}

/// New keys and values in the form in which a layer keeps them: position by
/// position and, within a position, head by head. The codes of the four-bit format
/// come one to a byte; the layer packs them.
#[allow(inconsistent_fields)]
pub enum KvRows<'a, F> {
    F32 { keys: &'a [F], values: &'a [F] },
    BF16 { keys: &'a [u16], values: &'a [u16] },
    INT8 { keys: &'a [i8], values: &'a [i8], key_scales: &'a [F], value_scales: &'a [F] },
    INT4 { keys: &'a [u8], values: &'a [u8], key_scales: &'a [F], value_scales: &'a [F] },
}

impl<'a, F> KvRows<'a, F> {
    /// The number of key elements.
    pub open spec fn key_len(self) -> int {
        match self {
            KvRows::F32 { keys, .. } => keys@.len() as int,
            KvRows::BF16 { keys, .. } => keys@.len() as int,
            KvRows::INT8 { keys, .. } => keys@.len() as int,
            KvRows::INT4 { keys, .. } => keys@.len() as int,
        }
    }

    /// The number of whole positions, with `heads` heads of `head_dim` elements each.
    pub open spec fn positions(self, heads: int, head_dim: int) -> int {
        self.key_len() / (heads * head_dim)
    }
}

impl<F> LayerContents<F> {
    /// The format.
    pub open spec fn format(self) -> KvQuantType {
        match self {
            LayerContents::F32 { .. } => KvQuantType::F32,
            LayerContents::BF16 { .. } => KvQuantType::BF16,
            LayerContents::INT8 { .. } => KvQuantType::INT8,
            LayerContents::INT4 { .. } => KvQuantType::INT4,
        }
    }

    /// Whether there are `heads` heads on every side.
    pub open spec fn has_heads(self, heads: int) -> bool {
        match self {
            LayerContents::F32 { keys, values } => keys.len() == heads && values.len() == heads,
            LayerContents::BF16 { keys, values } => keys.len() == heads && values.len() == heads,
            LayerContents::INT8 { keys, values, key_scales, value_scales } => keys.len() == heads
                && values.len() == heads && key_scales.len() == heads && value_scales.len()
                == heads,
            LayerContents::INT4 { keys, values, key_scales, value_scales } => keys.len() == heads
                && values.len() == heads && key_scales.len() == heads && value_scales.len()
                == heads,
        }
    }

    /// Whether `rows` is in this layer's format and long enough on every side for
    /// the positions that its keys make.
    pub open spec fn accepts<'a>(self, rows: KvRows<'a, F>, heads: int, head_dim: int) -> bool {
        let n = rows.positions(heads, head_dim);
        &&& self.has_heads(heads)
        &&& match (self, rows) {
            (LayerContents::F32 { .. }, KvRows::F32 { values, .. }) => n * (heads * head_dim)
                <= values@.len(),
            (LayerContents::BF16 { .. }, KvRows::BF16 { values, .. }) => n * (heads * head_dim)
                <= values@.len(),
            (
                LayerContents::INT8 { .. },
                KvRows::INT8 { values, key_scales, value_scales, .. },
            ) => n * (heads * head_dim) <= values@.len() && n * (heads * 1) <= key_scales@.len()
                && n * (heads * 1) <= value_scales@.len(),
            (
                LayerContents::INT4 { .. },
                KvRows::INT4 { keys, values, key_scales, value_scales },
            ) => n * (heads * head_dim) <= values@.len() && n * (heads * (head_dim / 32))
                <= key_scales@.len() && n * (heads * (head_dim / 32)) <= value_scales@.len()
                && are_nibbles(keys@) && are_nibbles(values@),
            _ => false,
        }
    }

    /// The layer with the positions of `rows` behind what it held.
    pub open spec fn appended<'a>(self, rows: KvRows<'a, F>, heads: int, head_dim: int) -> Self {
        let n = rows.positions(heads, head_dim);
        match (self, rows) {
            (LayerContents::F32 { keys, values }, KvRows::F32 { keys: k, values: v }) => {
                LayerContents::F32 {
                    keys: heads_appended(keys, k@, head_dim, n),
                    values: heads_appended(values, v@, head_dim, n),
                }
            },
            (LayerContents::BF16 { keys, values }, KvRows::BF16 { keys: k, values: v }) => {
                LayerContents::BF16 {
                    keys: heads_appended(keys, k@, head_dim, n),
                    values: heads_appended(values, v@, head_dim, n),
                }
            },
            (
                LayerContents::INT8 { keys, values, key_scales, value_scales },
                KvRows::INT8 { keys: k, values: v, key_scales: ks, value_scales: vs },
            ) => LayerContents::INT8 {
                keys: heads_appended(keys, k@, head_dim, n),
                values: heads_appended(values, v@, head_dim, n),
                key_scales: heads_appended(key_scales, ks@, 1, n),
                value_scales: heads_appended(value_scales, vs@, 1, n),
            },
            (
                LayerContents::INT4 { keys, values, key_scales, value_scales },
                KvRows::INT4 { keys: k, values: v, key_scales: ks, value_scales: vs },
            ) => LayerContents::INT4 {
                keys: heads_appended(keys, packed_heads(k@, head_dim, n * heads), head_dim / 2, n),
                values: heads_appended(
                    values,
                    packed_heads(v@, head_dim, n * heads),
                    head_dim / 2,
                    n,
                ),
                key_scales: heads_appended(key_scales, ks@, head_dim / 32, n),
                value_scales: heads_appended(value_scales, vs@, head_dim / 32, n),
            },
            _ => self,
        }
    }

    /// The layer cut to its first `positions` positions.
    pub open spec fn cut_to(self, positions: int, head_dim: int) -> Self {
        match self {
            LayerContents::F32 { keys, values } => LayerContents::F32 {
                keys: heads_cut(keys, positions * head_dim),
                values: heads_cut(values, positions * head_dim),
            },
            LayerContents::BF16 { keys, values } => LayerContents::BF16 {
                keys: heads_cut(keys, positions * head_dim),
                values: heads_cut(values, positions * head_dim),
            },
            LayerContents::INT8 { keys, values, key_scales, value_scales } => LayerContents::INT8 {
                keys: heads_cut(keys, positions * head_dim),
                values: heads_cut(values, positions * head_dim),
                key_scales: heads_cut(key_scales, positions),
                value_scales: heads_cut(value_scales, positions),
            },
            LayerContents::INT4 { keys, values, key_scales, value_scales } => LayerContents::INT4 {
                keys: heads_cut(keys, positions * (head_dim / 2)),
                values: heads_cut(values, positions * (head_dim / 2)),
                key_scales: heads_cut(key_scales, positions * (head_dim / 32)),
                value_scales: heads_cut(value_scales, positions * (head_dim / 32)),
            },
        }
    }

    /// The number of positions that the first head makes.
    pub open spec fn cached_len(self, head_dim: int) -> int {
        match self {
            LayerContents::F32 { keys, .. } => if keys.len() == 0 {
                0
            } else {
                keys[0].len() as int / head_dim
            },
            LayerContents::BF16 { keys, .. } => if keys.len() == 0 {
                0
            } else {
                keys[0].len() as int / head_dim
            },
            LayerContents::INT8 { keys, .. } => if keys.len() == 0 {
                0
            } else {
                keys[0].len() as int / head_dim
            },
            LayerContents::INT4 { key_scales, .. } => if key_scales.len() == 0 || head_dim / 32
                == 0 {
                0
            } else {
                key_scales[0].len() as int / (head_dim / 32)
            },
        }
    }
}

/// The number of whole rows in `len` elements, and that they fit.
proof fn lemma_whole_rows(len: int, row: int)
    requires
        len >= 0,
        row > 0,
    ensures
        0 <= (len / row) * row <= len,
        len / row >= 0,
{
    vstd::arithmetic::div_mod::lemma_fundamental_div_mod(len, row);
    vstd::arithmetic::div_mod::lemma_div_pos_is_pos(len, row);
    assert((len / row) * row == row * (len / row)) by (nonlinear_arith);
    assert(row * (len / row) >= 0) by (nonlinear_arith)
        requires
            row > 0,
            len / row >= 0,
    ;
}

impl<F: Copy> KvLayerData<F> {
    /// The number of positions that this layer holds.
    pub fn cached_len(&self, head_dim: usize) -> (n: usize)
        requires
            head_dim > 0 || self@ is INT4 || self@.has_heads(0),
        ensures
            n == self@.cached_len(head_dim as int),
    {
        match self {
            KvLayerData::F32 { keys_per_head, .. } => if keys_per_head.len() == 0 {
                0
            } else {
                keys_per_head[0].len() / head_dim
            },
            KvLayerData::BF16 { keys_per_head, .. } => if keys_per_head.len() == 0 {
                0
            } else {
                keys_per_head[0].len() / head_dim
            },
            KvLayerData::INT8 { keys_per_head, .. } => if keys_per_head.len() == 0 {
                0
            } else {
                keys_per_head[0].len() / head_dim
            },
            KvLayerData::INT4 { keys_scales, .. } => {
                let num_groups: usize = int4_num_groups(head_dim);
                if keys_scales.len() == 0 || num_groups == 0 {
                    0
                } else {
                    keys_scales[0].len() / num_groups
                }
            },
        }
    }

    /// Cuts every head to its first `trim_to` positions.
    pub fn truncate_to(&mut self, trim_to: usize, head_dim: usize)
        requires
            trim_to * head_dim <= usize::MAX,
        ensures
            final(self)@ == old(self)@.cut_to(trim_to as int, head_dim as int),
    {
        proof {
            let half = head_dim as int / 2;
            let groups = head_dim as int / 32;
            assert(0 <= trim_to * half <= trim_to * head_dim && 0 <= trim_to * groups <= trim_to
                * head_dim) by (nonlinear_arith)
                requires
                    0 <= half <= head_dim,
                    0 <= groups <= head_dim,
            ;
        }
        match self {
            KvLayerData::F32 { keys_per_head, values_per_head } => {
                cut_heads(keys_per_head, trim_to * head_dim);
                cut_heads(values_per_head, trim_to * head_dim);
            },
            KvLayerData::BF16 { keys_per_head, values_per_head } => {
                cut_heads(keys_per_head, trim_to * head_dim);
                cut_heads(values_per_head, trim_to * head_dim);
            },
            KvLayerData::INT8 { keys_per_head, values_per_head, keys_scales, values_scales } => {
                cut_heads(keys_per_head, trim_to * head_dim);
                cut_heads(values_per_head, trim_to * head_dim);
                cut_vecs(keys_scales, trim_to);
                cut_vecs(values_scales, trim_to);
            },
            KvLayerData::INT4 { keys_per_head, values_per_head, keys_scales, values_scales } => {
                let num_groups: usize = int4_num_groups(head_dim);
                cut_heads(keys_per_head, trim_to * (head_dim / 2));
                cut_heads(values_per_head, trim_to * (head_dim / 2));
                cut_vecs(keys_scales, trim_to * num_groups);
                cut_vecs(values_scales, trim_to * num_groups);
            },
        }
    }

    /// Appends whole positions, packing the codes of the four-bit format.
    pub fn append_rows<'a>(&mut self, rows: &KvRows<'a, F>, num_kv_heads: usize, head_dim: usize)
        requires
            0 < num_kv_heads * head_dim <= usize::MAX,
            old(self)@.accepts(*rows, num_kv_heads as int, head_dim as int),
        ensures
            final(self)@ == old(self)@.appended(*rows, num_kv_heads as int, head_dim as int),
    {
        let kv_dim: usize = num_kv_heads * head_dim;
        proof {
            lemma_whole_rows(rows.key_len(), kv_dim as int);
        }
        match (self, rows) {
            (
                KvLayerData::F32 { keys_per_head, values_per_head },
                KvRows::F32 { keys, values },
            ) => {
                let n: usize = keys.len() / kv_dim;
                append_to_heads(keys_per_head, keys, head_dim, n);
                append_to_heads(values_per_head, values, head_dim, n);
            },
            (
                KvLayerData::BF16 { keys_per_head, values_per_head },
                KvRows::BF16 { keys, values },
            ) => {
                let n: usize = keys.len() / kv_dim;
                append_to_heads(keys_per_head, keys, head_dim, n);
                append_to_heads(values_per_head, values, head_dim, n);
            },
            (
                KvLayerData::INT8 { keys_per_head, values_per_head, keys_scales, values_scales },
                KvRows::INT8 { keys, values, key_scales, value_scales },
            ) => {
                let n: usize = keys.len() / kv_dim;
                append_to_heads(keys_per_head, keys, head_dim, n);
                append_to_heads(values_per_head, values, head_dim, n);
                append_to_vecs(keys_scales, key_scales, 1, n);
                append_to_vecs(values_scales, value_scales, 1, n);
            },
            (
                KvLayerData::INT4 { keys_per_head, values_per_head, keys_scales, values_scales },
                KvRows::INT4 { keys, values, key_scales, value_scales },
            ) => {
                let n: usize = keys.len() / kv_dim;
                let len: usize = keys.len();
                let num_groups: usize = int4_num_groups(head_dim);
                proof {
                    let half = head_dim as int / 2;
                    assert(n * (num_kv_heads * head_dim) == (n * num_kv_heads) * head_dim)
                        by (nonlinear_arith);
                    assert((n * num_kv_heads) * half == n * (num_kv_heads * half))
                        by (nonlinear_arith);
                    assert(0 <= n * num_kv_heads <= (n * num_kv_heads) * head_dim)
                        by (nonlinear_arith)
                        requires
                            head_dim >= 1,
                            n >= 0,
                            num_kv_heads >= 0,
                    ;
                }
                let packed_keys = pack_heads(keys, head_dim, n * num_kv_heads);
                let packed_values = pack_heads(values, head_dim, n * num_kv_heads);
                append_to_heads(keys_per_head, packed_keys.as_slice(), head_dim / 2, n);
                append_to_heads(values_per_head, packed_values.as_slice(), head_dim / 2, n);
                append_to_vecs(keys_scales, key_scales, num_groups, n);
                append_to_vecs(values_scales, value_scales, num_groups, n);
            },
            _ => {},
        }
    }
}

// ---------------------------------------------------------------------------
// Copies and sizes
// ---------------------------------------------------------------------------

/// Copies a vector.
pub(crate) fn copy_vec<T: Copy>(v: &Vec<T>) -> (copy: Vec<T>)
    ensures
        copy@ == v@,
{
    vstd::slice::slice_to_vec(v.as_slice())
}

/// Copies every vector.
pub(crate) fn copy_vecs<T: Copy>(vecs: &Vec<Vec<T>>) -> (copy: Vec<Vec<T>>)
    ensures
        vec_contents(copy@) == vec_contents(vecs@),
{
    let mut copy: Vec<Vec<T>> = Vec::new();
    let mut i: usize = 0;
    while i < vecs.len()
        invariant
            i <= vecs@.len(),
            copy@.len() == i,
            forall|j: int| 0 <= j < i ==> (#[trigger] copy@[j])@ == vecs@[j]@,
        decreases vecs@.len() - i,
    {
        copy.push(copy_vec(&vecs[i]));
        i = i + 1;
    }
    proof {
        assert(vec_contents(copy@) =~= vec_contents(vecs@));
    }
    copy
}

/// Copies every head.
fn copy_heads<T: Copy>(heads: &Vec<HugeVec<T>>) -> (copy: Vec<HugeVec<T>>)
    ensures
        head_contents(copy@) == head_contents(heads@),
{
    let mut copy: Vec<HugeVec<T>> = Vec::new();
    let mut i: usize = 0;
    while i < heads.len()
        invariant
            i <= heads@.len(),
            copy@.len() == i,
            forall|j: int| 0 <= j < i ==> (#[trigger] copy@[j])@ == heads@[j]@,
        decreases heads@.len() - i,
    {
        copy.push(heads[i].clone());
        i = i + 1;
    }
    proof {
        assert(head_contents(copy@) =~= head_contents(heads@));
    }
    copy
}

impl<F: Copy> Clone for KvLayerData<F> {
    fn clone(&self) -> (copy: Self)
        ensures
            copy@ == self@,
    {
        match self {
            KvLayerData::F32 { keys_per_head, values_per_head } => KvLayerData::F32 {
                keys_per_head: copy_heads(keys_per_head),
                values_per_head: copy_heads(values_per_head),
            },
            KvLayerData::BF16 { keys_per_head, values_per_head } => KvLayerData::BF16 {
                keys_per_head: copy_heads(keys_per_head),
                values_per_head: copy_heads(values_per_head),
            },
            KvLayerData::INT8 { keys_per_head, values_per_head, keys_scales, values_scales } => {
                KvLayerData::INT8 {
                    keys_per_head: copy_heads(keys_per_head),
                    values_per_head: copy_heads(values_per_head),
                    keys_scales: copy_vecs(keys_scales),
                    values_scales: copy_vecs(values_scales),
                }
            },
            KvLayerData::INT4 { keys_per_head, values_per_head, keys_scales, values_scales } => {
                KvLayerData::INT4 {
                    keys_per_head: copy_heads(keys_per_head),
                    values_per_head: copy_heads(values_per_head),
                    keys_scales: copy_vecs(keys_scales),
                    values_scales: copy_vecs(values_scales),
                }
            },
        }
    }
}

/// What each layer holds.
pub open spec fn layer_contents<F>(layers: Seq<KvLayerData<F>>) -> Seq<LayerContents<F>> {
    Seq::new(layers.len(), |i: int| layers[i]@)
}

/// Copies every layer.
fn copy_layers<F: Copy>(layers: &Vec<KvLayerData<F>>) -> (copy: Vec<KvLayerData<F>>)
    ensures
        layer_contents(copy@) == layer_contents(layers@),
{
    let mut copy: Vec<KvLayerData<F>> = Vec::new();
    let mut i: usize = 0;
    while i < layers.len()
        invariant
            i <= layers@.len(),
            copy@.len() == i,
            forall|j: int| 0 <= j < i ==> (#[trigger] copy@[j])@ == layers@[j]@,
        decreases layers@.len() - i,
    {
        copy.push(layers[i].clone());
        i = i + 1;
    }
    proof {
        assert(layer_contents(copy@) =~= layer_contents(layers@));
    }
    copy
}

/// The number of elements in all parts.
pub open spec fn element_count<T>(parts: Seq<Seq<T>>) -> int
    decreases parts.len(),
{
    if parts.len() == 0 {
        0
    } else {
        element_count(parts.drop_last()) + parts.last().len()
    }
}

proof fn lemma_element_count_prefix<T>(parts: Seq<Seq<T>>, n: int)
    requires
        0 <= n <= parts.len(),
    ensures
        0 <= element_count(parts.take(n)) <= element_count(parts),
    decreases parts.len(),
{
    if n == parts.len() {
        assert(parts.take(n) =~= parts);
        if n > 0 {
            lemma_element_count_prefix(parts.drop_last(), n - 1);
            assert(parts.drop_last().take(n - 1) =~= parts.drop_last());
        }
    } else {
        lemma_element_count_prefix(parts.drop_last(), n);
        assert(parts.drop_last().take(n) =~= parts.take(n));
    }
}

/// The bytes that a layer's numbers take, with `scalar` bytes to a number of type `F`.
pub open spec fn layer_bytes<F>(layer: LayerContents<F>, scalar: int) -> int {
    match layer {
        LayerContents::F32 { keys, values } => (element_count(keys) + element_count(values))
            * scalar,
        LayerContents::BF16 { keys, values } => (element_count(keys) + element_count(values)) * 2,
        LayerContents::INT8 { keys, values, key_scales, value_scales } => element_count(keys)
            + element_count(values) + (element_count(key_scales) + element_count(value_scales))
            * scalar,
        LayerContents::INT4 { keys, values, key_scales, value_scales } => element_count(keys)
            + element_count(values) + (element_count(key_scales) + element_count(value_scales))
            * scalar,
    }
}

/// The bytes of all layers.
pub open spec fn layers_bytes<F>(layers: Seq<LayerContents<F>>, scalar: int) -> int
    decreases layers.len(),
{
    if layers.len() == 0 {
        0
    } else {
        layers_bytes(layers.drop_last(), scalar) + layer_bytes(layers.last(), scalar)
    }
}

/// Counts the elements of all heads.
fn count_heads<T: Copy>(heads: &Vec<HugeVec<T>>) -> (n: usize)
    requires
        element_count(head_contents(heads@)) <= usize::MAX,
    ensures
        n == element_count(head_contents(heads@)),
{
    let ghost parts = head_contents(heads@);
    let mut n: usize = 0;
    let mut i: usize = 0;
    proof {
        assert(parts.take(0) =~= Seq::<Seq<T>>::empty());
    }
    while i < heads.len()
        invariant
            i <= heads@.len(),
            parts == head_contents(heads@),
            element_count(parts) <= usize::MAX,
            n == element_count(parts.take(i as int)),
        decreases heads@.len() - i,
    {
        proof {
            lemma_element_count_prefix(parts, i + 1);
            assert(parts.take(i + 1).drop_last() =~= parts.take(i as int));
        }
        n = n + heads[i].len();
        i = i + 1;
    }
    proof {
        assert(parts.take(i as int) =~= parts);
    }
    n
}

/// Counts the elements of all vectors.
fn count_vecs<T: Copy>(vecs: &Vec<Vec<T>>) -> (n: usize)
    requires
        element_count(vec_contents(vecs@)) <= usize::MAX,
    ensures
        n == element_count(vec_contents(vecs@)),
{
    let ghost parts = vec_contents(vecs@);
    let mut n: usize = 0;
    let mut i: usize = 0;
    proof {
        assert(parts.take(0) =~= Seq::<Seq<T>>::empty());
    }
    while i < vecs.len()
        invariant
            i <= vecs@.len(),
            parts == vec_contents(vecs@),
            element_count(parts) <= usize::MAX,
            n == element_count(parts.take(i as int)),
        decreases vecs@.len() - i,
    {
        proof {
            lemma_element_count_prefix(parts, i + 1);
            assert(parts.take(i + 1).drop_last() =~= parts.take(i as int));
        }
        n = n + vecs[i].len();
        i = i + 1;
    }
    proof {
        assert(parts.take(i as int) =~= parts);
    }
    n
}

proof fn lemma_element_count_nonneg<T>(parts: Seq<Seq<T>>)
    ensures
        element_count(parts) >= 0,
{
    lemma_element_count_prefix(parts, 0);
    assert(parts.take(0) =~= Seq::<Seq<T>>::empty());
}

/// Counts the bytes of one layer.
fn count_layer<F: Copy>(layer: &KvLayerData<F>, scalar: usize) -> (n: usize)
    requires
        scalar > 0,
        layer_bytes(layer@, scalar as int) <= usize::MAX,
    ensures
        n == layer_bytes(layer@, scalar as int),
{
    match layer {
        KvLayerData::F32 { keys_per_head, values_per_head } => {
            let ghost total = element_count(head_contents(keys_per_head@)) + element_count(
                head_contents(values_per_head@),
            );
            proof {
                lemma_element_count_nonneg(head_contents(keys_per_head@));
                lemma_element_count_nonneg(head_contents(values_per_head@));
                assert(total <= total * scalar) by (nonlinear_arith)
                    requires
                        scalar >= 1,
                        total >= 0,
                ;
            }
            (count_heads(keys_per_head) + count_heads(values_per_head)) * scalar
        },
        KvLayerData::BF16 { keys_per_head, values_per_head } => {
            proof {
                lemma_element_count_nonneg(head_contents(keys_per_head@));
                lemma_element_count_nonneg(head_contents(values_per_head@));
            }
            (count_heads(keys_per_head) + count_heads(values_per_head)) * 2
        },
        KvLayerData::INT8 { keys_per_head, values_per_head, keys_scales, values_scales } => {
            let ghost total = element_count(vec_contents(keys_scales@)) + element_count(
                vec_contents(values_scales@),
            );
            proof {
                lemma_element_count_nonneg(head_contents(keys_per_head@));
                lemma_element_count_nonneg(head_contents(values_per_head@));
                lemma_element_count_nonneg(vec_contents(keys_scales@));
                lemma_element_count_nonneg(vec_contents(values_scales@));
                assert(total <= total * scalar) by (nonlinear_arith)
                    requires
                        scalar >= 1,
                        total >= 0,
                ;
            }
            count_heads(keys_per_head) + count_heads(values_per_head) + (count_vecs(keys_scales)
                + count_vecs(values_scales)) * scalar
        },
        KvLayerData::INT4 { keys_per_head, values_per_head, keys_scales, values_scales } => {
            let ghost total = element_count(vec_contents(keys_scales@)) + element_count(
                vec_contents(values_scales@),
            );
            proof {
                lemma_element_count_nonneg(head_contents(keys_per_head@));
                lemma_element_count_nonneg(head_contents(values_per_head@));
                lemma_element_count_nonneg(vec_contents(keys_scales@));
                lemma_element_count_nonneg(vec_contents(values_scales@));
                assert(total <= total * scalar) by (nonlinear_arith)
                    requires
                        scalar >= 1,
                        total >= 0,
                ;
            }
            count_heads(keys_per_head) + count_heads(values_per_head) + (count_vecs(keys_scales)
                + count_vecs(values_scales)) * scalar
        },
    }
}

proof fn lemma_layer_bytes_nonneg<F>(layer: LayerContents<F>, scalar: int)
    requires
        scalar >= 0,
    ensures
        layer_bytes(layer, scalar) >= 0,
{
    match layer {
        LayerContents::F32 { keys, values } => {
            lemma_element_count_nonneg(keys);
            lemma_element_count_nonneg(values);
            let total = element_count(keys) + element_count(values);
            assert(total * scalar >= 0) by (nonlinear_arith)
                requires
                    scalar >= 0,
                    total >= 0,
            ;
        },
        LayerContents::BF16 { keys, values } => {
            lemma_element_count_nonneg(keys);
            lemma_element_count_nonneg(values);
        },
        LayerContents::INT8 { keys, values, key_scales, value_scales } => {
            lemma_element_count_nonneg(keys);
            lemma_element_count_nonneg(values);
            lemma_element_count_nonneg(key_scales);
            lemma_element_count_nonneg(value_scales);
            let total = element_count(key_scales) + element_count(value_scales);
            assert(total * scalar >= 0) by (nonlinear_arith)
                requires
                    scalar >= 0,
                    total >= 0,
            ;
        },
        LayerContents::INT4 { keys, values, key_scales, value_scales } => {
            lemma_element_count_nonneg(keys);
            lemma_element_count_nonneg(values);
            lemma_element_count_nonneg(key_scales);
            lemma_element_count_nonneg(value_scales);
            let total = element_count(key_scales) + element_count(value_scales);
            assert(total * scalar >= 0) by (nonlinear_arith)
                requires
                    scalar >= 0,
                    total >= 0,
            ;
        },
    }
}

proof fn lemma_layers_bytes_prefix<F>(layers: Seq<LayerContents<F>>, n: int, scalar: int)
    requires
        0 <= n <= layers.len(),
        scalar >= 0,
    ensures
        0 <= layers_bytes(layers.take(n), scalar) <= layers_bytes(layers, scalar),
    decreases layers.len(),
{
    if layers.len() > 0 {
        lemma_layer_bytes_nonneg(layers.last(), scalar);
    }
    if n == layers.len() {
        assert(layers.take(n) =~= layers);
        if n > 0 {
            lemma_layers_bytes_prefix(layers.drop_last(), n - 1, scalar);
            assert(layers.drop_last().take(n - 1) =~= layers.drop_last());
        }
    } else {
        lemma_layers_bytes_prefix(layers.drop_last(), n, scalar);
        assert(layers.drop_last().take(n) =~= layers.take(n));
    }
}

/// The bytes of the layers and of the flat arrays.
pub open spec fn store_bytes<F>(
    layers: Seq<LayerContents<F>>,
    keys: Seq<Seq<u16>>,
    values: Seq<Seq<u16>>,
    scalar: int,
) -> int {
    layers_bytes(layers, scalar) + (element_count(keys) + element_count(values)) * 2
}

/// Counts the bytes of the layers and of the flat arrays.
fn count_store<F: Copy>(
    layers: &Vec<KvLayerData<F>>,
    keys: &Vec<Vec<u16>>,
    values: &Vec<Vec<u16>>,
    scalar: usize,
) -> (n: usize)
    requires
        scalar > 0,
        store_bytes(
            layer_contents(layers@),
            vec_contents(keys@),
            vec_contents(values@),
            scalar as int,
        ) <= usize::MAX,
    ensures
        n == store_bytes(
            layer_contents(layers@),
            vec_contents(keys@),
            vec_contents(values@),
            scalar as int,
        ),
{
    let ghost all = layer_contents(layers@);
    let mut n: usize = 0;
    let mut i: usize = 0;
    proof {
        lemma_element_count_nonneg(vec_contents(keys@));
        lemma_element_count_nonneg(vec_contents(values@));
        lemma_layers_bytes_prefix(all, 0, scalar as int);
        assert(all.take(0) =~= Seq::<LayerContents<F>>::empty());
    }
    while i < layers.len()
        invariant
            i <= layers@.len(),
            scalar > 0,
            all == layer_contents(layers@),
            layers_bytes(all, scalar as int) <= usize::MAX,
            n == layers_bytes(all.take(i as int), scalar as int),
        decreases layers@.len() - i,
    {
        proof {
            lemma_layers_bytes_prefix(all, i as int, scalar as int);
            lemma_layers_bytes_prefix(all, i + 1, scalar as int);
            assert(all.take(i + 1).drop_last() =~= all.take(i as int));
        }
        n = n + count_layer(&layers[i], scalar);
        i = i + 1;
    }
    proof {
        assert(all.take(i as int) =~= all);
    }
    n + (count_vecs(keys) + count_vecs(values)) * 2
}

// ---------------------------------------------------------------------------
// The store
// ---------------------------------------------------------------------------

/// A copy of a store's keys and values, from which a store can be rebuilt.
pub struct KvStoreSnapshot<F> {
    pub kv_quant: KvQuantType,
    pub layer_data: Vec<KvLayerData<F>>,
    /// Flat keys, filled in the sixteen-bit format only.
    pub keys: Vec<Vec<u16>>,
    /// Flat values, filled in the sixteen-bit format only.
    pub values: Vec<Vec<u16>>,
    pub num_kv_heads: usize,
    pub head_dim: usize,
    pub seq_len: usize,
    pub kv_dim: usize,
}

/// The keys and values of the tokens seen so far, and the state of the layers that
/// are not attention layers.
pub struct KvStore<F> {
    /// The format of every layer.
    pub kv_quant: KvQuantType,
    pub layer_data: Vec<KvLayerData<F>>,
    /// Flat keys, filled in the sixteen-bit format only.
    pub keys: Vec<Vec<u16>>,
    /// Flat values, filled in the sixteen-bit format only.
    pub values: Vec<Vec<u16>>,
    pub num_kv_heads: usize,
    pub head_dim: usize,
    pub seq_len: usize,
    pub kv_dim: usize,
    /// The position of the next text token when images precede it.
    pub text_pos: u32,
    /// The convolution state of each layer.
    pub conv_cache: Vec<Vec<F>>,
    /// The recurrent state of each DeltaNet layer.
    pub deltanet_recurrent: Vec<Vec<F>>,
    /// The convolution state of each DeltaNet layer.
    pub deltanet_conv: Vec<Vec<F>>,
    /// Whether prefill attention looks both ways.
    pub bidirectional: bool,
}

/// The keys and values of a store: all that a snapshot copies.
#[verifier::ext_equal]
pub struct KvContents<F> {
    pub kv_quant: KvQuantType,
    pub layers: Seq<LayerContents<F>>,
    pub keys: Seq<Seq<u16>>,
    pub values: Seq<Seq<u16>>,
    pub num_kv_heads: usize,
    pub head_dim: usize,
    pub seq_len: usize,
    pub kv_dim: usize,
}

impl<F> View for KvStoreSnapshot<F> {
    type V = KvContents<F>;

    open spec fn view(&self) -> KvContents<F> {
        KvContents {
            kv_quant: self.kv_quant,
            layers: layer_contents(self.layer_data@),
            keys: vec_contents(self.keys@),
            values: vec_contents(self.values@),
            num_kv_heads: self.num_kv_heads,
            head_dim: self.head_dim,
            seq_len: self.seq_len,
            kv_dim: self.kv_dim,
        }
    }
}

impl<F> View for KvStore<F> {
    type V = KvContents<F>;

    open spec fn view(&self) -> KvContents<F> {
        KvContents {
            kv_quant: self.kv_quant,
            layers: layer_contents(self.layer_data@),
            keys: vec_contents(self.keys@),
            values: vec_contents(self.values@),
            num_kv_heads: self.num_kv_heads,
            head_dim: self.head_dim,
            seq_len: self.seq_len,
            kv_dim: self.kv_dim,
        }
    }
}

impl<F> KvContents<F> {
    /// Every layer has the store's format and its number of heads, and has its own
    /// flat arrays.
    pub open spec fn wf(self) -> bool {
        &&& self.keys.len() == self.layers.len()
        &&& self.values.len() == self.layers.len()
        &&& forall|i: int|
            0 <= i < self.layers.len() ==> (#[trigger] self.layers[i]).format() == self.kv_quant
                && self.layers[i].has_heads(self.num_kv_heads as int)
    }

    /// The store after `rows` were appended to one layer.
    pub open spec fn appended<'a>(self, layer: int, rows: KvRows<'a, F>) -> Self {
        KvContents {
            layers: self.layers.update(
                layer,
                self.layers[layer].appended(rows, self.num_kv_heads as int, self.head_dim as int),
            ),
            keys: match rows {
                KvRows::BF16 { keys, .. } => self.keys.update(layer, self.keys[layer] + keys@),
                _ => self.keys,
            },
            values: match rows {
                KvRows::BF16 { values, .. } => self.values.update(
                    layer,
                    self.values[layer] + values@,
                ),
                _ => self.values,
            },
            ..self
        }
    }

    /// The store after one layer was cut to its first `positions` positions.
    pub open spec fn cut_to(self, layer: int, positions: int) -> Self {
        let flat = positions * self.kv_dim;
        KvContents {
            layers: self.layers.update(
                layer,
                self.layers[layer].cut_to(positions, self.head_dim as int),
            ),
            keys: if self.kv_quant is BF16 {
                self.keys.update(layer, cut(self.keys[layer], flat))
            } else {
                self.keys
            },
            values: if self.kv_quant is BF16 {
                self.values.update(layer, cut(self.values[layer], flat))
            } else {
                self.values
            },
            ..self
        }
    }

    /// The bytes that the keys and values take.
    pub open spec fn bytes(self, scalar: int) -> int {
        store_bytes(self.layers, self.keys, self.values, scalar)
    }
}

impl<F: Copy> KvStoreSnapshot<F> {
    /// The memory that the keys and values take, in bytes.
    pub fn memory_bytes(&self) -> (n: usize)
        requires
            vstd::layout::size_of::<F>() > 0,
            self@.bytes(vstd::layout::size_of::<F>() as int) <= usize::MAX,
        ensures
            n == self@.bytes(vstd::layout::size_of::<F>() as int),
    {
        count_store(&self.layer_data, &self.keys, &self.values, core::mem::size_of::<F>())
    }
}

impl<F: Copy> Clone for KvStoreSnapshot<F> {
    fn clone(&self) -> (copy: Self)
        ensures
            copy@ == self@,
    {
        KvStoreSnapshot {
            kv_quant: self.kv_quant,
            layer_data: copy_layers(&self.layer_data),
            keys: copy_vecs(&self.keys),
            values: copy_vecs(&self.values),
            num_kv_heads: self.num_kv_heads,
            head_dim: self.head_dim,
            seq_len: self.seq_len,
            kv_dim: self.kv_dim,
        }
    }
}

/// Appends a slice to a vector.
fn extend_vec<T: Copy>(dst: &mut Vec<T>, src: &[T])
    ensures
        final(dst)@ == old(dst)@ + src@,
{
    let ghost before = dst@;
    let mut i: usize = 0;
    while i < src.len()
        invariant
            i <= src@.len(),
            dst@ == before + src@.take(i as int),
        decreases src@.len() - i,
    {
        dst.push(src[i]);
        i = i + 1;
        assert(dst@ =~= before + src@.take(i as int));
    }
    assert(src@.take(i as int) =~= src@);
}

impl<F: Copy> KvStore<F> {
    /// Appends the keys and values of new positions to one layer.
    pub fn append<'a>(&mut self, layer_idx: usize, rows: &KvRows<'a, F>)
        requires
            old(self)@.wf(),
            layer_idx < old(self)@.layers.len(),
            0 < old(self).num_kv_heads * old(self).head_dim <= usize::MAX,
            old(self)@.layers[layer_idx as int].accepts(
                *rows,
                old(self).num_kv_heads as int,
                old(self).head_dim as int,
            ),
        ensures
            final(self)@ == old(self)@.appended(layer_idx as int, *rows),
            final(self)@.wf(),
            *final(self) == (KvStore {
                layer_data: final(self).layer_data,
                keys: final(self).keys,
                values: final(self).values,
                ..*old(self)
            }),
    {
        let ghost before = self@;
        if let KvRows::BF16 { keys, values } = rows {
            extend_vec(&mut self.keys[layer_idx], keys);
            extend_vec(&mut self.values[layer_idx], values);
        }
        self.layer_data[layer_idx].append_rows(rows, self.num_kv_heads, self.head_dim);
        proof {
            let after = before.appended(layer_idx as int, *rows);
            assert(self@.layers =~= after.layers);
            assert(self@.keys =~= after.keys);
            assert(self@.values =~= after.values);
        }
    }

    /// Cuts one layer to its first `trim_to` positions.
    pub fn truncate_to(&mut self, layer_idx: usize, trim_to: usize)
        requires
            old(self)@.wf(),
            layer_idx < old(self)@.layers.len(),
            trim_to * old(self).head_dim <= usize::MAX,
            trim_to * old(self).kv_dim <= usize::MAX,
        ensures
            final(self)@ == old(self)@.cut_to(layer_idx as int, trim_to as int),
            final(self)@.wf(),
            *final(self) == (KvStore {
                layer_data: final(self).layer_data,
                keys: final(self).keys,
                values: final(self).values,
                ..*old(self)
            }),
    {
        let ghost before = self@;
        if self.kv_quant == KvQuantType::BF16 {
            proof {
                assert(trim_to * self.kv_dim >= 0) by (nonlinear_arith);
            }
            let flat: usize = trim_to * self.kv_dim;
            self.keys[layer_idx].truncate(flat);
            self.values[layer_idx].truncate(flat);
        }
        self.layer_data[layer_idx].truncate_to(trim_to, self.head_dim);
        proof {
            let after = before.cut_to(layer_idx as int, trim_to as int);
            assert(self@.layers =~= after.layers);
            assert(self@.keys =~= after.keys);
            assert(self@.values =~= after.values);
        }
    }

    /// The number of positions that one layer holds.
    pub fn cached_len(&self, layer_idx: usize) -> (n: usize)
        requires
            layer_idx < self@.layers.len(),
            self.head_dim > 0 || self@.layers[layer_idx as int] is INT4
                || self@.layers[layer_idx as int].has_heads(0),
        ensures
            n == self@.layers[layer_idx as int].cached_len(self.head_dim as int),
    {
        self.layer_data[layer_idx].cached_len(self.head_dim)
    }

    /// Counts `count` more positions.
    pub fn advance_seq_len(&mut self, count: usize)
        requires
            old(self).seq_len + count <= usize::MAX,
        ensures
            *final(self) == (KvStore {
                seq_len: (old(self).seq_len + count) as usize,
                ..*old(self)
            }),
    {
        self.seq_len = self.seq_len + count;
    }

    /// The memory that the keys and values take, in bytes.
    pub fn memory_bytes(&self) -> (n: usize)
        requires
            vstd::layout::size_of::<F>() > 0,
            self@.bytes(vstd::layout::size_of::<F>() as int) <= usize::MAX,
        ensures
            n == self@.bytes(vstd::layout::size_of::<F>() as int),
    {
        count_store(&self.layer_data, &self.keys, &self.values, core::mem::size_of::<F>())
    }

    /// Copies the keys and values.
    pub fn snapshot(&self) -> (snapshot: KvStoreSnapshot<F>)
        ensures
            snapshot@ == self@,
    {
        KvStoreSnapshot {
            kv_quant: self.kv_quant,
            layer_data: copy_layers(&self.layer_data),
            keys: copy_vecs(&self.keys),
            values: copy_vecs(&self.values),
            num_kv_heads: self.num_kv_heads,
            head_dim: self.head_dim,
            seq_len: self.seq_len,
            kv_dim: self.kv_dim,
        }
    }

    /// Builds a store from a snapshot. The state of the other layers starts out as
    /// in a new store: all `zero`.
    pub fn restore_from_snapshot(snapshot: &KvStoreSnapshot<F>, config: &Config, zero: F) -> (store:
        Self)
        requires
            state_fits(config),
        ensures
            store@ == snapshot@,
            store.text_pos == 0,
            !store.bidirectional,
            fresh_state(
                vec_contents(store.conv_cache@),
                vec_contents(store.deltanet_recurrent@),
                vec_contents(store.deltanet_conv@),
                config,
                zero,
            ),
    {
        KvStore {
            kv_quant: snapshot.kv_quant,
            layer_data: copy_layers(&snapshot.layer_data),
            keys: copy_vecs(&snapshot.keys),
            values: copy_vecs(&snapshot.values),
            num_kv_heads: snapshot.num_kv_heads,
            head_dim: snapshot.head_dim,
            seq_len: snapshot.seq_len,
            kv_dim: snapshot.kv_dim,
            text_pos: 0,
            conv_cache: fresh_conv(config, zero),
            deltanet_recurrent: fresh_recurrent(config, zero),
            deltanet_conv: fresh_deltanet_conv(config, zero),
            bidirectional: false,
        }
    }
}

/// The same number `n` times.
pub open spec fn filled<F>(n: int, x: F) -> Seq<F> {
    Seq::new(n as nat, |i: int| x)
}

/// Whether the sizes of the layers' states are machine numbers.
pub open spec fn state_fits(config: &Config) -> bool {
    &&& config.hidden_size * config.conv_l_cache <= usize::MAX
    &&& forall|i: int|
        0 <= i < config.num_layers && #[trigger] config.spec_is_deltanet_layer(i)
            ==> config.spec_deltanet_conv_len() <= usize::MAX
}

/// The states of the layers before any token: every convolution layer's columns and
/// every recurrent layer's state are `zero`, and other layers have none.
pub open spec fn fresh_state<F>(
    conv: Seq<Seq<F>>,
    recurrent: Seq<Seq<F>>,
    deltanet_conv: Seq<Seq<F>>,
    config: &Config,
    zero: F,
) -> bool {
    &&& conv == Seq::new(
        config.num_layers as nat,
        |i: int| filled(config.hidden_size * config.conv_l_cache, zero),
    )
    &&& recurrent == Seq::new(
        config.num_layers as nat,
        |i: int|
            if config.spec_is_deltanet_layer(i) {
                filled(config.deltanet_recurrent_size as int, zero)
            } else {
                Seq::empty()
            },
    )
    &&& deltanet_conv == Seq::new(
        config.num_layers as nat,
        |i: int|
            if config.spec_is_deltanet_layer(i) {
                filled(config.spec_deltanet_conv_len(), zero)
            } else {
                Seq::empty()
            },
    )
}

/// A vector of `n` copies of `x`.
pub(crate) fn fill_vec<F: Copy>(n: usize, x: F) -> (v: Vec<F>)
    ensures
        v@ == filled(n as int, x),
{
    let mut v: Vec<F> = Vec::with_capacity(n);
    while v.len() < n
        invariant
            v@.len() <= n,
            forall|i: int| 0 <= i < v@.len() ==> v@[i] == x,
        decreases n - v@.len(),
    {
        v.push(x);
    }
    proof {
        assert(v@ =~= filled(n as int, x));
    }
    v
}

/// `count` vectors of `n` copies of `x` each.
pub(crate) fn fill_vecs<F: Copy>(count: usize, n: usize, x: F) -> (vecs: Vec<Vec<F>>)
    ensures
        vec_contents(vecs@) == Seq::new(count as nat, |i: int| filled(n as int, x)),
{
    let mut vecs: Vec<Vec<F>> = Vec::new();
    while vecs.len() < count
        invariant
            vecs@.len() <= count,
            forall|i: int| 0 <= i < vecs@.len() ==> (#[trigger] vecs@[i])@ == filled(n as int, x),
        decreases count - vecs@.len(),
    {
        vecs.push(fill_vec(n, x));
    }
    proof {
        assert(vec_contents(vecs@) =~= Seq::new(count as nat, |i: int| filled(n as int, x)));
    }
    vecs
}

/// `count` empty vectors, each with room for `cap` elements.
fn empty_vecs<T: Copy>(count: usize, cap: usize) -> (vecs: Vec<Vec<T>>)
    ensures
        vec_contents(vecs@) == Seq::new(count as nat, |i: int| Seq::<T>::empty()),
{
    let mut vecs: Vec<Vec<T>> = Vec::new();
    while vecs.len() < count
        invariant
            vecs@.len() <= count,
            forall|i: int| 0 <= i < vecs@.len() ==> (#[trigger] vecs@[i])@ == Seq::<T>::empty(),
        decreases count - vecs@.len(),
    {
        vecs.push(Vec::with_capacity(cap));
    }
    proof {
        assert(vec_contents(vecs@) =~= Seq::new(count as nat, |i: int| Seq::<T>::empty()));
    }
    vecs
}

/// Every head has room for exactly `n` elements.
pub open spec fn heads_have_room<T>(heads: Seq<HugeVec<T>>, n: int) -> bool {
    forall|h: int| 0 <= h < heads.len() ==> (#[trigger] heads[h]).reserved() == n
}

/// `count` empty heads, each with room for `cap` elements.
fn empty_heads<T: Copy>(count: usize, cap: usize) -> (heads: Vec<HugeVec<T>>)
    ensures
        head_contents(heads@) == Seq::new(count as nat, |i: int| Seq::<T>::empty()),
        heads_have_room(heads@, cap as int),
{
    let mut heads: Vec<HugeVec<T>> = Vec::new();
    while heads.len() < count
        invariant
            heads@.len() <= count,
            forall|i: int| 0 <= i < heads@.len() ==> (#[trigger] heads@[i])@ == Seq::<T>::empty(),
            heads_have_room(heads@, cap as int),
        decreases count - heads@.len(),
    {
        heads.push(HugeVec::with_capacity(cap));
    }
    proof {
        assert(head_contents(heads@) =~= Seq::new(count as nat, |i: int| Seq::<T>::empty()));
    }
    heads
}

fn fresh_conv<F: Copy>(config: &Config, zero: F) -> (state: Vec<Vec<F>>)
    requires
        state_fits(config),
    ensures
        vec_contents(state@) == Seq::new(
            config.num_layers as nat,
            |i: int| filled(config.hidden_size * config.conv_l_cache, zero),
        ),
{
    proof {
        assert(config.hidden_size * config.conv_l_cache >= 0) by (nonlinear_arith);
    }
    fill_vecs(config.num_layers, config.hidden_size * config.conv_l_cache, zero)
}

fn fresh_recurrent<F: Copy>(config: &Config, zero: F) -> (state: Vec<Vec<F>>)
    ensures
        vec_contents(state@) == Seq::new(
            config.num_layers as nat,
            |i: int|
                if config.spec_is_deltanet_layer(i) {
                    filled(config.deltanet_recurrent_size as int, zero)
                } else {
                    Seq::empty()
                },
        ),
{
    let mut state: Vec<Vec<F>> = Vec::new();
    let mut i: usize = 0;
    while i < config.num_layers
        invariant
            i <= config.num_layers,
            state@.len() == i,
            forall|j: int|
                0 <= j < i ==> (#[trigger] state@[j])@ == (if config.spec_is_deltanet_layer(j) {
                    filled(config.deltanet_recurrent_size as int, zero)
                } else {
                    Seq::empty()
                }),
        decreases config.num_layers - i,
    {
        if config.is_deltanet_layer(i) {
            state.push(fill_vec(config.deltanet_recurrent_size, zero));
        } else {
            state.push(Vec::new());
        }
        i = i + 1;
    }
    proof {
        assert(vec_contents(state@) =~= Seq::new(
            config.num_layers as nat,
            |i: int|
                if config.spec_is_deltanet_layer(i) {
                    filled(config.deltanet_recurrent_size as int, zero)
                } else {
                    Seq::empty()
                },
        ));
    }
    state
}

fn fresh_deltanet_conv<F: Copy>(config: &Config, zero: F) -> (state: Vec<Vec<F>>)
    requires
        state_fits(config),
    ensures
        vec_contents(state@) == Seq::new(
            config.num_layers as nat,
            |i: int|
                if config.spec_is_deltanet_layer(i) {
                    filled(config.spec_deltanet_conv_len(), zero)
                } else {
                    Seq::empty()
                },
        ),
{
    let mut state: Vec<Vec<F>> = Vec::new();
    let mut i: usize = 0;
    while i < config.num_layers
        invariant
            i <= config.num_layers,
            state_fits(config),
            state@.len() == i,
            forall|j: int|
                0 <= j < i ==> (#[trigger] state@[j])@ == (if config.spec_is_deltanet_layer(j) {
                    filled(config.spec_deltanet_conv_len(), zero)
                } else {
                    Seq::empty()
                }),
        decreases config.num_layers - i,
    {
        if config.is_deltanet_layer(i) {
            state.push(fill_vec(config.deltanet_conv_len(), zero));
        } else {
            state.push(Vec::new());
        }
        i = i + 1;
    }
    proof {
        assert(vec_contents(state@) =~= Seq::new(
            config.num_layers as nat,
            |i: int|
                if config.spec_is_deltanet_layer(i) {
                    filled(config.spec_deltanet_conv_len(), zero)
                } else {
                    Seq::empty()
                },
        ));
    }
    state
}

// ---------------------------------------------------------------------------
// Scratch buffers
// ---------------------------------------------------------------------------

/// The scratch buffers of one request.
pub struct InferenceContext<F> {
    // One buffer for each layer, for decoding.
    pub decode_q: Vec<Vec<F>>,
    pub decode_k: Vec<Vec<F>>,
    pub decode_v: Vec<Vec<F>>,
    pub decode_attn_out: Vec<Vec<F>>,
    pub decode_attn_proj_out: Vec<Vec<F>>,
    pub decode_scores: Vec<Vec<F>>,
    pub decode_scores_workers: Vec<Vec<Vec<F>>>,
    pub decode_norm1: Vec<Vec<F>>,
    pub decode_norm2: Vec<Vec<F>>,
    pub decode_mlp_gate: Vec<Vec<F>>,
    pub decode_mlp_up: Vec<Vec<F>>,
    pub decode_mlp_out: Vec<Vec<F>>,
    // Shared by all layers, for decoding.
    pub decode_embed: Vec<F>,
    pub decode_final_norm: Vec<F>,
    pub decode_logits: Vec<F>,
    pub decode_moe_router: Vec<F>,
    pub decode_moe_expert_out: Vec<F>,
    pub decode_q_bf16: Vec<Vec<u16>>,
    // Shared by all layers, for prefill.
    pub prefill_q_bf16: Vec<u16>,
    pub prefill_q: Vec<F>,
    pub prefill_k: Vec<F>,
    pub prefill_v: Vec<F>,
    pub prefill_attn_out: Vec<F>,
    pub prefill_norm1: Vec<F>,
    pub prefill_norm2: Vec<F>,
    pub prefill_buf_a: Vec<F>,
    pub prefill_buf_b: Vec<F>,
    pub prefill_o_proj: Vec<F>,
    pub prefill_ffn_out: Vec<F>,
    pub prefill_mlp_gate: Vec<F>,
    pub prefill_mlp_up: Vec<F>,
    pub prefill_moe_logits: Vec<F>,
    pub prefill_moe_expert_out: Vec<F>,
    pub prefill_moe_batch_x: Vec<F>,
    pub mrope_cos: Vec<F>,
    pub mrope_sin: Vec<F>,
    pub prefill_deltanet_qkv: Vec<F>,
    pub prefill_deltanet_z: Vec<F>,
    pub prefill_deltanet_attn_out: Vec<F>,
    /// Whether hidden states are captured for a draft head.
    pub eagle3_active: bool,
    /// The layers whose hidden states are captured.
    pub eagle3_extract_layers: [usize; 3],
    pub eagle3_hidden_states: [Vec<F>; 3],
}

/// `layers` rows of `n` zeros.
pub open spec fn zero_rows<F>(rows: Seq<Vec<F>>, layers: usize, n: usize, zero: F) -> bool {
    vec_contents(rows) == Seq::new(layers as nat, |i: int| filled(n as int, zero))
}

/// `layers` empty rows.
pub open spec fn empty_rows<T>(rows: Seq<Vec<T>>, layers: usize) -> bool {
    vec_contents(rows) == Seq::new(layers as nat, |i: int| Seq::<T>::empty())
}

impl<F> InferenceContext<F> {
    /// The buffers as they are before any token: what decoding needs has its size,
    /// what prefill needs is empty, and no hidden state is captured.
    pub open spec fn is_fresh(self, config: &Config, pool_workers: usize, zero: F) -> bool {
        let layers = config.num_layers;
        let hidden = config.hidden_size;
        let ffn = config.spec_ffn_size();
        &&& zero_rows(self.decode_q@, layers, config.q_dim, zero)
        &&& zero_rows(self.decode_k@, layers, config.kv_dim, zero)
        &&& zero_rows(self.decode_v@, layers, config.kv_dim, zero)
        &&& zero_rows(self.decode_attn_out@, layers, config.q_dim, zero)
        &&& zero_rows(self.decode_attn_proj_out@, layers, hidden, zero)
        &&& empty_rows(self.decode_scores@, layers)
        &&& self.decode_scores_workers@.len() == layers
        &&& forall|i: int|
            0 <= i < layers ==> empty_rows(
                (#[trigger] self.decode_scores_workers@[i])@,
                pool_workers,
            )
        &&& zero_rows(self.decode_norm1@, layers, hidden, zero)
        &&& zero_rows(self.decode_norm2@, layers, hidden, zero)
        &&& zero_rows(self.decode_mlp_gate@, layers, ffn, zero)
        &&& zero_rows(self.decode_mlp_up@, layers, ffn, zero)
        &&& zero_rows(self.decode_mlp_out@, layers, hidden, zero)
        &&& self.decode_embed@ == filled(hidden as int, zero)
        &&& self.decode_final_norm@ == filled(hidden as int, zero)
        &&& self.decode_logits@ == filled(config.vocab_size as int, zero)
        &&& self.decode_moe_router@.len() == 0
        &&& self.decode_moe_expert_out@.len() == 0
        &&& empty_rows(self.decode_q_bf16@, layers)
        &&& self.prefill_is_empty()
        &&& !self.eagle3_active
        &&& self.eagle3_extract_layers@ == seq![0usize, 0usize, 0usize]
        &&& forall|i: int| 0 <= i < 3 ==> (#[trigger] self.eagle3_hidden_states@[i])@.len() == 0
    }

    /// Every buffer that prefill fills is empty.
    pub open spec fn prefill_is_empty(self) -> bool {
        &&& self.prefill_q_bf16@.len() == 0
        &&& self.prefill_q@.len() == 0
        &&& self.prefill_k@.len() == 0
        &&& self.prefill_v@.len() == 0
        &&& self.prefill_attn_out@.len() == 0
        &&& self.prefill_norm1@.len() == 0
        &&& self.prefill_norm2@.len() == 0
        &&& self.prefill_buf_a@.len() == 0
        &&& self.prefill_buf_b@.len() == 0
        &&& self.prefill_o_proj@.len() == 0
        &&& self.prefill_ffn_out@.len() == 0
        &&& self.prefill_mlp_gate@.len() == 0
        &&& self.prefill_mlp_up@.len() == 0
        &&& self.prefill_moe_logits@.len() == 0
        &&& self.prefill_moe_expert_out@.len() == 0
        &&& self.prefill_moe_batch_x@.len() == 0
        &&& self.mrope_cos@.len() == 0
        &&& self.mrope_sin@.len() == 0
        &&& self.prefill_deltanet_qkv@.len() == 0
        &&& self.prefill_deltanet_z@.len() == 0
        &&& self.prefill_deltanet_attn_out@.len() == 0
    }
}

/// The cache of one request: what it keeps, and its scratch buffers.
pub struct CpuKvCache<F> {
    pub kv: KvStore<F>,
    pub ctx: InferenceContext<F>,
}

/// A layer without positions, in format `quant`.
pub open spec fn empty_layer<F>(quant: KvQuantType, heads: int) -> LayerContents<F> {
    match quant {
        KvQuantType::F32 => LayerContents::F32 {
            keys: Seq::new(heads as nat, |h: int| Seq::empty()),
            values: Seq::new(heads as nat, |h: int| Seq::empty()),
        },
        KvQuantType::BF16 => LayerContents::BF16 {
            keys: Seq::new(heads as nat, |h: int| Seq::empty()),
            values: Seq::new(heads as nat, |h: int| Seq::empty()),
        },
        KvQuantType::INT8 => LayerContents::INT8 {
            keys: Seq::new(heads as nat, |h: int| Seq::empty()),
            values: Seq::new(heads as nat, |h: int| Seq::empty()),
            key_scales: Seq::new(heads as nat, |h: int| Seq::empty()),
            value_scales: Seq::new(heads as nat, |h: int| Seq::empty()),
        },
        KvQuantType::INT4 => LayerContents::INT4 {
            keys: Seq::new(heads as nat, |h: int| Seq::empty()),
            values: Seq::new(heads as nat, |h: int| Seq::empty()),
            key_scales: Seq::new(heads as nat, |h: int| Seq::empty()),
            value_scales: Seq::new(heads as nat, |h: int| Seq::empty()),
        },
    }
}

/// A store without positions, in format `quant`.
pub open spec fn empty_contents<F>(config: &Config, quant: KvQuantType) -> KvContents<F> {
    KvContents {
        kv_quant: quant,
        layers: Seq::new(
            config.num_layers as nat,
            |i: int| empty_layer(quant, config.num_key_value_heads as int),
        ),
        keys: Seq::new(config.num_layers as nat, |i: int| Seq::empty()),
        values: Seq::new(config.num_layers as nat, |i: int| Seq::empty()),
        num_kv_heads: config.num_key_value_heads,
        head_dim: config.head_dim,
        seq_len: 0,
        kv_dim: config.kv_dim,
    }
}

impl<F> KvLayerData<F> {
    /// Every head has room for `positions` positions of `head_dim` elements, which the
    /// four-bit format holds two to a byte.
    pub open spec fn has_room(self, positions: int, head_dim: int) -> bool {
        match self {
            KvLayerData::F32 { keys_per_head, values_per_head } => heads_have_room(
                keys_per_head@,
                positions * head_dim,
            ) && heads_have_room(values_per_head@, positions * head_dim),
            KvLayerData::BF16 { keys_per_head, values_per_head } => heads_have_room(
                keys_per_head@,
                positions * head_dim,
            ) && heads_have_room(values_per_head@, positions * head_dim),
            KvLayerData::INT8 { keys_per_head, values_per_head, .. } => heads_have_room(
                keys_per_head@,
                positions * head_dim,
            ) && heads_have_room(values_per_head@, positions * head_dim),
            KvLayerData::INT4 { keys_per_head, values_per_head, .. } => heads_have_room(
                keys_per_head@,
                positions * (head_dim / 2),
            ) && heads_have_room(values_per_head@, positions * (head_dim / 2)),
        }
    }
}

/// Every layer has room for `positions` positions.
pub open spec fn layers_have_room<F>(
    layers: Seq<KvLayerData<F>>,
    positions: int,
    head_dim: int,
) -> bool {
    forall|i: int|
        0 <= i < layers.len() ==> (#[trigger] layers[i]).has_room(positions, head_dim)
}

/// How many positions a cache reserves room for: as many as asked for, or none.
pub open spec fn reserve_of(reserve_tokens: Option<usize>) -> int {
    match reserve_tokens {
        Some(n) => n as int,
        None => 0,
    }
}

/// Layers without positions, with room for `reserve` positions each.
fn empty_layers<F: Copy>(config: &Config, reserve: usize, quant: KvQuantType) -> (layers: Vec<
    KvLayerData<F>,
>)
    requires
        reserve * config.head_dim <= usize::MAX,
    ensures
        layer_contents(layers@) == Seq::new(
            config.num_layers as nat,
            |i: int| empty_layer::<F>(quant, config.num_key_value_heads as int),
        ),
        layers_have_room(layers@, reserve as int, config.head_dim as int),
{
    let heads: usize = config.num_key_value_heads;
    let half: usize = config.head_dim / 2;
    proof {
        assert(0 <= reserve * half <= reserve * config.head_dim) by (nonlinear_arith)
            requires
                half <= config.head_dim,
        ;
    }
    let room: usize = reserve * config.head_dim;
    let packed_room: usize = reserve * half;
    let mut layers: Vec<KvLayerData<F>> = Vec::new();
    while layers.len() < config.num_layers
        invariant
            layers@.len() <= config.num_layers,
            heads == config.num_key_value_heads,
            room == reserve * config.head_dim,
            packed_room == reserve * (config.head_dim as int / 2),
            layers_have_room(layers@, reserve as int, config.head_dim as int),
            forall|i: int|
                0 <= i < layers@.len() ==> (#[trigger] layers@[i])@ == empty_layer::<F>(
                    quant,
                    heads as int,
                ),
        decreases config.num_layers - layers@.len(),
    {
        let layer = match quant {
            KvQuantType::F32 => KvLayerData::F32 {
                keys_per_head: empty_heads(heads, room),
                values_per_head: empty_heads(heads, room),
            },
            KvQuantType::BF16 => KvLayerData::BF16 {
                keys_per_head: empty_heads(heads, room),
                values_per_head: empty_heads(heads, room),
            },
            KvQuantType::INT8 => KvLayerData::INT8 {
                keys_per_head: empty_heads(heads, room),
                values_per_head: empty_heads(heads, room),
                keys_scales: empty_vecs(heads, reserve),
                values_scales: empty_vecs(heads, reserve),
            },
            KvQuantType::INT4 => KvLayerData::INT4 {
                keys_per_head: empty_heads(heads, packed_room),
                values_per_head: empty_heads(heads, packed_room),
                keys_scales: empty_vecs(heads, reserve),
                values_scales: empty_vecs(heads, reserve),
            },
        };
        layers.push(layer);
    }
    proof {
        assert(layer_contents(layers@) =~= Seq::new(
            config.num_layers as nat,
            |i: int| empty_layer::<F>(quant, config.num_key_value_heads as int),
        ));
    }
    layers
}

/// One row of empty score buffers for each layer, one buffer for each worker.
fn worker_scores<F: Copy>(layers: usize, workers: usize, cap: usize) -> (rows: Vec<Vec<Vec<F>>>)
    ensures
        rows@.len() == layers,
        forall|i: int| 0 <= i < layers ==> empty_rows((#[trigger] rows@[i])@, workers),
{
    let mut rows: Vec<Vec<Vec<F>>> = Vec::new();
    while rows.len() < layers
        invariant
            rows@.len() <= layers,
            forall|i: int| 0 <= i < rows@.len() ==> empty_rows((#[trigger] rows@[i])@, workers),
        decreases layers - rows@.len(),
    {
        rows.push(empty_vecs(workers, cap));
    }
    rows
}

/// Scratch buffers before any token.
fn fresh_context<F: Copy>(config: &Config, reserve: usize, pool_workers: usize, zero: F) -> (ctx:
    InferenceContext<F>)
    ensures
        ctx.is_fresh(config, pool_workers, zero),
{
    let layers: usize = config.num_layers;
    let hidden: usize = config.hidden_size;
    let ffn: usize = config.ffn_size();
    let scores_capacity: usize = max_usize(reserve, 1);
    InferenceContext {
        decode_q: fill_vecs(layers, config.q_dim, zero),
        decode_k: fill_vecs(layers, config.kv_dim, zero),
        decode_v: fill_vecs(layers, config.kv_dim, zero),
        decode_attn_out: fill_vecs(layers, config.q_dim, zero),
        decode_attn_proj_out: fill_vecs(layers, hidden, zero),
        decode_scores: empty_vecs(layers, scores_capacity),
        decode_scores_workers: worker_scores(layers, pool_workers, scores_capacity),
        decode_norm1: fill_vecs(layers, hidden, zero),
        decode_norm2: fill_vecs(layers, hidden, zero),
        decode_mlp_gate: fill_vecs(layers, ffn, zero),
        decode_mlp_up: fill_vecs(layers, ffn, zero),
        decode_mlp_out: fill_vecs(layers, hidden, zero),
        decode_embed: fill_vec(hidden, zero),
        decode_final_norm: fill_vec(hidden, zero),
        decode_logits: fill_vec(config.vocab_size, zero),
        decode_moe_router: Vec::new(),
        decode_moe_expert_out: Vec::new(),
        decode_q_bf16: empty_vecs(layers, 0),
        prefill_q_bf16: Vec::new(),
        prefill_q: Vec::new(),
        prefill_k: Vec::new(),
        prefill_v: Vec::new(),
        prefill_attn_out: Vec::new(),
        prefill_norm1: Vec::new(),
        prefill_norm2: Vec::new(),
        prefill_buf_a: Vec::new(),
        prefill_buf_b: Vec::new(),
        prefill_o_proj: Vec::new(),
        prefill_ffn_out: Vec::new(),
        prefill_mlp_gate: Vec::new(),
        prefill_mlp_up: Vec::new(),
        prefill_moe_logits: Vec::new(),
        prefill_moe_expert_out: Vec::new(),
        prefill_moe_batch_x: Vec::new(),
        mrope_cos: Vec::new(),
        mrope_sin: Vec::new(),
        prefill_deltanet_qkv: Vec::new(),
        prefill_deltanet_z: Vec::new(),
        prefill_deltanet_attn_out: Vec::new(),
        eagle3_active: false,
        eagle3_extract_layers: [0, 0, 0],
        eagle3_hidden_states: [Vec::new(), Vec::new(), Vec::new()],
    }
}

impl<F: Copy> CpuKvCache<F> {
    /// Whether the cache is as it is before any token, in format `quant`.
    pub open spec fn is_fresh(
        self,
        config: &Config,
        quant: KvQuantType,
        pool_workers: usize,
        zero: F,
    ) -> bool {
        &&& self.kv@ == empty_contents::<F>(config, quant)
        &&& self.kv.text_pos == 0
        &&& !self.kv.bidirectional
        &&& fresh_state(
            vec_contents(self.kv.conv_cache@),
            vec_contents(self.kv.deltanet_recurrent@),
            vec_contents(self.kv.deltanet_conv@),
            config,
            zero,
        )
        &&& self.ctx.is_fresh(config, pool_workers, zero)
    }

    /// An empty cache in format `kv_quant`, with room for `reserve_tokens` positions.
    pub fn new_with_quant(
        config: &Config,
        reserve_tokens: Option<usize>,
        kv_quant: KvQuantType,
        pool_workers: usize,
        zero: F,
    ) -> (cache: Self)
        requires
            state_fits(config),
            reserve_tokens matches Some(n) ==> n * config.head_dim <= usize::MAX,
        ensures
            cache.is_fresh(config, kv_quant, pool_workers, zero),
            cache.kv@.wf(),
            layers_have_room(
                cache.kv.layer_data@,
                reserve_of(reserve_tokens),
                config.head_dim as int,
            ),
    {
        let reserve: usize = match reserve_tokens {
            Some(n) => n,
            None => 0,
        };
        proof {
            assert(0 * config.head_dim == 0) by (nonlinear_arith);
        }
        let flat_room: usize = saturating_product(reserve, config.kv_dim);
        let kv = KvStore {
            kv_quant,
            layer_data: empty_layers(config, reserve, kv_quant),
            keys: empty_vecs(config.num_layers, flat_room),
            values: empty_vecs(config.num_layers, flat_room),
            num_kv_heads: config.num_key_value_heads,
            head_dim: config.head_dim,
            seq_len: 0,
            kv_dim: config.kv_dim,
            text_pos: 0,
            conv_cache: fresh_conv(config, zero),
            deltanet_recurrent: fresh_recurrent(config, zero),
            deltanet_conv: fresh_deltanet_conv(config, zero),
            bidirectional: false,
        };
        proof {
            assert(kv@ =~= empty_contents::<F>(config, kv_quant));
        }
        CpuKvCache { kv, ctx: fresh_context(config, reserve, pool_workers, zero) }
    }

    /// An empty cache in the sixteen-bit format.
    pub fn new(config: &Config, reserve_tokens: Option<usize>, pool_workers: usize, zero: F) -> (cache:
        Self)
        requires
            state_fits(config),
            reserve_tokens matches Some(n) ==> n * config.head_dim <= usize::MAX,
        ensures
            cache.is_fresh(config, KvQuantType::BF16, pool_workers, zero),
            cache.kv@.wf(),
            layers_have_room(
                cache.kv.layer_data@,
                reserve_of(reserve_tokens),
                config.head_dim as int,
            ),
    {
        CpuKvCache::new_with_quant(config, reserve_tokens, KvQuantType::BF16, pool_workers, zero)
    }

    /// Appends the keys and values of new positions to one layer.
    pub fn append<'a>(&mut self, layer_idx: usize, rows: &KvRows<'a, F>)
        requires
            old(self).kv@.wf(),
            layer_idx < old(self).kv@.layers.len(),
            0 < old(self).kv.num_kv_heads * old(self).kv.head_dim <= usize::MAX,
            old(self).kv@.layers[layer_idx as int].accepts(
                *rows,
                old(self).kv.num_kv_heads as int,
                old(self).kv.head_dim as int,
            ),
        ensures
            final(self).kv@ == old(self).kv@.appended(layer_idx as int, *rows),
            final(self).kv@.wf(),
            final(self).kv == (KvStore {
                layer_data: final(self).kv.layer_data,
                keys: final(self).kv.keys,
                values: final(self).kv.values,
                ..old(self).kv
            }),
            final(self).ctx == old(self).ctx,
    {
        self.kv.append(layer_idx, rows);
    }

    /// Cuts one layer to its first `trim_to` positions.
    pub fn truncate_to(&mut self, layer_idx: usize, trim_to: usize)
        requires
            old(self).kv@.wf(),
            layer_idx < old(self).kv@.layers.len(),
            trim_to * old(self).kv.head_dim <= usize::MAX,
            trim_to * old(self).kv.kv_dim <= usize::MAX,
        ensures
            final(self).kv@ == old(self).kv@.cut_to(layer_idx as int, trim_to as int),
            final(self).kv@.wf(),
            final(self).kv == (KvStore {
                layer_data: final(self).kv.layer_data,
                keys: final(self).kv.keys,
                values: final(self).kv.values,
                ..old(self).kv
            }),
            final(self).ctx == old(self).ctx,
    {
        self.kv.truncate_to(layer_idx, trim_to);
    }

    /// The number of positions that one layer holds.
    pub fn cached_len(&self, layer_idx: usize) -> (n: usize)
        requires
            layer_idx < self.kv@.layers.len(),
            self.kv.head_dim > 0 || self.kv@.layers[layer_idx as int] is INT4
                || self.kv@.layers[layer_idx as int].has_heads(0),
        ensures
            n == self.kv@.layers[layer_idx as int].cached_len(self.kv.head_dim as int),
    {
        self.kv.cached_len(layer_idx)
    }

    /// Counts `count` more positions.
    pub fn advance_seq_len(&mut self, count: usize)
        requires
            old(self).kv.seq_len + count <= usize::MAX,
        ensures
            final(self).kv == (KvStore {
                seq_len: (old(self).kv.seq_len + count) as usize,
                ..old(self).kv
            }),
            final(self).ctx == old(self).ctx,
    {
        self.kv.advance_seq_len(count);
    }
}

// ---------------------------------------------------------------------------
// Laws
// ---------------------------------------------------------------------------

/// Every part has `len` elements.
pub open spec fn parts_have<T>(parts: Seq<Seq<T>>, len: int) -> bool {
    forall|h: int| 0 <= h < parts.len() ==> (#[trigger] parts[h]).len() == len
}

impl<F> LayerContents<F> {
    /// The layer holds exactly `n` positions of `heads` heads.
    pub open spec fn holds(self, heads: int, head_dim: int, n: int) -> bool {
        &&& self.has_heads(heads)
        &&& match self {
            LayerContents::F32 { keys, values } => parts_have(keys, n * head_dim) && parts_have(
                values,
                n * head_dim,
            ),
            LayerContents::BF16 { keys, values } => parts_have(keys, n * head_dim) && parts_have(
                values,
                n * head_dim,
            ),
            LayerContents::INT8 { keys, values, key_scales, value_scales } => parts_have(
                keys,
                n * head_dim,
            ) && parts_have(values, n * head_dim) && parts_have(key_scales, n * 1) && parts_have(
                value_scales,
                n * 1,
            ),
            LayerContents::INT4 { keys, values, key_scales, value_scales } => parts_have(
                keys,
                n * (head_dim / 2),
            ) && parts_have(values, n * (head_dim / 2)) && parts_have(
                key_scales,
                n * (head_dim / 32),
            ) && parts_have(value_scales, n * (head_dim / 32)),
        }
    }
}

proof fn lemma_parts_append<T>(parts: Seq<Seq<T>>, rows: Seq<T>, width: int, n: int, m: int)
    requires
        parts_have(parts, n * width),
        n >= 0,
        m >= 0,
        width >= 0,
    ensures
        parts_have(heads_appended(parts, rows, width, m), (n + m) * width),
        heads_cut(heads_appended(parts, rows, width, m), n * width) == parts,
{
    assert((n + m) * width == n * width + m * width && m * width >= 0 && n * width >= 0)
        by (nonlinear_arith)
        requires
            n >= 0,
            m >= 0,
            width >= 0,
    ;
    let longer = heads_appended(parts, rows, width, m);
    assert forall|h: int| 0 <= h < parts.len() implies #[trigger] heads_cut(longer, n * width)[h]
        == parts[h] by {
        assert(parts[h].len() == n * width);
        assert(longer[h].take(n * width) =~= parts[h]);
    }
    assert(heads_cut(longer, n * width) =~= parts);
}

proof fn lemma_parts_cut<T>(parts: Seq<Seq<T>>, width: int, n: int, trim: int)
    requires
        parts_have(parts, n * width),
        0 <= trim <= n,
        width >= 0,
    ensures
        parts_have(heads_cut(parts, trim * width), trim * width),
{
    assert(0 <= trim * width <= n * width) by (nonlinear_arith)
        requires
            0 <= trim <= n,
            width >= 0,
    ;
}

/// Appending adds exactly the positions that the rows hold.
pub proof fn law_append_adds_positions<'a, F>(
    layer: LayerContents<F>,
    rows: KvRows<'a, F>,
    heads: int,
    head_dim: int,
    n: int,
)
    requires
        heads * head_dim > 0,
        heads >= 0,
        head_dim >= 0,
        n >= 0,
        layer.holds(heads, head_dim, n),
        layer.accepts(rows, heads, head_dim),
    ensures
        layer.appended(rows, heads, head_dim).holds(
            heads,
            head_dim,
            n + rows.positions(heads, head_dim),
        ),
{
    let m = rows.positions(heads, head_dim);
    lemma_whole_rows(rows.key_len(), heads * head_dim);
    match (layer, rows) {
        (LayerContents::F32 { keys, values }, KvRows::F32 { keys: k, values: v }) => {
            lemma_parts_append(keys, k@, head_dim, n, m);
            lemma_parts_append(values, v@, head_dim, n, m);
        },
        (LayerContents::BF16 { keys, values }, KvRows::BF16 { keys: k, values: v }) => {
            lemma_parts_append(keys, k@, head_dim, n, m);
            lemma_parts_append(values, v@, head_dim, n, m);
        },
        (
            LayerContents::INT8 { keys, values, key_scales, value_scales },
            KvRows::INT8 { keys: k, values: v, key_scales: ks, value_scales: vs },
        ) => {
            lemma_parts_append(keys, k@, head_dim, n, m);
            lemma_parts_append(values, v@, head_dim, n, m);
            lemma_parts_append(key_scales, ks@, 1, n, m);
            lemma_parts_append(value_scales, vs@, 1, n, m);
        },
        (
            LayerContents::INT4 { keys, values, key_scales, value_scales },
            KvRows::INT4 { keys: k, values: v, key_scales: ks, value_scales: vs },
        ) => {
            lemma_parts_append(keys, packed_heads(k@, head_dim, m * heads), head_dim / 2, n, m);
            lemma_parts_append(values, packed_heads(v@, head_dim, m * heads), head_dim / 2, n, m);
            lemma_parts_append(key_scales, ks@, head_dim / 32, n, m);
            lemma_parts_append(value_scales, vs@, head_dim / 32, n, m);
        },
        _ => {},
    }
}

/// Cutting a layer back to what it held before an append undoes the append: a
/// draft that is not accepted leaves no trace.
pub proof fn law_cut_undoes_append<'a, F>(
    layer: LayerContents<F>,
    rows: KvRows<'a, F>,
    heads: int,
    head_dim: int,
    n: int,
)
    requires
        heads * head_dim > 0,
        heads >= 0,
        head_dim >= 0,
        n >= 0,
        layer.holds(heads, head_dim, n),
        layer.accepts(rows, heads, head_dim),
    ensures
        layer.appended(rows, heads, head_dim).cut_to(n, head_dim) == layer,
{
    let m = rows.positions(heads, head_dim);
    lemma_whole_rows(rows.key_len(), heads * head_dim);
    match (layer, rows) {
        (LayerContents::F32 { keys, values }, KvRows::F32 { keys: k, values: v }) => {
            lemma_parts_append(keys, k@, head_dim, n, m);
            lemma_parts_append(values, v@, head_dim, n, m);
        },
        (LayerContents::BF16 { keys, values }, KvRows::BF16 { keys: k, values: v }) => {
            lemma_parts_append(keys, k@, head_dim, n, m);
            lemma_parts_append(values, v@, head_dim, n, m);
        },
        (
            LayerContents::INT8 { keys, values, key_scales, value_scales },
            KvRows::INT8 { keys: k, values: v, key_scales: ks, value_scales: vs },
        ) => {
            lemma_parts_append(keys, k@, head_dim, n, m);
            lemma_parts_append(values, v@, head_dim, n, m);
            lemma_parts_append(key_scales, ks@, 1, n, m);
            lemma_parts_append(value_scales, vs@, 1, n, m);
        },
        (
            LayerContents::INT4 { keys, values, key_scales, value_scales },
            KvRows::INT4 { keys: k, values: v, key_scales: ks, value_scales: vs },
        ) => {
            lemma_parts_append(keys, packed_heads(k@, head_dim, m * heads), head_dim / 2, n, m);
            lemma_parts_append(values, packed_heads(v@, head_dim, m * heads), head_dim / 2, n, m);
            lemma_parts_append(key_scales, ks@, head_dim / 32, n, m);
            lemma_parts_append(value_scales, vs@, head_dim / 32, n, m);
        },
        _ => {},
    }
}

/// Cutting a layer leaves exactly the positions asked for.
pub proof fn law_cut_keeps_positions<F>(
    layer: LayerContents<F>,
    heads: int,
    head_dim: int,
    n: int,
    trim: int,
)
    requires
        head_dim >= 0,
        0 <= trim <= n,
        layer.holds(heads, head_dim, n),
    ensures
        layer.cut_to(trim, head_dim).holds(heads, head_dim, trim),
{
    match layer {
        LayerContents::F32 { keys, values } => {
            lemma_parts_cut(keys, head_dim, n, trim);
            lemma_parts_cut(values, head_dim, n, trim);
        },
        LayerContents::BF16 { keys, values } => {
            lemma_parts_cut(keys, head_dim, n, trim);
            lemma_parts_cut(values, head_dim, n, trim);
        },
        LayerContents::INT8 { keys, values, key_scales, value_scales } => {
            lemma_parts_cut(keys, head_dim, n, trim);
            lemma_parts_cut(values, head_dim, n, trim);
            lemma_parts_cut(key_scales, 1, n, trim);
            lemma_parts_cut(value_scales, 1, n, trim);
        },
        LayerContents::INT4 { keys, values, key_scales, value_scales } => {
            lemma_parts_cut(keys, head_dim / 2, n, trim);
            lemma_parts_cut(values, head_dim / 2, n, trim);
            lemma_parts_cut(key_scales, head_dim / 32, n, trim);
            lemma_parts_cut(value_scales, head_dim / 32, n, trim);
        },
    }
}

/// The reported length is the number of positions held. The four-bit format counts
/// scales, so there the head must be at least one group wide.
pub proof fn law_cached_len_counts_positions<F>(
    layer: LayerContents<F>,
    heads: int,
    head_dim: int,
    n: int,
)
    requires
        heads > 0,
        head_dim > 0,
        layer is INT4 ==> head_dim >= 32,
        n >= 0,
        layer.holds(heads, head_dim, n),
    ensures
        layer.cached_len(head_dim) == n,
{
    vstd::arithmetic::div_mod::lemma_div_multiples_vanish(n, head_dim);
    assert(n * head_dim == head_dim * n) by (nonlinear_arith);
    match layer {
        LayerContents::F32 { keys, .. } => {
            assert(keys[0].len() == n * head_dim);
        },
        LayerContents::BF16 { keys, .. } => {
            assert(keys[0].len() == n * head_dim);
        },
        LayerContents::INT8 { keys, .. } => {
            assert(keys[0].len() == n * head_dim);
        },
        LayerContents::INT4 { key_scales, .. } => {
            let groups = head_dim / 32;
            assert(key_scales[0].len() == n * groups);
            vstd::arithmetic::div_mod::lemma_div_multiples_vanish(n, groups);
            assert(n * groups == groups * n) by (nonlinear_arith);
        },
    }
}

/// Cutting twice is cutting to the shorter length.
pub proof fn law_cut_twice<F>(layer: LayerContents<F>, head_dim: int, a: int, b: int)
    requires
        head_dim >= 0,
        0 <= b <= a,
    ensures
        layer.cut_to(a, head_dim).cut_to(b, head_dim) == layer.cut_to(b, head_dim),
{
    match layer {
        LayerContents::F32 { keys, values } => {
            lemma_cut_twice(keys, head_dim, a, b);
            lemma_cut_twice(values, head_dim, a, b);
        },
        LayerContents::BF16 { keys, values } => {
            lemma_cut_twice(keys, head_dim, a, b);
            lemma_cut_twice(values, head_dim, a, b);
        },
        LayerContents::INT8 { keys, values, key_scales, value_scales } => {
            lemma_cut_twice(keys, head_dim, a, b);
            lemma_cut_twice(values, head_dim, a, b);
            lemma_cut_twice(key_scales, 1, a, b);
            lemma_cut_twice(value_scales, 1, a, b);
        },
        LayerContents::INT4 { keys, values, key_scales, value_scales } => {
            lemma_cut_twice(keys, head_dim / 2, a, b);
            lemma_cut_twice(values, head_dim / 2, a, b);
            lemma_cut_twice(key_scales, head_dim / 32, a, b);
            lemma_cut_twice(value_scales, head_dim / 32, a, b);
        },
    }
}

proof fn lemma_cut_twice<T>(parts: Seq<Seq<T>>, width: int, a: int, b: int)
    requires
        width >= 0,
        0 <= b <= a,
    ensures
        heads_cut(heads_cut(parts, a * width), b * width) == heads_cut(parts, b * width),
{
    assert(0 <= b * width <= a * width) by (nonlinear_arith)
        requires
            0 <= b <= a,
            width >= 0,
    ;
    let twice = heads_cut(heads_cut(parts, a * width), b * width);
    assert forall|h: int| 0 <= h < parts.len() implies #[trigger] twice[h] == cut(
        parts[h],
        b * width,
    ) by {
        assert(twice[h] =~= cut(parts[h], b * width));
    }
    assert(twice =~= heads_cut(parts, b * width));
}

/// A rejected draft leaves no trace in the whole store either: the flat arrays of the
/// sixteen-bit format are cut back with the layer.
pub proof fn law_store_cut_undoes_append<'a, F>(
    store: KvContents<F>,
    layer: int,
    rows: KvRows<'a, F>,
    n: int,
)
    requires
        store.wf(),
        0 <= layer < store.layers.len(),
        store.num_kv_heads * store.head_dim > 0,
        n >= 0,
        store.layers[layer].holds(store.num_kv_heads as int, store.head_dim as int, n),
        store.layers[layer].accepts(rows, store.num_kv_heads as int, store.head_dim as int),
        store.kv_quant is BF16 ==> store.keys[layer].len() == n * store.kv_dim
            && store.values[layer].len() == n * store.kv_dim,
    ensures
        store.appended(layer, rows).cut_to(layer, n) == store,
{
    law_cut_undoes_append(
        store.layers[layer],
        rows,
        store.num_kv_heads as int,
        store.head_dim as int,
        n,
    );
    let back = store.appended(layer, rows).cut_to(layer, n);
    assert(back.layers =~= store.layers);
    assert(store.layers[layer].format() == store.kv_quant);
    match rows {
        KvRows::BF16 { keys, values } => {
            assert(cut(store.keys[layer] + keys@, n * store.kv_dim) =~= store.keys[layer]);
            assert(cut(store.values[layer] + values@, n * store.kv_dim) =~= store.values[layer]);
            assert(back.keys =~= store.keys);
            assert(back.values =~= store.values);
        },
        _ => {},
    }
}

// ---------------------------------------------------------------------------
// What is read back
// ---------------------------------------------------------------------------

/// Packing loses nothing: byte `b` of group `g` of a head holds that group's code `b` in
/// its low half and code `b + 16` in its high half, and unpacking gives the signed
/// values back. Behind the last whole group the bytes are zero.
pub proof fn law_packed_heads_hold_the_codes(
    codes: Seq<u8>,
    head_dim: int,
    heads: int,
    h: int,
    g: int,
    b: int,
)
    requires
        are_nibbles(codes),
        0 <= h < heads,
        heads * head_dim <= codes.len(),
        0 <= g < head_dim / 32,
        0 <= b < 16,
    ensures
        packed_heads(codes, head_dim, heads).len() == heads * (head_dim / 2),
        ({
            let byte = packed_heads(codes, head_dim, heads)[h * (head_dim / 2) + 16 * g + b];
            &&& byte as int % 16 == codes[h * head_dim + 32 * g + b]
            &&& byte as int / 16 == codes[h * head_dim + 32 * g + b + 16]
            &&& nibble_value(byte as int % 16) == codes[h * head_dim + 32 * g + b] - 8
            &&& nibble_value(byte as int / 16) == codes[h * head_dim + 32 * g + b + 16] - 8
        }),
        forall|t: int|
            16 * (head_dim / 32) <= t < head_dim / 2 ==> #[trigger] packed_heads(
                codes,
                head_dim,
                heads,
            )[h * (head_dim / 2) + t] == 0,
{
    let width = head_dim / 2;
    let packed = packed_heads(codes, head_dim, heads);
    assert(heads * width >= 0) by (nonlinear_arith)
        requires
            heads >= 0,
            width >= 0,
    ;
    lemma_offset(h, heads, head_dim, 32 * g + b + 16);
    lemma_offset(h, heads, head_dim, 32 * g + b);
    lemma_offset(h, heads, width, 16 * g + b);
    let head = codes.subrange(h * head_dim, (h + 1) * head_dim);
    assert((h + 1) * head_dim == h * head_dim + head_dim) by (nonlinear_arith);
    assert((h + 1) * head_dim <= heads * head_dim) by (nonlinear_arith)
        requires
            h + 1 <= heads,
            head_dim >= 0,
    ;
    let at = h * width + 16 * g + b;
    vstd::arithmetic::div_mod::lemma_fundamental_div_mod_converse(at, width, h, 16 * g + b);
    assert(packed[at] == packed_head_byte(head, 16 * g + b));
    assert(head[32 * g + b] == codes[h * head_dim + 32 * g + b]);
    assert(head[32 * g + b + 16] == codes[h * head_dim + 32 * g + b + 16]);
    assert(codes[h * head_dim + 32 * g + b] < 16);
    assert(codes[h * head_dim + 32 * g + b + 16] < 16);
    assert forall|t: int| 16 * (head_dim / 32) <= t < head_dim / 2 implies #[trigger] packed[h * (
    head_dim / 2) + t] == 0 by {
        lemma_offset(h, heads, width, t);
        vstd::arithmetic::div_mod::lemma_fundamental_div_mod_converse(h * width + t, width, h, t);
        assert(packed[h * width + t] == packed_head_byte(head, t));
    }
}

/// Place `d` of part `h` lies within all parts.
proof fn lemma_offset(h: int, heads: int, width: int, d: int)
    requires
        0 <= h < heads,
        0 <= d < width,
    ensures
        0 <= h * width,
        0 <= h * width + d < heads * width,
{
    assert(0 <= h * width && h * width + width <= heads * width) by (nonlinear_arith)
        requires
            0 <= h < heads,
            width >= 0,
    ;
}

/// Appending moves every element to its head: element `d` of head `h` at position `p`
/// comes `p` rows behind what the head held, and what the head held stays.
pub proof fn law_rows_go_to_their_heads<T>(
    heads: Seq<Seq<T>>,
    rows: Seq<T>,
    width: int,
    positions: int,
    p: int,
    h: int,
    d: int,
    i: int,
)
    requires
        0 <= p < positions,
        0 <= h < heads.len(),
        0 <= d < width,
    ensures
        heads_appended(heads, rows, width, positions).len() == heads.len(),
        heads_appended(heads, rows, width, positions)[h].len() == heads[h].len() + positions
            * width,
        heads_appended(heads, rows, width, positions)[h][heads[h].len() + p * width + d] == rows[p
            * (heads.len() * width) + h * width + d],
        0 <= i < heads[h].len() ==> heads_appended(heads, rows, width, positions)[h][i]
            == heads[h][i],
{
    lemma_offset(p, positions, width, d);
    vstd::arithmetic::div_mod::lemma_fundamental_div_mod_converse(p * width + d, width, p, d);
    let part = head_rows(rows, heads.len() as int, width, positions, h);
    assert(part[p * width + d] == rows[p * (heads.len() * width) + h * width + d]);
    assert(heads_appended(heads, rows, width, positions)[h] == heads[h] + part);
}

/// Rows make as many positions as they hold whole: what is left is less than one.
pub proof fn law_positions_are_whole_rows<'a, F>(rows: KvRows<'a, F>, heads: int, head_dim: int)
    requires
        heads * head_dim > 0,
    ensures
        0 <= rows.positions(heads, head_dim),
        rows.positions(heads, head_dim) * (heads * head_dim) <= (match rows {
            KvRows::F32 { keys, .. } => keys@.len() as int,
            KvRows::BF16 { keys, .. } => keys@.len() as int,
            KvRows::INT8 { keys, .. } => keys@.len() as int,
            KvRows::INT4 { keys, .. } => keys@.len() as int,
        }),
        (rows.positions(heads, head_dim) + 1) * (heads * head_dim) > (match rows {
            KvRows::F32 { keys, .. } => keys@.len() as int,
            KvRows::BF16 { keys, .. } => keys@.len() as int,
            KvRows::INT8 { keys, .. } => keys@.len() as int,
            KvRows::INT4 { keys, .. } => keys@.len() as int,
        }),
{
    let row = heads * head_dim;
    let n = rows.positions(heads, head_dim);
    lemma_whole_rows(rows.key_len(), row);
    vstd::arithmetic::div_mod::lemma_fundamental_div_mod(rows.key_len(), row);
    assert((n + 1) * row == row * n + row && n * row == row * n) by (nonlinear_arith);
}

/// What was appended is read back: behind what the head held, position by position, the
/// head has the elements and the scales that its rows had, and in the four-bit format
/// the codes of every group, each unpacked to the value it stands for.
pub proof fn law_appended_rows_read_back<'a, F>(
    layer: LayerContents<F>,
    rows: KvRows<'a, F>,
    heads: int,
    head_dim: int,
    p: int,
    h: int,
    d: int,
)
    requires
        layer.accepts(rows, heads, head_dim),
        0 <= p < rows.positions(heads, head_dim),
        0 <= h < heads,
        0 <= d < head_dim,
    ensures
        ({
            let at = p * (heads * head_dim) + h * head_dim + d;
            match (layer, rows, layer.appended(rows, heads, head_dim)) {
                (
                    LayerContents::F32 { keys, values },
                    KvRows::F32 { keys: k, values: v },
                    LayerContents::F32 { keys: keys2, values: values2 },
                ) => {
                    &&& keys2[h][keys[h].len() + p * head_dim + d] == k@[at]
                    &&& values2[h][values[h].len() + p * head_dim + d] == v@[at]
                },
                (
                    LayerContents::BF16 { keys, values },
                    KvRows::BF16 { keys: k, values: v },
                    LayerContents::BF16 { keys: keys2, values: values2 },
                ) => {
                    &&& keys2[h][keys[h].len() + p * head_dim + d] == k@[at]
                    &&& values2[h][values[h].len() + p * head_dim + d] == v@[at]
                },
                (
                    LayerContents::INT8 { keys, values, key_scales, value_scales },
                    KvRows::INT8 { keys: k, values: v, key_scales: ks, value_scales: vs },
                    LayerContents::INT8 {
                        keys: keys2,
                        values: values2,
                        key_scales: key_scales2,
                        value_scales: value_scales2,
                    },
                ) => {
                    &&& keys2[h][keys[h].len() + p * head_dim + d] == k@[at]
                    &&& values2[h][values[h].len() + p * head_dim + d] == v@[at]
                    &&& key_scales2[h][key_scales[h].len() + p] == ks@[p * heads + h]
                    &&& value_scales2[h][value_scales[h].len() + p] == vs@[p * heads + h]
                },
                (
                    LayerContents::INT4 { keys, values, key_scales, value_scales },
                    KvRows::INT4 { keys: k, values: v, key_scales: ks, value_scales: vs },
                    LayerContents::INT4 {
                        keys: keys2,
                        values: values2,
                        key_scales: key_scales2,
                        value_scales: value_scales2,
                    },
                ) => d < 32 * (head_dim / 32) ==> {
                    let byte = p * (head_dim / 2) + 16 * (d / 32) + d % 16;
                    let key = keys2[h][keys[h].len() + byte] as int;
                    let value = values2[h][values[h].len() + byte] as int;
                    let scale = p * (heads * (head_dim / 32)) + h * (head_dim / 32) + d / 32;
                    &&& d % 32 < 16 ==> nibble_value(key % 16) == k@[at] - 8 && nibble_value(
                        value % 16,
                    ) == v@[at] - 8
                    &&& d % 32 >= 16 ==> nibble_value(key / 16) == k@[at] - 8 && nibble_value(
                        value / 16,
                    ) == v@[at] - 8
                    &&& key_scales2[h][key_scales[h].len() + p * (head_dim / 32) + d / 32]
                        == ks@[scale]
                    &&& value_scales2[h][value_scales[h].len() + p * (head_dim / 32) + d / 32]
                        == vs@[scale]
                },
                _ => false,
            }
        }),
{
    let n = rows.positions(heads, head_dim);
    match (layer, rows) {
        (LayerContents::F32 { keys, values }, KvRows::F32 { keys: k, values: v }) => {
            law_rows_go_to_their_heads(keys, k@, head_dim, n, p, h, d, 0);
            law_rows_go_to_their_heads(values, v@, head_dim, n, p, h, d, 0);
        },
        (LayerContents::BF16 { keys, values }, KvRows::BF16 { keys: k, values: v }) => {
            law_rows_go_to_their_heads(keys, k@, head_dim, n, p, h, d, 0);
            law_rows_go_to_their_heads(values, v@, head_dim, n, p, h, d, 0);
        },
        (
            LayerContents::INT8 { keys, values, key_scales, value_scales },
            KvRows::INT8 { keys: k, values: v, key_scales: ks, value_scales: vs },
        ) => {
            law_rows_go_to_their_heads(keys, k@, head_dim, n, p, h, d, 0);
            law_rows_go_to_their_heads(values, v@, head_dim, n, p, h, d, 0);
            law_rows_go_to_their_heads(key_scales, ks@, 1, n, p, h, 0, 0);
            law_rows_go_to_their_heads(value_scales, vs@, 1, n, p, h, 0, 0);
            assert(p * (heads * 1) == p * heads && p * 1 == p && h * 1 == h) by (nonlinear_arith);
        },
        (
            LayerContents::INT4 { keys, values, key_scales, value_scales },
            KvRows::INT4 { keys: k, values: v, key_scales: ks, value_scales: vs },
        ) => {
            if d < 32 * (head_dim / 32) {
                let g = d / 32;
                let b = d % 16;
                let width = head_dim / 2;
                let groups = head_dim / 32;
                law_rows_go_to_their_heads(key_scales, ks@, groups, n, p, h, g, 0);
                law_rows_go_to_their_heads(value_scales, vs@, groups, n, p, h, g, 0);
                let pk = packed_heads(k@, head_dim, n * heads);
                let pv = packed_heads(v@, head_dim, n * heads);
                law_rows_go_to_their_heads(keys, pk, width, n, p, h, 16 * g + b, 0);
                law_rows_go_to_their_heads(values, pv, width, n, p, h, 16 * g + b, 0);
                lemma_offset(p, n, heads, h);
                assert(heads * head_dim > 0) by (nonlinear_arith)
                    requires
                        heads > 0,
                        head_dim > 0,
                ;
                lemma_whole_rows(rows.key_len(), heads * head_dim);
                let r = p * heads + h;
                assert(r * head_dim == p * (heads * head_dim) + h * head_dim && r * width == p * (
                heads * width) + h * width && (n * heads) * head_dim == n * (heads * head_dim))
                    by (nonlinear_arith)
                    requires
                        r == p * heads + h,
                ;
                law_packed_heads_hold_the_codes(k@, head_dim, n * heads, r, g, b);
                law_packed_heads_hold_the_codes(v@, head_dim, n * heads, r, g, b);
            }
        },
        _ => {},
    }
}

/// Appending changes one layer only, and of that layer nothing that was there: every
/// element keeps its place. The flat arrays grow by the rows in the sixteen-bit format
/// alone.
pub proof fn law_append_touches_one_layer<'a, F>(
    store: KvContents<F>,
    layer: int,
    rows: KvRows<'a, F>,
    other: int,
)
    requires
        store.wf(),
        0 <= layer < store.layers.len(),
        0 <= other < store.layers.len(),
        other != layer,
    ensures
        store.appended(layer, rows).layers.len() == store.layers.len(),
        store.appended(layer, rows).layers[other] == store.layers[other],
        store.appended(layer, rows).keys[other] == store.keys[other],
        store.appended(layer, rows).values[other] == store.values[other],
        store.appended(layer, rows).seq_len == store.seq_len,
        store.appended(layer, rows).num_kv_heads == store.num_kv_heads,
        store.appended(layer, rows).head_dim == store.head_dim,
        store.appended(layer, rows).kv_dim == store.kv_dim,
        store.appended(layer, rows).kv_quant == store.kv_quant,
        match rows {
            KvRows::BF16 { keys, values } => {
                &&& store.appended(layer, rows).keys[layer] =~= store.keys[layer] + keys@
                &&& store.appended(layer, rows).values[layer] =~= store.values[layer] + values@
            },
            _ => {
                &&& store.appended(layer, rows).keys[layer] == store.keys[layer]
                &&& store.appended(layer, rows).values[layer] == store.values[layer]
            },
        },
{
}

/// Cutting keeps the front: as many elements as asked for, or all where there are fewer,
/// each at its place.
pub proof fn law_cut_keeps_the_front<T>(s: Seq<T>, len: int, i: int)
    requires
        len >= 0,
    ensures
        cut(s, len).len() <= len,
        cut(s, len).len() <= s.len(),
        cut(s, len).len() == len || cut(s, len) == s,
        0 <= i < cut(s, len).len() ==> cut(s, len)[i] == s[i],
{
}

/// A layer cut to `trim` positions holds the first `trim` positions of every head, as
/// they were.
pub proof fn law_cut_layer_keeps_the_front<F>(
    layer: LayerContents<F>,
    heads: int,
    head_dim: int,
    n: int,
    trim: int,
    h: int,
)
    requires
        head_dim >= 0,
        0 <= trim <= n,
        0 <= h < heads,
        layer.holds(heads, head_dim, n),
    ensures
        match (layer, layer.cut_to(trim, head_dim)) {
            (
                LayerContents::F32 { keys, values },
                LayerContents::F32 { keys: keys2, values: values2 },
            ) => {
                &&& keys2[h] =~= keys[h].take(trim * head_dim)
                &&& values2[h] =~= values[h].take(trim * head_dim)
            },
            (
                LayerContents::BF16 { keys, values },
                LayerContents::BF16 { keys: keys2, values: values2 },
            ) => {
                &&& keys2[h] =~= keys[h].take(trim * head_dim)
                &&& values2[h] =~= values[h].take(trim * head_dim)
            },
            (
                LayerContents::INT8 { keys, values, key_scales, value_scales },
                LayerContents::INT8 {
                    keys: keys2,
                    values: values2,
                    key_scales: key_scales2,
                    value_scales: value_scales2,
                },
            ) => {
                &&& keys2[h] =~= keys[h].take(trim * head_dim)
                &&& values2[h] =~= values[h].take(trim * head_dim)
                &&& key_scales2[h] =~= key_scales[h].take(trim)
                &&& value_scales2[h] =~= value_scales[h].take(trim)
            },
            (
                LayerContents::INT4 { keys, values, key_scales, value_scales },
                LayerContents::INT4 {
                    keys: keys2,
                    values: values2,
                    key_scales: key_scales2,
                    value_scales: value_scales2,
                },
            ) => {
                &&& keys2[h] =~= keys[h].take(trim * (head_dim / 2))
                &&& values2[h] =~= values[h].take(trim * (head_dim / 2))
                &&& key_scales2[h] =~= key_scales[h].take(trim * (head_dim / 32))
                &&& value_scales2[h] =~= value_scales[h].take(trim * (head_dim / 32))
            },
            _ => false,
        },
{
    lemma_shorter(trim, n, head_dim);
    lemma_shorter(trim, n, head_dim / 2);
    lemma_shorter(trim, n, head_dim / 32);
    match layer {
        LayerContents::F32 { keys, values } => {
            assert(keys[h].len() == n * head_dim && values[h].len() == n * head_dim);
        },
        LayerContents::BF16 { keys, values } => {
            assert(keys[h].len() == n * head_dim && values[h].len() == n * head_dim);
        },
        LayerContents::INT8 { keys, values, key_scales, value_scales } => {
            assert(keys[h].len() == n * head_dim && values[h].len() == n * head_dim);
            assert(key_scales[h].len() == n && value_scales[h].len() == n);
        },
        LayerContents::INT4 { keys, values, key_scales, value_scales } => {
            assert(keys[h].len() == n * (head_dim / 2) && values[h].len() == n * (head_dim / 2));
            assert(key_scales[h].len() == n * (head_dim / 32));
            assert(value_scales[h].len() == n * (head_dim / 32));
        },
    }
}

/// Whatever a layer holds, cutting it cuts every head to as many positions, its keys, its
/// values and its scales, as far as the head reaches.
pub proof fn law_cut_layer_cuts_every_head<F>(
    layer: LayerContents<F>,
    positions: int,
    head_dim: int,
    h: int,
)
    requires
        0 <= h,
    ensures
        match (layer, layer.cut_to(positions, head_dim)) {
            (LayerContents::F32 { keys, values }, LayerContents::F32 { keys: keys2, values: values2 }) => {
                &&& keys2.len() == keys.len()
                &&& h < keys.len() ==> keys2[h] == cut(keys[h], positions * head_dim)
                &&& values2.len() == values.len()
                &&& h < values.len() ==> values2[h] == cut(values[h], positions * head_dim)
            },
            (LayerContents::BF16 { keys, values }, LayerContents::BF16 { keys: keys2, values: values2 }) => {
                &&& keys2.len() == keys.len()
                &&& h < keys.len() ==> keys2[h] == cut(keys[h], positions * head_dim)
                &&& values2.len() == values.len()
                &&& h < values.len() ==> values2[h] == cut(values[h], positions * head_dim)
            },
            (LayerContents::INT8 { keys, values, key_scales, value_scales }, LayerContents::INT8 { keys: keys2, values: values2, key_scales: key_scales2, value_scales: value_scales2 }) => {
                &&& keys2.len() == keys.len()
                &&& h < keys.len() ==> keys2[h] == cut(keys[h], positions * head_dim)
                &&& values2.len() == values.len()
                &&& h < values.len() ==> values2[h] == cut(values[h], positions * head_dim)
                &&& key_scales2.len() == key_scales.len()
                &&& h < key_scales.len() ==> key_scales2[h] == cut(key_scales[h], positions)
                &&& value_scales2.len() == value_scales.len()
                &&& h < value_scales.len() ==> value_scales2[h] == cut(value_scales[h], positions)
            },
            (LayerContents::INT4 { keys, values, key_scales, value_scales }, LayerContents::INT4 { keys: keys2, values: values2, key_scales: key_scales2, value_scales: value_scales2 }) => {
                &&& keys2.len() == keys.len()
                &&& h < keys.len() ==> keys2[h] == cut(keys[h], positions * (head_dim / 2))
                &&& values2.len() == values.len()
                &&& h < values.len() ==> values2[h] == cut(values[h], positions * (head_dim / 2))
                &&& key_scales2.len() == key_scales.len()
                &&& h < key_scales.len() ==> key_scales2[h] == cut(key_scales[h], positions * (head_dim / 32))
                &&& value_scales2.len() == value_scales.len()
                &&& h < value_scales.len() ==> value_scales2[h] == cut(value_scales[h], positions * (head_dim / 32))
            },
            _ => false,
        },
{
}

proof fn lemma_shorter(trim: int, n: int, width: int)
    requires
        0 <= trim <= n,
        width >= 0,
    ensures
        0 <= trim * width <= n * width,
{
    assert(0 <= trim * width <= n * width) by (nonlinear_arith)
        requires
            0 <= trim <= n,
            width >= 0,
    ;
}

/// Cutting changes one layer only. Its flat arrays are cut to as many rows of `kv_dim`
/// in the sixteen-bit format, and stay in the others.
pub proof fn law_cut_touches_one_layer<F>(
    store: KvContents<F>,
    layer: int,
    positions: int,
    other: int,
)
    requires
        store.wf(),
        0 <= layer < store.layers.len(),
        0 <= other < store.layers.len(),
        other != layer,
        positions >= 0,
    ensures
        store.cut_to(layer, positions).layers.len() == store.layers.len(),
        store.cut_to(layer, positions).layers[other] == store.layers[other],
        store.cut_to(layer, positions).keys[other] == store.keys[other],
        store.cut_to(layer, positions).values[other] == store.values[other],
        store.cut_to(layer, positions).seq_len == store.seq_len,
        store.cut_to(layer, positions).num_kv_heads == store.num_kv_heads,
        store.cut_to(layer, positions).head_dim == store.head_dim,
        store.cut_to(layer, positions).kv_dim == store.kv_dim,
        store.cut_to(layer, positions).kv_quant == store.kv_quant,
        store.kv_quant is BF16 && positions * store.kv_dim <= store.keys[layer].len()
            ==> store.cut_to(layer, positions).keys[layer] =~= store.keys[layer].take(
            positions * store.kv_dim,
        ),
        store.kv_quant is BF16 && positions * store.kv_dim <= store.values[layer].len()
            ==> store.cut_to(layer, positions).values[layer] =~= store.values[layer].take(
            positions * store.kv_dim,
        ),
        !(store.kv_quant is BF16) || positions * store.kv_dim >= store.keys[layer].len()
            ==> store.cut_to(layer, positions).keys[layer] =~= store.keys[layer],
        !(store.kv_quant is BF16) || positions * store.kv_dim >= store.values[layer].len()
            ==> store.cut_to(layer, positions).values[layer] =~= store.values[layer],
{
}

/// A layer has as many positions as its first head holds whole: what is left is less than
/// one. The four-bit format counts its scales.
pub proof fn law_cached_positions_are_whole<F>(layer: LayerContents<F>, head_dim: int)
    requires
        head_dim > 0,
        layer is INT4 ==> head_dim >= 32,
    ensures
        ({
            let n = layer.cached_len(head_dim);
            match layer {
                LayerContents::F32 { keys, .. } => keys.len() > 0 ==> n * head_dim <= keys[0].len()
                    < (n + 1) * head_dim,
                LayerContents::BF16 { keys, .. } => keys.len() > 0 ==> n * head_dim <= keys[0].len()
                    < (n + 1) * head_dim,
                LayerContents::INT8 { keys, .. } => keys.len() > 0 ==> n * head_dim <= keys[0].len()
                    < (n + 1) * head_dim,
                LayerContents::INT4 { key_scales, .. } => key_scales.len() > 0 ==> n * (head_dim
                    / 32) <= key_scales[0].len() < (n + 1) * (head_dim / 32),
            }
        }),
{
    let (len, row) = match layer {
        LayerContents::F32 { keys, .. } => (keys[0].len() as int, head_dim),
        LayerContents::BF16 { keys, .. } => (keys[0].len() as int, head_dim),
        LayerContents::INT8 { keys, .. } => (keys[0].len() as int, head_dim),
        LayerContents::INT4 { key_scales, .. } => (key_scales[0].len() as int, head_dim / 32),
    };
    vstd::arithmetic::div_mod::lemma_fundamental_div_mod(len, row);
    let q = len / row;
    assert(q * row == row * q && (q + 1) * row == row * q + row) by (nonlinear_arith);
}

/// A layer without heads, or a four-bit layer without a whole group, has no positions.
pub proof fn law_nothing_is_cached_without_heads<F>(layer: LayerContents<F>, head_dim: int)
    requires
        head_dim > 0,
        layer.has_heads(0) || (layer is INT4 && head_dim < 32),
    ensures
        layer.cached_len(head_dim) == 0,
{
}

// ---------------------------------------------------------------------------
// What a store takes, and how it starts
// ---------------------------------------------------------------------------

proof fn lemma_equal_parts<T>(parts: Seq<Seq<T>>, len: int)
    requires
        parts_have(parts, len),
    ensures
        element_count(parts) == parts.len() * len,
    decreases parts.len(),
{
    if parts.len() > 0 {
        let rest = parts.drop_last();
        assert forall|h: int| 0 <= h < rest.len() implies (#[trigger] rest[h]).len() == len by {
            assert(rest[h] == parts[h]);
        }
        lemma_equal_parts(rest, len);
        let n = rest.len();
        assert((n + 1) * len == n * len + len) by (nonlinear_arith);
    } else {
        assert(0 * len == 0) by (nonlinear_arith);
    }
}

/// A layer with `n` positions takes, for keys and for values, in every head: a number of
/// the model's type for each element; two bytes for each; one byte for each and one
/// number for each position; or half a byte for each and one number for each group.
pub proof fn law_layer_takes_its_format<F>(
    layer: LayerContents<F>,
    heads: int,
    head_dim: int,
    n: int,
    scalar: int,
)
    requires
        heads >= 0,
        layer.holds(heads, head_dim, n),
    ensures
        match layer {
            LayerContents::F32 { .. } => layer_bytes(layer, scalar) == (2 * (heads * (n
                * head_dim))) * scalar,
            LayerContents::BF16 { .. } => layer_bytes(layer, scalar) == 4 * (heads * (n
                * head_dim)),
            LayerContents::INT8 { .. } => layer_bytes(layer, scalar) == 2 * (heads * (n
                * head_dim)) + (2 * (heads * n)) * scalar,
            LayerContents::INT4 { .. } => layer_bytes(layer, scalar) == 2 * (heads * (n * (head_dim
                / 2))) + (2 * (heads * (n * (head_dim / 32)))) * scalar,
        },
{
    match layer {
        LayerContents::F32 { keys, values } => {
            lemma_equal_parts(keys, n * head_dim);
            lemma_equal_parts(values, n * head_dim);
        },
        LayerContents::BF16 { keys, values } => {
            lemma_equal_parts(keys, n * head_dim);
            lemma_equal_parts(values, n * head_dim);
        },
        LayerContents::INT8 { keys, values, key_scales, value_scales } => {
            lemma_equal_parts(keys, n * head_dim);
            lemma_equal_parts(values, n * head_dim);
            lemma_equal_parts(key_scales, n * 1);
            lemma_equal_parts(value_scales, n * 1);
        },
        LayerContents::INT4 { keys, values, key_scales, value_scales } => {
            lemma_equal_parts(keys, n * (head_dim / 2));
            lemma_equal_parts(values, n * (head_dim / 2));
            lemma_equal_parts(key_scales, n * (head_dim / 32));
            lemma_equal_parts(value_scales, n * (head_dim / 32));
        },
    }
}

/// The bytes of a store are those of its parts: another layer adds its own bytes,
/// another flat array two for each number, and a store without layers takes none.
pub proof fn law_bytes_add_up<F>(
    layers: Seq<LayerContents<F>>,
    keys: Seq<Seq<u16>>,
    values: Seq<Seq<u16>>,
    scalar: int,
    layer: LayerContents<F>,
    flat: Seq<u16>,
)
    ensures
        store_bytes(Seq::<LayerContents<F>>::empty(), Seq::empty(), Seq::empty(), scalar) == 0,
        store_bytes(layers.push(layer), keys, values, scalar) == store_bytes(
            layers,
            keys,
            values,
            scalar,
        ) + layer_bytes(layer, scalar),
        store_bytes(layers, keys.push(flat), values, scalar) == store_bytes(
            layers,
            keys,
            values,
            scalar,
        ) + 2 * flat.len(),
        store_bytes(layers, keys, values.push(flat), scalar) == store_bytes(
            layers,
            keys,
            values,
            scalar,
        ) + 2 * flat.len(),
{
    assert(layers.push(layer).drop_last() =~= layers);
    assert(keys.push(flat).drop_last() =~= keys);
    assert(values.push(flat).drop_last() =~= values);
}

/// A store takes the bytes of its layers and of its flat arrays, and no others.
pub proof fn law_store_bytes_count_every_part<F>(
    store: KvContents<F>,
    scalar: int,
    layer: LayerContents<F>,
    keys: Seq<u16>,
    values: Seq<u16>,
)
    ensures
        (KvContents {
            layers: Seq::<LayerContents<F>>::empty(),
            keys: Seq::empty(),
            values: Seq::empty(),
            ..store
        }).bytes(scalar) == 0,
        (KvContents {
            layers: store.layers.push(layer),
            keys: store.keys.push(keys),
            values: store.values.push(values),
            ..store
        }).bytes(scalar) == store.bytes(scalar) + layer_bytes(layer, scalar) + 2 * keys.len() + 2
            * values.len(),
{
    law_bytes_add_up(store.layers, store.keys, store.values, scalar, layer, keys);
    law_bytes_add_up(
        store.layers.push(layer),
        store.keys,
        store.values,
        scalar,
        layer,
        keys,
    );
    law_bytes_add_up(
        store.layers.push(layer),
        store.keys.push(keys),
        store.values,
        scalar,
        layer,
        values,
    );
}

/// A new store has every layer, in the format asked for, with all heads and without a
/// position.
pub proof fn law_new_store_is_empty<F>(config: &Config, quant: KvQuantType, i: int)
    requires
        0 <= i < config.num_layers,
    ensures
        empty_contents::<F>(config, quant).wf(),
        empty_contents::<F>(config, quant).layers.len() == config.num_layers,
        empty_contents::<F>(config, quant).layers[i].format() == quant,
        empty_contents::<F>(config, quant).layers[i].holds(
            config.num_key_value_heads as int,
            config.head_dim as int,
            0,
        ),
        empty_contents::<F>(config, quant).keys[i].len() == 0,
        empty_contents::<F>(config, quant).values[i].len() == 0,
        empty_contents::<F>(config, quant).kv_quant == quant,
        empty_contents::<F>(config, quant).num_kv_heads == config.num_key_value_heads,
        empty_contents::<F>(config, quant).head_dim == config.head_dim,
        empty_contents::<F>(config, quant).kv_dim == config.kv_dim,
        empty_contents::<F>(config, quant).seq_len == 0,
{
    let hd = config.head_dim as int;
    assert(0 * hd == 0 && 0 * (hd / 2) == 0 && 0 * (hd / 32) == 0) by (nonlinear_arith);
}

/// Every number of a filled sequence is the one it was filled with.
pub proof fn law_filled<F>(n: int, x: F, i: int)
    requires
        0 <= n,
    ensures
        filled(n, x).len() == n,
        0 <= i < n ==> filled(n, x)[i] == x,
{
}

/// A new request's state: every layer has its columns of the convolution, and a layer of
/// the recurrent kind has its state and its columns, all zero; other layers have none of
/// these.
pub proof fn law_fresh_state_is_zero<F>(
    conv: Seq<Seq<F>>,
    recurrent: Seq<Seq<F>>,
    deltanet_conv: Seq<Seq<F>>,
    config: &Config,
    zero: F,
    i: int,
    j: int,
)
    requires
        fresh_state(conv, recurrent, deltanet_conv, config, zero),
        0 <= i < config.num_layers,
    ensures
        conv.len() == config.num_layers,
        recurrent.len() == config.num_layers,
        deltanet_conv.len() == config.num_layers,
        conv[i].len() == config.hidden_size * config.conv_l_cache,
        recurrent[i].len() == (if config.spec_is_deltanet_layer(i) {
            config.deltanet_recurrent_size as int
        } else {
            0
        }),
        config.spec_is_deltanet_layer(i) && config.spec_deltanet_conv_len() >= 0
            ==> deltanet_conv[i].len() == config.spec_deltanet_conv_len(),
        !config.spec_is_deltanet_layer(i) ==> deltanet_conv[i].len() == 0,
        0 <= j < conv[i].len() ==> conv[i][j] == zero,
        0 <= j < recurrent[i].len() ==> recurrent[i][j] == zero,
        0 <= j < deltanet_conv[i].len() ==> deltanet_conv[i][j] == zero,
{
    assert(config.hidden_size * config.conv_l_cache >= 0) by (nonlinear_arith);
}

/// A new request's buffers for decoding have, in every layer, the sizes of what they
/// take: queries and their output `q_dim`, keys and values `kv_dim`, the feed-forward
/// its inner size, and the rest the size of a hidden state. All start at zero.
pub proof fn law_fresh_buffers_have_their_sizes<F>(
    ctx: InferenceContext<F>,
    config: &Config,
    pool_workers: usize,
    zero: F,
    i: int,
)
    requires
        ctx.is_fresh(config, pool_workers, zero),
        0 <= i < config.num_layers,
    ensures
        ctx.decode_q@.len() == config.num_layers && ctx.decode_k@.len() == config.num_layers
            && ctx.decode_v@.len() == config.num_layers && ctx.decode_scores@.len()
            == config.num_layers && ctx.decode_scores_workers@.len() == config.num_layers
            && ctx.decode_q_bf16@.len() == config.num_layers,
        ctx.decode_q@[i]@ =~= Seq::new(config.q_dim as nat, |j: int| zero),
        ctx.decode_k@[i]@ =~= Seq::new(config.kv_dim as nat, |j: int| zero),
        ctx.decode_v@[i]@ =~= Seq::new(config.kv_dim as nat, |j: int| zero),
        ctx.decode_attn_out@[i]@ =~= Seq::new(config.q_dim as nat, |j: int| zero),
        ctx.decode_attn_proj_out@[i]@ =~= Seq::new(config.hidden_size as nat, |j: int| zero),
        ctx.decode_scores@[i]@.len() == 0,
        ctx.decode_scores_workers@[i]@.len() == pool_workers,
        ctx.decode_norm1@[i]@ =~= Seq::new(config.hidden_size as nat, |j: int| zero),
        ctx.decode_norm2@[i]@ =~= Seq::new(config.hidden_size as nat, |j: int| zero),
        ctx.decode_mlp_gate@[i]@ =~= Seq::new(config.spec_ffn_size() as nat, |j: int| zero),
        ctx.decode_mlp_up@[i]@ =~= Seq::new(config.spec_ffn_size() as nat, |j: int| zero),
        ctx.decode_mlp_out@[i]@ =~= Seq::new(config.hidden_size as nat, |j: int| zero),
        ctx.decode_embed@ =~= Seq::new(config.hidden_size as nat, |j: int| zero),
        ctx.decode_final_norm@ =~= Seq::new(config.hidden_size as nat, |j: int| zero),
        ctx.decode_logits@ =~= Seq::new(config.vocab_size as nat, |j: int| zero),
        ctx.decode_moe_router@.len() == 0 && ctx.decode_moe_expert_out@.len() == 0,
        ctx.decode_q_bf16@[i]@.len() == 0,
        ctx.prefill_q@.len() == 0 && ctx.prefill_k@.len() == 0 && ctx.prefill_v@.len() == 0
            && ctx.prefill_buf_a@.len() == 0 && ctx.prefill_buf_b@.len() == 0,
        !ctx.eagle3_active,
        ctx.eagle3_extract_layers@ =~= seq![0usize, 0usize, 0usize],
{
    let layers = config.num_layers;
    lemma_zero_row(ctx.decode_q@, layers, config.q_dim, zero, i);
    lemma_zero_row(ctx.decode_k@, layers, config.kv_dim, zero, i);
    lemma_zero_row(ctx.decode_v@, layers, config.kv_dim, zero, i);
    lemma_zero_row(ctx.decode_attn_out@, layers, config.q_dim, zero, i);
    lemma_zero_row(ctx.decode_attn_proj_out@, layers, config.hidden_size, zero, i);
    lemma_zero_row(ctx.decode_norm1@, layers, config.hidden_size, zero, i);
    lemma_zero_row(ctx.decode_norm2@, layers, config.hidden_size, zero, i);
    lemma_zero_row(ctx.decode_mlp_gate@, layers, config.spec_ffn_size(), zero, i);
    lemma_zero_row(ctx.decode_mlp_up@, layers, config.spec_ffn_size(), zero, i);
    lemma_zero_row(ctx.decode_mlp_out@, layers, config.hidden_size, zero, i);
    lemma_empty_row(ctx.decode_scores@, layers, i);
    lemma_empty_row(ctx.decode_q_bf16@, layers, i);
    let scores = ctx.decode_scores_workers@[i]@;
    assert(empty_rows(scores, pool_workers));
    assert(vec_contents(scores).len() == scores.len());
}

proof fn lemma_zero_row<F>(rows: Seq<Vec<F>>, layers: usize, n: usize, zero: F, i: int)
    requires
        zero_rows(rows, layers, n, zero),
        0 <= i < layers,
    ensures
        rows.len() == layers,
        rows[i]@ == Seq::new(n as nat, |j: int| zero),
{
    assert(vec_contents(rows).len() == rows.len());
    assert(vec_contents(rows)[i] == rows[i]@);
    assert(rows[i]@ =~= Seq::new(n as nat, |j: int| zero));
}

proof fn lemma_empty_row<T>(rows: Seq<Vec<T>>, layers: usize, i: int)
    requires
        empty_rows(rows, layers),
        0 <= i < layers,
    ensures
        rows.len() == layers,
        rows[i]@.len() == 0,
{
    assert(vec_contents(rows).len() == rows.len());
    assert(vec_contents(rows)[i] == rows[i]@);
}

/// A new cache is a new store, at the start of the text and looking back only, with new
/// buffers.
pub proof fn law_fresh_cache_is_empty<F: Copy>(
    cache: CpuKvCache<F>,
    config: &Config,
    quant: KvQuantType,
    pool_workers: usize,
    zero: F,
    i: int,
)
    requires
        cache.is_fresh(config, quant, pool_workers, zero),
        0 <= i < config.num_layers,
    ensures
        cache.kv.kv_quant == quant,
        cache.kv.seq_len == 0,
        cache.kv.text_pos == 0,
        !cache.kv.bidirectional,
        cache.kv.num_kv_heads == config.num_key_value_heads,
        cache.kv.head_dim == config.head_dim,
        cache.kv.kv_dim == config.kv_dim,
        cache.kv.layer_data@.len() == config.num_layers,
        cache.kv@.layers[i].holds(config.num_key_value_heads as int, config.head_dim as int, 0),
        cache.kv.keys@[i]@.len() == 0,
        cache.kv.values@[i]@.len() == 0,
        cache.kv.conv_cache@[i]@.len() == config.hidden_size * config.conv_l_cache,
{
    law_new_store_is_empty::<F>(config, quant, i);
    assert(vec_contents(cache.kv.keys@)[i] == cache.kv.keys@[i]@);
    assert(vec_contents(cache.kv.values@)[i] == cache.kv.values@[i]@);
    assert(layer_contents(cache.kv.layer_data@).len() == cache.kv.layer_data@.len());
    law_fresh_state_is_zero(
        vec_contents(cache.kv.conv_cache@),
        vec_contents(cache.kv.deltanet_recurrent@),
        vec_contents(cache.kv.deltanet_conv@),
        config,
        zero,
        i,
        0,
    );
    assert(vec_contents(cache.kv.conv_cache@)[i] == cache.kv.conv_cache@[i]@);
}

/// Room for the positions asked for is reserved in every head, for keys and for values,
/// and none beyond it.
pub proof fn law_room_is_reserved<F>(
    layers: Seq<KvLayerData<F>>,
    reserve_tokens: Option<usize>,
    asked: int,
    head_dim: int,
    i: int,
    h: int,
)
    requires
        layers_have_room(layers, reserve_of(reserve_tokens), head_dim),
        0 <= i < layers.len(),
        asked == (if reserve_tokens is Some {
            reserve_tokens->0 as int
        } else {
            0
        }),
    ensures
        match layers[i] {
            KvLayerData::F32 { keys_per_head, values_per_head } => {
                &&& 0 <= h < keys_per_head@.len() ==> keys_per_head@[h].reserved()
                    == asked * head_dim
                &&& 0 <= h < values_per_head@.len() ==> values_per_head@[h].reserved()
                    == asked * head_dim
            },
            KvLayerData::BF16 { keys_per_head, values_per_head } => {
                &&& 0 <= h < keys_per_head@.len() ==> keys_per_head@[h].reserved()
                    == asked * head_dim
                &&& 0 <= h < values_per_head@.len() ==> values_per_head@[h].reserved()
                    == asked * head_dim
            },
            KvLayerData::INT8 { keys_per_head, values_per_head, .. } => {
                &&& 0 <= h < keys_per_head@.len() ==> keys_per_head@[h].reserved()
                    == asked * head_dim
                &&& 0 <= h < values_per_head@.len() ==> values_per_head@[h].reserved()
                    == asked * head_dim
            },
            KvLayerData::INT4 { keys_per_head, values_per_head, .. } => {
                &&& 0 <= h < keys_per_head@.len() ==> keys_per_head@[h].reserved()
                    == asked * (head_dim / 2)
                &&& 0 <= h < values_per_head@.len() ==> values_per_head@[h].reserved()
                    == asked * (head_dim / 2)
            },
        },
{
    assert(layers[i].has_room(reserve_of(reserve_tokens), head_dim));
}

/// What a store is taken to hold is what its fields hold.
pub proof fn law_store_shows_its_fields<F>(store: KvStore<F>, i: int)
    requires
        0 <= i,
    ensures
        store@.kv_quant == store.kv_quant,
        store@.num_kv_heads == store.num_kv_heads,
        store@.head_dim == store.head_dim,
        store@.seq_len == store.seq_len,
        store@.kv_dim == store.kv_dim,
        store@.layers.len() == store.layer_data@.len(),
        store@.keys.len() == store.keys@.len(),
        store@.values.len() == store.values@.len(),
        i < store.layer_data@.len() ==> store@.layers[i] == store.layer_data@[i]@,
        i < store.keys@.len() ==> store@.keys[i] == store.keys@[i]@,
        i < store.values@.len() ==> store@.values[i] == store.values@[i]@,
{
}

/// What a snapshot is taken to hold is what its fields hold.
pub proof fn law_snapshot_shows_its_fields<F>(snapshot: KvStoreSnapshot<F>, i: int)
    requires
        0 <= i,
    ensures
        snapshot@.kv_quant == snapshot.kv_quant,
        snapshot@.num_kv_heads == snapshot.num_kv_heads,
        snapshot@.head_dim == snapshot.head_dim,
        snapshot@.seq_len == snapshot.seq_len,
        snapshot@.kv_dim == snapshot.kv_dim,
        snapshot@.layers.len() == snapshot.layer_data@.len(),
        snapshot@.keys.len() == snapshot.keys@.len(),
        snapshot@.values.len() == snapshot.values@.len(),
        i < snapshot.layer_data@.len() ==> snapshot@.layers[i] == snapshot.layer_data@[i]@,
        i < snapshot.keys@.len() ==> snapshot@.keys[i] == snapshot.keys@[i]@,
        i < snapshot.values@.len() ==> snapshot@.values[i] == snapshot.values@[i]@,
{
}

/// What a layer is taken to hold is what each of its heads holds, in its format.
pub proof fn law_layer_shows_its_heads<F>(layer: KvLayerData<F>, h: int)
    requires
        0 <= h,
    ensures
        match (layer, layer@) {
            (
                KvLayerData::F32 { keys_per_head, values_per_head },
                LayerContents::F32 { keys, values },
            ) => {
                &&& keys.len() == keys_per_head@.len() && values.len() == values_per_head@.len()
                &&& h < keys.len() ==> keys[h] == keys_per_head@[h]@
                &&& h < values.len() ==> values[h] == values_per_head@[h]@
            },
            (
                KvLayerData::BF16 { keys_per_head, values_per_head },
                LayerContents::BF16 { keys, values },
            ) => {
                &&& keys.len() == keys_per_head@.len() && values.len() == values_per_head@.len()
                &&& h < keys.len() ==> keys[h] == keys_per_head@[h]@
                &&& h < values.len() ==> values[h] == values_per_head@[h]@
            },
            (
                KvLayerData::INT8 { keys_per_head, values_per_head, keys_scales, values_scales },
                LayerContents::INT8 { keys, values, key_scales, value_scales },
            ) => {
                &&& keys.len() == keys_per_head@.len() && values.len() == values_per_head@.len()
                &&& key_scales.len() == keys_scales@.len() && value_scales.len()
                    == values_scales@.len()
                &&& h < keys.len() ==> keys[h] == keys_per_head@[h]@
                &&& h < values.len() ==> values[h] == values_per_head@[h]@
                &&& h < key_scales.len() ==> key_scales[h] == keys_scales@[h]@
                &&& h < value_scales.len() ==> value_scales[h] == values_scales@[h]@
            },
            (
                KvLayerData::INT4 { keys_per_head, values_per_head, keys_scales, values_scales },
                LayerContents::INT4 { keys, values, key_scales, value_scales },
            ) => {
                &&& keys.len() == keys_per_head@.len() && values.len() == values_per_head@.len()
                &&& key_scales.len() == keys_scales@.len() && value_scales.len()
                    == values_scales@.len()
                &&& h < keys.len() ==> keys[h] == keys_per_head@[h]@
                &&& h < values.len() ==> values[h] == values_per_head@[h]@
                &&& h < key_scales.len() ==> key_scales[h] == keys_scales@[h]@
                &&& h < value_scales.len() ==> value_scales[h] == values_scales@[h]@
            },
            _ => false,
        },
{
}

} // verus!
