//! Sixteen-bit weight matrices and their form in a weight cache.

use vstd::prelude::*;

verus! {

/// The version of the cache format.
pub const CACHE_VERSION: u32 = 2;

/// The operations of the plain sixteen-bit backend.
pub struct Bf16Ops;

/// The operations of the sixteen-bit backend that uses 512-bit vectors.
pub struct Bf16Avx512Ops;

/// The sixteen-bit backend that uses 512-bit vectors.
pub struct Bf16Avx512Config;

impl Bf16Avx512Config {
    /// The name by which the backend is chosen.
    pub fn name(&self) -> (name: &'static str)
        ensures
            name@ == "bf16-avx512"@,
    {
        "bf16-avx512"
    }
}

/// A weight matrix in row-major order.
pub struct Bf16Weight {
    /// The `n * k` elements.
    pub data: Vec<u16>,
    /// The number of rows.
    pub n: usize,
    /// The number of columns.
    pub k: usize,
}

/// One step of loading a model.
#[derive(Clone, Copy, Debug, PartialEq, Eq, Structural)]
pub enum LoadStep {
    /// Look for the model in the weight cache.
    TryCache,
    /// Read the model's own files.
    Stream,
    /// Put the model into the weight cache.
    SaveCache,
    Done,
}

/// The step behind `last`, or the first one. `found` says whether the cache had the
/// model.
pub open spec fn load_step_after(last: Option<LoadStep>, no_cache: bool, found: bool) -> LoadStep {
    match last {
        None => if no_cache {
            LoadStep::Stream
        } else {
            LoadStep::TryCache
        },
        Some(LoadStep::TryCache) => if found {
            LoadStep::Done
        } else {
            LoadStep::Stream
        },
        Some(LoadStep::Stream) => if no_cache {
            LoadStep::Done
        } else {
            LoadStep::SaveCache
        },
        Some(LoadStep::SaveCache) => LoadStep::Done,
        Some(LoadStep::Done) => LoadStep::Done,
    }
}

/// The step that loading a model takes next. A model that the cache has is not read
/// again, and one that it has not is put there; `no_cache` leaves the cache alone.
pub fn load_model(last: Option<LoadStep>, no_cache: bool, found: bool) -> (next: LoadStep)
    ensures
        next == load_step_after(last, no_cache, found),
{
    match last {
        None => if no_cache {
            LoadStep::Stream
        } else {
            LoadStep::TryCache
        },
        Some(LoadStep::TryCache) => if found {
            LoadStep::Done
        } else {
            LoadStep::Stream
        },
        Some(LoadStep::Stream) => if no_cache {
            LoadStep::Done
        } else {
            LoadStep::SaveCache
        },
        Some(LoadStep::SaveCache) => LoadStep::Done,
        Some(LoadStep::Done) => LoadStep::Done,
    }
}

/// The step behind `n` steps, where the cache, once asked, answers `found`.
pub open spec fn load_step_at(no_cache: bool, found: bool, n: nat) -> LoadStep
    decreases n,
{
    if n == 0 {
        load_step_after(None, no_cache, found)
    } else {
        load_step_after(
            Some(load_step_at(no_cache, found, (n - 1) as nat)),
            no_cache,
            found,
        )
    }
}

/// Loading leaves the cache alone where that is wanted. Else it asks the cache first: a
/// model that is found there is not read again, and one that is not found is read and
/// then put there, once. Loading has an end.
pub proof fn law_load_uses_the_cache_once(no_cache: bool, found: bool, n: nat)
    ensures
        no_cache ==> load_step_at(no_cache, found, n) == (if n == 0 {
            LoadStep::Stream
        } else {
            LoadStep::Done
        }),
        !no_cache && found ==> load_step_at(no_cache, found, n) == (if n == 0 {
            LoadStep::TryCache
        } else {
            LoadStep::Done
        }),
        !no_cache && !found ==> load_step_at(no_cache, found, n) == (if n == 0 {
            LoadStep::TryCache
        } else if n == 1 {
            LoadStep::Stream
        } else if n == 2 {
            LoadStep::SaveCache
        } else {
            LoadStep::Done
        }),
    decreases n,
{
    if n > 0 {
        law_load_uses_the_cache_once(no_cache, found, (n - 1) as nat);
    }
}

/// The bytes of a number, lowest first.
pub open spec fn le_bytes(x: int, count: nat) -> Seq<u8>
    decreases count,
{
    if count == 0 {
        Seq::empty()
    } else {
        seq![(x % 256) as u8] + le_bytes(x / 256, (count - 1) as nat)
    }
}

/// The number that bytes stand for, lowest first.
pub open spec fn le_value(bytes: Seq<u8>) -> int
    decreases bytes.len(),
{
    if bytes.len() == 0 {
        0
    } else {
        bytes[0] + 256 * le_value(bytes.skip(1))
    }
}

/// The bytes of all elements, one after the other.
pub open spec fn data_bytes(data: Seq<u16>) -> Seq<u8> {
    Seq::new(
        data.len() * 2,
        |i: int|
            if i % 2 == 0 {
                (data[i / 2] as int % 256) as u8
            } else {
                (data[i / 2] as int / 256) as u8
            },
    )
}

/// The cached form of a matrix: rows, columns, elements.
pub open spec fn cached_form(n: int, k: int, data: Seq<u16>) -> Seq<u8> {
    le_bytes(n, 8) + le_bytes(k, 8) + data_bytes(data)
}

/// The bytes hold less than the cached form takes.
#[derive(Clone, Copy, Debug, PartialEq, Eq, Structural)]
pub struct UnexpectedEof;

fn push_u64(out: &mut Vec<u8>, x: u64)
    ensures
        final(out)@ == old(out)@ + le_bytes(x as int, 8),
{
    let ghost before = out@;
    let mut rest: u64 = x;
    let mut i: usize = 0;
    while i < 8
        invariant
            i <= 8,
            out@ + le_bytes(rest as int, (8 - i) as nat) == before + le_bytes(x as int, 8),
        decreases 8 - i,
    {
        let ghost held = out@;
        let ghost tail = le_bytes(rest as int / 256, (7 - i) as nat);
        out.push((rest % 256) as u8);
        proof {
            assert(le_bytes(rest as int, (8 - i) as nat) == seq![(rest % 256) as u8] + tail);
            assert(out@ + tail =~= held + (seq![(rest % 256) as u8] + tail));
        }
        rest = rest / 256;
        i = i + 1;
    }
    proof {
        assert(out@ + Seq::<u8>::empty() =~= out@);
    }
}

/// Reads the number that stands in eight bytes.
pub(crate) fn read_u64(bytes: &[u8], at: usize) -> (x: u64)
    requires
        at + 8 <= bytes@.len(),
    ensures
        x == le_value(bytes@.subrange(at as int, at + 8)),
{
    let len: usize = bytes.len();
    let ghost part = bytes@.subrange(at as int, at + 8);
    let mut x: u64 = 0;
    let mut i: usize = 8;
    proof {
        assert(part.skip(8) =~= Seq::<u8>::empty());
    }
    while i > 0
        invariant
            i <= 8,
            at + 8 <= bytes@.len() == len,
            part == bytes@.subrange(at as int, at + 8),
            x == le_value(part.skip(i as int)),
            i == 8 ==> x == 0,
            i == 7 ==> x < 0x100,
            i == 6 ==> x < 0x1_0000,
            i == 5 ==> x < 0x100_0000,
            i == 4 ==> x < 0x1_0000_0000,
            i == 3 ==> x < 0x100_0000_0000,
            i == 2 ==> x < 0x1_0000_0000_0000,
            i == 1 ==> x < 0x100_0000_0000_0000,
        decreases i,
    {
        i = i - 1;
        proof {
            assert(part.skip(i as int).skip(1) =~= part.skip(i + 1));
            assert(part.skip(i as int)[0] == bytes@[at + i]);
        }
        x = bytes[at + i] as u64 + 256 * x;
    }
    proof {
        assert(part.skip(0) =~= part);
    }
    x
}

impl Bf16Weight {
    /// Appends the matrix to a cache.
    pub fn cache_write(&self, out: &mut Vec<u8>)
        ensures
            final(out)@ == old(out)@ + cached_form(self.n as int, self.k as int, self.data@),
    {
        let ghost before = out@;
        push_u64(out, self.n as u64);
        push_u64(out, self.k as u64);
        let ghost head = out@;
        let mut i: usize = 0;
        while i < self.data.len()
            invariant
                i <= self.data@.len(),
                out@ == head + data_bytes(self.data@.take(i as int)),
            decreases self.data@.len() - i,
        {
            let x: u16 = self.data[i];
            out.push((x % 256) as u8);
            out.push((x / 256) as u8);
            i = i + 1;
            proof {
                assert(out@ =~= head + data_bytes(self.data@.take(i as int)));
            }
        }
        proof {
            assert(self.data@.take(i as int) =~= self.data@);
            assert(out@ =~= before + cached_form(self.n as int, self.k as int, self.data@));
        }
    }

    /// Reads a matrix from the front of a cache, and returns it with the number of bytes
    /// that it took.
    pub fn cache_read(bytes: &[u8]) -> (read: Result<(Bf16Weight, usize), UnexpectedEof>)
        requires
            header_fits(bytes@),
        ensures
            read is Ok <==> bytes@.len() >= 16 && bytes@.len() >= 16 + header_count(bytes@) * 2,
            read matches Ok((w, used)) ==> {
                &&& w.n == le_value(bytes@.subrange(0, 8))
                &&& w.k == le_value(bytes@.subrange(8, 16))
                &&& w.data@.len() == header_count(bytes@)
                &&& used == 16 + header_count(bytes@) * 2
                &&& forall|i: int|
                    0 <= i < w.data@.len() ==> #[trigger] w.data@[i] == bytes@[16 + 2 * i] + 256
                        * bytes@[17 + 2 * i]
            },
    {
        let len: usize = bytes.len();
        if len < 16 {
            return Err(UnexpectedEof);
        }
        let n: usize = read_u64(bytes, 0) as usize;
        let k: usize = read_u64(bytes, 8) as usize;
        proof {
            assert(n * k >= 0) by (nonlinear_arith);
        }
        let count: usize = n * k;
        if (len - 16) / 2 < count {
            return Err(UnexpectedEof);
        }
        let mut data: Vec<u16> = Vec::new();
        let mut i: usize = 0;
        while i < count
            invariant
                i <= count,
                len == bytes@.len(),
                16 + count * 2 <= len,
                data@.len() == i,
                forall|j: int|
                    0 <= j < i ==> #[trigger] data@[j] == bytes@[16 + 2 * j] + 256 * bytes@[17 + 2
                        * j],
            decreases count - i,
        {
            let lo: u16 = bytes[16 + 2 * i] as u16;
            let hi: u16 = bytes[17 + 2 * i] as u16;
            data.push(lo + 256 * hi);
            i = i + 1;
        }
        Ok((Bf16Weight { data, n, k }, 16 + count * 2))
    }
}

/// The number of elements that a header announces.
pub open spec fn header_count(bytes: Seq<u8>) -> int {
    le_value(bytes.subrange(0, 8)) * le_value(bytes.subrange(8, 16))
}

/// Whether the sizes that a header announces, where there is one, are machine numbers.
pub open spec fn header_fits(bytes: Seq<u8>) -> bool {
    bytes.len() >= 16 ==> le_value(bytes.subrange(0, 8)) <= usize::MAX && le_value(
        bytes.subrange(8, 16),
    ) <= usize::MAX && header_count(bytes) <= usize::MAX
}

/// Whether the sizes at the front of a cache are machine numbers, so that a matrix can
/// be read from it.
pub fn sizes_fit(bytes: &[u8]) -> (fit: bool)
    ensures
        fit == header_fits(bytes@),
{
    if bytes.len() < 16 {
        return true;
    }
    let n: u64 = read_u64(bytes, 0);
    let k: u64 = read_u64(bytes, 8);
    proof {
        assert(0 <= n * k <= u64::MAX * u64::MAX) by (nonlinear_arith)
            requires
                0 <= n <= u64::MAX,
                0 <= k <= u64::MAX,
        ;
    }
    let most: u128 = usize::MAX as u128;
    n as u128 <= most && k as u128 <= most && (n as u128) * (k as u128) <= most
}

/// One more than the largest number that `count` bytes can hold.
pub open spec fn byte_bound(count: nat) -> int
    decreases count,
{
    if count == 0 {
        1
    } else {
        256 * byte_bound((count - 1) as nat)
    }
}

/// Bytes that stand for a number give it back.
pub proof fn law_le_bytes_round_trip(x: int, count: nat)
    requires
        0 <= x < byte_bound(count),
    ensures
        le_value(le_bytes(x, count)) == x,
        le_bytes(x, count).len() == count,
    decreases count,
{
    if count > 0 {
        law_le_bytes_round_trip(x / 256, (count - 1) as nat);
        let rest = le_bytes(x / 256, (count - 1) as nat);
        assert(le_bytes(x, count).skip(1) =~= rest);
    }
}

/// Reading a cached matrix gives back what was written: its sizes and every element,
/// whatever follows it in the cache.
pub proof fn law_cache_round_trip(n: int, k: int, data: Seq<u16>, rest: Seq<u8>)
    requires
        0 <= n <= u64::MAX,
        0 <= k <= u64::MAX,
        data.len() == n * k,
    ensures
        ({
            let bytes = cached_form(n, k, data) + rest;
            &&& bytes.len() >= 16 + header_count(bytes) * 2
            &&& le_value(bytes.subrange(0, 8)) == n
            &&& le_value(bytes.subrange(8, 16)) == k
            &&& header_count(bytes) == data.len()
            &&& forall|i: int|
                0 <= i < data.len() ==> #[trigger] data[i] == bytes[16 + 2 * i] + 256 * bytes[17
                    + 2 * i]
        }),
{
    assert(byte_bound(8) == 0x1_0000_0000_0000_0000) by {
        reveal_with_fuel(byte_bound, 9);
    }
    law_le_bytes_round_trip(n, 8);
    law_le_bytes_round_trip(k, 8);
    let bytes = cached_form(n, k, data) + rest;
    assert(bytes.subrange(0, 8) =~= le_bytes(n, 8));
    assert(bytes.subrange(8, 16) =~= le_bytes(k, 8));
    assert forall|i: int| 0 <= i < data.len() implies #[trigger] data[i] == bytes[16 + 2 * i] + 256
        * bytes[17 + 2 * i] by {
        assert(bytes[16 + 2 * i] == data_bytes(data)[2 * i]);
        assert(bytes[17 + 2 * i] == data_bytes(data)[2 * i + 1]);
        assert((2 * i) / 2 == i && (2 * i + 1) / 2 == i);
    }
}

/// Loading: without the cache the weights are streamed and that is all; with it the cache
/// is tried first, and only what it did not have is streamed, and then saved.
pub proof fn law_load_steps(last: Option<LoadStep>, no_cache: bool, found: bool)
    ensures
        load_step_after(last, no_cache, found) is TryCache <==> last is None && !no_cache,
        load_step_after(last, no_cache, found) is Stream <==> (last is None && no_cache) || (last
            == Some(LoadStep::TryCache) && !found),
        load_step_after(last, no_cache, found) is SaveCache <==> last == Some(LoadStep::Stream)
            && !no_cache,
        load_step_after(last, no_cache, found) is Done <==> last == Some(LoadStep::Done) || last
            == Some(LoadStep::SaveCache) || (last == Some(LoadStep::Stream) && no_cache) || (last
            == Some(LoadStep::TryCache) && found),
{
}

/// The value of eight bytes counts each 256 times the one before it.
pub proof fn law_eight_bytes_are_a_number(b: Seq<u8>)
    requires
        b.len() == 8,
    ensures
        le_value(b) == b[0] + 0x100 * b[1] + 0x1_0000 * b[2] + 0x100_0000 * b[3] + 0x1_0000_0000
            * b[4] + 0x100_0000_0000 * b[5] + 0x1_0000_0000_0000 * b[6] + 0x100_0000_0000_0000
            * b[7],
{
    let b1 = b.skip(1);
    let b2 = b1.skip(1);
    let b3 = b2.skip(1);
    let b4 = b3.skip(1);
    let b5 = b4.skip(1);
    let b6 = b5.skip(1);
    let b7 = b6.skip(1);
    let b8 = b7.skip(1);
    assert(b8.len() == 0);
    assert(le_value(b8) == 0);
    assert(le_value(b7) == b7[0] + 256 * le_value(b8));
    assert(le_value(b6) == b6[0] + 256 * le_value(b7));
    assert(le_value(b5) == b5[0] + 256 * le_value(b6));
    assert(le_value(b4) == b4[0] + 256 * le_value(b5));
    assert(le_value(b3) == b3[0] + 256 * le_value(b4));
    assert(le_value(b2) == b2[0] + 256 * le_value(b3));
    assert(le_value(b1) == b1[0] + 256 * le_value(b2));
    assert(le_value(b) == b[0] + 256 * le_value(b1));
}

/// A machine number is written as eight bytes whose value it is.
pub proof fn law_numbers_are_written_in_eight_bytes(x: u64)
    ensures
        le_bytes(x as int, 8).len() == 8,
        le_value(le_bytes(x as int, 8)) == x,
{
    reveal_with_fuel(byte_bound, 9);
    law_le_bytes_round_trip(x as int, 8);
}

/// A weight takes sixteen bytes for its sizes and two for each number, the lower half
/// first.
pub proof fn law_cached_form_holds_the_weight(n: u64, k: u64, data: Seq<u16>, i: int)
    requires
        0 <= i < data.len(),
    ensures
        cached_form(n as int, k as int, data).len() == 16 + 2 * data.len(),
        le_value(cached_form(n as int, k as int, data).subrange(0, 8)) == n,
        le_value(cached_form(n as int, k as int, data).subrange(8, 16)) == k,
        cached_form(n as int, k as int, data)[16 + 2 * i] == data[i] as int % 256,
        cached_form(n as int, k as int, data)[17 + 2 * i] == data[i] as int / 256,
{
    law_numbers_are_written_in_eight_bytes(n);
    law_numbers_are_written_in_eight_bytes(k);
    let bytes = cached_form(n as int, k as int, data);
    assert(bytes.subrange(0, 8) =~= le_bytes(n as int, 8));
    assert(bytes.subrange(8, 16) =~= le_bytes(k as int, 8));
    assert(bytes[16 + 2 * i] == data_bytes(data)[2 * i]);
    assert(bytes[17 + 2 * i] == data_bytes(data)[2 * i + 1]);
}

/// A header promises as many numbers as its two sizes make together, and it fits if the
/// sizes and that product are machine numbers, or if it is cut short.
pub proof fn law_header_promises_the_product(bytes: Seq<u8>)
    ensures
        header_count(bytes) == le_value(bytes.subrange(0, 8)) * le_value(bytes.subrange(8, 16)),
        bytes.len() < 16 ==> header_fits(bytes),
        bytes.len() >= 16 ==> (header_fits(bytes) <==> le_value(bytes.subrange(0, 8)) <= usize::MAX
            && le_value(bytes.subrange(8, 16)) <= usize::MAX && le_value(bytes.subrange(0, 8))
            * le_value(bytes.subrange(8, 16)) <= usize::MAX),
{
}

} // verus!
