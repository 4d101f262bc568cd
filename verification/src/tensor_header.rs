//! The header of a file of tensors: where each tensor ends, and whether all of them end
//! within what a machine number can count.

use vstd::prelude::*;

use crate::arith::min_of;
use crate::bf16_weight::{le_value, read_u64};

verus! {

/// The longest header, in bytes, that a file of tensors may have.
pub const MAX_HEADER_LEN: usize = 100_000_000;

/// The header of a file of tensors: the bytes behind the first eight, as many as those
/// eight say; or no bytes, where they say more than there may be or are.
pub open spec fn header_of(file: Seq<u8>) -> Seq<u8> {
    if file.len() < 8 {
        Seq::empty()
    } else {
        let n = le_value(file.subrange(0, 8));
        if n > MAX_HEADER_LEN || n + 8 > file.len() {
            Seq::empty()
        } else {
            file.subrange(8, 8 + n)
        }
    }
}

/// Where a byte of a header stands.
#[derive(Clone, Copy, Debug, PartialEq, Eq, Structural)]
pub enum Quoting {
    Outside,
    /// In a string.
    Inside,
    /// In a string, behind a backslash.
    Escaped,
}

/// What the bytes of a header before some place tell. A header is an object. Each of its
/// entries is a tensor: an object with the field `data_offsets`, or a list whose third
/// part stands for that field. The field is a list of two numbers, the start and the end
/// of the tensor.
#[derive(Clone, Copy, Debug, PartialEq, Eq, Structural)]
pub struct HeaderScan {
    pub quoting: Quoting,
    /// How many objects and lists are open.
    pub depth: usize,
    /// Whether the tensor is written as a list.
    pub listed: bool,
    /// How many parts of the tensor have ended.
    pub parts: usize,
    /// Whether the list in the tensor that was opened last holds its offsets.
    pub offsets: bool,
    /// How many numbers of that list have ended.
    pub numbers: usize,
    /// Where the name of the tensor starts and ends.
    pub name_start: usize,
    pub name_end: usize,
    /// Where the name of the field starts and ends.
    pub field_start: usize,
    pub field_end: usize,
}

/// The bytes of `data_offsets`.
pub open spec fn offsets_word() -> Seq<u8> {
    seq![100u8, 97, 116, 97, 95, 111, 102, 102, 115, 101, 116, 115]
}

/// The value of a hexadecimal digit, or 16 where the byte is none.
pub open spec fn hex_value(byte: u8) -> int {
    if 0x30 <= byte <= 0x39 {
        byte - 0x30
    } else if 0x41 <= byte <= 0x46 {
        byte - 0x41 + 10
    } else if 0x61 <= byte <= 0x66 {
        byte - 0x61 + 10
    } else {
        16
    }
}

/// Whether a string starts with a byte that is written as an escape: a backslash, a `u`,
/// two zeros and two hexadecimal digits.
pub open spec fn starts_with_escape(raw: Seq<u8>, byte: u8) -> bool {
    &&& raw.len() >= 6
    &&& raw[0] == 0x5c
    &&& raw[1] == 0x75
    &&& raw[2] == 0x30
    &&& raw[3] == 0x30
    &&& hex_value(raw[4]) < 16
    &&& hex_value(raw[5]) < 16
    &&& 16 * hex_value(raw[4]) + hex_value(raw[5]) == byte
}

/// Whether a string, as it stands in a header, spells a word of plain letters. Each
/// letter stands for itself, or is written as an escape.
pub open spec fn spells(raw: Seq<u8>, word: Seq<u8>) -> bool
    decreases word.len(),
{
    if word.len() == 0 {
        raw.len() == 0
    } else if raw.len() > 0 && raw[0] == word[0] {
        spells(raw.skip(1), word.skip(1))
    } else if starts_with_escape(raw, word[0]) {
        spells(raw.skip(6), word.skip(1))
    } else {
        false
    }
}

impl HeaderScan {
    /// Before the first byte.
    pub open spec fn start() -> Self {
        HeaderScan {
            quoting: Quoting::Outside,
            depth: 0,
            listed: false,
            parts: 0,
            offsets: false,
            numbers: 0,
            name_start: 0,
            name_end: 0,
            field_start: 0,
            field_end: 0,
        }
    }

    /// The name of the tensor, as it stands in the header.
    pub open spec fn name(self, header: Seq<u8>) -> Seq<u8> {
        header.subrange(self.name_start as int, self.name_end as int)
    }

    /// Whether a list that is opened in the tensor holds its offsets.
    pub open spec fn opens_offsets(self, header: Seq<u8>) -> bool {
        if self.listed {
            self.parts == 2
        } else {
            self.field_start <= self.field_end && spells(
                header.subrange(self.field_start as int, self.field_end as int),
                offsets_word(),
            )
        }
    }

    /// What is told when the byte at place `i`, which stands in a string, is read too.
    pub open spec fn behind_quoted(self, header: Seq<u8>, i: int) -> Self {
        let byte = header[i];
        if self.quoting is Escaped {
            HeaderScan { quoting: Quoting::Inside, ..self }
        } else if byte == 0x5c {
            HeaderScan { quoting: Quoting::Escaped, ..self }
        } else if byte == 0x22 {
            HeaderScan {
                quoting: Quoting::Outside,
                name_end: if self.depth == 1 {
                    i as usize
                } else {
                    self.name_end
                },
                field_end: if self.depth == 2 {
                    i as usize
                } else {
                    self.field_end
                },
                ..self
            }
        } else {
            self
        }
    }

    /// What is told when the byte at place `i`, which stands outside strings, is read too.
    pub open spec fn behind_plain(self, header: Seq<u8>, i: int) -> Self {
        let byte = header[i];
        if byte == 0x22 {
            HeaderScan {
                quoting: Quoting::Inside,
                name_start: if self.depth == 1 {
                    (i + 1) as usize
                } else {
                    self.name_start
                },
                field_start: if self.depth == 2 {
                    (i + 1) as usize
                } else {
                    self.field_start
                },
                ..self
            }
        } else if byte == 0x7b || byte == 0x5b {
            let opened = HeaderScan { depth: (self.depth + 1) as usize, ..self };
            if self.depth == 1 {
                HeaderScan { listed: byte == 0x5b, parts: 0, ..opened }
            } else if self.depth == 2 {
                HeaderScan {
                    offsets: byte == 0x5b && self.opens_offsets(header),
                    numbers: 0,
                    ..opened
                }
            } else {
                opened
            }
        } else if byte == 0x7d || byte == 0x5d {
            HeaderScan {
                depth: if self.depth > 0 {
                    (self.depth - 1) as usize
                } else {
                    0
                },
                ..self
            }
        } else if byte == 0x2c && self.depth == 2 {
            HeaderScan { parts: (self.parts + 1) as usize, ..self }
        } else if byte == 0x2c && self.depth == 3 {
            HeaderScan { numbers: (self.numbers + 1) as usize, ..self }
        } else {
            self
        }
    }

    /// What is told when the byte at place `i` is read too.
    pub open spec fn behind(self, header: Seq<u8>, i: int) -> Self {
        if self.quoting is Outside {
            self.behind_plain(header, i)
        } else {
            self.behind_quoted(header, i)
        }
    }

    /// What the first `i` bytes of a header tell.
    pub open spec fn of(header: Seq<u8>, i: int) -> Self
        decreases i,
    {
        if i <= 0 {
            HeaderScan::start()
        } else {
            HeaderScan::of(header, i - 1).behind(header, i - 1)
        }
    }

    /// Whether the name of a tensor has just ended.
    pub open spec fn ends_name(header: Seq<u8>, i: int) -> bool {
        let before = HeaderScan::of(header, i - 1);
        &&& i > 0
        &&& before.quoting is Inside
        &&& before.depth == 1
        &&& header[i - 1] == 0x22
    }

    /// Whether the second number of a tensor's offsets stands here: its end.
    pub open spec fn in_end(self) -> bool {
        self.quoting is Outside && self.depth == 3 && self.offsets && self.numbers == 1
    }

    /// Whether the tensor has the name of another.
    pub open spec fn has_name(self, header: Seq<u8>, other: Self) -> bool {
        &&& self.name_start <= self.name_end
        &&& other.name_start <= other.name_end
        &&& self.name(header) == other.name(header)
    }

    /// No field counts, or points, past the first `i` bytes.
    spec fn within(self, i: int) -> bool {
        &&& self.depth <= i
        &&& self.parts <= i
        &&& self.numbers <= i
        &&& self.name_start <= i
        &&& self.name_end <= i
        &&& self.field_start <= i
        &&& self.field_end <= i
    }

    fn step(&self, header: &[u8], i: usize) -> (next: Self)
        requires
            i < header@.len() <= MAX_HEADER_LEN,
            self.within(i as int),
        ensures
            next == self.behind(header@, i as int),
            next.within(i + 1),
    {
        let mut next: HeaderScan = *self;
        let byte: u8 = header[i];
        match self.quoting {
            Quoting::Escaped => {
                next.quoting = Quoting::Inside;
            },
            Quoting::Inside => {
                if byte == 0x5c {
                    next.quoting = Quoting::Escaped;
                } else if byte == 0x22 {
                    next.quoting = Quoting::Outside;
                    if self.depth == 1 {
                        next.name_end = i;
                    } else if self.depth == 2 {
                        next.field_end = i;
                    }
                }
            },
            Quoting::Outside => {
                if byte == 0x22 {
                    next.quoting = Quoting::Inside;
                    if self.depth == 1 {
                        next.name_start = i + 1;
                    } else if self.depth == 2 {
                        next.field_start = i + 1;
                    }
                } else if byte == 0x7b || byte == 0x5b {
                    next.depth = self.depth + 1;
                    if self.depth == 1 {
                        next.listed = byte == 0x5b;
                        next.parts = 0;
                    } else if self.depth == 2 {
                        next.offsets = byte == 0x5b && self.check_field(header);
                        next.numbers = 0;
                    }
                } else if byte == 0x7d || byte == 0x5d {
                    if self.depth > 0 {
                        next.depth = self.depth - 1;
                    }
                } else if byte == 0x2c {
                    if self.depth == 2 {
                        next.parts = self.parts + 1;
                    } else if self.depth == 3 {
                        next.numbers = self.numbers + 1;
                    }
                }
            },
        }
        next
    }

    fn is_in_end(&self) -> (b: bool)
        ensures
            b == self.in_end(),
    {
        match self.quoting {
            Quoting::Outside => self.depth == 3 && self.offsets && self.numbers == 1,
            _ => false,
        }
    }

    fn same_name(&self, header: &[u8], other: &HeaderScan) -> (b: bool)
        requires
            self.within(header@.len() as int),
            other.within(header@.len() as int),
        ensures
            b == self.has_name(header@, *other),
    {
        if self.name_start > self.name_end || other.name_start > other.name_end {
            return false;
        }
        let total: usize = header.len();
        let len: usize = self.name_end - self.name_start;
        let ghost a = self.name(header@);
        let ghost b = other.name(header@);
        if len != other.name_end - other.name_start {
            assert(a.len() != b.len());
            return false;
        }
        let mut i: usize = 0;
        while i < len
            invariant
                i <= len == a.len() == b.len(),
                self.name_start + len <= total == header@.len(),
                other.name_start + len <= total,
                self.has_name(header@, *other) == (a == b),
                a == header@.subrange(self.name_start as int, self.name_start + len),
                b == header@.subrange(other.name_start as int, other.name_start + len),
                forall|k: int| 0 <= k < i ==> #[trigger] a[k] == b[k],
            decreases len - i,
        {
            if header[self.name_start + i] != header[other.name_start + i] {
                assert(a[i as int] != b[i as int]);
                return false;
            }
            i = i + 1;
        }
        proof {
            assert(a =~= b);
        }
        true
    }

    fn check_field(&self, header: &[u8]) -> (b: bool)
        requires
            self.within(header@.len() as int),
        ensures
            b == self.opens_offsets(header@),
    {
        if self.listed {
            self.parts == 2
        } else if self.field_start <= self.field_end {
            spells_offsets(
                vstd::slice::slice_subrange(header, self.field_start, self.field_end),
            )
        } else {
            false
        }
    }
}

/// Whether a string of a header spells `data_offsets`.
fn spells_offsets(raw: &[u8]) -> (b: bool)
    ensures
        b == spells(raw@, offsets_word()),
{
    let word: [u8; 12] = [100, 97, 116, 97, 95, 111, 102, 102, 115, 101, 116, 115];
    let len: usize = raw.len();
    let mut r: usize = 0;
    let mut w: usize = 0;
    proof {
        assert(word@ =~= offsets_word());
        assert(raw@.skip(0) =~= raw@);
        assert(word@.skip(0) =~= word@);
    }
    while w < 12
        invariant
            w <= 12 == word@.len(),
            word@ == offsets_word(),
            r <= len == raw@.len(),
            spells(raw@, word@) == spells(raw@.skip(r as int), word@.skip(w as int)),
        decreases 12 - w,
    {
        proof {
            assert(word@.skip(w as int).skip(1) =~= word@.skip(w + 1));
        }
        if r < len && raw[r] == word[w] {
            proof {
                assert(raw@.skip(r as int).skip(1) =~= raw@.skip(r + 1));
            }
            r = r + 1;
        } else if len - r >= 6 && is_escape(raw, r, word[w]) {
            proof {
                assert(raw@.skip(r as int).skip(6) =~= raw@.skip(r + 6));
            }
            r = r + 6;
        } else {
            return false;
        }
        w = w + 1;
    }
    r == len
}

fn hex_of(byte: u8) -> (value: u8)
    ensures
        value == hex_value(byte),
{
    if 0x30 <= byte && byte <= 0x39 {
        byte - 0x30
    } else if 0x41 <= byte && byte <= 0x46 {
        byte - 0x41 + 10
    } else if 0x61 <= byte && byte <= 0x66 {
        byte - 0x61 + 10
    } else {
        16
    }
}

fn is_escape(raw: &[u8], r: usize, byte: u8) -> (b: bool)
    requires
        r + 6 <= raw@.len(),
    ensures
        b == starts_with_escape(raw@.skip(r as int), byte),
{
    let len: usize = raw.len();
    let high: u8 = hex_of(raw[r + 4]);
    let low: u8 = hex_of(raw[r + 5]);
    raw[r] == 0x5c && raw[r + 1] == 0x75 && raw[r + 2] == 0x30 && raw[r + 3] == 0x30 && high < 16
        && low < 16 && 16 * high + low == byte
}

/// The number whose digits end before place `i`, or 0 where none stands there.
pub open spec fn number_before(header: Seq<u8>, i: int) -> int
    decreases i,
{
    if i <= 0 || !(0x30 <= header[i - 1] <= 0x39) {
        0
    } else {
        10 * number_before(header, i - 1) + (header[i - 1] - 0x30)
    }
}

/// Whether the tensor at place `i` is replaced: another one of the same name stands
/// behind that place. Of tensors of one name, the last counts.
pub open spec fn is_replaced(header: Seq<u8>, i: int) -> bool {
    exists|j: int|
        i < j <= header.len() && #[trigger] HeaderScan::ends_name(header, j) && HeaderScan::of(
            header,
            j,
        ).has_name(header, HeaderScan::of(header, i))
}

/// No tensor that counts ends so far out that the sum of its end, the length of the
/// header and the eight bytes before it is no machine number.
pub open spec fn ends_fit(file: Seq<u8>) -> bool {
    let header = header_of(file);
    forall|i: int|
        0 <= i <= header.len() && HeaderScan::of(header, i).in_end() && #[trigger] number_before(
            header,
            i,
        ) + 8 + header.len() > usize::MAX ==> is_replaced(header, i)
}

/// Whether the tensor at place `i` is replaced.
fn check_replaced(header: &[u8], i: usize, scan: &HeaderScan) -> (b: bool)
    requires
        i <= header@.len() <= MAX_HEADER_LEN,
        *scan == HeaderScan::of(header@, i as int),
        scan.within(i as int),
    ensures
        b == is_replaced(header@, i as int),
{
    let len: usize = header.len();
    let mut now: HeaderScan = *scan;
    let mut j: usize = i;
    while j < len
        invariant
            i <= j <= len == header@.len() <= MAX_HEADER_LEN,
            *scan == HeaderScan::of(header@, i as int),
            scan.within(i as int),
            now == HeaderScan::of(header@, j as int),
            now.within(j as int),
            forall|k: int|
                i < k <= j && #[trigger] HeaderScan::ends_name(header@, k) ==> !HeaderScan::of(
                    header@,
                    k,
                ).has_name(header@, *scan),
        decreases len - j,
    {
        let next = now.step(header, j);
        assert(next == HeaderScan::of(header@, j + 1));
        let ended: bool = match now.quoting {
            Quoting::Inside => now.depth == 1 && header[j] == 0x22,
            _ => false,
        };
        assert(ended == HeaderScan::ends_name(header@, j + 1));
        if ended && next.same_name(header, scan) {
            return true;
        }
        now = next;
        j = j + 1;
    }
    false
}

/// Whether the ends of all tensors in the header of a file fit.
pub(crate) fn check_ends(file: &[u8]) -> (fit: bool)
    ensures
        fit == ends_fit(file@),
{
    let len: usize = file.len();
    if len < 8 {
        proof {
            lemma_empty_header_fits(file@);
        }
        return true;
    }
    let n: u64 = read_u64(file, 0);
    if n > MAX_HEADER_LEN as u64 || n + 8 > len as u64 {
        proof {
            lemma_empty_header_fits(file@);
        }
        return true;
    }
    let count: usize = n as usize;
    let header = vstd::slice::slice_subrange(file, 8, 8 + count);
    let most: usize = usize::MAX - 8 - count;
    let mut scan = HeaderScan {
        quoting: Quoting::Outside,
        depth: 0,
        listed: false,
        parts: 0,
        offsets: false,
        numbers: 0,
        name_start: 0,
        name_end: 0,
        field_start: 0,
        field_end: 0,
    };
    let mut number: u128 = 0;
    let mut i: usize = 0;
    while i < count
        invariant
            i <= count == header@.len() <= MAX_HEADER_LEN,
            header@ == header_of(file@),
            most == usize::MAX - 8 - count,
            scan == HeaderScan::of(header@, i as int),
            scan.within(i as int),
            number == min_of(number_before(header@, i as int), most + 1),
            forall|j: int|
                0 <= j <= i && HeaderScan::of(header@, j).in_end() && #[trigger] number_before(
                    header@,
                    j,
                ) > most ==> is_replaced(header@, j),
        decreases count - i,
    {
        let byte: u8 = header[i];
        scan = scan.step(header, i);
        if 0x30 <= byte && byte <= 0x39 {
            let next: u128 = 10 * number + (byte - 0x30) as u128;
            number = if next > most as u128 {
                most as u128 + 1
            } else {
                next
            };
        } else {
            number = 0;
        }
        i = i + 1;
        assert(scan == HeaderScan::of(header@, i as int));
        if number > most as u128 && scan.is_in_end() {
            if !check_replaced(header, i, &scan) {
                assert(number_before(header@, i as int) > most);
                return false;
            }
        }
    }
    true
}

/// A file whose header is not read has no ends that do not fit.
proof fn lemma_empty_header_fits(file: Seq<u8>)
    requires
        header_of(file).len() == 0,
    ensures
        ends_fit(file),
{
    assert(HeaderScan::of(header_of(file), 0) == HeaderScan::start());
}

// ---------------------------------------------------------------------------
// What the scan means
// ---------------------------------------------------------------------------

/// The header is as many bytes as the first eight say, behind them; a file that is
/// shorter than that, or promises more than 100 million, has none.
pub proof fn law_header_has_the_promised_length(file: Seq<u8>)
    ensures
        file.len() < 8 ==> header_of(file).len() == 0,
        file.len() >= 8 ==> {
            let n = le_value(file.subrange(0, 8));
            &&& 0 <= n <= 100_000_000 && 8 + n <= file.len() ==> header_of(file).len() == n && (
            forall|i: int| 0 <= i < n ==> #[trigger] header_of(file)[i] == file[8 + i])
            &&& n > 100_000_000 || 8 + n > file.len() ==> header_of(file).len() == 0
        },
{
}

/// Hexadecimal digits count from 0 to 15, in capitals or not, and nothing else counts.
pub proof fn law_hexadecimal_digits(byte: u8)
    ensures
        48 <= byte <= 57 ==> hex_value(byte) == byte - 48,
        65 <= byte <= 70 ==> hex_value(byte) == byte - 55,
        97 <= byte <= 102 ==> hex_value(byte) == byte - 87,
        !(48 <= byte <= 57) && !(65 <= byte <= 70) && !(97 <= byte <= 102) ==> hex_value(byte)
            == 16,
{
}

/// The field that holds a tensor's place is named `data_offsets`.
pub proof fn law_offsets_have_this_name(i: int)
    requires
        0 <= i < 12,
    ensures
        offsets_word().len() == "data_offsets"@.len(),
        offsets_word()[i] == "data_offsets"@[i] as int,
{
    reveal_strlit("data_offsets");
}

/// A byte stands for itself, and a word for its bytes one behind the other.
pub proof fn law_words_spell_themselves(word: Seq<u8>)
    ensures
        spells(word, word),
    decreases word.len(),
{
    if word.len() > 0 {
        law_words_spell_themselves(word.skip(1));
    }
}

/// A byte may also be spelled as a backslash, a `u`, two zeros and its two hexadecimal
/// digits.
pub proof fn law_escapes_spell_a_byte(raw: Seq<u8>, word: Seq<u8>, high: u8, low: u8)
    requires
        hex_value(high) < 16,
        hex_value(low) < 16,
        spells(raw, word),
        16 * hex_value(high) + hex_value(low) != 0x5c,
    ensures
        spells(
            seq![0x5cu8, 0x75, 0x30, 0x30, high, low] + raw,
            seq![(16 * hex_value(high) + hex_value(low)) as u8] + word,
        ),
{
    let byte = (16 * hex_value(high) + hex_value(low)) as u8;
    let longer = seq![0x5cu8, 0x75, 0x30, 0x30, high, low] + raw;
    let spelled = seq![byte] + word;
    assert(longer.skip(6) =~= raw);
    assert(spelled.skip(1) =~= word);
    assert(longer[4] == high && longer[5] == low);
    assert(starts_with_escape(longer, byte));
}

/// Nothing else spells a word: text that starts otherwise than with a backslash has to
/// start with the word's first byte, and no text spells nothing.
pub proof fn law_other_text_spells_nothing(raw: Seq<u8>, word: Seq<u8>)
    requires
        spells(raw, word),
    ensures
        raw.len() >= word.len(),
        word.len() == 0 <==> raw.len() == 0,
        word.len() > 0 && raw[0] != 0x5c ==> raw[0] == word[0] && spells(raw.skip(1), word.skip(1)),
        word.len() > 0 && raw[0] == 0x5c && word[0] != 0x5c ==> raw.len() >= 6 && raw[1] == 0x75
            && raw[2] == 0x30 && raw[3] == 0x30 && 16 * hex_value(raw[4]) + hex_value(raw[5])
            == word[0] && spells(raw.skip(6), word.skip(1)),
    decreases word.len(),
{
    if word.len() > 0 {
        if raw.len() > 0 && raw[0] == word[0] {
            law_other_text_spells_nothing(raw.skip(1), word.skip(1));
        } else {
            law_other_text_spells_nothing(raw.skip(6), word.skip(1));
        }
    }
}

/// Quotation marks open and close quotes, but for one behind a backslash inside them,
/// where every byte is passed over once.
pub proof fn law_quotes_open_and_close(header: Seq<u8>, i: int)
    requires
        0 <= i < header.len(),
    ensures
        HeaderScan::of(header, 0).quoting is Outside,
        ({
            let scan = HeaderScan::of(header, i);
            let next = HeaderScan::of(header, i + 1);
            &&& scan.quoting is Outside ==> (if header[i] == 0x22 {
                next.quoting is Inside
            } else {
                next.quoting is Outside
            })
            &&& scan.quoting is Inside ==> (if header[i] == 0x22 {
                next.quoting is Outside
            } else if header[i] == 0x5c {
                next.quoting is Escaped
            } else {
                next.quoting is Inside
            })
            &&& scan.quoting is Escaped ==> next.quoting is Inside
        }),
{
}

/// Outside quotes, an opening brace or bracket goes one level down and a closing one goes
/// back up; inside quotes the level stays, and so does all else but where names end.
pub proof fn law_brackets_nest(header: Seq<u8>, i: int)
    requires
        0 <= i < header.len(),
    ensures
        HeaderScan::of(header, 0).depth == 0,
        ({
            let scan = HeaderScan::of(header, i);
            let next = HeaderScan::of(header, i + 1);
            let opens = header[i] == 0x7b || header[i] == 0x5b;
            let closes = header[i] == 0x7d || header[i] == 0x5d;
            let outside = scan.quoting is Outside;
            &&& outside && opens && scan.depth < usize::MAX ==> next.depth == scan.depth + 1
            &&& outside && closes && scan.depth > 0 ==> next.depth == scan.depth - 1
            &&& outside && closes && scan.depth == 0 ==> next.depth == 0
            &&& !outside || !(opens || closes) ==> next.depth == scan.depth
            &&& !outside ==> next.listed == scan.listed && next.parts == scan.parts && next.offsets
                == scan.offsets && next.numbers == scan.numbers && next.name_start
                == scan.name_start && next.field_start == scan.field_start
        }),
{
}

/// Every byte changes what it is for and nothing else: brackets the level, and what starts
/// with them on the first two; commas a count on the second and third level; quotation
/// marks and what is inside quotes the quoting, and where names start and end.
pub proof fn law_other_bytes_change_nothing(header: Seq<u8>, i: int)
    requires
        0 <= i < header.len(),
    ensures
        ({
            let scan = HeaderScan::of(header, i);
            let next = HeaderScan::of(header, i + 1);
            let byte = header[i];
            let outside = scan.quoting is Outside;
            let opens = byte == 0x7b || byte == 0x5b;
            let closes = byte == 0x7d || byte == 0x5d;
            &&& outside && !opens && !closes && byte != 0x22 && byte != 0x2c ==> next == scan
            &&& outside && byte == 0x2c && scan.depth != 2 && scan.depth != 3 ==> next == scan
            &&& outside && byte == 0x2c && scan.depth == 2 ==> next == (HeaderScan {
                parts: next.parts,
                ..scan
            })
            &&& outside && byte == 0x2c && scan.depth == 3 ==> next == (HeaderScan {
                numbers: next.numbers,
                ..scan
            })
            &&& outside && closes ==> next == (HeaderScan { depth: next.depth, ..scan })
            &&& outside && opens && scan.depth != 1 && scan.depth != 2 ==> next == (HeaderScan {
                depth: next.depth,
                ..scan
            })
            &&& outside && opens && scan.depth == 1 ==> next == (HeaderScan {
                depth: next.depth,
                listed: next.listed,
                parts: next.parts,
                ..scan
            })
            &&& outside && opens && scan.depth == 2 ==> next == (HeaderScan {
                depth: next.depth,
                offsets: next.offsets,
                numbers: next.numbers,
                ..scan
            })
            &&& outside && byte == 0x22 ==> next == (HeaderScan {
                quoting: next.quoting,
                name_start: next.name_start,
                field_start: next.field_start,
                ..scan
            })
            &&& !outside ==> next == (HeaderScan {
                quoting: next.quoting,
                name_end: next.name_end,
                field_end: next.field_end,
                ..scan
            })
        }),
{
}

/// Before the first byte nothing was named or counted.
pub proof fn law_scan_starts_with_nothing(header: Seq<u8>)
    ensures
        ({
            let scan = HeaderScan::of(header, 0);
            &&& !scan.listed && scan.parts == 0 && !scan.offsets && scan.numbers == 0
            &&& scan.name_start == 0 && scan.name_end == 0
            &&& scan.field_start == 0 && scan.field_end == 0
        }),
{
}

/// On the first level the last quoted text is the name of a tensor, and on the second
/// that of one of its fields.
pub proof fn law_names_lie_between_quotes(header: Seq<u8>, i: int)
    requires
        0 <= i < header.len() < usize::MAX,
    ensures
        ({
            let scan = HeaderScan::of(header, i);
            let next = HeaderScan::of(header, i + 1);
            let opens = scan.quoting is Outside && header[i] == 0x22;
            let closes = scan.quoting is Inside && header[i] == 0x22;
            &&& opens && scan.depth == 1 ==> next.name_start == i + 1
            &&& !(opens && scan.depth == 1) ==> next.name_start == scan.name_start
            &&& closes && scan.depth == 1 ==> next.name_end == i
            &&& !(closes && scan.depth == 1) ==> next.name_end == scan.name_end
            &&& opens && scan.depth == 2 ==> next.field_start == i + 1
            &&& !(opens && scan.depth == 2) ==> next.field_start == scan.field_start
            &&& closes && scan.depth == 2 ==> next.field_end == i
            &&& !(closes && scan.depth == 2) ==> next.field_end == scan.field_end
            &&& HeaderScan::ends_name(header, i + 1) <==> closes && scan.depth == 1
        }),
{
}

/// A list on the third level is a tensor's place if the field before it is named so or,
/// in a tensor that is written as a list, if it is the third entry. The number behind its
/// first comma is the end.
pub proof fn law_places_are_found(header: Seq<u8>, i: int)
    requires
        0 <= i < header.len() < usize::MAX,
    ensures
        ({
            let scan = HeaderScan::of(header, i);
            let next = HeaderScan::of(header, i + 1);
            let outside = scan.quoting is Outside;
            let named = scan.field_start <= scan.field_end && spells(
                header.subrange(scan.field_start as int, scan.field_end as int),
                offsets_word(),
            );
            &&& outside && scan.depth == 1 && header[i] == 0x5b ==> next.listed && next.parts == 0
            &&& outside && scan.depth == 1 && header[i] == 0x7b ==> !next.listed && next.parts == 0
            &&& outside && scan.depth == 2 && header[i] == 0x5b ==> next.numbers == 0
                && next.offsets == (if scan.listed {
                scan.parts == 2
            } else {
                named
            })
            &&& outside && scan.depth == 2 && header[i] == 0x7b ==> next.numbers == 0
                && !next.offsets
            &&& outside && scan.depth == 2 && header[i] == 0x2c && scan.parts < usize::MAX
                ==> next.parts == scan.parts + 1
            &&& outside && scan.depth == 3 && header[i] == 0x2c && scan.numbers < usize::MAX
                ==> next.numbers == scan.numbers + 1
            &&& outside && scan.depth == 3 ==> next.offsets == scan.offsets && next.listed
                == scan.listed && next.parts == scan.parts
            &&& outside && scan.depth > 3 ==> next.offsets == scan.offsets && next.numbers
                == scan.numbers && next.listed == scan.listed && next.parts == scan.parts
            &&& scan.in_end() <==> outside && scan.depth == 3 && scan.offsets && scan.numbers == 1
        }),
{
}

/// The number before a place is made of the digits right before it.
pub proof fn law_numbers_are_the_digits_before(header: Seq<u8>, i: int)
    requires
        0 <= i < header.len(),
    ensures
        number_before(header, 0) == 0,
        48 <= header[i] <= 57 ==> number_before(header, i + 1) == 10 * number_before(header, i) + (
        header[i] - 48),
        !(48 <= header[i] <= 57) ==> number_before(header, i + 1) == 0,
{
}

/// A tensor is replaced if its name is given again later on; names are the same if their
/// bytes are.
pub proof fn law_later_tensors_replace_earlier_ones(header: Seq<u8>, i: int, j: int)
    requires
        0 <= i < j <= header.len(),
        HeaderScan::ends_name(header, j),
        HeaderScan::of(header, i).name_start <= HeaderScan::of(header, i).name_end,
        HeaderScan::of(header, j).name_start <= HeaderScan::of(header, j).name_end,
        header.subrange(
            HeaderScan::of(header, i).name_start as int,
            HeaderScan::of(header, i).name_end as int,
        ) == header.subrange(
            HeaderScan::of(header, j).name_start as int,
            HeaderScan::of(header, j).name_end as int,
        ),
    ensures
        is_replaced(header, i),
{
    assert(HeaderScan::of(header, j).has_name(header, HeaderScan::of(header, i)));
}

/// Nothing else replaces a tensor.
pub proof fn law_a_replaced_tensor_is_named_again(header: Seq<u8>, i: int) -> (j: int)
    requires
        is_replaced(header, i),
    ensures
        i < j <= header.len(),
        HeaderScan::ends_name(header, j),
        HeaderScan::of(header, j).name_start <= HeaderScan::of(header, j).name_end,
        HeaderScan::of(header, i).name_start <= HeaderScan::of(header, i).name_end,
        header.subrange(
            HeaderScan::of(header, i).name_start as int,
            HeaderScan::of(header, i).name_end as int,
        ) == header.subrange(
            HeaderScan::of(header, j).name_start as int,
            HeaderScan::of(header, j).name_end as int,
        ),
{
    let j = choose|j: int|
        i < j <= header.len() && #[trigger] HeaderScan::ends_name(header, j) && HeaderScan::of(
            header,
            j,
        ).has_name(header, HeaderScan::of(header, i));
    j
}

/// Where the ends fit, every end of a tensor that is not replaced is a machine number,
/// with the header and its length before it; a file with one that is not does not fit.
pub proof fn law_ends_fit_behind_the_header(file: Seq<u8>, i: int)
    requires
        0 <= i <= header_of(file).len(),
        HeaderScan::of(header_of(file), i).in_end(),
        !is_replaced(header_of(file), i),
    ensures
        ends_fit(file) ==> number_before(header_of(file), i) + 8 + header_of(file).len()
            <= usize::MAX,
        number_before(header_of(file), i) + 8 + header_of(file).len() > usize::MAX ==> !ends_fit(
            file,
        ),
{
}

/// A file of which no end is too large fits, and so does one without a header.
pub proof fn law_small_ends_fit(file: Seq<u8>)
    requires
        forall|i: int|
            0 <= i <= header_of(file).len() && HeaderScan::of(header_of(file), i).in_end()
                ==> #[trigger] number_before(header_of(file), i) + 8 + header_of(file).len()
                <= usize::MAX,
    ensures
        ends_fit(file),
{
}

} // verus!
