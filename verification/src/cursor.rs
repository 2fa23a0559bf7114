//! A bounded, endian-aware cursor over the bytes of one section.

use vstd::prelude::*;
use vstd::slice::*;
use crate::error::Error;
use crate::text::{decode_text, decode_text_lossy, lossy_text, text_of};

verus! {

/// The byte order of multi-byte values.
#[derive(Clone, Copy, Debug, PartialEq, Eq, Structural)]
pub enum Endian {
    Little,
    Big,
}

/// Whether offsets and lengths take four bytes or eight.
#[derive(Clone, Copy, Debug, PartialEq, Eq, Structural)]
pub enum Format {
    Dwarf32,
    Dwarf64,
}

impl Format {
    /// The number of bytes that an offset takes.
    pub open spec fn spec_offset_width(self) -> nat {
        match self {
            Format::Dwarf32 => 4,
            Format::Dwarf64 => 8,
        }
    }

    pub fn offset_width(self) -> (w: usize)
        ensures
            w == self.spec_offset_width(),
    {
        match self {
            Format::Dwarf32 => 4,
            Format::Dwarf64 => 8,
        }
    }
}

/// The number that the bytes spell with the least significant byte first.
pub open spec fn le_value(bytes: Seq<u8>) -> nat
    decreases bytes.len(),
{
    if bytes.len() == 0 {
        0
    } else {
        bytes[0] as nat + 256 * le_value(bytes.drop_first())
    }
}

/// The number that the bytes spell with the most significant byte first.
pub open spec fn be_value(bytes: Seq<u8>) -> nat
    decreases bytes.len(),
{
    if bytes.len() == 0 {
        0
    } else {
        256 * be_value(bytes.drop_last()) + bytes.last() as nat
    }
}

/// The number that the bytes spell in the given byte order.
pub open spec fn fixed_value(endian: Endian, bytes: Seq<u8>) -> nat {
    match endian {
        Endian::Little => le_value(bytes),
        Endian::Big => be_value(bytes),
    }
}

/// 256 to the power of `n`.
pub open spec fn pow256(n: nat) -> nat
    decreases n,
{
    if n == 0 {
        1
    } else {
        256 * pow256((n - 1) as nat)
    }
}

/// A number spelled by `n` bytes is below 256 to the `n`, in either order.
pub proof fn lemma_value_bound(bytes: Seq<u8>)
    ensures
        le_value(bytes) < pow256(bytes.len()),
        be_value(bytes) < pow256(bytes.len()),
    decreases bytes.len(),
{
    if bytes.len() > 0 {
        lemma_value_bound(bytes.drop_first());
        lemma_value_bound(bytes.drop_last());
    }
}

/// Read backwards, the bytes spell in one order what they spell forwards
/// in the other.
pub proof fn lemma_reverse_swaps_order(bytes: Seq<u8>)
    ensures
        be_value(bytes.reverse()) == le_value(bytes),
    decreases bytes.len(),
{
    if bytes.len() > 0 {
        lemma_reverse_swaps_order(bytes.drop_first());
        assert(bytes.reverse().drop_last() =~= bytes.drop_first().reverse());
    }
}

/// The powers of 256 up to the eighth.
proof fn lemma_pow256_values()
    ensures
        pow256(0) == 1,
        pow256(1) == 0x100,
        pow256(2) == 0x1_0000,
        pow256(3) == 0x100_0000,
        pow256(4) == 0x1_0000_0000,
        pow256(5) == 0x100_0000_0000,
        pow256(6) == 0x1_0000_0000_0000,
        pow256(7) == 0x100_0000_0000_0000,
        pow256(8) == 0x1_0000_0000_0000_0000,
{
    reveal_with_fuel(pow256, 10);
}

/// The powers of 256 grow with the exponent.
proof fn lemma_pow256_monotonic(a: nat, b: nat)
    requires
        a <= b,
    ensures
        pow256(a) <= pow256(b),
        pow256(a) >= 1,
    decreases b,
{
    if a < b {
        lemma_pow256_monotonic(a, (b - 1) as nat);
    } else if a > 0 {
        lemma_pow256_monotonic((a - 1) as nat, (a - 1) as nat);
    }
}

/// What a cursor stands for: where its range starts in the section, how far
/// it has advanced in the range, and the bytes that are still ahead.
pub struct CursorView {
    /// Offset in the section of the first byte of the range.
    pub base: nat,
    /// Number of bytes of the range that lie behind the cursor.
    pub position: nat,
    /// The bytes of the range from the position to its end.
    pub remaining: Seq<u8>,
    pub endian: Endian,
}

/// The supported widths of an address, in bytes.
pub open spec fn supported_address_size(size: u8) -> bool {
    size == 1 || size == 2 || size == 4 || size == 8
}

impl CursorView {
    /// Offset in the section of the next byte to be read.
    pub open spec fn offset(self) -> nat {
        self.base + self.position
    }

    /// The cursor after it has passed over `n` bytes.
    pub open spec fn advance(self, n: nat) -> CursorView {
        CursorView {
            position: self.position + n,
            remaining: self.remaining.skip(n as int),
            ..self
        }
    }

    /// A cursor of its own over the next `n` bytes.
    pub open spec fn carve(self, n: nat) -> CursorView {
        CursorView {
            base: self.base + self.position,
            position: 0,
            remaining: self.remaining.take(n as int),
            endian: self.endian,
        }
    }

    /// The number that the next `width` bytes spell.
    pub open spec fn peek_fixed(self, width: nat) -> nat {
        fixed_value(self.endian, self.remaining.take(width as int))
    }

    /// Whether `d` is the distance to the first occurrence of `byte`.
    pub open spec fn first_at(self, byte: u8, d: int) -> bool {
        &&& 0 <= d < self.remaining.len()
        &&& self.remaining[d] == byte
        &&& forall|j: int| 0 <= j < d ==> self.remaining[j] != byte
    }

    /// The distance to the first occurrence of `byte` ahead, which fails
    /// where there is none.
    pub open spec fn find(self, byte: u8) -> Result<usize, Error> {
        if exists|d: int| self.first_at(byte, d) {
            Ok((choose|d: int| self.first_at(byte, d)) as usize)
        } else {
            Err(Error::Truncated)
        }
    }

    /// Passing over `n` bytes: the outcome, and the cursor afterwards. With
    /// fewer than `n` bytes ahead it fails and the cursor stays.
    pub open spec fn skip(self, n: nat) -> (Result<(), Error>, CursorView) {
        if n <= self.remaining.len() {
            (Ok(()), self.advance(n))
        } else {
            (Err(Error::Truncated), self)
        }
    }

    /// Carving off the next `n` bytes: the carved cursor, and this cursor
    /// afterwards. With fewer than `n` bytes ahead it fails and the cursor
    /// stays.
    pub open spec fn split(self, n: nat) -> (Result<CursorView, Error>, CursorView) {
        if n <= self.remaining.len() {
            (Ok(self.carve(n)), self.advance(n))
        } else {
            (Err(Error::Truncated), self)
        }
    }

    /// Reading the next `n` bytes: the bytes, and the cursor afterwards.
    pub open spec fn read_bytes(self, n: nat) -> (Result<Seq<u8>, Error>, CursorView) {
        if n <= self.remaining.len() {
            (Ok(self.remaining.take(n as int)), self.advance(n))
        } else {
            (Err(Error::Truncated), self)
        }
    }

    /// Reading a number of `width` bytes: the number, and the cursor
    /// afterwards.
    pub open spec fn read_fixed(self, width: nat) -> (Result<u64, Error>, CursorView) {
        if width <= self.remaining.len() {
            (Ok(self.peek_fixed(width) as u64), self.advance(width))
        } else {
            (Err(Error::Truncated), self)
        }
    }

    /// Reading an address of `size` bytes. A size that no address has is
    /// refused whatever lies ahead.
    pub open spec fn read_address(self, size: u8) -> (Result<u64, Error>, CursorView) {
        if supported_address_size(size) {
            self.read_fixed(size as nat)
        } else {
            (Err(Error::UnsupportedAddressSize(size)), self)
        }
    }
}

/// Skipping part of what is ahead and then the rest brings the cursor to
/// the end of its range, where not even one more byte can be skipped.
pub proof fn lemma_skip_reaches_end(c: CursorView, n: nat)
    requires
        n <= c.remaining.len(),
    ensures
        ({
            let (first, mid) = c.skip(n);
            let (second, end) = mid.skip((c.remaining.len() - n) as nat);
            &&& first is Ok
            &&& second is Ok
            &&& end.remaining.len() == 0
            &&& end.position == c.position + c.remaining.len()
            &&& end.skip(1) == (Err::<(), Error>(Error::Truncated), end)
        }),
{
}

/// Splitting off exactly what is ahead succeeds: the carved cursor holds
/// those bytes and starts where the parent stood, and the parent has passed
/// over all of them and has nothing left.
pub proof fn lemma_split_whole(c: CursorView)
    ensures
        ({
            let (child, parent) = c.split(c.remaining.len());
            &&& child is Ok
            &&& child->Ok_0.remaining == c.remaining
            &&& child->Ok_0.position == 0
            &&& child->Ok_0.offset() == c.offset()
            &&& parent.position == c.position + c.remaining.len()
            &&& parent.remaining.len() == 0
        }),
{
    assert(c.remaining.take(c.remaining.len() as int) =~= c.remaining);
}

/// A number of at most eight bytes fits in 64 bits.
pub proof fn lemma_fixed_value_fits(endian: Endian, bytes: Seq<u8>)
    requires
        bytes.len() <= 8,
    ensures
        fixed_value(endian, bytes) <= u64::MAX,
{
    lemma_value_bound(bytes);
    lemma_pow256_monotonic(bytes.len(), 8);
    lemma_pow256_values();
}

/// A cursor over an owned range of bytes of one section.
#[derive(Debug)]
pub struct Cursor {
    data: Vec<u8>,
    endian: Endian,
    /// Index in `data` of the next byte to be read.
    data_offset: usize,
    /// Index in `data` one past the last byte of the range.
    data_end: usize,
    section_offset: usize,
}

impl View for Cursor {
    type V = CursorView;

    closed spec fn view(&self) -> CursorView {
        CursorView {
            base: self.section_offset as nat,
            position: self.data_offset as nat,
            remaining: self.data@.subrange(self.data_offset as int, self.data_end as int),
            endian: self.endian,
        }
    }
}

impl Clone for Cursor {
    fn clone(&self) -> (c: Cursor)
        ensures
            c@ == self@,
    {
        proof {
            use_type_invariant(self);
        }
        Cursor {
            data: self.data.clone(),
            endian: self.endian,
            data_offset: self.data_offset,
            data_end: self.data_end,
            section_offset: self.section_offset,
        }
    }
}

impl Cursor {
    #[verifier::type_invariant]
    spec fn inv(&self) -> bool {
        &&& self.data_offset <= self.data_end <= self.data.len()
        &&& self.section_offset + self.data.len() <= usize::MAX
    }

    /// A cursor at the start of `data`, which is taken to start the section.
    pub fn new(data: Vec<u8>, endian: Endian) -> (c: Cursor)
        ensures
            c@ == (CursorView { base: 0, position: 0, remaining: data@, endian }),
    {
        let data_end = data.len();
        assert(data@.subrange(0, data_end as int) =~= data@);
        Cursor { data, endian, data_offset: 0, data_end, section_offset: 0 }
    }

    pub fn endian(&self) -> (e: Endian)
        ensures
            e == self@.endian,
    {
        self.endian
    }

    /// The number of bytes that are still ahead.
    pub fn len(&self) -> (n: usize)
        ensures
            n == self@.remaining.len(),
    {
        proof {
            use_type_invariant(self);
        }
        self.data_end - self.data_offset
    }

    pub fn is_empty(&self) -> (b: bool)
        ensures
            b == (self@.remaining.len() == 0),
    {
        self.len() == 0
    }

    /// The number of bytes of the range that lie behind the cursor.
    pub fn position(&self) -> (p: usize)
        ensures
            p == self@.position,
    {
        self.data_offset
    }

    /// Offset in the section of the next byte to be read.
    pub fn offset(&self) -> (o: usize)
        ensures
            o == self@.offset(),
    {
        proof {
            use_type_invariant(self);
        }
        self.section_offset + self.data_offset
    }

    /// How far this cursor stands behind `base` in the section.
    pub fn offset_from(&self, base: &Cursor) -> (d: usize)
        requires
            base@.offset() <= self@.offset(),
        ensures
            d == self@.offset() - base@.offset(),
    {
        self.offset() - base.offset()
    }

    /// Drops every byte, those behind the cursor too.
    pub fn empty(&mut self)
        ensures
            final(self)@ == (CursorView {
                position: 0,
                remaining: Seq::<u8>::empty(),
                ..old(self)@
            }),
    {
        proof {
            use_type_invariant(&*self);
        }
        self.data_offset = 0;
        self.data_end = 0;
        assert(self.data@.subrange(0, 0) =~= Seq::<u8>::empty());
    }

    /// Discards the bytes beyond the first `n` that are ahead; with fewer
    /// than `n` ahead nothing changes.
    pub fn truncate(&mut self, n: usize)
        ensures
            n <= old(self)@.remaining.len() ==> final(self)@ == (CursorView {
                remaining: old(self)@.remaining.take(n as int),
                ..old(self)@
            }),
            n > old(self)@.remaining.len() ==> final(self)@ == old(self)@,
    {
        proof {
            use_type_invariant(&*self);
        }
        if n <= self.data_end - self.data_offset {
            self.data_end = self.data_offset + n;
            assert(self.data@.subrange(self.data_offset as int, self.data_end as int)
                =~= old(self).data@.subrange(
                old(self).data_offset as int,
                old(self).data_end as int,
            ).take(n as int));
        }
    }

    /// Advances over `n` bytes; with fewer ahead the cursor stays where it is.
    pub fn skip(&mut self, n: usize) -> (r: Result<(), Error>)
        ensures
            (r, final(self)@) == old(self)@.skip(n as nat),
    {
        proof {
            use_type_invariant(&*self);
        }
        if self.data_end - self.data_offset < n {
            Err(Error::Truncated)
        } else {
            self.data_offset += n;
            assert(self.data@.subrange(self.data_offset as int, self.data_end as int)
                =~= old(self).data@.subrange(
                old(self).data_offset as int,
                old(self).data_end as int,
            ).skip(n as int));
            Ok(())
        }
    }
    /// The bytes ahead, without moving.
    pub fn slice_to_end(&self) -> (s: &[u8])
        ensures
            s@ == self@.remaining,
    {
        proof {
            use_type_invariant(self);
        }
        slice_subrange(self.data.as_slice(), self.data_offset, self.data_end)
    }

    /// The bytes ahead read as text, without moving. A strict reading fails
    /// on bytes that are not well-formed UTF-8; a lossy one replaces them.
    pub fn string_to_end(&self, lossy: bool) -> (r: Result<String, Error>)
        ensures
            lossy ==> r is Ok && r->Ok_0@ == lossy_text(self@.remaining),
            text_of(self@.remaining) is Some ==> r is Ok && r->Ok_0@ == text_of(
                self@.remaining,
            )->0,
            !lossy && text_of(self@.remaining) is None ==> r == Err::<String, Error>(
                Error::InvalidEncoding,
            ),
    {
        let bytes = self.slice_to_end();
        if lossy {
            Ok(decode_text_lossy(bytes))
        } else {
            decode_text(bytes)
        }
    }

    /// The distance to the next occurrence of `byte`.
    pub fn find(&self, byte: u8) -> (r: Result<usize, Error>)
        ensures
            r == self@.find(byte),
            match r {
                Ok(d) => self@.first_at(byte, d as int),
                Err(e) => e == Error::Truncated && forall|j: int|
                    0 <= j < self@.remaining.len() ==> self@.remaining[j] != byte,
            },
    {
        proof {
            use_type_invariant(self);
        }
        let mut i: usize = self.data_offset;
        while i < self.data_end
            invariant
                self.data_offset <= i <= self.data_end <= self.data.len(),
                forall|j: int| 0 <= j < i - self.data_offset ==> self@.remaining[j] != byte,
            decreases self.data_end - i,
        {
            if self.data[i] == byte {
                proof {
                    let d = i - self.data_offset;
                    assert(self@.first_at(byte, d));
                    let c = choose|c: int| self@.first_at(byte, c);
                    assert(c == d) by {
                        if c < d {
                            assert(self@.remaining[c] != byte);
                        } else if d < c {
                            assert(self@.remaining[d] != byte);
                        }
                    }
                }
                return Ok(i - self.data_offset);
            }
            i += 1;
        }
        Err(Error::Truncated)
    }

    /// Reads the next `n` bytes; with fewer ahead nothing is read.
    pub fn read_bytes(&mut self, n: usize) -> (r: Result<Vec<u8>, Error>)
        ensures
            final(self)@ == old(self)@.read_bytes(n as nat).1,
            match (r, old(self)@.read_bytes(n as nat).0) {
                (Ok(bytes), Ok(expected)) => bytes@ == expected,
                (Err(e), Err(expected)) => e == expected,
                _ => false,
            },
    {
        proof {
            use_type_invariant(&*self);
        }
        if self.data_end - self.data_offset < n {
            return Err(Error::Truncated);
        }
        let start = self.data_offset;
        let bytes = slice_to_vec(slice_subrange(self.data.as_slice(), start, start + n));
        self.data_offset = start + n;
        assert(bytes@ =~= old(self)@.remaining.take(n as int));
        assert(self@.remaining =~= old(self)@.remaining.skip(n as int));
        Ok(bytes)
    }

    /// Carves a cursor of its own over the next `n` bytes and passes over
    /// them. The carved cursor starts where this one stood.
    pub fn split(&mut self, n: usize) -> (r: Result<Cursor, Error>)
        ensures
            final(self)@ == old(self)@.split(n as nat).1,
            match (r, old(self)@.split(n as nat).0) {
                (Ok(child), Ok(expected)) => child@ == expected,
                (Err(e), Err(expected)) => e == expected,
                _ => false,
            },
    {
        proof {
            use_type_invariant(&*self);
        }
        if self.data_end - self.data_offset < n {
            return Err(Error::Truncated);
        }
        let start = self.data_offset;
        let data = slice_to_vec(slice_subrange(self.data.as_slice(), start, start + n));
        self.data_offset = start + n;
        assert(data@.subrange(0, n as int) =~= old(self)@.remaining.take(n as int));
        assert(self@.remaining =~= old(self)@.remaining.skip(n as int));
        Ok(
            Cursor {
                data,
                endian: self.endian,
                data_offset: 0,
                data_end: n,
                section_offset: self.section_offset + start,
            },
        )
    }

    /// Reads the next `width` bytes as an unsigned number in the cursor's
    /// byte order.
    pub fn read_fixed(&mut self, width: usize) -> (r: Result<u64, Error>)
        requires
            width <= 8,
        ensures
            (r, final(self)@) == old(self)@.read_fixed(width as nat),
    {
        proof {
            use_type_invariant(&*self);
        }
        if self.data_end - self.data_offset < width {
            return Err(Error::Truncated);
        }
        let start = self.data_offset;
        let ghost bytes = self@.remaining.take(width as int);
        let mut acc: u64 = 0;
        match self.endian {
            Endian::Big => {
                let mut i: usize = 0;
                while i < width
                    invariant
                        i <= width <= 8,
                        start + width <= self.data.len(),
                        bytes.len() == width,
                        forall|j: int| 0 <= j < width ==> bytes[j] == self.data@[start + j],
                        acc == be_value(bytes.take(i as int)),
                    decreases width - i,
                {
                    proof {
                        lemma_value_bound(bytes.take(i as int));
                        lemma_pow256_monotonic(i as nat + 1, 8);
                        lemma_pow256_values();
                        assert(bytes.take(i + 1).drop_last() =~= bytes.take(i as int));
                    }
                    acc = acc * 256 + self.data[start + i] as u64;
                    i += 1;
                }
                assert(bytes.take(width as int) =~= bytes);
            },
            Endian::Little => {
                let mut i: usize = width;
                while i > 0
                    invariant
                        i <= width <= 8,
                        start + width <= self.data.len(),
                        bytes.len() == width,
                        forall|j: int| 0 <= j < width ==> bytes[j] == self.data@[start + j],
                        acc == le_value(bytes.subrange(i as int, width as int)),
                    decreases i,
                {
                    proof {
                        lemma_value_bound(bytes.subrange(i as int, width as int));
                        lemma_pow256_monotonic((width - i) as nat + 1, 8);
                        lemma_pow256_values();
                        assert(bytes.subrange(i - 1, width as int).drop_first() =~= bytes.subrange(
                            i as int,
                            width as int,
                        ));
                    }
                    acc = acc * 256 + self.data[start + i - 1] as u64;
                    i -= 1;
                }
                assert(bytes.subrange(0, width as int) =~= bytes);
            },
        }
        self.data_offset = start + width;
        proof {
            assert(self@.remaining =~= old(self)@.remaining.skip(width as int));
            lemma_fixed_value_fits(self.endian, bytes);
        }
        Ok(acc)
    }

    /// Reads an address of `size` bytes. Only 1, 2, 4 and 8 are widths of
    /// an address; any other is refused before a byte is looked at.
    pub fn read_address(&mut self, size: u8) -> (r: Result<u64, Error>)
        ensures
            (r, final(self)@) == old(self)@.read_address(size),
    {
        if size == 1 || size == 2 || size == 4 || size == 8 {
            self.read_fixed(size as usize)
        } else {
            Err(Error::UnsupportedAddressSize(size))
        }
    }

    /// Reads an offset into a section: four bytes or eight, as the format
    /// says.
    pub fn read_offset(&mut self, format: Format) -> (r: Result<u64, Error>)
        ensures
            (r, final(self)@) == old(self)@.read_fixed(format.spec_offset_width()),
    {
        self.read_fixed(format.offset_width())
    }
}

} // verus!
