//! Little-endian numbers, length-prefixed byte strings and counted lists.

use vstd::prelude::*;
use vstd::slice::{slice_subrange, slice_to_vec};

verus! {

/// How many numbers a four-byte length can tell apart.
pub const U32_RANGE: u64 = 0x1_0000_0000;

/// `value` in `width` bytes, least significant byte first.
pub open spec fn le_bytes(value: nat, width: nat) -> Seq<u8>
    decreases width,
{
    if width == 0 {
        Seq::empty()
    } else {
        seq![(value % 256) as u8] + le_bytes(value / 256, (width - 1) as nat)
    }
}

/// The number that `bytes` spell, least significant byte first.
pub open spec fn le_value(bytes: Seq<u8>) -> nat
    decreases bytes.len(),
{
    if bytes.len() == 0 {
        0
    } else {
        bytes[0] as nat + 256 * le_value(bytes.drop_first())
    }
}

/// 256 to the power `width`.
pub open spec fn radix(width: nat) -> nat
    decreases width,
{
    if width == 0 {
        1
    } else {
        256 * radix((width - 1) as nat)
    }
}

/// A number in four bytes; what does not fit is cut off at the top.
pub open spec fn u32_bytes(value: int) -> Seq<u8> {
    le_bytes((value % (U32_RANGE as int)) as nat, 4)
}

/// A 64-bit number in eight bytes.
pub open spec fn u64_bytes(value: u64) -> Seq<u8> {
    le_bytes(value as nat, 8)
}

/// `data` behind its length in four bytes.
pub open spec fn sized(data: Seq<u8>) -> Seq<u8> {
    u32_bytes(data.len() as int) + data
}

/// The first `n` bytes and what follows them; `None` when there are fewer.
pub open spec fn take_bytes(bytes: Seq<u8>, n: nat) -> Option<(Seq<u8>, Seq<u8>)> {
    if n <= bytes.len() {
        Some((bytes.take(n as int), bytes.skip(n as int)))
    } else {
        None
    }
}

/// A number in the first four bytes, and what follows them.
pub open spec fn take_u32(bytes: Seq<u8>) -> Option<(u32, Seq<u8>)> {
    match take_bytes(bytes, 4) {
        Some((head, rest)) => Some((le_value(head) as u32, rest)),
        None => None,
    }
}

/// A number in the first eight bytes, and what follows them.
pub open spec fn take_u64(bytes: Seq<u8>) -> Option<(u64, Seq<u8>)> {
    match take_bytes(bytes, 8) {
        Some((head, rest)) => Some((le_value(head) as u64, rest)),
        None => None,
    }
}

/// A length in four bytes and that many bytes behind it, and what follows.
pub open spec fn take_sized(bytes: Seq<u8>) -> Option<(Seq<u8>, Seq<u8>)> {
    match take_u32(bytes) {
        Some((n, rest)) => take_bytes(rest, n as nat),
        None => None,
    }
}

/// The encodings of `items`, one behind the other.
pub open spec fn join<T>(items: Seq<T>, encode: spec_fn(T) -> Seq<u8>) -> Seq<u8>
    decreases items.len(),
{
    if items.len() == 0 {
        Seq::empty()
    } else {
        encode(items[0]) + join(items.drop_first(), encode)
    }
}

/// As many items as are there, `n` at most, and what follows them. Reading
/// stops in front of the first item that is not complete.
pub open spec fn read_items<T>(
    bytes: Seq<u8>,
    n: nat,
    decode: spec_fn(Seq<u8>) -> Option<(T, Seq<u8>)>,
) -> (Seq<T>, Seq<u8>)
    decreases n,
{
    if n == 0 {
        (Seq::empty(), bytes)
    } else {
        match decode(bytes) {
            None => (Seq::empty(), bytes),
            Some((item, rest)) => {
                let tail = read_items(rest, (n - 1) as nat, decode);
                (seq![item] + tail.0, tail.1)
            },
        }
    }
}

/// A count in four bytes and the items behind it.
pub open spec fn counted<T>(items: Seq<T>, encode: spec_fn(T) -> Seq<u8>) -> Seq<u8> {
    u32_bytes(items.len() as int) + join(items, encode)
}

/// The items of a counted list, as far as they are there: none where even the
/// count is cut short, and none from the first incomplete item on.
pub open spec fn read_counted<T>(
    bytes: Seq<u8>,
    decode: spec_fn(Seq<u8>) -> Option<(T, Seq<u8>)>,
) -> Seq<T> {
    match take_u32(bytes) {
        Some((n, rest)) => read_items(rest, n as nat, decode).0,
        None => Seq::empty(),
    }
}

/// `decode` finds `item` in front of whatever follows its encoding.
pub open spec fn reads_back<T>(
    item: T,
    encode: spec_fn(T) -> Seq<u8>,
    decode: spec_fn(Seq<u8>) -> Option<(T, Seq<u8>)>,
) -> bool {
    forall|rest: Seq<u8>| #[trigger] decode(encode(item) + rest) == Some((item, rest))
}

/// What `decode` accepts starts with the encoding of the item it finds.
pub open spec fn reads_only_encodings<T>(
    encode: spec_fn(T) -> Seq<u8>,
    decode: spec_fn(Seq<u8>) -> Option<(T, Seq<u8>)>,
) -> bool {
    forall|bytes: Seq<u8>|
        (#[trigger] decode(bytes) matches Some((item, rest)) ==> bytes == encode(item) + rest)
}

/// Powers of 256 for the widths in use.
pub proof fn lemma_radix()
    ensures
        radix(4) == U32_RANGE,
        radix(8) == u64::MAX + 1,
{
    reveal_with_fuel(radix, 9);
}

/// A number written in `width` bytes takes `width` bytes.
pub proof fn lemma_le_bytes_len(value: nat, width: nat)
    ensures
        le_bytes(value, width).len() == width,
    decreases width,
{
    if width > 0 {
        lemma_le_bytes_len(value / 256, (width - 1) as nat);
    }
}

/// A number that fits its width is read back as written.
pub proof fn lemma_value_of_bytes(value: nat, width: nat)
    requires
        value < radix(width),
    ensures
        le_value(le_bytes(value, width)) == value,
    decreases width,
{
    if width > 0 {
        let tail = le_bytes(value / 256, (width - 1) as nat);
        assert(le_bytes(value, width).drop_first() =~= tail);
        lemma_value_of_bytes(value / 256, (width - 1) as nat);
    }
}

/// The bytes of a number are the only ones of their length that spell it.
pub proof fn lemma_bytes_of_value(bytes: Seq<u8>)
    ensures
        le_bytes(le_value(bytes), bytes.len()) == bytes,
        le_value(bytes) < radix(bytes.len()),
    decreases bytes.len(),
{
    if bytes.len() > 0 {
        let tail = bytes.drop_first();
        lemma_bytes_of_value(tail);
        assert(le_value(bytes) / 256 == le_value(tail));
        assert(le_value(bytes) % 256 == bytes[0]);
        assert(seq![bytes[0]] + tail =~= bytes);
    }
}

/// A number in four bytes is found again in front of any bytes.
pub proof fn lemma_take_u32(value: int, rest: Seq<u8>)
    ensures
        take_u32(u32_bytes(value) + rest) == Some(((value % (U32_RANGE as int)) as u32, rest)),
        u32_bytes(value).len() == 4,
{
    let cut = (value % (U32_RANGE as int)) as nat;
    lemma_radix();
    lemma_le_bytes_len(cut, 4);
    lemma_value_of_bytes(cut, 4);
    assert((u32_bytes(value) + rest).take(4) =~= u32_bytes(value));
    assert((u32_bytes(value) + rest).skip(4) =~= rest);
}

/// A number in eight bytes is found again in front of any bytes.
pub proof fn lemma_take_u64(value: u64, rest: Seq<u8>)
    ensures
        take_u64(u64_bytes(value) + rest) == Some((value, rest)),
        u64_bytes(value).len() == 8,
{
    lemma_radix();
    lemma_le_bytes_len(value as nat, 8);
    lemma_value_of_bytes(value as nat, 8);
    assert((u64_bytes(value) + rest).take(8) =~= u64_bytes(value));
    assert((u64_bytes(value) + rest).skip(8) =~= rest);
}

/// What a four-byte number was read from is that number's encoding.
pub proof fn lemma_took_u32(bytes: Seq<u8>)
    ensures
        take_u32(bytes) matches Some((value, rest)) ==> {
            &&& bytes == u32_bytes(value as int) + rest
            &&& value == le_value(bytes.take(4))
            &&& rest.len() == bytes.len() - 4
        },
{
    if take_u32(bytes) is Some {
        lemma_radix();
        lemma_bytes_of_value(bytes.take(4));
        assert(bytes =~= bytes.take(4) + bytes.skip(4));
    }
}

/// A byte string whose length fits four bytes is found again behind it.
pub proof fn lemma_take_sized(data: Seq<u8>, rest: Seq<u8>)
    requires
        data.len() < U32_RANGE,
    ensures
        take_sized(sized(data) + rest) == Some((data, rest)),
{
    assert(sized(data) + rest =~= u32_bytes(data.len() as int) + (data + rest));
    lemma_take_u32(data.len() as int, data + rest);
    assert((data + rest).take(data.len() as int) =~= data);
    assert((data + rest).skip(data.len() as int) =~= rest);
}

/// What a length-prefixed byte string was read from is its encoding.
pub proof fn lemma_took_sized(bytes: Seq<u8>)
    ensures
        take_sized(bytes) matches Some((data, rest)) ==> {
            &&& bytes == sized(data) + rest
            &&& data.len() < U32_RANGE
        },
{
    lemma_took_u32(bytes);
    if let Some((n, tail)) = take_u32(bytes) {
        if let Some((data, rest)) = take_bytes(tail, n as nat) {
            assert(tail =~= data + rest);
            assert(bytes =~= sized(data) + rest);
        }
    }
}

/// Joining one item more puts its encoding behind the others.
pub proof fn lemma_join_push<T>(items: Seq<T>, item: T, encode: spec_fn(T) -> Seq<u8>)
    ensures
        join(items.push(item), encode) == join(items, encode) + encode(item),
    decreases items.len(),
{
    let more = items.push(item);
    if items.len() == 0 {
        assert(more.drop_first() =~= Seq::empty());
        assert(join(more.drop_first(), encode) =~= Seq::empty());
        assert(join(more, encode) =~= join(items, encode) + encode(item));
    } else {
        assert(more.drop_first() =~= items.drop_first().push(item));
        lemma_join_push(items.drop_first(), item, encode);
        assert(join(more, encode) =~= join(items, encode) + encode(item));
    }
}

/// Items that read back one by one read back as a list.
pub proof fn lemma_read_joined<T>(
    items: Seq<T>,
    rest: Seq<u8>,
    encode: spec_fn(T) -> Seq<u8>,
    decode: spec_fn(Seq<u8>) -> Option<(T, Seq<u8>)>,
)
    requires
        forall|i: int| 0 <= i < items.len() ==> reads_back(#[trigger] items[i], encode, decode),
    ensures
        read_items(join(items, encode) + rest, items.len(), decode) == (items, rest),
    decreases items.len(),
{
    if items.len() == 0 {
        assert(join(items, encode) + rest =~= rest);
        assert(items =~= Seq::empty());
    } else {
        let tail = items.drop_first();
        let behind = join(tail, encode) + rest;
        assert(join(items, encode) + rest =~= encode(items[0]) + behind);
        assert(reads_back(items[0], encode, decode));
        assert forall|i: int| 0 <= i < tail.len() implies reads_back(
            #[trigger] tail[i],
            encode,
            decode,
        ) by {
            assert(tail[i] == items[i + 1]);
        }
        lemma_read_joined(tail, rest, encode, decode);
        assert(seq![items[0]] + tail =~= items);
    }
}

/// Items that read back one by one are read in front of something that is no
/// item, however many more were asked for.
pub proof fn lemma_read_cut<T>(
    items: Seq<T>,
    rest: Seq<u8>,
    n: nat,
    encode: spec_fn(T) -> Seq<u8>,
    decode: spec_fn(Seq<u8>) -> Option<(T, Seq<u8>)>,
)
    requires
        items.len() <= n,
        decode(rest) is None,
        forall|i: int| 0 <= i < items.len() ==> reads_back(#[trigger] items[i], encode, decode),
    ensures
        read_items(join(items, encode) + rest, n, decode) == (items, rest),
    decreases items.len(),
{
    if items.len() == 0 {
        assert(join(items, encode) + rest =~= rest);
        assert(items =~= Seq::empty());
    } else {
        let tail = items.drop_first();
        let behind = join(tail, encode) + rest;
        assert(join(items, encode) + rest =~= encode(items[0]) + behind);
        assert(reads_back(items[0], encode, decode));
        assert forall|i: int| 0 <= i < tail.len() implies reads_back(
            #[trigger] tail[i],
            encode,
            decode,
        ) by {
            assert(tail[i] == items[i + 1]);
        }
        lemma_read_cut(tail, rest, (n - 1) as nat, encode, decode);
        assert(seq![items[0]] + tail =~= items);
    }
}

/// What a list was read from is the list's encoding and what follows it.
pub proof fn lemma_joined_of_read<T>(
    bytes: Seq<u8>,
    n: nat,
    encode: spec_fn(T) -> Seq<u8>,
    decode: spec_fn(Seq<u8>) -> Option<(T, Seq<u8>)>,
)
    requires
        reads_only_encodings(encode, decode),
    ensures
        ({
            let read = read_items(bytes, n, decode);
            &&& bytes == join(read.0, encode) + read.1
            &&& read.0.len() <= n
        }),
    decreases n,
{
    let read = read_items(bytes, n, decode);
    if n == 0 || decode(bytes) is None {
        assert(bytes =~= join(read.0, encode) + read.1);
    } else {
        let (item, rest) = decode(bytes)->0;
        lemma_joined_of_read(rest, (n - 1) as nat, encode, decode);
        assert(bytes == encode(item) + rest);
        assert(read.0.drop_first() =~= read_items(rest, (n - 1) as nat, decode).0);
        assert(bytes =~= join(read.0, encode) + read.1);
    }
}

/// A counted list of items that read back one by one reads back whole.
pub proof fn lemma_read_counted<T>(
    items: Seq<T>,
    encode: spec_fn(T) -> Seq<u8>,
    decode: spec_fn(Seq<u8>) -> Option<(T, Seq<u8>)>,
)
    requires
        items.len() < U32_RANGE,
        forall|i: int| 0 <= i < items.len() ==> reads_back(#[trigger] items[i], encode, decode),
    ensures
        read_counted(counted(items, encode), decode) == items,
{
    let none = Seq::<u8>::empty();
    lemma_take_u32(items.len() as int, join(items, encode));
    assert(join(items, encode) + none =~= join(items, encode));
    lemma_read_joined(items, none, encode, decode);
}

/// Every item of a list that was read was found by `decode`.
pub proof fn lemma_read_items_decoded<T>(
    bytes: Seq<u8>,
    n: nat,
    decode: spec_fn(Seq<u8>) -> Option<(T, Seq<u8>)>,
    i: int,
)
    requires
        0 <= i < read_items(bytes, n, decode).0.len(),
    ensures
        exists|at: Seq<u8>|
            (#[trigger] decode(at)) matches Some((item, _)) && item == read_items(
                bytes,
                n,
                decode,
            ).0[i],
    decreases n,
{
    let (item, rest) = decode(bytes)->0;
    if i > 0 {
        lemma_read_items_decoded(rest, (n - 1) as nat, decode, i - 1);
    } else {
        assert(decode(bytes) matches Some((first, _)) && first == read_items(
            bytes,
            n,
            decode,
        ).0[i]);
    }
}

/// Why reading stopped.
#[derive(Clone, Copy, PartialEq, Eq, Structural, Debug)]
pub enum IoError {
    /// The bytes ended before everything asked for was read.
    UnexpectedEof,
}

/// Appends `value` in `width` bytes.
fn push_le(buf: &mut Vec<u8>, value: u64, width: usize)
    ensures
        final(buf)@ == old(buf)@ + le_bytes(value as nat, width as nat),
{
    let mut left: u64 = value;
    let mut n: usize = width;
    assert(buf@ + le_bytes(left as nat, n as nat) =~= old(buf)@ + le_bytes(
        value as nat,
        width as nat,
    ));
    while n > 0
        invariant
            buf@ + le_bytes(left as nat, n as nat) == old(buf)@ + le_bytes(
                value as nat,
                width as nat,
            ),
        decreases n,
    {
        let ghost before = buf@;
        let byte: u8 = (left % 256) as u8;
        buf.push(byte);
        assert(before + le_bytes(left as nat, n as nat) =~= buf@ + le_bytes(
            (left / 256) as nat,
            (n - 1) as nat,
        ));
        left = left / 256;
        n = n - 1;
    }
    assert(buf@ + le_bytes(left as nat, 0) =~= buf@);
}

/// Appends a length or count in four bytes, cut off at the top.
pub fn push_u32(buf: &mut Vec<u8>, value: usize)
    ensures
        final(buf)@ == old(buf)@ + u32_bytes(value as int),
{
    push_le(buf, (value as u64) % U32_RANGE, 4);
}

/// Appends a signed number in four bytes, in two's complement.
pub fn push_i32(buf: &mut Vec<u8>, value: i32)
    ensures
        final(buf)@ == old(buf)@ + u32_bytes(value as int),
{
    let number: u64 = if value >= 0 {
        value as u64
    } else {
        (value as i64 + U32_RANGE as i64) as u64
    };
    assert(number == value as int % (U32_RANGE as int));
    push_le(buf, number, 4);
}

/// Appends a number in eight bytes.
pub fn push_u64(buf: &mut Vec<u8>, value: u64)
    ensures
        final(buf)@ == old(buf)@ + u64_bytes(value),
{
    push_le(buf, value, 8);
}

/// Appends `data` as it is.
pub fn push_bytes(buf: &mut Vec<u8>, data: &Vec<u8>)
    ensures
        final(buf)@ == old(buf)@ + data@,
{
    buf.extend_from_slice(data.as_slice());
    assert(buf@ =~= old(buf)@ + data@);
}

/// Appends `data` behind its length in four bytes.
pub fn push_sized(buf: &mut Vec<u8>, data: &Vec<u8>)
    ensures
        final(buf)@ == old(buf)@ + sized(data@),
{
    push_u32(buf, data.len());
    push_bytes(buf, data);
    assert(buf@ =~= old(buf)@ + sized(data@));
}

/// The signed number whose two's complement is `bits`.
pub open spec fn signed(bits: u32) -> i32 {
    if bits < 0x8000_0000 {
        bits as i32
    } else {
        (bits - U32_RANGE) as i32
    }
}

/// A reading position in a byte string.
pub struct Cursor<'a> {
    data: &'a [u8],
    pos: usize,
}

impl<'a> Cursor<'a> {
    /// The position lies within the bytes.
    pub closed spec fn wf(&self) -> bool {
        self.pos <= self.data@.len()
    }

    /// The bytes that have not been read.
    pub closed spec fn rest(&self) -> Seq<u8> {
        self.data@.skip(self.pos as int)
    }

    /// A cursor in front of the first byte.
    pub fn new(data: &'a [u8]) -> (cursor: Self)
        ensures
            cursor.wf(),
            cursor.rest() == data@,
    {
        let cursor = Cursor { data, pos: 0 };
        assert(cursor.rest() =~= data@);
        cursor
    }

    /// Whether nothing is left to read.
    pub fn is_at_end(&self) -> (end: bool)
        requires
            self.wf(),
        ensures
            end == (self.rest().len() == 0),
    {
        self.pos == self.data.len()
    }

    /// Reads `n` bytes. Where there are fewer, nothing is read.
    pub fn read_bytes(&mut self, n: usize) -> (read: Result<&'a [u8], IoError>)
        requires
            old(self).wf(),
        ensures
            final(self).wf(),
            match take_bytes(old(self).rest(), n as nat) {
                Some((head, rest)) => (read matches Ok(bytes) && bytes@ == head)
                    && final(self).rest() == rest,
                None => read == Err::<&'a [u8], IoError>(IoError::UnexpectedEof)
                    && final(self).rest() == old(self).rest(),
            },
    {
        if n > self.data.len() - self.pos {
            return Err(IoError::UnexpectedEof);
        }
        let bytes = slice_subrange(self.data, self.pos, self.pos + n);
        self.pos = self.pos + n;
        assert(bytes@ =~= old(self).rest().take(n as int));
        assert(self.rest() =~= old(self).rest().skip(n as int));
        Ok(bytes)
    }

    /// Reads `n` bytes into a vector of their own.
    pub fn read_vec(&mut self, n: usize) -> (read: Result<Vec<u8>, IoError>)
        requires
            old(self).wf(),
        ensures
            final(self).wf(),
            match take_bytes(old(self).rest(), n as nat) {
                Some((head, rest)) => (read matches Ok(bytes) && bytes@ == head)
                    && final(self).rest() == rest,
                None => read == Err::<Vec<u8>, IoError>(IoError::UnexpectedEof)
                    && final(self).rest() == old(self).rest(),
            },
    {
        match self.read_bytes(n) {
            Ok(bytes) => Ok(slice_to_vec(bytes)),
            Err(e) => Err(e),
        }
    }

    /// Reads a number of four bytes.
    pub fn read_u32(&mut self) -> (read: Result<u32, IoError>)
        requires
            old(self).wf(),
        ensures
            final(self).wf(),
            match take_u32(old(self).rest()) {
                Some((value, rest)) => read == Ok::<u32, IoError>(value) && final(self).rest()
                    == rest,
                None => read == Err::<u32, IoError>(IoError::UnexpectedEof) && final(self).rest()
                    == old(self).rest(),
            },
    {
        match self.read_bytes(4) {
            Ok(bytes) => {
                proof {
                    lemma_radix();
                }
                Ok(decode_le(bytes) as u32)
            },
            Err(e) => Err(e),
        }
    }

    /// Reads a number of eight bytes.
    pub fn read_u64(&mut self) -> (read: Result<u64, IoError>)
        requires
            old(self).wf(),
        ensures
            final(self).wf(),
            match take_u64(old(self).rest()) {
                Some((value, rest)) => read == Ok::<u64, IoError>(value) && final(self).rest()
                    == rest,
                None => read == Err::<u64, IoError>(IoError::UnexpectedEof) && final(self).rest()
                    == old(self).rest(),
            },
    {
        match self.read_bytes(8) {
            Ok(bytes) => Ok(decode_le(bytes)),
            Err(e) => Err(e),
        }
    }

    /// Reads a length of four bytes and that many bytes behind it. Where they
    /// are not all there, the length may have been read.
    pub fn read_sized(&mut self) -> (read: Result<Vec<u8>, IoError>)
        requires
            old(self).wf(),
        ensures
            final(self).wf(),
            match take_sized(old(self).rest()) {
                Some((data, rest)) => (read matches Ok(bytes) && bytes@ == data)
                    && final(self).rest() == rest,
                None => read == Err::<Vec<u8>, IoError>(IoError::UnexpectedEof),
            },
    {
        match self.read_u32() {
            Ok(n) => self.read_vec(n as usize),
            Err(e) => Err(e),
        }
    }
}

/// The number that at most eight bytes spell.
fn decode_le(bytes: &[u8]) -> (value: u64)
    requires
        bytes@.len() <= 8,
    ensures
        value == le_value(bytes@),
        value < radix(bytes@.len()),
{
    let mut i: usize = bytes.len();
    let mut value: u64 = 0;
    assert(bytes@.skip(i as int) =~= Seq::empty());
    while i > 0
        invariant
            i <= bytes@.len() <= 8,
            value == le_value(bytes@.skip(i as int)),
        decreases i,
    {
        let ghost tail = bytes@.skip(i as int);
        i = i - 1;
        let ghost longer = bytes@.skip(i as int);
        proof {
            assert(longer.drop_first() =~= tail);
            lemma_bytes_of_value(longer);
            lemma_radix_bound(longer.len());
            assert(longer[0] == bytes@[i as int]);
        }
        value = bytes[i] as u64 + 256 * value;
    }
    assert(bytes@.skip(0) =~= bytes@);
    proof {
        lemma_bytes_of_value(bytes@);
    }
    value
}

/// At most eight bytes spell a 64-bit number.
proof fn lemma_radix_bound(width: nat)
    requires
        width <= 8,
    ensures
        radix(width) <= u64::MAX + 1,
{
    reveal_with_fuel(radix, 9);
}

/// The signed number that a four-byte number stands for.
pub fn to_signed(bits: u32) -> (value: i32)
    ensures
        value == signed(bits),
{
    if bits < 0x8000_0000 {
        bits as i32
    } else {
        (bits as i64 - U32_RANGE as i64) as i32
    }
}

/// A signed number survives the four bytes it is written in.
pub proof fn lemma_signed(value: i32)
    ensures
        signed((value as int % (U32_RANGE as int)) as u32) == value,
{
}

/// A four-byte number survives being taken for a signed one.
pub proof fn lemma_unsigned(bits: u32)
    ensures
        signed(bits) as int % (U32_RANGE as int) == bits,
{
}

/// What is left to read are the bytes from the position on.
proof fn law_rest_is_what_follows(cursor: Cursor<'_>)
    ensures
        cursor.rest() == cursor.data@.skip(cursor.pos as int),
        cursor.wf() <==> cursor.pos <= cursor.data@.len(),
{
}

} // verus!
