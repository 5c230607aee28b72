//! Which byte stands where: in numbers, in sections, and in a snapshot on the
//! wire.

use crate::sections::{ResourceChange, ResourceOrder};
use crate::snapshot::{SnapshotError, SnapshotView, WorldSyncSnapshot};
use crate::world::RollbackId;
use vstd::prelude::*;

verus! {

/// A number in four bytes, least significant byte first.
pub open spec fn four(value: int) -> Seq<u8> {
    seq![
        (value % 256) as u8,
        (value / 0x100 % 256) as u8,
        (value / 0x1_0000 % 256) as u8,
        (value / 0x100_0000 % 256) as u8,
    ]
}

/// A number in eight bytes, least significant byte first.
pub open spec fn eight(value: u64) -> Seq<u8> {
    four((value % 0x1_0000_0000) as int) + four((value / 0x1_0000_0000) as int)
}

/// The number in the four bytes at `at`.
pub open spec fn four_at(data: Seq<u8>, at: int) -> int {
    data[at] + 0x100 * data[at + 1] + 0x1_0000 * data[at + 2] + 0x100_0000 * data[at + 3]
}

/// The number in the eight bytes at `at`.
pub open spec fn eight_at(data: Seq<u8>, at: int) -> int {
    four_at(data, at) + 0x1_0000_0000 * four_at(data, at + 4)
}

/// Bytes in little-endian order, taken apart.
proof fn lemma_four(value: nat)
    ensures
        crate::wire::le_bytes(value, 4) == four(value as int),
{
    reveal_with_fuel(crate::wire::le_bytes, 5);
    assert(value / 256 / 256 == value / 0x1_0000);
    assert(value / 256 / 256 / 256 == value / 0x100_0000);
    assert(crate::wire::le_bytes(value, 4) =~= four(value as int));
}

/// Numbers are written in four bytes, least significant byte first. What does
/// not fit is cut off, and negative numbers are written in two's complement.
pub proof fn law_numbers_in_four_bytes(value: int)
    ensures
        crate::wire::u32_bytes(value) == four(value),
{
    let cut = (value % 0x1_0000_0000) as nat;
    lemma_four(cut);
    let q = value / 0x1_0000_0000;
    let c = value % 0x1_0000_0000;
    assert(value == q * 0x1_0000_0000 + c);
    assert(value / 0x100 == q * 0x100_0000 + c / 0x100);
    assert(value / 0x1_0000 == q * 0x1_0000 + c / 0x1_0000);
    assert(value / 0x100_0000 == q * 0x100 + c / 0x100_0000);
    lemma_cut(q * 0x100_0000, c);
    lemma_cut(q * 0x1_0000, c / 0x100);
    lemma_cut(q * 0x100, c / 0x1_0000);
    lemma_cut(q, c / 0x100_0000);
}

/// Whole multiples of a byte's range do not show in a byte.
proof fn lemma_cut(whole: int, value: int)
    ensures
        (whole * 256 + value) % 256 == value % 256,
{
}

/// Long numbers are written in eight bytes, least significant byte first.
pub proof fn law_numbers_in_eight_bytes(value: u64)
    ensures
        crate::wire::u64_bytes(value) == eight(value),
{
    let v = value as nat;
    let high = v / 0x1_0000_0000;
    lemma_four(high);
    reveal_with_fuel(crate::wire::le_bytes, 5);
    assert(v / 256 / 256 / 256 / 256 == high);
    let low = (v % 0x1_0000_0000) as int;
    assert(low % 256 == v % 256);
    assert(low / 0x100 % 256 == v / 256 % 256);
    assert(low / 0x1_0000 % 256 == v / 256 / 256 % 256);
    assert(low / 0x100_0000 % 256 == v / 256 / 256 / 256 % 256);
    assert(crate::wire::le_bytes(v, 8) =~= four(low) + crate::wire::le_bytes(high, 4));
}

/// A byte string stands behind its length.
pub proof fn law_byte_strings_stand_behind_their_length(data: Seq<u8>)
    ensures
        crate::wire::sized(data) == four(data.len() as int) + data,
{
    law_numbers_in_four_bytes(data.len() as int);
}

/// What four bytes and those behind them spell.
proof fn lemma_value(bytes: Seq<u8>)
    requires
        bytes.len() >= 4,
    ensures
        crate::wire::le_value(bytes) == four_at(bytes, 0) + 0x1_0000_0000 * crate::wire::le_value(
            bytes.skip(4),
        ),
{
    let a = bytes.drop_first();
    let b = a.drop_first();
    let c = b.drop_first();
    assert(c.drop_first() =~= bytes.skip(4));
    assert(crate::wire::le_value(c) == c[0] + 256 * crate::wire::le_value(bytes.skip(4)));
    assert(crate::wire::le_value(b) == b[0] + 256 * crate::wire::le_value(c));
    assert(crate::wire::le_value(a) == a[0] + 256 * crate::wire::le_value(b));
    assert(a[0] == bytes[1] && b[0] == bytes[2] && c[0] == bytes[3]);
}

/// What the first four and eight bytes spell.
proof fn lemma_values(bytes: Seq<u8>)
    ensures
        bytes.len() >= 4 ==> crate::wire::le_value(bytes.take(4)) == four_at(bytes, 0),
        bytes.len() >= 8 ==> crate::wire::le_value(bytes.take(8)) == eight_at(bytes, 0),
{
    if bytes.len() >= 4 {
        lemma_value(bytes.take(4));
        assert(crate::wire::le_value(bytes.take(4).skip(4)) == 0);
    }
    if bytes.len() >= 8 {
        let t = bytes.take(8);
        lemma_value(t);
        lemma_value(t.skip(4));
        assert(crate::wire::le_value(t.skip(4).skip(4)) == 0);
        assert(four_at(t.skip(4), 0) == four_at(bytes, 4));
    }
}

/// A number is read from the first four bytes, if there are four, and the rest
/// follows.
pub proof fn law_reading_four_bytes(bytes: Seq<u8>)
    ensures
        bytes.len() < 4 ==> crate::wire::take_u32(bytes) is None,
        bytes.len() >= 4 ==> crate::wire::take_u32(bytes) == Some(
            (four_at(bytes, 0) as u32, bytes.skip(4)),
        ),
        bytes.len() >= 4 ==> 0 <= four_at(bytes, 0) < 0x1_0000_0000,
{
    lemma_values(bytes);
}

/// A long number is read from the first eight bytes, if there are eight, and
/// the rest follows.
pub proof fn law_reading_eight_bytes(bytes: Seq<u8>)
    ensures
        bytes.len() < 8 ==> crate::wire::take_u64(bytes) is None,
        bytes.len() >= 8 ==> crate::wire::take_u64(bytes) == Some(
            (eight_at(bytes, 0) as u64, bytes.skip(8)),
        ),
        bytes.len() >= 8 ==> 0 <= eight_at(bytes, 0) <= u64::MAX,
{
    lemma_values(bytes);
}

/// Bytes are read if there are enough, and the rest follows.
pub proof fn law_reading_bytes(bytes: Seq<u8>, n: nat)
    ensures
        bytes.len() < n ==> crate::wire::take_bytes(bytes, n) is None,
        bytes.len() >= n ==> crate::wire::take_bytes(bytes, n) == Some(
            (bytes.subrange(0, n as int), bytes.subrange(n as int, bytes.len() as int)),
        ),
{
    if bytes.len() >= n {
        assert(bytes.take(n as int) =~= bytes.subrange(0, n as int));
        assert(bytes.skip(n as int) =~= bytes.subrange(n as int, bytes.len() as int));
    }
}

/// A byte string is read behind its length, if it is complete, and the rest
/// follows.
pub proof fn law_reading_byte_strings(bytes: Seq<u8>)
    ensures
        bytes.len() < 4 || bytes.len() < 4 + four_at(bytes, 0) <==> crate::wire::take_sized(
            bytes,
        ) is None,
        crate::wire::take_sized(bytes) matches Some((data, rest)) ==> {
            &&& data == bytes.subrange(4, 4 + four_at(bytes, 0))
            &&& rest == bytes.skip(4 + four_at(bytes, 0))
        },
{
    law_reading_four_bytes(bytes);
    if let Some((data, rest)) = crate::wire::take_sized(bytes) {
        assert(data =~= bytes.subrange(4, 4 + four_at(bytes, 0)));
        assert(rest =~= bytes.skip(4 + four_at(bytes, 0)));
    }
}

/// Four bytes spell a signed number in two's complement.
pub proof fn law_signed_numbers(bits: u32)
    ensures
        bits < 0x8000_0000 ==> crate::wire::signed(bits) == bits,
        bits >= 0x8000_0000 ==> crate::wire::signed(bits) == bits - 0x1_0000_0000,
{
}

/// Joining is laying out one encoding behind the other.
proof fn lemma_join<T>(items: Seq<T>, encode: spec_fn(T) -> Seq<u8>)
    ensures
        crate::wire::join(items, encode) == items.map_values(encode).flatten(),
    decreases items.len(),
{
    if items.len() > 0 {
        lemma_join(items.drop_first(), encode);
        assert(items.map_values(encode).drop_first() =~= items.drop_first().map_values(encode));
        assert(items.map_values(encode).first() == encode(items[0]));
    }
}

/// The entity section: the count in four bytes, then for each entity its
/// identifier and its bits in eight bytes each.
pub proof fn law_entity_section_layout(records: Seq<(RollbackId, u64)>)
    ensures
        crate::sections::entity_section(records) == four(records.len() as int)
            + records.map_values(
            |record: (RollbackId, u64)| eight(record.0.0) + eight(record.1),
        ).flatten(),
{
    let encoder = crate::sections::entity_encoder();
    let plain = |record: (RollbackId, u64)| eight(record.0.0) + eight(record.1);
    law_numbers_in_four_bytes(records.len() as int);
    lemma_join(records, encoder);
    assert forall|i: int| 0 <= i < records.len() implies records.map_values(encoder)[i]
        == #[trigger] records.map_values(plain)[i] by {
        law_numbers_in_eight_bytes(records[i].0.0);
        law_numbers_in_eight_bytes(records[i].1);
    }
    assert(records.map_values(encoder) =~= records.map_values(plain));
}

/// The order section: the count in four bytes, then the identifiers in eight
/// bytes each.
pub proof fn law_order_section_layout(ids: Seq<RollbackId>)
    ensures
        crate::sections::ordered_section(ids) == four(ids.len() as int) + ids.map_values(
            |id: RollbackId| eight(id.0),
        ).flatten(),
{
    let encoder = crate::sections::id_encoder();
    let plain = |id: RollbackId| eight(id.0);
    law_numbers_in_four_bytes(ids.len() as int);
    lemma_join(ids, encoder);
    assert forall|i: int| 0 <= i < ids.len() implies ids.map_values(encoder)[i]
        == #[trigger] ids.map_values(plain)[i] by {
        law_numbers_in_eight_bytes(ids[i].0);
    }
    assert(ids.map_values(encoder) =~= ids.map_values(plain));
}

/// The section of a component type: the count in four bytes, then for each
/// component the identifier of its entity in eight bytes, its length in four,
/// and its bytes.
pub proof fn law_component_section_layout(records: Seq<(RollbackId, Seq<u8>)>)
    ensures
        crate::sections::component_section(records) == four(records.len() as int)
            + records.map_values(
            |record: (RollbackId, Seq<u8>)|
                eight(record.0.0) + (four(record.1.len() as int) + record.1),
        ).flatten(),
{
    let encoder = crate::sections::component_encoder();
    let plain = |record: (RollbackId, Seq<u8>)|
        eight(record.0.0) + (four(record.1.len() as int) + record.1);
    law_numbers_in_four_bytes(records.len() as int);
    lemma_join(records, encoder);
    assert forall|i: int| 0 <= i < records.len() implies records.map_values(encoder)[i]
        == #[trigger] records.map_values(plain)[i] by {
        law_numbers_in_eight_bytes(records[i].0.0);
        law_numbers_in_four_bytes(records[i].1.len() as int);
    }
    assert(records.map_values(encoder) =~= records.map_values(plain));
}

/// The section of a resource type: a zero where there is none, else the length
/// and the bytes, with a mark behind the length where there are no bytes.
pub proof fn law_resource_section_layout(data: Seq<u8>)
    ensures
        crate::sections::resource_section(None) == seq![0u8, 0u8, 0u8, 0u8],
        data.len() == 0 ==> crate::sections::resource_section(Some(data)) == seq![
            0u8,
            0u8,
            0u8,
            0u8,
            1u8,
        ],
        data.len() > 0 ==> crate::sections::resource_section(Some(data)) == four(
            data.len() as int,
        ) + data,
{
    law_numbers_in_four_bytes(0);
    law_numbers_in_four_bytes(data.len() as int);
    assert(four(0) =~= seq![0u8, 0u8, 0u8, 0u8]);
    assert(seq![0u8, 0u8, 0u8, 0u8] + seq![1u8] =~= seq![0u8, 0u8, 0u8, 0u8, 1u8]);
}

/// Reading a resource section: the bytes behind the length replace the resource
/// if they are all there. A zero length removes it, unless the mark and nothing
/// else is behind it. A section that is cut short changes nothing.
pub proof fn law_reading_resources(data: Seq<u8>)
    ensures
        data.len() < 4 ==> crate::sections::resource_order(data) is Keep,
        data.len() >= 4 && four_at(data, 0) == 0 && data.skip(4) != seq![1u8]
            ==> crate::sections::resource_order(data) is Remove,
        data.len() >= 4 && four_at(data, 0) == 0 && data.skip(4) == seq![1u8]
            ==> crate::sections::resource_order(data) == ResourceOrder::Replace(Seq::empty()),
        data.len() >= 4 && four_at(data, 0) > 0 && data.len() < 4 + four_at(data, 0)
            ==> crate::sections::resource_order(data) is Keep,
        data.len() >= 4 && four_at(data, 0) > 0 && data.len() >= 4 + four_at(data, 0)
            ==> crate::sections::resource_order(data) == ResourceOrder::Replace(
            data.subrange(4, 4 + four_at(data, 0)),
        ),
{
    law_reading_four_bytes(data);
    if data.len() >= 4 && four_at(data, 0) > 0 && data.len() >= 4 + four_at(data, 0) {
        assert(data.skip(4).take(four_at(data, 0)) =~= data.subrange(4, 4 + four_at(data, 0)));
    }
}

/// The lesser of two numbers.
pub open spec fn lesser(a: int, b: int) -> int {
    if a <= b {
        a
    } else {
        b
    }
}

/// Entities behind a count.
proof fn lemma_entity_items(bytes: Seq<u8>, n: nat)
    ensures
        ({
            let read = crate::wire::read_items(bytes, n, crate::sections::entity_decoder()).0;
            &&& read.len() == lesser(n as int, bytes.len() as int / 16)
            &&& forall|i: int|
                0 <= i < read.len() ==> (#[trigger] read[i]).0.0 == eight_at(bytes, 16 * i)
                    && read[i].1 == eight_at(bytes, 16 * i + 8)
        }),
    decreases n,
{
    let decoder = crate::sections::entity_decoder();
    let read = crate::wire::read_items(bytes, n, decoder).0;
    law_reading_eight_bytes(bytes);
    if n > 0 && bytes.len() >= 8 {
        law_reading_eight_bytes(bytes.skip(8));
        if bytes.len() >= 16 {
            let rest = bytes.skip(16);
            assert(bytes.skip(8).skip(8) =~= rest);
            assert(eight_at(bytes.skip(8), 0) == eight_at(bytes, 8));
            lemma_entity_items(rest, (n - 1) as nat);
            let tail = crate::wire::read_items(rest, (n - 1) as nat, decoder).0;
            let first = (RollbackId(eight_at(bytes, 0) as u64), eight_at(bytes, 8) as u64);
            assert(read =~= seq![first] + tail);
            assert forall|i: int| 0 <= i < read.len() implies (#[trigger] read[i]).0.0 == eight_at(
                bytes,
                16 * i,
            ) && read[i].1 == eight_at(bytes, 16 * i + 8) by {
                if i > 0 {
                    assert(read[i] == tail[i - 1]);
                    assert(eight_at(rest, 16 * (i - 1)) == eight_at(bytes, 16 * i));
                    assert(eight_at(rest, 16 * (i - 1) + 8) == eight_at(bytes, 16 * i + 8));
                }
            }
        }
    }
}

/// Reading an entity section gives every complete entity in it, as many as the
/// count says at most: an identifier and the bits of an entity, each from its
/// eight bytes.
pub proof fn law_reading_entities(data: Seq<u8>)
    ensures
        data.len() < 4 ==> crate::sections::entity_records(data).len() == 0,
        data.len() >= 4 ==> crate::sections::entity_records(data).len() == lesser(
            four_at(data, 0),
            (data.len() - 4) / 16,
        ),
        forall|i: int|
            0 <= i < crate::sections::entity_records(data).len() ==> (
            #[trigger] crate::sections::entity_records(data)[i]).0.0 == eight_at(data, 4 + 16 * i)
                && crate::sections::entity_records(data)[i].1 == eight_at(data, 12 + 16 * i),
{
    law_reading_four_bytes(data);
    if data.len() >= 4 {
        let body = data.skip(4);
        lemma_entity_items(body, four_at(data, 0) as nat);
        let read = crate::sections::entity_records(data);
        assert forall|i: int| 0 <= i < read.len() implies (#[trigger] read[i]).0.0 == eight_at(
            data,
            4 + 16 * i,
        ) && read[i].1 == eight_at(data, 12 + 16 * i) by {
            assert(eight_at(body, 16 * i) == eight_at(data, 4 + 16 * i));
            assert(eight_at(body, 16 * i + 8) == eight_at(data, 12 + 16 * i));
        }
    }
}

/// Identifiers behind a count.
proof fn lemma_id_items(bytes: Seq<u8>, n: nat)
    ensures
        ({
            let read = crate::wire::read_items(bytes, n, crate::sections::id_decoder()).0;
            &&& read.len() == lesser(n as int, bytes.len() as int / 8)
            &&& forall|i: int|
                0 <= i < read.len() ==> (#[trigger] read[i]).0 == eight_at(bytes, 8 * i)
        }),
    decreases n,
{
    let decoder = crate::sections::id_decoder();
    let read = crate::wire::read_items(bytes, n, decoder).0;
    law_reading_eight_bytes(bytes);
    if n > 0 && bytes.len() >= 8 {
        let rest = bytes.skip(8);
        lemma_id_items(rest, (n - 1) as nat);
        let tail = crate::wire::read_items(rest, (n - 1) as nat, decoder).0;
        assert(read =~= seq![RollbackId(eight_at(bytes, 0) as u64)] + tail);
        assert forall|i: int| 0 <= i < read.len() implies (#[trigger] read[i]).0 == eight_at(
            bytes,
            8 * i,
        ) by {
            if i > 0 {
                assert(read[i] == tail[i - 1]);
                assert(eight_at(rest, 8 * (i - 1)) == eight_at(bytes, 8 * i));
            }
        }
    }
}

/// Reading an order section gives every complete identifier in it, as many as
/// the count says at most, each from its eight bytes.
pub proof fn law_reading_the_order(data: Seq<u8>)
    ensures
        data.len() < 4 ==> crate::sections::ordered_ids(data).len() == 0,
        data.len() >= 4 ==> crate::sections::ordered_ids(data).len() == lesser(
            four_at(data, 0),
            (data.len() - 4) / 8,
        ),
        forall|i: int|
            0 <= i < crate::sections::ordered_ids(data).len() ==> (
            #[trigger] crate::sections::ordered_ids(data)[i]).0 == eight_at(data, 4 + 8 * i),
{
    law_reading_four_bytes(data);
    if data.len() >= 4 {
        let body = data.skip(4);
        lemma_id_items(body, four_at(data, 0) as nat);
        let read = crate::sections::ordered_ids(data);
        assert forall|i: int| 0 <= i < read.len() implies (#[trigger] read[i]).0 == eight_at(
            data,
            4 + 8 * i,
        ) by {
            assert(eight_at(body, 8 * i) == eight_at(data, 4 + 8 * i));
        }
    }
}

/// Where a record of a component section begins, that a complete one is there.
pub open spec fn component_complete(body: Seq<u8>, at: int) -> bool {
    at + 12 <= body.len() && at + 12 + four_at(body, at + 8) <= body.len()
}

/// The record at `i` stands at its place in `body`, and the next place is right
/// behind it.
pub open spec fn component_at(
    body: Seq<u8>,
    records: Seq<(RollbackId, Seq<u8>)>,
    places: Seq<int>,
    i: int,
) -> bool {
    let at = places[i];
    &&& 0 <= at
    &&& component_complete(body, at)
    &&& records[i].0.0 == eight_at(body, at)
    &&& records[i].1 == body.subrange(at + 12, at + 12 + four_at(body, at + 8))
    &&& places[i + 1] == at + 12 + four_at(body, at + 8)
}

/// `records` stand at `places` in `body`, the first at `start`, one behind the
/// other, and end at the last place.
pub open spec fn components_at(
    body: Seq<u8>,
    start: int,
    records: Seq<(RollbackId, Seq<u8>)>,
    places: Seq<int>,
) -> bool {
    &&& places.len() == records.len() + 1
    &&& places[0] == start
    &&& forall|i: int|
        0 <= i < records.len() ==> #[trigger] component_at(body, records, places, i)
}

/// Components behind a count.
proof fn lemma_component_items(body: Seq<u8>, start: int, n: nat) -> (places: Seq<int>)
    requires
        0 <= start <= body.len(),
    ensures
        ({
            let read = crate::wire::read_items(
                body.skip(start),
                n,
                crate::sections::component_decoder(),
            ).0;
            &&& components_at(body, start, read, places)
            &&& read.len() <= n
            &&& read.len() < n ==> !component_complete(body, places[read.len() as int])
        }),
    decreases n,
{
    let decoder = crate::sections::component_decoder();
    let bytes = body.skip(start);
    let read = crate::wire::read_items(bytes, n, decoder).0;
    law_reading_eight_bytes(bytes);
    if bytes.len() >= 8 {
        law_reading_byte_strings(bytes.skip(8));
        assert(eight_at(bytes, 0) == eight_at(body, start));
        if bytes.len() >= 12 {
            assert(four_at(bytes.skip(8), 0) == four_at(body, start + 8));
        }
    }
    if n == 0 || decoder(bytes) is None {
        assert(read.len() == 0);
        assert(n > 0 ==> !component_complete(body, start)) by {
            if n > 0 && bytes.len() >= 12 {
                assert(crate::wire::take_sized(bytes.skip(8)) is None);
            }
        }
        let places = seq![start];
        assert(places[0] == start);
        assert(components_at(body, start, read, places));
        places
    } else {
        let long = four_at(body, start + 8);
        let next = start + 12 + long;
        law_reading_four_bytes(bytes.skip(8));
        let (data, behind) = crate::wire::take_sized(bytes.skip(8))->0;
        assert(component_complete(body, start));
        assert(data =~= body.subrange(start + 12, next));
        assert(behind =~= body.skip(next));
        let more = lemma_component_items(body, next, (n - 1) as nat);
        let tail = crate::wire::read_items(body.skip(next), (n - 1) as nat, decoder).0;
        let places = seq![start] + more;
        assert(read =~= seq![(RollbackId(eight_at(body, start) as u64), data)] + tail);
        assert forall|i: int| 0 <= i < read.len() implies #[trigger] component_at(
            body,
            read,
            places,
            i,
        ) by {
            if i > 0 {
                assert(component_at(body, tail, more, i - 1));
                assert(places[i] == more[i - 1]);
                assert(places[i + 1] == more[i]);
                assert(read[i] == tail[i - 1]);
            } else {
                assert(places[1] == more[0]);
            }
        }
        assert(places[read.len() as int] == more[tail.len() as int]);
        places
    }
}

/// Reading the section of a component type gives its records one behind the
/// other, each with the identifier and the bytes that stand in it, until there
/// are as many as the count says or the next one is not complete.
pub proof fn law_reading_components(data: Seq<u8>)
    ensures
        data.len() < 4 ==> crate::sections::component_records(data).len() == 0,
        data.len() >= 4 ==> ({
            let read = crate::sections::component_records(data);
            &&& read.len() <= four_at(data, 0)
            &&& exists|places: Seq<int>|
                #[trigger] components_at(data.skip(4), 0, read, places) && (read.len() == four_at(
                    data,
                    0,
                ) || !component_complete(data.skip(4), places[read.len() as int]))
        }),
{
    law_reading_four_bytes(data);
    if data.len() >= 4 {
        let body = data.skip(4);
        assert(body.skip(0) =~= body);
        let places = lemma_component_items(body, 0, four_at(data, 0) as nat);
        assert(components_at(body, 0, crate::sections::component_records(data), places));
    }
}

/// A list of sections on the wire: the count, then each behind its length.
proof fn lemma_sections(sections: Seq<Seq<u8>>)
    ensures
        crate::snapshot::sections_bytes(sections) == four(sections.len() as int)
            + sections.map_values(
            |section: Seq<u8>| four(section.len() as int) + section,
        ).flatten(),
{
    let encoder = crate::sections::sized_encoder();
    let plain = |section: Seq<u8>| four(section.len() as int) + section;
    law_numbers_in_four_bytes(sections.len() as int);
    lemma_join(sections, encoder);
    assert forall|i: int| 0 <= i < sections.len() implies sections.map_values(encoder)[i]
        == #[trigger] sections.map_values(plain)[i] by {
        law_byte_strings_stand_behind_their_length(sections[i]);
    }
    assert(sections.map_values(encoder) =~= sections.map_values(plain));
}

/// A snapshot on the wire: the frame, the entities and the order, each behind
/// its length, and the components and the resources, each as a count and the
/// sections behind their lengths.
pub proof fn law_snapshot_layout(snapshot: SnapshotView)
    ensures
        crate::snapshot::snapshot_bytes(snapshot) == four(snapshot.frame as int) + (four(
            snapshot.entity_data.len() as int,
        ) + snapshot.entity_data) + (four(snapshot.ordered_data.len() as int)
            + snapshot.ordered_data) + (four(snapshot.component_sections.len() as int)
            + snapshot.component_sections.map_values(
            |section: Seq<u8>| four(section.len() as int) + section,
        ).flatten()) + (four(snapshot.resource_sections.len() as int)
            + snapshot.resource_sections.map_values(
            |section: Seq<u8>| four(section.len() as int) + section,
        ).flatten()),
{
    law_numbers_in_four_bytes(snapshot.frame as int);
    law_byte_strings_stand_behind_their_length(snapshot.entity_data);
    law_byte_strings_stand_behind_their_length(snapshot.ordered_data);
    lemma_sections(snapshot.component_sections);
    lemma_sections(snapshot.resource_sections);
}

/// Every snapshot survives its bytes, whatever follows them, as long as no
/// length and no number of sections takes more than four bytes.
pub proof fn law_every_snapshot_survives_its_bytes(snapshot: SnapshotView, rest: Seq<u8>)
    requires
        snapshot.entity_data.len() < 0x1_0000_0000,
        snapshot.ordered_data.len() < 0x1_0000_0000,
        snapshot.component_sections.len() < 0x1_0000_0000,
        snapshot.resource_sections.len() < 0x1_0000_0000,
        forall|i: int|
            0 <= i < snapshot.component_sections.len() ==> (
            #[trigger] snapshot.component_sections[i]).len() < 0x1_0000_0000,
        forall|i: int|
            0 <= i < snapshot.resource_sections.len() ==> (
            #[trigger] snapshot.resource_sections[i]).len() < 0x1_0000_0000,
    ensures
        crate::snapshot::take_snapshot(crate::snapshot::snapshot_bytes(snapshot) + rest) == Some(
            (snapshot, rest),
        ),
{
    crate::snapshot_laws::law_bytes_roundtrip(snapshot, rest);
}

/// What is read as a snapshot are the bytes of that snapshot, and nothing else
/// than the bytes of a snapshot is read as one.
pub proof fn law_only_snapshots_are_read(bytes: Seq<u8>)
    ensures
        crate::snapshot::take_snapshot(bytes) matches Some((snapshot, rest)) ==> bytes
            == crate::snapshot::snapshot_bytes(snapshot) + rest,
{
    crate::snapshot_laws::law_bytes_are_canonical(bytes);
}

/// What contracts say of lists of byte strings, they say of the bytes.
pub proof fn law_lists_are_their_bytes(
    sections: Seq<Vec<u8>>,
    records: Seq<(RollbackId, Vec<u8>)>,
)
    ensures
        crate::snapshot::section_views(sections).len() == sections.len(),
        forall|i: int|
            0 <= i < sections.len() ==> #[trigger] crate::snapshot::section_views(sections)[i]
                == sections[i]@,
        crate::sections::record_views(records).len() == records.len(),
        forall|i: int|
            0 <= i < records.len() ==> (#[trigger] crate::sections::record_views(records)[i]).0
                == records[i].0 && crate::sections::record_views(records)[i].1 == records[i].1@,
{
}

/// An error of a format says what is wrong behind a heading, whole.
pub proof fn law_errors_say_what_is_wrong(message: String)
    ensures
        SnapshotError::InvalidFormat(message).text() == "invalid format: "@ + message@,
        SnapshotError::Io(crate::wire::IoError::UnexpectedEof).text()
            == "I/O error: failed to fill whole buffer"@,
{
}

/// What contracts say of a snapshot, they say of what is in its fields.
pub proof fn law_snapshot_is_its_fields(snapshot: WorldSyncSnapshot)
    ensures
        snapshot@.frame == snapshot.frame,
        snapshot@.entity_data == snapshot.entity_data@,
        snapshot@.ordered_data == snapshot.ordered_data@,
        snapshot@.component_sections.len() == snapshot.component_sections@.len(),
        forall|i: int|
            0 <= i < snapshot.component_sections@.len()
                ==> #[trigger] snapshot@.component_sections[i] == snapshot.component_sections@[i]@,
        snapshot@.resource_sections.len() == snapshot.resource_sections@.len(),
        forall|i: int|
            0 <= i < snapshot.resource_sections@.len()
                ==> #[trigger] snapshot@.resource_sections[i] == snapshot.resource_sections@[i]@,
{
}

/// What contracts say of a change to a resource, they say of what it holds.
pub proof fn law_change_is_what_it_holds(change: ResourceChange)
    ensures
        change is Keep ==> change@ is Keep,
        change is Remove ==> change@ is Remove,
        change matches ResourceChange::Replace(bytes) ==> change@ == ResourceOrder::Replace(bytes@),
{
}

} // verus!
