//! The sections of a world snapshot: how entities, their order, components and
//! resources are laid out in bytes.

use crate::wire::{push_sized, push_u32, push_u64, Cursor};
use crate::world::RollbackId;
use vstd::prelude::*;

verus! {

/// What stands behind the zero length of a resource that is there.
pub const PRESENT: u8 = 1;

/// A byte string behind its length, as a list item.
pub open spec fn sized_encoder() -> spec_fn(Seq<u8>) -> Seq<u8> {
    |data: Seq<u8>| crate::wire::sized(data)
}

/// Reads a byte string behind its length, as a list item.
pub open spec fn sized_decoder() -> spec_fn(Seq<u8>) -> Option<(Seq<u8>, Seq<u8>)> {
    |bytes: Seq<u8>| crate::wire::take_sized(bytes)
}

/// An identifier in eight bytes.
pub open spec fn id_encoder() -> spec_fn(RollbackId) -> Seq<u8> {
    |id: RollbackId| crate::wire::u64_bytes(id.0)
}

/// Reads an identifier.
pub open spec fn id_decoder() -> spec_fn(Seq<u8>) -> Option<(RollbackId, Seq<u8>)> {
    |bytes: Seq<u8>|
        match crate::wire::take_u64(bytes) {
            Some((bits, rest)) => Some((RollbackId(bits), rest)),
            None => None,
        }
}

/// An identifier and the entity that carries it, in eight bytes each.
pub open spec fn entity_encoder() -> spec_fn((RollbackId, u64)) -> Seq<u8> {
    |record: (RollbackId, u64)|
        crate::wire::u64_bytes(record.0.0) + crate::wire::u64_bytes(record.1)
}

/// Reads an identifier and the entity that carries it.
pub open spec fn entity_decoder() -> spec_fn(Seq<u8>) -> Option<((RollbackId, u64), Seq<u8>)> {
    |bytes: Seq<u8>|
        match crate::wire::take_u64(bytes) {
            Some((bits, rest)) => match crate::wire::take_u64(rest) {
                Some((entity, behind)) => Some(((RollbackId(bits), entity), behind)),
                None => None,
            },
            None => None,
        }
}

/// An identifier and, behind its length, what the entity's component encodes to.
pub open spec fn component_encoder() -> spec_fn((RollbackId, Seq<u8>)) -> Seq<u8> {
    |record: (RollbackId, Seq<u8>)|
        crate::wire::u64_bytes(record.0.0) + crate::wire::sized(record.1)
}

/// Reads an identifier and an encoded component.
pub open spec fn component_decoder() -> spec_fn(Seq<u8>) -> Option<
    ((RollbackId, Seq<u8>), Seq<u8>),
> {
    |bytes: Seq<u8>|
        match crate::wire::take_u64(bytes) {
            Some((bits, rest)) => match crate::wire::take_sized(rest) {
                Some((data, behind)) => Some(((RollbackId(bits), data), behind)),
                None => None,
            },
            None => None,
        }
}

/// The section of the entities: their count, then each with its identifier.
pub open spec fn entity_section(records: Seq<(RollbackId, u64)>) -> Seq<u8> {
    crate::wire::counted(records, entity_encoder())
}

/// The entities that a section holds.
pub open spec fn entity_records(data: Seq<u8>) -> Seq<(RollbackId, u64)> {
    crate::wire::read_counted(data, entity_decoder())
}

/// The section of the rollback order: the count, then the identifiers.
pub open spec fn ordered_section(ids: Seq<RollbackId>) -> Seq<u8> {
    crate::wire::counted(ids, id_encoder())
}

/// The identifiers that a section holds, in order.
pub open spec fn ordered_ids(data: Seq<u8>) -> Seq<RollbackId> {
    crate::wire::read_counted(data, id_decoder())
}

/// The section of one component type: the count, then each component.
pub open spec fn component_section(records: Seq<(RollbackId, Seq<u8>)>) -> Seq<u8> {
    crate::wire::counted(records, component_encoder())
}

/// The components that a section holds.
pub open spec fn component_records(data: Seq<u8>) -> Seq<(RollbackId, Seq<u8>)> {
    crate::wire::read_counted(data, component_decoder())
}

/// The section of one resource type: what it encodes to behind the length, or
/// a zero where there is no such resource. A resource that encodes to nothing
/// is told from an absent one by a byte behind the zero.
pub open spec fn resource_section(resource: Option<Seq<u8>>) -> Seq<u8> {
    match resource {
        Some(data) => if data.len() == 0 {
            crate::wire::u32_bytes(0) + seq![PRESENT]
        } else {
            crate::wire::sized(data)
        },
        None => crate::wire::u32_bytes(0),
    }
}

/// What a resource section asks for.
#[verifier::ext_equal]
pub enum ResourceOrder {
    /// The section is cut short: leave the resource alone.
    Keep,
    /// The resource was absent: remove it.
    Remove,
    /// Decode these bytes and put the result in place.
    Replace(Seq<u8>),
}

/// What the section of a resource asks for. A zero length asks for removal,
/// unless just the mark of a resource that is there stands behind it.
pub open spec fn resource_order(data: Seq<u8>) -> ResourceOrder {
    match crate::wire::take_u32(data) {
        None => ResourceOrder::Keep,
        Some((n, rest)) => if n > 0 {
            match crate::wire::take_bytes(rest, n as nat) {
                Some((bytes, _)) => ResourceOrder::Replace(bytes),
                None => ResourceOrder::Keep,
            }
        } else if rest == seq![PRESENT] {
            ResourceOrder::Replace(Seq::empty())
        } else {
            ResourceOrder::Remove
        },
    }
}

/// The bytes behind the identifiers of component records.
pub open spec fn record_views(records: Seq<(RollbackId, Vec<u8>)>) -> Seq<(RollbackId, Seq<u8>)> {
    records.map_values(|record: (RollbackId, Vec<u8>)| (record.0, record.1@))
}

/// Identifiers read back.
pub proof fn lemma_id_reads_back(id: RollbackId)
    ensures
        crate::wire::reads_back(id, id_encoder(), id_decoder()),
{
    assert forall|rest: Seq<u8>| #[trigger]
        id_decoder()(id_encoder()(id) + rest) == Some((id, rest)) by {
        crate::wire::lemma_take_u64(id.0, rest);
    }
}

/// Entity records read back.
pub proof fn lemma_entity_reads_back(record: (RollbackId, u64))
    ensures
        crate::wire::reads_back(record, entity_encoder(), entity_decoder()),
{
    assert forall|rest: Seq<u8>| #[trigger]
        entity_decoder()(entity_encoder()(record) + rest) == Some((record, rest)) by {
        let second = crate::wire::u64_bytes(record.1) + rest;
        assert(entity_encoder()(record) + rest =~= crate::wire::u64_bytes(record.0.0) + second);
        crate::wire::lemma_take_u64(record.0.0, second);
        crate::wire::lemma_take_u64(record.1, rest);
    }
}

/// Component records read back.
pub proof fn lemma_component_reads_back(record: (RollbackId, Seq<u8>))
    requires
        record.1.len() < crate::wire::U32_RANGE,
    ensures
        crate::wire::reads_back(record, component_encoder(), component_decoder()),
{
    assert forall|rest: Seq<u8>| #[trigger]
        component_decoder()(component_encoder()(record) + rest) == Some((record, rest)) by {
        let second = crate::wire::sized(record.1) + rest;
        assert(component_encoder()(record) + rest =~= crate::wire::u64_bytes(record.0.0) + second);
        crate::wire::lemma_take_u64(record.0.0, second);
        crate::wire::lemma_take_sized(record.1, rest);
    }
}

/// Byte strings read back.
pub proof fn lemma_sized_reads_back(data: Seq<u8>)
    requires
        data.len() < crate::wire::U32_RANGE,
    ensures
        crate::wire::reads_back(data, sized_encoder(), sized_decoder()),
{
    assert forall|rest: Seq<u8>| #[trigger]
        sized_decoder()(sized_encoder()(data) + rest) == Some((data, rest)) by {
        crate::wire::lemma_take_sized(data, rest);
    }
}

/// Writing entities and reading the section gives the entities back.
pub proof fn law_entity_section(records: Seq<(RollbackId, u64)>)
    requires
        records.len() < crate::wire::U32_RANGE,
    ensures
        entity_records(entity_section(records)) == records,
{
    assert forall|i: int| 0 <= i < records.len() implies crate::wire::reads_back(
        #[trigger] records[i],
        entity_encoder(),
        entity_decoder(),
    ) by {
        lemma_entity_reads_back(records[i]);
    }
    crate::wire::lemma_read_counted(records, entity_encoder(), entity_decoder());
}

/// Writing the rollback order and reading the section gives the order back.
pub proof fn law_ordered_section(ids: Seq<RollbackId>)
    requires
        ids.len() < crate::wire::U32_RANGE,
    ensures
        ordered_ids(ordered_section(ids)) == ids,
{
    assert forall|i: int| 0 <= i < ids.len() implies crate::wire::reads_back(
        #[trigger] ids[i],
        id_encoder(),
        id_decoder(),
    ) by {
        lemma_id_reads_back(ids[i]);
    }
    crate::wire::lemma_read_counted(ids, id_encoder(), id_decoder());
}

/// Of a rollback order that is cut short, the complete identifiers are read,
/// in order: none where even the count is cut off, and as many as stand in
/// front of the first incomplete one where the count promises more.
pub proof fn law_cut_order_is_read_as_far_as_it_goes(
    data: Seq<u8>,
    count: u32,
    ids: Seq<RollbackId>,
    rest: Seq<u8>,
)
    ensures
        data.len() < 4 ==> ordered_ids(data) == Seq::<RollbackId>::empty(),
        ids.len() <= count && rest.len() < 8 && data == crate::wire::u32_bytes(count as int)
            + crate::wire::join(ids, id_encoder()) + rest ==> ordered_ids(data) == ids,
{
    let joined = crate::wire::join(ids, id_encoder());
    if ids.len() <= count && rest.len() < 8 && data == crate::wire::u32_bytes(count as int) + joined
        + rest {
        assert forall|i: int| 0 <= i < ids.len() implies crate::wire::reads_back(
            #[trigger] ids[i],
            id_encoder(),
            id_decoder(),
        ) by {
            lemma_id_reads_back(ids[i]);
        }
        assert(data =~= crate::wire::u32_bytes(count as int) + (joined + rest));
        crate::wire::lemma_take_u32(count as int, joined + rest);
        crate::wire::lemma_read_cut(ids, rest, count as nat, id_encoder(), id_decoder());
    }
}

/// Writing components and reading the section gives the components back.
pub proof fn law_component_section(records: Seq<(RollbackId, Seq<u8>)>)
    requires
        records.len() < crate::wire::U32_RANGE,
        forall|i: int|
            0 <= i < records.len() ==> (#[trigger] records[i]).1.len() < crate::wire::U32_RANGE,
    ensures
        component_records(component_section(records)) == records,
{
    assert forall|i: int| 0 <= i < records.len() implies crate::wire::reads_back(
        #[trigger] records[i],
        component_encoder(),
        component_decoder(),
    ) by {
        lemma_component_reads_back(records[i]);
    }
    crate::wire::lemma_read_counted(records, component_encoder(), component_decoder());
}

/// The section of a resource asks for that resource back, and the section of
/// an absent one asks for its removal.
pub proof fn law_resource_section(resource: Option<Seq<u8>>)
    requires
        resource matches Some(data) ==> data.len() < crate::wire::U32_RANGE,
    ensures
        resource_order(resource_section(resource)) == match resource {
            Some(data) => ResourceOrder::Replace(data),
            None => ResourceOrder::Remove,
        },
{
    let none = Seq::<u8>::empty();
    match resource {
        Some(data) => {
            if data.len() == 0 {
                crate::wire::lemma_take_u32(0, seq![PRESENT]);
                assert(data =~= none);
            } else {
                crate::wire::lemma_take_u32(data.len() as int, data);
                assert(data.take(data.len() as int) =~= data);
            }
        },
        None => {
            crate::wire::lemma_take_u32(0, none);
            assert(crate::wire::u32_bytes(0) + none =~= crate::wire::u32_bytes(0));
        },
    }
}

/// Lays out the entities that carry identifiers.
pub fn write_entities(records: &Vec<(RollbackId, u64)>) -> (data: Vec<u8>)
    ensures
        data@ == entity_section(records@),
{
    let mut data: Vec<u8> = Vec::new();
    push_u32(&mut data, records.len());
    let ghost count = data@;
    let mut i: usize = 0;
    assert(data@ =~= count + crate::wire::join(records@.take(0), entity_encoder()));
    while i < records.len()
        invariant
            i <= records.len(),
            data@ == count + crate::wire::join(records@.take(i as int), entity_encoder()),
        decreases records.len() - i,
    {
        let ghost before = data@;
        push_u64(&mut data, records[i].0.to_bits());
        push_u64(&mut data, records[i].1);
        proof {
            let done = records@.take(i as int);
            let record = records@[i as int];
            crate::wire::lemma_join_push(done, record, entity_encoder());
            assert(records@.take(i + 1) =~= done.push(record));
            assert(data@ =~= before + entity_encoder()(record));
            assert(data@ =~= count + crate::wire::join(records@.take(i + 1), entity_encoder()));
        }
        i = i + 1;
    }
    assert(records@.take(i as int) =~= records@);
    assert(data@ =~= entity_section(records@));
    data
}

/// Reads the entities of a section, as far as they are there.
pub fn read_entities(data: &Vec<u8>) -> (records: Vec<(RollbackId, u64)>)
    ensures
        records@ == entity_records(data@),
{
    let mut records: Vec<(RollbackId, u64)> = Vec::new();
    let mut cursor = Cursor::new(data.as_slice());
    let mut left: u32 = match cursor.read_u32() {
        Ok(count) => count,
        Err(_) => {
            assert(records@ =~= entity_records(data@));
            return records;
        },
    };
    let ghost all = entity_records(data@);
    assert(records@ + crate::wire::read_items(cursor.rest(), left as nat, entity_decoder()).0
        =~= all);
    while left > 0
        invariant
            cursor.wf(),
            records@ + crate::wire::read_items(cursor.rest(), left as nat, entity_decoder()).0
                == all,
            all == entity_records(data@),
        decreases left,
    {
        let ghost before = records@;
        let ghost start = cursor.rest();
        let bits: u64 = match cursor.read_u64() {
            Ok(bits) => bits,
            Err(_) => {
                assert(records@ =~= all);
                return records;
            },
        };
        let entity: u64 = match cursor.read_u64() {
            Ok(entity) => entity,
            Err(_) => {
                assert(records@ =~= all);
                return records;
            },
        };
        records.push((RollbackId::from_bits(bits), entity));
        left = left - 1;
        assert(records@ + crate::wire::read_items(cursor.rest(), left as nat, entity_decoder()).0
            =~= before + crate::wire::read_items(start, (left + 1) as nat, entity_decoder()).0);
    }
    assert(records@ =~= all);
    records
}

/// Lays out the rollback order.
pub fn write_ordered(ids: &Vec<RollbackId>) -> (data: Vec<u8>)
    ensures
        data@ == ordered_section(ids@),
{
    let mut data: Vec<u8> = Vec::new();
    push_u32(&mut data, ids.len());
    let ghost count = data@;
    let mut i: usize = 0;
    assert(data@ =~= count + crate::wire::join(ids@.take(0), id_encoder()));
    while i < ids.len()
        invariant
            i <= ids.len(),
            data@ == count + crate::wire::join(ids@.take(i as int), id_encoder()),
        decreases ids.len() - i,
    {
        push_u64(&mut data, ids[i].to_bits());
        proof {
            let done = ids@.take(i as int);
            let id = ids@[i as int];
            crate::wire::lemma_join_push(done, id, id_encoder());
            assert(ids@.take(i + 1) =~= done.push(id));
            assert(data@ =~= count + crate::wire::join(ids@.take(i + 1), id_encoder()));
        }
        i = i + 1;
    }
    assert(ids@.take(i as int) =~= ids@);
    assert(data@ =~= ordered_section(ids@));
    data
}

/// Reads the rollback order from a section, as far as it is there.
pub fn read_ordered(data: &Vec<u8>) -> (ids: Vec<RollbackId>)
    ensures
        ids@ == ordered_ids(data@),
{
    let mut ids: Vec<RollbackId> = Vec::new();
    let mut cursor = Cursor::new(data.as_slice());
    let mut left: u32 = match cursor.read_u32() {
        Ok(count) => count,
        Err(_) => {
            assert(ids@ =~= ordered_ids(data@));
            return ids;
        },
    };
    let ghost all = ordered_ids(data@);
    assert(ids@ + crate::wire::read_items(cursor.rest(), left as nat, id_decoder()).0 =~= all);
    while left > 0
        invariant
            cursor.wf(),
            ids@ + crate::wire::read_items(cursor.rest(), left as nat, id_decoder()).0 == all,
            all == ordered_ids(data@),
        decreases left,
    {
        let ghost before = ids@;
        let ghost start = cursor.rest();
        let bits: u64 = match cursor.read_u64() {
            Ok(bits) => bits,
            Err(_) => {
                assert(ids@ =~= all);
                return ids;
            },
        };
        ids.push(RollbackId::from_bits(bits));
        left = left - 1;
        assert(ids@ + crate::wire::read_items(cursor.rest(), left as nat, id_decoder()).0
            =~= before + crate::wire::read_items(start, (left + 1) as nat, id_decoder()).0);
    }
    assert(ids@ =~= all);
    ids
}

/// Appends the section of a component type to `buf`.
pub fn write_components(records: &Vec<(RollbackId, Vec<u8>)>, buf: &mut Vec<u8>)
    ensures
        final(buf)@ == old(buf)@ + component_section(record_views(records@)),
{
    let ghost parts = record_views(records@);
    push_u32(buf, records.len());
    let ghost count = buf@;
    let mut i: usize = 0;
    assert(buf@ =~= count + crate::wire::join(parts.take(0), component_encoder()));
    while i < records.len()
        invariant
            i <= records.len(),
            parts == record_views(records@),
            buf@ == count + crate::wire::join(parts.take(i as int), component_encoder()),
        decreases records.len() - i,
    {
        let ghost before = buf@;
        push_u64(buf, records[i].0.to_bits());
        push_sized(buf, &records[i].1);
        proof {
            let done = parts.take(i as int);
            let part = parts[i as int];
            crate::wire::lemma_join_push(done, part, component_encoder());
            assert(parts.take(i + 1) =~= done.push(part));
            assert(buf@ =~= before + component_encoder()(part));
            assert(buf@ =~= count + crate::wire::join(parts.take(i + 1), component_encoder()));
        }
        i = i + 1;
    }
    assert(parts.take(i as int) =~= parts);
    assert(buf@ =~= old(buf)@ + component_section(parts));
}

/// Reads the components of a section, as far as they are there.
pub fn read_components(data: &Vec<u8>) -> (records: Vec<(RollbackId, Vec<u8>)>)
    ensures
        record_views(records@) == component_records(data@),
{
    let mut records: Vec<(RollbackId, Vec<u8>)> = Vec::new();
    let mut cursor = Cursor::new(data.as_slice());
    let mut left: u32 = match cursor.read_u32() {
        Ok(count) => count,
        Err(_) => {
            assert(record_views(records@) =~= component_records(data@));
            return records;
        },
    };
    let ghost all = component_records(data@);
    assert(record_views(records@) + crate::wire::read_items(
        cursor.rest(),
        left as nat,
        component_decoder(),
    ).0 =~= all);
    while left > 0
        invariant
            cursor.wf(),
            record_views(records@) + crate::wire::read_items(
                cursor.rest(),
                left as nat,
                component_decoder(),
            ).0 == all,
            all == component_records(data@),
        decreases left,
    {
        let ghost before = record_views(records@);
        let ghost start = cursor.rest();
        let bits: u64 = match cursor.read_u64() {
            Ok(bits) => bits,
            Err(_) => {
                assert(record_views(records@) =~= all);
                return records;
            },
        };
        let bytes: Vec<u8> = match cursor.read_sized() {
            Ok(bytes) => bytes,
            Err(_) => {
                assert(record_views(records@) =~= all);
                return records;
            },
        };
        records.push((RollbackId::from_bits(bits), bytes));
        left = left - 1;
        assert(record_views(records@) =~= before.push((RollbackId(bits), bytes@)));
        assert(record_views(records@) + crate::wire::read_items(
            cursor.rest(),
            left as nat,
            component_decoder(),
        ).0 =~= before + crate::wire::read_items(start, (left + 1) as nat, component_decoder()).0);
    }
    assert(record_views(records@) =~= all);
    records
}

/// What a resource section asks for, with the bytes to decode.
pub enum ResourceChange {
    Keep,
    Remove,
    Replace(Vec<u8>),
}

impl View for ResourceChange {
    type V = ResourceOrder;

    open spec fn view(&self) -> ResourceOrder {
        match self {
            ResourceChange::Keep => ResourceOrder::Keep,
            ResourceChange::Remove => ResourceOrder::Remove,
            ResourceChange::Replace(bytes) => ResourceOrder::Replace(bytes@),
        }
    }
}

/// Appends the section of a resource type to `buf`.
pub fn write_resource(resource: &Option<Vec<u8>>, buf: &mut Vec<u8>)
    ensures
        final(buf)@ == old(buf)@ + resource_section(
            match resource {
                Some(bytes) => Some(bytes@),
                None => None,
            },
        ),
{
    match resource {
        Some(bytes) => if bytes.len() == 0 {
            push_u32(buf, 0);
            buf.push(PRESENT);
            assert(buf@ =~= old(buf)@ + (crate::wire::u32_bytes(0) + seq![PRESENT]));
        } else {
            push_sized(buf, bytes);
        },
        None => push_u32(buf, 0),
    }
}

/// Reads whether just the mark of a resource that is there is left.
fn is_mark(cursor: &mut Cursor<'_>) -> (mark: bool)
    requires
        old(cursor).wf(),
    ensures
        final(cursor).wf(),
        mark == (old(cursor).rest() == seq![PRESENT]),
{
    let ghost rest = cursor.rest();
    match cursor.read_bytes(1) {
        Ok(bytes) => {
            let mark: bool = bytes[0] == PRESENT && cursor.is_at_end();
            assert(rest =~= rest.take(1) + rest.skip(1));
            assert(mark ==> rest =~= seq![PRESENT]);
            mark
        },
        Err(_) => false,
    }
}

/// Reads what a resource section asks for.
pub fn read_resource(data: &Vec<u8>) -> (change: ResourceChange)
    ensures
        change@ == resource_order(data@),
{
    let mut cursor = Cursor::new(data.as_slice());
    match cursor.read_u32() {
        Err(_) => ResourceChange::Keep,
        Ok(n) => if n > 0 {
            match cursor.read_vec(n as usize) {
                Ok(bytes) => ResourceChange::Replace(bytes),
                Err(_) => ResourceChange::Keep,
            }
        } else if is_mark(&mut cursor) {
            let none: Vec<u8> = Vec::new();
            assert(none@ =~= Seq::empty());
            ResourceChange::Replace(none)
        } else {
            ResourceChange::Remove
        },
    }
}

} // verus!
