//! What holds of capturing a world.

use crate::snapshot::SnapshotView;
use crate::world::{RollbackId, WorldView};
use vstd::prelude::*;

verus! {

/// `encode` makes something of a value of a type, and `decode` gives the value
/// back from it.
pub open spec fn lossless<
    V,
    E: Fn(u64, &V) -> Option<Vec<u8>>,
    D: Fn(u64, &Vec<u8>) -> Option<V>,
>(encode: E, decode: D, kind: u64, value: V) -> bool {
    &&& forall|made: Option<Seq<u8>>| #[trigger]
        crate::capture::encoded(encode, kind, value, made) ==> made is Some
    &&& forall|bytes: Seq<u8>, found: Option<V>| #[trigger]
        crate::capture::encoded(encode, kind, value, Some(bytes))
            && #[trigger] crate::restore::decoded(decode, kind, bytes, found) ==> found == Some(
            value,
        )
}

/// The components of a type that a world is captured with are encoded
/// losslessly.
pub open spec fn components_lossless<
    V,
    E: Fn(u64, &V) -> Option<Vec<u8>>,
    D: Fn(u64, &Vec<u8>) -> Option<V>,
>(encode: E, decode: D, world: WorldView<V>, kind: u64) -> bool {
    let found = crate::world::identified_components(world.entities, world.components, kind);
    forall|i: int|
        0 <= i < found.len() ==> lossless(encode, decode, kind, (#[trigger] found[i]).1)
}

/// The resource of a type is encoded losslessly, if the world has it.
pub open spec fn resource_lossless<
    V,
    E: Fn(u64, &V) -> Option<Vec<u8>>,
    D: Fn(u64, &Vec<u8>) -> Option<V>,
>(encode: E, decode: D, world: WorldView<V>, kind: u64) -> bool {
    world.resources.contains_key(kind) ==> lossless(encode, decode, kind, world.resources[kind])
}

/// What a world is captured with is encoded losslessly, each value as a value
/// of its own type. Nothing is asked of values that the world does not hold.
pub open spec fn faithful<
    V,
    E: Fn(u64, &V) -> Option<Vec<u8>>,
    D: Fn(u64, &Vec<u8>) -> Option<V>,
>(encode: E, decode: D, world: WorldView<V>) -> bool {
    let kinds = crate::capture::registered(world);
    &&& forall|i: int|
        0 <= i < kinds.components.len() ==> components_lossless(
            encode,
            decode,
            world,
            #[trigger] kinds.components[i],
        )
    &&& forall|i: int|
        0 <= i < kinds.resources.len() ==> resource_lossless(
            encode,
            decode,
            world,
            #[trigger] kinds.resources[i],
        )
}

/// `encode` makes the same of a value of a type every time.
pub open spec fn repeatable<V, E: Fn(u64, &V) -> Option<Vec<u8>>>(
    encode: E,
    kind: u64,
    value: V,
) -> bool {
    forall|a: Option<Seq<u8>>, b: Option<Seq<u8>>|
        #[trigger] crate::capture::encoded(encode, kind, value, a)
            && #[trigger] crate::capture::encoded(encode, kind, value, b) ==> a == b
}

/// The components of a type that a world is captured with are encoded alike
/// every time.
pub open spec fn components_repeatable<V, E: Fn(u64, &V) -> Option<Vec<u8>>>(
    encode: E,
    world: WorldView<V>,
    kind: u64,
) -> bool {
    let found = crate::world::identified_components(world.entities, world.components, kind);
    forall|i: int| 0 <= i < found.len() ==> repeatable(encode, kind, (#[trigger] found[i]).1)
}

/// The resource of a type is encoded alike every time, if the world has it.
pub open spec fn resource_repeatable<V, E: Fn(u64, &V) -> Option<Vec<u8>>>(
    encode: E,
    world: WorldView<V>,
    kind: u64,
) -> bool {
    world.resources.contains_key(kind) ==> repeatable(encode, kind, world.resources[kind])
}

/// What is written for a component is decoded to that component.
pub proof fn lemma_written_decodes<
    V,
    E: Fn(u64, &V) -> Option<Vec<u8>>,
    D: Fn(u64, &Vec<u8>) -> Option<V>,
>(encode: E, decode: D, kind: u64, value: V, bytes: Seq<u8>, found: Option<V>)
    requires
        lossless(encode, decode, kind, value),
        crate::capture::written(encode, kind, value, bytes),
        crate::restore::decoded(decode, kind, bytes, found),
    ensures
        found == Some(value),
{
    let made = choose|made: Option<Seq<u8>>| #[trigger]
        crate::capture::encoded(encode, kind, value, made) && bytes
            == crate::capture::or_no_bytes(made);
    assert(crate::capture::encoded(encode, kind, value, Some(bytes)));
}

/// The count and every length of these components can be written in four bytes.
pub open spec fn parts_fit(parts: Seq<(RollbackId, Seq<u8>)>) -> bool {
    &&& parts.len() < crate::wire::U32_RANGE
    &&& forall|i: int|
        0 <= i < parts.len() ==> (#[trigger] parts[i]).1.len() < crate::wire::U32_RANGE
}

/// The length of an encoding can be written in four bytes.
pub open spec fn made_fits(made: Option<Seq<u8>>) -> bool {
    made matches Some(bytes) ==> bytes.len() < crate::wire::U32_RANGE
}

/// `section` holds the components of a type, and neither their count nor a
/// length was cut off.
pub open spec fn component_in_full<V, E: Fn(u64, &V) -> Option<Vec<u8>>>(
    encode: E,
    world: WorldView<V>,
    kind: u64,
    section: Seq<u8>,
) -> bool {
    exists|parts: Seq<(RollbackId, Seq<u8>)>|
        {
            &&& crate::capture::parts_written(
                encode,
                kind,
                crate::world::identified_components(world.entities, world.components, kind),
                parts,
            )
            &&& parts_fit(parts)
            &&& section == #[trigger] crate::sections::component_section(parts)
        }
}

/// `section` holds the resource of a type, or says that there is none, and its
/// length was not cut off.
pub open spec fn resource_in_full<V, E: Fn(u64, &V) -> Option<Vec<u8>>>(
    encode: E,
    world: WorldView<V>,
    kind: u64,
    section: Seq<u8>,
) -> bool {
    if world.resources.contains_key(kind) {
        exists|made: Option<Seq<u8>>| #[trigger]
            crate::capture::encoded(encode, kind, world.resources[kind], made) && made_fits(made)
                && section == crate::sections::resource_section(made)
    } else {
        section == crate::sections::resource_section(None)
    }
}

/// `snapshot` is a snapshot of `world` in which no count and no length was cut
/// off to the four bytes that it is written in.
pub open spec fn captured_in_full<V, E: Fn(u64, &V) -> Option<Vec<u8>>>(
    encode: E,
    world: WorldView<V>,
    snapshot: SnapshotView,
) -> bool {
    let kinds = crate::capture::registered(world);
    &&& crate::capture::captured(encode, world, snapshot)
    &&& crate::world::identified(world.entities).len() < crate::wire::U32_RANGE
    &&& crate::capture::order_of(world).len() < crate::wire::U32_RANGE
    &&& forall|i: int|
        0 <= i < kinds.components.len() ==> component_in_full(
            encode,
            world,
            #[trigger] kinds.components[i],
            snapshot.component_sections[i],
        )
    &&& forall|i: int|
        0 <= i < kinds.resources.len() ==> resource_in_full(
            encode,
            world,
            #[trigger] kinds.resources[i],
            snapshot.resource_sections[i],
        )
}

/// There are few enough components of a type, and none encodes to too many
/// bytes, for count and lengths to be written in four bytes.
pub open spec fn components_countable<V, E: Fn(u64, &V) -> Option<Vec<u8>>>(
    encode: E,
    world: WorldView<V>,
    kind: u64,
) -> bool {
    let found = crate::world::identified_components(world.entities, world.components, kind);
    &&& found.len() < crate::wire::U32_RANGE
    &&& forall|i: int, made: Option<Seq<u8>>|
        0 <= i < found.len() && #[trigger] crate::capture::encoded(
            encode,
            kind,
            (#[trigger] found[i]).1,
            made,
        ) ==> made_fits(made)
}

/// The resource of a type does not encode to too many bytes for their number
/// to be written in four.
pub open spec fn resource_countable<V, E: Fn(u64, &V) -> Option<Vec<u8>>>(
    encode: E,
    world: WorldView<V>,
    kind: u64,
) -> bool {
    forall|made: Option<Seq<u8>>|
        world.resources.contains_key(kind) && #[trigger] crate::capture::encoded(
            encode,
            kind,
            world.resources[kind],
            made,
        ) ==> made_fits(made)
}

/// The section of components whose count and lengths fit is captured in full.
pub proof fn lemma_countable_section<V, E: Fn(u64, &V) -> Option<Vec<u8>>>(
    encode: E,
    world: WorldView<V>,
    kind: u64,
    section: Seq<u8>,
)
    requires
        crate::capture::component_captured(encode, world, kind, section),
        components_countable(encode, world, kind),
    ensures
        component_in_full(encode, world, kind, section),
{
    let found = crate::world::identified_components(world.entities, world.components, kind);
    let parts = choose|parts: Seq<(RollbackId, Seq<u8>)>|
        crate::capture::parts_written(encode, kind, found, parts) && section
            == #[trigger] crate::sections::component_section(parts);
    assert forall|i: int| 0 <= i < parts.len() implies (#[trigger] parts[i]).1.len()
        < crate::wire::U32_RANGE by {
        let value = found[i].1;
        assert(crate::capture::written(encode, kind, value, parts[i].1));
        let made = choose|made: Option<Seq<u8>>| #[trigger]
            crate::capture::encoded(encode, kind, value, made) && parts[i].1
                == crate::capture::or_no_bytes(made);
        assert(made_fits(made));
    }
}

/// A world with fewer entities, ordered identifiers and components of each type
/// than four bytes can count, and with no value that encodes to more bytes than
/// that, is captured in full.
pub proof fn law_countable_world_is_captured_in_full<V, E: Fn(u64, &V) -> Option<Vec<u8>>>(
    encode: E,
    world: WorldView<V>,
    snapshot: SnapshotView,
)
    requires
        crate::capture::captured(encode, world, snapshot),
        crate::world::identified(world.entities).len() < crate::wire::U32_RANGE,
        crate::capture::order_of(world).len() < crate::wire::U32_RANGE,
        forall|i: int|
            0 <= i < crate::capture::registered(world).components.len() ==> components_countable(
                encode,
                world,
                #[trigger] crate::capture::registered(world).components[i],
            ),
        forall|i: int|
            0 <= i < crate::capture::registered(world).resources.len() ==> resource_countable(
                encode,
                world,
                #[trigger] crate::capture::registered(world).resources[i],
            ),
    ensures
        captured_in_full(encode, world, snapshot),
{
    let kinds = crate::capture::registered(world);
    assert forall|i: int| 0 <= i < kinds.components.len() implies component_in_full(
        encode,
        world,
        #[trigger] kinds.components[i],
        snapshot.component_sections[i],
    ) by {
        lemma_countable_section(
            encode,
            world,
            kinds.components[i],
            snapshot.component_sections[i],
        );
    }
}

/// A snapshot that fits its bytes was captured in full.
pub proof fn law_fitting_snapshot_is_captured_in_full<V, E: Fn(u64, &V) -> Option<Vec<u8>>>(
    encode: E,
    world: WorldView<V>,
    snapshot: SnapshotView,
)
    requires
        crate::capture::captured(encode, world, snapshot),
        crate::snapshot_laws::fits(snapshot),
    ensures
        captured_in_full(encode, world, snapshot),
{
    let kinds = crate::capture::registered(world);
    lemma_entities_counted(crate::world::identified(world.entities));
    lemma_order_counted(crate::capture::order_of(world));
    assert forall|i: int| 0 <= i < kinds.components.len() implies component_in_full(
        encode,
        world,
        #[trigger] kinds.components[i],
        snapshot.component_sections[i],
    ) by {
        let kind = kinds.components[i];
        let found = crate::world::identified_components(world.entities, world.components, kind);
        let section = snapshot.component_sections[i];
        assert(crate::capture::component_captured(encode, world, kind, section));
        let parts = choose|parts: Seq<(RollbackId, Seq<u8>)>|
            crate::capture::parts_written(encode, kind, found, parts) && section
                == #[trigger] crate::sections::component_section(parts);
        lemma_parts_fit(parts);
    }
    assert forall|i: int| 0 <= i < kinds.resources.len() implies resource_in_full(
        encode,
        world,
        #[trigger] kinds.resources[i],
        snapshot.resource_sections[i],
    ) by {
        let kind = kinds.resources[i];
        let section = snapshot.resource_sections[i];
        assert(crate::capture::resource_captured(encode, world, kind, section));
        if world.resources.contains_key(kind) {
            let made = choose|made: Option<Seq<u8>>| #[trigger]
                crate::capture::encoded(encode, kind, world.resources[kind], made) && section
                    == crate::sections::resource_section(made);
            assert(made_fits(made)) by {
                if let Some(bytes) = made {
                    crate::wire::lemma_le_bytes_len(
                        (bytes.len() as int % crate::wire::U32_RANGE as int) as nat,
                        4,
                    );
                }
            }
        }
    }
}

/// The encodings of a list are at least as long as each of them, and as long
/// as the list where none is empty.
proof fn lemma_join_len<T>(items: Seq<T>, encode: spec_fn(T) -> Seq<u8>, i: int)
    requires
        forall|j: int| 0 <= j < items.len() ==> encode(#[trigger] items[j]).len() > 0,
    ensures
        items.len() <= crate::wire::join(items, encode).len(),
        0 <= i < items.len() ==> encode(items[i]).len() <= crate::wire::join(items, encode).len(),
    decreases items.len(),
{
    if items.len() > 0 {
        let tail = items.drop_first();
        assert forall|j: int| 0 <= j < tail.len() implies encode(#[trigger] tail[j]).len() > 0 by {
            assert(tail[j] == items[j + 1]);
        }
        lemma_join_len(tail, encode, i - 1);
        if 0 < i < items.len() {
            assert(tail[i - 1] == items[i]);
        }
        assert(encode(items[0]).len() > 0);
    }
}

/// The entities of a section that fits can be counted in four bytes.
proof fn lemma_entities_counted(records: Seq<(RollbackId, u64)>)
    requires
        crate::sections::entity_section(records).len() < crate::wire::U32_RANGE,
    ensures
        records.len() < crate::wire::U32_RANGE,
{
    let encoder = crate::sections::entity_encoder();
    assert forall|j: int| 0 <= j < records.len() implies encoder(#[trigger] records[j]).len()
        > 0 by {
        crate::wire::lemma_le_bytes_len(records[j].0.0 as nat, 8);
        crate::wire::lemma_le_bytes_len(records[j].1 as nat, 8);
    }
    lemma_join_len(records, encoder, 0);
}

/// The identifiers of a section that fits can be counted in four bytes.
proof fn lemma_order_counted(ids: Seq<RollbackId>)
    requires
        crate::sections::ordered_section(ids).len() < crate::wire::U32_RANGE,
    ensures
        ids.len() < crate::wire::U32_RANGE,
{
    let encoder = crate::sections::id_encoder();
    assert forall|j: int| 0 <= j < ids.len() implies encoder(#[trigger] ids[j]).len() > 0 by {
        crate::wire::lemma_le_bytes_len(ids[j].0 as nat, 8);
    }
    lemma_join_len(ids, encoder, 0);
}

/// The count and the lengths of a section that fits can be written in four
/// bytes each.
proof fn lemma_parts_fit(parts: Seq<(RollbackId, Seq<u8>)>)
    requires
        crate::sections::component_section(parts).len() < crate::wire::U32_RANGE,
    ensures
        parts_fit(parts),
{
    let encoder = crate::sections::component_encoder();
    assert forall|j: int| 0 <= j < parts.len() implies encoder(#[trigger] parts[j]).len() > 0 by {
        crate::wire::lemma_le_bytes_len(parts[j].0.0 as nat, 8);
    }
    lemma_join_len(parts, encoder, 0);
    assert forall|j: int| 0 <= j < parts.len() implies (#[trigger] parts[j]).1.len()
        < crate::wire::U32_RANGE by {
        lemma_join_len(parts, encoder, j);
    }
}

/// The components that a section captured in full holds, as they were written.
pub proof fn lemma_parts_of<V, E: Fn(u64, &V) -> Option<Vec<u8>>>(
    encode: E,
    world: WorldView<V>,
    kind: u64,
    section: Seq<u8>,
) -> (parts: Seq<(RollbackId, Seq<u8>)>)
    requires
        component_in_full(encode, world, kind, section),
    ensures
        crate::capture::parts_written(
            encode,
            kind,
            crate::world::identified_components(world.entities, world.components, kind),
            parts,
        ),
        crate::sections::component_records(section) == parts,
{
    let found = crate::world::identified_components(world.entities, world.components, kind);
    let parts = choose|parts: Seq<(RollbackId, Seq<u8>)>|
        {
            &&& crate::capture::parts_written(encode, kind, found, parts)
            &&& parts_fit(parts)
            &&& section == #[trigger] crate::sections::component_section(parts)
        };
    crate::sections::law_component_section(parts);
    parts
}

/// The snapshot of a world counts the world's identified entities.
pub proof fn law_entity_count<V, E: Fn(u64, &V) -> Option<Vec<u8>>>(
    encode: E,
    world: WorldView<V>,
    snapshot: SnapshotView,
)
    requires
        crate::capture::captured(encode, world, snapshot),
        crate::world::identified(world.entities).len() < crate::wire::U32_RANGE,
    ensures
        crate::wire::take_u32(snapshot.entity_data) matches Some((n, _)) && n
            == crate::world::identified(world.entities).len(),
{
    let records = crate::world::identified(world.entities);
    crate::wire::lemma_take_u32(
        records.len() as int,
        crate::wire::join(records, crate::sections::entity_encoder()),
    );
}

/// Two snapshots of one world are the same, byte for byte, where what the world
/// is captured with is encoded alike every time.
pub proof fn law_capture_is_repeatable<V, E: Fn(u64, &V) -> Option<Vec<u8>>>(
    encode: E,
    world: WorldView<V>,
    a: SnapshotView,
    b: SnapshotView,
)
    requires
        forall|i: int|
            0 <= i < crate::capture::registered(world).components.len() ==> components_repeatable(
                encode,
                world,
                #[trigger] crate::capture::registered(world).components[i],
            ),
        forall|i: int|
            0 <= i < crate::capture::registered(world).resources.len() ==> resource_repeatable(
                encode,
                world,
                #[trigger] crate::capture::registered(world).resources[i],
            ),
        crate::capture::captured(encode, world, a),
        crate::capture::captured(encode, world, b),
    ensures
        a == b,
        crate::snapshot::snapshot_bytes(a) == crate::snapshot::snapshot_bytes(b),
{
    let kinds = crate::capture::registered(world);
    assert forall|i: int| 0 <= i < kinds.components.len() implies a.component_sections[i]
        == b.component_sections[i] by {
        let kind = kinds.components[i];
        let records = crate::world::identified_components(
            world.entities,
            world.components,
            kind,
        );
        let pa = choose|parts: Seq<(RollbackId, Seq<u8>)>|
            crate::capture::parts_written(encode, kind, records, parts) && a.component_sections[i]
                == #[trigger] crate::sections::component_section(parts);
        let pb = choose|parts: Seq<(RollbackId, Seq<u8>)>|
            crate::capture::parts_written(encode, kind, records, parts) && b.component_sections[i]
                == #[trigger] crate::sections::component_section(parts);
        assert forall|j: int| 0 <= j < records.len() implies pa[j] == pb[j] by {
            let value = records[j].1;
            assert(repeatable(encode, kind, value));
            assert(crate::capture::written(encode, kind, value, pa[j].1));
            assert(crate::capture::written(encode, kind, value, pb[j].1));
            let ma = choose|made: Option<Seq<u8>>| #[trigger]
                crate::capture::encoded(encode, kind, value, made) && pa[j].1
                    == crate::capture::or_no_bytes(made);
            let mb = choose|made: Option<Seq<u8>>| #[trigger]
                crate::capture::encoded(encode, kind, value, made) && pb[j].1
                    == crate::capture::or_no_bytes(made);
            assert(ma == mb);
        }
        assert(pa =~= pb);
    }
    assert(a.component_sections =~= b.component_sections);
    assert forall|i: int| 0 <= i < kinds.resources.len() implies a.resource_sections[i]
        == b.resource_sections[i] by {
        let kind = kinds.resources[i];
        if world.resources.contains_key(kind) {
            let value = world.resources[kind];
            assert(resource_repeatable(encode, world, kind));
            let ba = choose|made: Option<Seq<u8>>| #[trigger]
                crate::capture::encoded(encode, kind, value, made) && a.resource_sections[i]
                    == crate::sections::resource_section(made);
            let bb = choose|made: Option<Seq<u8>>| #[trigger]
                crate::capture::encoded(encode, kind, value, made) && b.resource_sections[i]
                    == crate::sections::resource_section(made);
            assert(ba == bb);
        }
    }
    assert(a.resource_sections =~= b.resource_sections);
}

} // verus!
