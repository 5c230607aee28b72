//! What holds of every snapshot on the wire.

use crate::snapshot::SnapshotView;
use vstd::prelude::*;

verus! {

/// Every section is short enough for its length to be written in four bytes.
pub open spec fn sections_fit(sections: Seq<Seq<u8>>) -> bool {
    &&& sections.len() < crate::wire::U32_RANGE
    &&& forall|i: int|
        0 <= i < sections.len() ==> (#[trigger] sections[i]).len() < crate::wire::U32_RANGE
}

/// Every length in the snapshot can be written in four bytes.
pub open spec fn fits(snapshot: SnapshotView) -> bool {
    &&& snapshot.entity_data.len() < crate::wire::U32_RANGE
    &&& snapshot.ordered_data.len() < crate::wire::U32_RANGE
    &&& sections_fit(snapshot.component_sections)
    &&& sections_fit(snapshot.resource_sections)
}

/// A list of sections is found again in front of any bytes.
proof fn lemma_take_sections(sections: Seq<Seq<u8>>, rest: Seq<u8>)
    requires
        sections_fit(sections),
    ensures
        crate::snapshot::take_sections(crate::snapshot::sections_bytes(sections) + rest) == Some(
            (sections, rest),
        ),
{
    let encoder = crate::sections::sized_encoder();
    let decoder = crate::sections::sized_decoder();
    let joined = crate::wire::join(sections, encoder);
    assert forall|i: int| 0 <= i < sections.len() implies crate::wire::reads_back(
        #[trigger] sections[i],
        encoder,
        decoder,
    ) by {
        crate::sections::lemma_sized_reads_back(sections[i]);
    }
    assert(crate::snapshot::sections_bytes(sections) + rest =~= crate::wire::u32_bytes(
        sections.len() as int,
    ) + (joined + rest));
    crate::wire::lemma_take_u32(sections.len() as int, joined + rest);
    crate::wire::lemma_read_joined(sections, rest, encoder, decoder);
}

/// What a list of sections was read from is its encoding.
proof fn lemma_took_sections(bytes: Seq<u8>)
    ensures
        crate::snapshot::take_sections(bytes) matches Some((sections, rest)) ==> {
            &&& sections_fit(sections)
            &&& bytes == crate::snapshot::sections_bytes(sections) + rest
        },
{
    let encoder = crate::sections::sized_encoder();
    let decoder = crate::sections::sized_decoder();
    if let Some((sections, rest)) = crate::snapshot::take_sections(bytes) {
        crate::wire::lemma_took_u32(bytes);
        let (n, behind) = crate::wire::take_u32(bytes)->0;
        assert(crate::wire::reads_only_encodings(encoder, decoder)) by {
            assert forall|at: Seq<u8>|
                (#[trigger] decoder(at) matches Some((item, tail)) ==> at == encoder(item)
                    + tail) by {
                crate::wire::lemma_took_sized(at);
            }
        }
        crate::wire::lemma_joined_of_read(behind, n as nat, encoder, decoder);
        assert forall|i: int| 0 <= i < sections.len() implies (#[trigger] sections[i]).len()
            < crate::wire::U32_RANGE by {
            crate::wire::lemma_read_items_decoded(behind, n as nat, decoder, i);
            let at = choose|at: Seq<u8>|
                (#[trigger] decoder(at)) matches Some((item, _)) && item == sections[i];
            crate::wire::lemma_took_sized(at);
        }
        assert(bytes =~= crate::snapshot::sections_bytes(sections) + rest);
    }
}

/// Five byte strings and a rest, however they are bracketed.
proof fn lemma_bracket(a: Seq<u8>, b: Seq<u8>, c: Seq<u8>, d: Seq<u8>, e: Seq<u8>, rest: Seq<u8>)
    ensures
        a + (b + (c + (d + (e + rest)))) == a + b + c + d + e + rest,
{
    assert(a + (b + (c + (d + (e + rest)))) =~= a + b + c + d + e + rest);
}

/// A string cut off at `n` and read as `front` and `rest` starts with `front`.
proof fn lemma_front_of_cut(whole: Seq<u8>, n: int, front: Seq<u8>, rest: Seq<u8>)
    requires
        0 <= n < whole.len(),
        whole.take(n) == front + rest,
    ensures
        whole == front + (rest + whole.skip(n)),
        (rest + whole.skip(n)).len() > 0,
{
    assert(whole =~= whole.take(n) + whole.skip(n));
    assert(front + rest + whole.skip(n) =~= front + (rest + whole.skip(n)));
}

/// A snapshot is found again in front of any bytes.
proof fn lemma_take_snapshot(snapshot: SnapshotView, rest: Seq<u8>)
    requires
        fits(snapshot),
    ensures
        crate::snapshot::take_snapshot(crate::snapshot::snapshot_bytes(snapshot) + rest) == Some(
            (snapshot, rest),
        ),
{
    let resources = crate::snapshot::sections_bytes(snapshot.resource_sections) + rest;
    let components = crate::snapshot::sections_bytes(snapshot.component_sections) + resources;
    let ordered = crate::wire::sized(snapshot.ordered_data) + components;
    let entities = crate::wire::sized(snapshot.entity_data) + ordered;
    lemma_bracket(
        crate::wire::u32_bytes(snapshot.frame as int),
        crate::wire::sized(snapshot.entity_data),
        crate::wire::sized(snapshot.ordered_data),
        crate::snapshot::sections_bytes(snapshot.component_sections),
        crate::snapshot::sections_bytes(snapshot.resource_sections),
        rest,
    );
    crate::wire::lemma_take_u32(snapshot.frame as int, entities);
    crate::wire::lemma_signed(snapshot.frame);
    crate::wire::lemma_take_sized(snapshot.entity_data, ordered);
    crate::wire::lemma_take_sized(snapshot.ordered_data, components);
    lemma_take_sections(snapshot.component_sections, resources);
    lemma_take_sections(snapshot.resource_sections, rest);
}

/// Deserializing the bytes of a snapshot gives the snapshot back, whatever
/// follows those bytes.
pub proof fn law_bytes_roundtrip(snapshot: SnapshotView, rest: Seq<u8>)
    requires
        fits(snapshot),
    ensures
        crate::snapshot::take_snapshot(crate::snapshot::snapshot_bytes(snapshot)) == Some(
            (snapshot, Seq::<u8>::empty()),
        ),
        crate::snapshot::take_snapshot(crate::snapshot::snapshot_bytes(snapshot) + rest) == Some(
            (snapshot, rest),
        ),
{
    let none = Seq::<u8>::empty();
    assert(crate::snapshot::snapshot_bytes(snapshot) + none
        =~= crate::snapshot::snapshot_bytes(snapshot));
    lemma_take_snapshot(snapshot, none);
    lemma_take_snapshot(snapshot, rest);
}

/// Bytes from which a snapshot was read are the bytes it serializes to, and
/// what was left over behind them. So two byte strings that hold the same
/// snapshot differ only in what follows it.
pub proof fn law_bytes_are_canonical(bytes: Seq<u8>)
    ensures
        crate::snapshot::take_snapshot(bytes) matches Some((snapshot, rest)) ==> {
            &&& fits(snapshot)
            &&& bytes == crate::snapshot::snapshot_bytes(snapshot) + rest
        },
{
    if let Some((snapshot, rest)) = crate::snapshot::take_snapshot(bytes) {
        let (frame, at_entities) = crate::wire::take_u32(bytes)->0;
        let (entity_data, at_ordered) = crate::wire::take_sized(at_entities)->0;
        let (ordered_data, at_components) = crate::wire::take_sized(at_ordered)->0;
        let (components, at_resources) = crate::snapshot::take_sections(at_components)->0;
        let head = crate::wire::u32_bytes(snapshot.frame as int);
        assert(bytes == head + at_entities) by {
            crate::wire::lemma_took_u32(bytes);
            crate::wire::lemma_unsigned(frame);
        }
        assert(fits(snapshot) && at_entities == crate::wire::sized(entity_data) + at_ordered
            && at_ordered == crate::wire::sized(ordered_data) + at_components && at_components
            == crate::snapshot::sections_bytes(components) + at_resources && at_resources
            == crate::snapshot::sections_bytes(snapshot.resource_sections) + rest) by {
            crate::wire::lemma_took_sized(at_entities);
            crate::wire::lemma_took_sized(at_ordered);
            lemma_took_sections(at_components);
            lemma_took_sections(at_resources);
        }
        lemma_bracket(
            head,
            crate::wire::sized(entity_data),
            crate::wire::sized(ordered_data),
            crate::snapshot::sections_bytes(components),
            crate::snapshot::sections_bytes(snapshot.resource_sections),
            rest,
        );
    }
}

/// A snapshot that was cut short anywhere is rejected.
pub proof fn law_truncated_bytes_are_rejected(snapshot: SnapshotView, n: int)
    requires
        fits(snapshot),
        0 <= n < crate::snapshot::snapshot_bytes(snapshot).len(),
    ensures
        crate::snapshot::take_snapshot(crate::snapshot::snapshot_bytes(snapshot).take(n)) is None,
{
    let whole = crate::snapshot::snapshot_bytes(snapshot);
    let cut = whole.take(n);
    law_bytes_are_canonical(cut);
    if let Some((other, rest)) = crate::snapshot::take_snapshot(cut) {
        lemma_front_of_cut(whole, n, crate::snapshot::snapshot_bytes(other), rest);
        law_bytes_roundtrip(other, rest + whole.skip(n));
        law_bytes_roundtrip(snapshot, Seq::empty());
    }
}

} // verus!
