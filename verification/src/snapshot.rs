//! A world snapshot and its wire format.

use crate::wire::{push_i32, push_sized, push_u32, to_signed, Cursor, IoError};
use vstd::prelude::*;

verus! {

/// Errors during snapshot operations.
#[derive(Debug)]
pub enum SnapshotError {
    /// Reading or writing the snapshot failed.
    Io(IoError),
    /// The snapshot data is corrupted or unexpected.
    InvalidFormat(String),
}

impl vstd::std_specs::convert::FromSpecImpl<IoError> for SnapshotError {
    open spec fn obeys_from_spec() -> bool {
        true
    }

    open spec fn from_spec(e: IoError) -> Self {
        SnapshotError::Io(e)
    }
}

impl From<IoError> for SnapshotError {
    fn from(e: IoError) -> (error: Self) {
        SnapshotError::Io(e)
    }
}

impl SnapshotError {
    /// What the error says to a reader.
    pub open spec fn text(&self) -> Seq<char> {
        match self {
            SnapshotError::Io(IoError::UnexpectedEof) => "I/O error: failed to fill whole buffer"@,
            SnapshotError::InvalidFormat(message) => "invalid format: "@ + message@,
        }
    }

    /// The error in words.
    pub fn to_text(&self) -> (text: String)
        ensures
            text@ == self.text(),
    {
        match self {
            SnapshotError::Io(IoError::UnexpectedEof) => {
                "I/O error: failed to fill whole buffer".to_owned()
            },
            SnapshotError::InvalidFormat(message) => {
                let mut text: String = "invalid format: ".to_owned();
                text.append(message.as_str());
                text
            },
        }
    }
}

/// A portable snapshot of all rollback state that can be serialized to bytes.
#[derive(Clone, Debug)]
pub struct WorldSyncSnapshot {
    /// The frame count at capture time.
    pub frame: i32,
    /// The entities and their identifiers.
    pub entity_data: Vec<u8>,
    /// The rollback order.
    pub ordered_data: Vec<u8>,
    /// Component data, one section per registered component type.
    pub component_sections: Vec<Vec<u8>>,
    /// Resource data, one section per registered resource type.
    pub resource_sections: Vec<Vec<u8>>,
}

/// What a snapshot holds.
#[verifier::ext_equal]
pub struct SnapshotView {
    pub frame: i32,
    pub entity_data: Seq<u8>,
    pub ordered_data: Seq<u8>,
    pub component_sections: Seq<Seq<u8>>,
    pub resource_sections: Seq<Seq<u8>>,
}

/// The bytes of each section.
pub open spec fn section_views(sections: Seq<Vec<u8>>) -> Seq<Seq<u8>> {
    sections.map_values(|section: Vec<u8>| section@)
}

impl View for WorldSyncSnapshot {
    type V = SnapshotView;

    open spec fn view(&self) -> SnapshotView {
        SnapshotView {
            frame: self.frame,
            entity_data: self.entity_data@,
            ordered_data: self.ordered_data@,
            component_sections: section_views(self.component_sections@),
            resource_sections: section_views(self.resource_sections@),
        }
    }
}

/// A list of sections on the wire: their count, then each behind its length.
pub open spec fn sections_bytes(sections: Seq<Seq<u8>>) -> Seq<u8> {
    crate::wire::counted(sections, crate::sections::sized_encoder())
}

/// A snapshot on the wire.
///
/// ```text
/// [frame: i32 LE]
/// [entity_data_len: u32 LE] [entity_data: bytes]
/// [ordered_data_len: u32 LE] [ordered_data: bytes]
/// [component_section_count: u32 LE]
///   for each section: [section_len: u32 LE] [section_data: bytes]
/// [resource_section_count: u32 LE]
///   for each section: [section_len: u32 LE] [section_data: bytes]
/// ```
pub open spec fn snapshot_bytes(snapshot: SnapshotView) -> Seq<u8> {
    crate::wire::u32_bytes(snapshot.frame as int) + crate::wire::sized(snapshot.entity_data)
        + crate::wire::sized(snapshot.ordered_data) + sections_bytes(snapshot.component_sections)
        + sections_bytes(snapshot.resource_sections)
}

/// A complete list of sections, and what follows it.
pub open spec fn take_sections(bytes: Seq<u8>) -> Option<(Seq<Seq<u8>>, Seq<u8>)> {
    match crate::wire::take_u32(bytes) {
        None => None,
        Some((n, rest)) => {
            let read = crate::wire::read_items(rest, n as nat, crate::sections::sized_decoder());
            if read.0.len() == n {
                Some(read)
            } else {
                None
            }
        },
    }
}

/// A complete snapshot, and what follows it.
pub open spec fn take_snapshot(bytes: Seq<u8>) -> Option<(SnapshotView, Seq<u8>)> {
    match crate::wire::take_u32(bytes) {
        None => None,
        Some((frame, at_entities)) => match crate::wire::take_sized(at_entities) {
            None => None,
            Some((entity_data, at_ordered)) => match crate::wire::take_sized(at_ordered) {
                None => None,
                Some((ordered_data, at_components)) => match take_sections(at_components) {
                    None => None,
                    Some((component_sections, at_resources)) => match take_sections(at_resources) {
                        None => None,
                        Some((resource_sections, rest)) => Some(
                            (
                                SnapshotView {
                                    frame: crate::wire::signed(frame),
                                    entity_data,
                                    ordered_data,
                                    component_sections,
                                    resource_sections,
                                },
                                rest,
                            ),
                        ),
                    },
                },
            },
        },
    }
}

/// Appends a list of sections.
fn push_sections(buf: &mut Vec<u8>, sections: &Vec<Vec<u8>>)
    ensures
        final(buf)@ == old(buf)@ + sections_bytes(section_views(sections@)),
{
    let ghost views = section_views(sections@);
    let ghost encoder = crate::sections::sized_encoder();
    push_u32(buf, sections.len());
    let ghost count = buf@;
    let mut i: usize = 0;
    assert(buf@ =~= count + crate::wire::join(views.take(0), encoder));
    while i < sections.len()
        invariant
            i <= sections.len(),
            views == section_views(sections@),
            encoder == crate::sections::sized_encoder(),
            buf@ == count + crate::wire::join(views.take(i as int), encoder),
        decreases sections.len() - i,
    {
        push_sized(buf, &sections[i]);
        proof {
            let done = views.take(i as int);
            crate::wire::lemma_join_push(done, views[i as int], encoder);
            assert(views.take(i + 1) =~= done.push(views[i as int]));
            assert(buf@ =~= count + crate::wire::join(views.take(i + 1), encoder));
        }
        i = i + 1;
    }
    assert(views.take(i as int) =~= views);
    assert(buf@ =~= old(buf)@ + sections_bytes(views));
}

/// Reads a complete list of sections.
fn read_sections<'a>(cursor: &mut Cursor<'a>) -> (read: Result<Vec<Vec<u8>>, IoError>)
    requires
        old(cursor).wf(),
    ensures
        final(cursor).wf(),
        match take_sections(old(cursor).rest()) {
            Some((sections, rest)) => (read matches Ok(found) && section_views(found@) == sections)
                && final(cursor).rest() == rest,
            None => read == Err::<Vec<Vec<u8>>, IoError>(IoError::UnexpectedEof),
        },
{
    let mut sections: Vec<Vec<u8>> = Vec::new();
    let ghost decoder = crate::sections::sized_decoder();
    let count: u32 = match cursor.read_u32() {
        Ok(count) => count,
        Err(e) => {
            return Err(e);
        },
    };
    let mut left: u32 = count;
    let ghost all = crate::wire::read_items(cursor.rest(), count as nat, decoder);
    assert(section_views(sections@) + all.0 =~= all.0);
    while left > 0
        invariant
            cursor.wf(),
            decoder == crate::sections::sized_decoder(),
            left <= count,
            sections.len() == count - left,
            ({
                let ahead = crate::wire::read_items(cursor.rest(), left as nat, decoder);
                section_views(sections@) + ahead.0 == all.0 && ahead.1 == all.1
            }),
            take_sections(old(cursor).rest()) == (if all.0.len() == count {
                Some(all)
            } else {
                None
            }),
        decreases left,
    {
        let ghost before = section_views(sections@);
        let ghost start = cursor.rest();
        let section: Vec<u8> = match cursor.read_sized() {
            Ok(section) => section,
            Err(e) => {
                assert(all.0.len() < count);
                return Err(e);
            },
        };
        sections.push(section);
        left = left - 1;
        assert(section_views(sections@) =~= before.push(section@));
        assert(section_views(sections@) + crate::wire::read_items(
            cursor.rest(),
            left as nat,
            decoder,
        ).0 =~= before + crate::wire::read_items(start, (left + 1) as nat, decoder).0);
    }
    assert(section_views(sections@) =~= all.0);
    Ok(sections)
}

impl WorldSyncSnapshot {
    /// Serialize the snapshot to bytes.
    pub fn to_bytes(&self) -> (bytes: Vec<u8>)
        ensures
            bytes@ == snapshot_bytes(self@),
    {
        let mut buf: Vec<u8> = Vec::with_capacity(256);
        push_i32(&mut buf, self.frame);
        push_sized(&mut buf, &self.entity_data);
        push_sized(&mut buf, &self.ordered_data);
        push_sections(&mut buf, &self.component_sections);
        push_sections(&mut buf, &self.resource_sections);
        assert(buf@ =~= snapshot_bytes(self@));
        buf
    }

    /// Deserialize a snapshot from bytes produced by [`Self::to_bytes`]. What
    /// follows the snapshot is not looked at.
    pub fn from_bytes(bytes: &[u8]) -> (read: Result<Self, SnapshotError>)
        ensures
            match take_snapshot(bytes@) {
                Some((snapshot, _)) => read matches Ok(found) && found@ == snapshot,
                None => read == Err::<Self, SnapshotError>(
                    SnapshotError::Io(IoError::UnexpectedEof),
                ),
            },
    {
        let mut cursor = Cursor::new(bytes);
        let frame: u32 = match cursor.read_u32() {
            Ok(frame) => frame,
            Err(e) => {
                return Err(SnapshotError::from(e));
            },
        };
        let entity_data: Vec<u8> = match cursor.read_sized() {
            Ok(data) => data,
            Err(e) => {
                return Err(SnapshotError::from(e));
            },
        };
        let ordered_data: Vec<u8> = match cursor.read_sized() {
            Ok(data) => data,
            Err(e) => {
                return Err(SnapshotError::from(e));
            },
        };
        let component_sections: Vec<Vec<u8>> = match read_sections(&mut cursor) {
            Ok(sections) => sections,
            Err(e) => {
                return Err(SnapshotError::from(e));
            },
        };
        let resource_sections: Vec<Vec<u8>> = match read_sections(&mut cursor) {
            Ok(sections) => sections,
            Err(e) => {
                return Err(SnapshotError::from(e));
            },
        };
        Ok(
            WorldSyncSnapshot {
                frame: to_signed(frame),
                entity_data,
                ordered_data,
                component_sections,
                resource_sections,
            },
        )
    }

    /// Returns the number of rollback entities in this snapshot.
    pub fn entity_count(&self) -> (count: usize)
        ensures
            count == (match crate::wire::take_u32(self.entity_data@) {
                Some((n, _)) => n as int,
                None => 0,
            }),
    {
        let mut cursor = Cursor::new(self.entity_data.as_slice());
        match cursor.read_u32() {
            Ok(count) => count as usize,
            Err(_) => 0,
        }
    }
}

} // verus!
