//! Saving the components of a frame and going back to it.

use world_sync::component_history::{GgrsComponentSnapshot, GgrsComponentSnapshots};
use world_sync::component_snapshot::{
    ComponentSnapshotPlugin, ImmutableComponentSnapshotPlugin, LoadCommand, LoadRow,
};
use world_sync::strategy::{CloneStrategy, Strategy};
use world_sync::world::{RollbackFrameCount, RollbackId};

type Plugin = ComponentSnapshotPlugin<CloneStrategy<String>>;
type ImmutablePlugin = ImmutableComponentSnapshotPlugin<CloneStrategy<String>>;
type History = GgrsComponentSnapshots<String, String>;

fn rows(components: &[(u64, String)]) -> Vec<(RollbackId, &String)> {
    components.iter().map(|(id, value)| (RollbackId(*id), value)).collect()
}

fn named(count: u64) -> Vec<(u64, String)> {
    (0..count).map(|id| (id, format!("c{id}"))).collect()
}

fn save(history: &mut History, frame: i32, changed: &[(u64, String)], full: &[(u64, String)]) {
    let frame = RollbackFrameCount(frame);
    Plugin::save_cloneable(history, &frame, &rows(changed), false, || rows(full));
}

fn save_after_removal(
    history: &mut History,
    frame: i32,
    changed: &[(u64, String)],
    full: &[(u64, String)],
) {
    let frame = RollbackFrameCount(frame);
    Plugin::save_cloneable(history, &frame, &rows(changed), true, || rows(full));
}

fn stored(history: &History, id: u64) -> Option<String> {
    history.get().get(&RollbackId(id)).cloned()
}

#[test]
fn first_save_takes_everything() {
    let mut history = History::default();
    assert!(history.peek_latest().is_none());
    save(&mut history, 0, &[], &named(3));
    assert_eq!(history.get().len(), 3);
    assert_eq!(stored(&history, 2), Some("c2".to_string()));
    assert_eq!(stored(&history, 3), None);
}

#[test]
fn save_without_changes_repeats_the_latest() {
    let mut history = History::default();
    save(&mut history, 0, &[], &named(3));
    Plugin::save_cloneable(&mut history, &RollbackFrameCount(1), &vec![], false, || {
        panic!("nothing changed, so nothing has to be listed")
    });
    assert_eq!(history.get().len(), 3);
    assert_eq!(stored(&history, 1), Some("c1".to_string()));
    assert!(history.has_frame(0) && history.has_frame(1) && !history.has_frame(2));
}

#[test]
fn few_changes_are_patched_in() {
    let mut history = History::default();
    save(&mut history, 0, &[], &named(10));
    let changed = vec![
        (4, "new4".to_string()),
        (20, "new20".to_string()),
        (4, "newer4".to_string()),
        (0, "new0".to_string()),
    ];
    let changed_rows = rows(&changed);
    Plugin::save_cloneable(&mut history, &RollbackFrameCount(1), &changed_rows, false, || {
        panic!("few changed, so not everything has to be listed")
    });
    assert_eq!(history.get().len(), 11);
    assert_eq!(stored(&history, 4), Some("newer4".to_string()));
    assert_eq!(stored(&history, 20), Some("new20".to_string()));
    assert_eq!(stored(&history, 0), Some("new0".to_string()));
    assert_eq!(stored(&history, 9), Some("c9".to_string()));
    // The snapshot that was shared keeps what it had.
    history.rollback(0);
    assert_eq!(history.get().len(), 10);
    assert_eq!(stored(&history, 4), Some("c4".to_string()));
    assert_eq!(stored(&history, 20), None);
}

#[test]
fn many_changes_are_saved_anew() {
    let mut history = History::default();
    save(&mut history, 0, &[], &named(4));
    // Two of four are half: everything is listed again.
    let full = vec![(0, "x0".to_string()), (1, "x1".to_string())];
    save(&mut history, 1, &full, &full);
    assert_eq!(history.get().len(), 2);
    assert_eq!(stored(&history, 1), Some("x1".to_string()));
    assert_eq!(stored(&history, 3), None);
}

#[test]
fn a_component_taken_away_is_not_saved_again() {
    let mut history = History::default();
    save(&mut history, 0, &[], &named(5));
    let left: Vec<(u64, String)> = named(4);
    // Nothing changed but for the removal.
    save_after_removal(&mut history, 1, &[], &left);
    assert_eq!(history.get().len(), 4);
    assert_eq!(stored(&history, 4), None);
    // The same with a change beside it.
    let mut fewer = named(3);
    fewer[0].1 = "new0".to_string();
    save_after_removal(&mut history, 2, &[(0, "new0".to_string())], &fewer);
    assert_eq!(stored(&history, 3), None);
    assert_eq!(stored(&history, 0), Some("new0".to_string()));
    assert_eq!(stored(&history, 2), Some("c2".to_string()));
}

#[test]
fn going_back_does_not_bring_a_removed_component_back() {
    let mut history = History::default();
    save(&mut history, 1, &[], &named(4));
    save_after_removal(&mut history, 2, &[], &named(3));
    save(&mut history, 3, &[], &named(3));
    let load_rows = vec![LoadRow { entity: 100, rollback: RollbackId(3), component: None }];
    let commands = Plugin::load(&mut history, &RollbackFrameCount(2), load_rows);
    assert!(commands.is_empty());
    let load_rows = vec![LoadRow { entity: 100, rollback: RollbackId(3), component: None }];
    let commands = Plugin::load(&mut history, &RollbackFrameCount(1), load_rows);
    assert_eq!(describe(&commands), vec![(100, Some("c3".to_string()))]);
}

#[test]
fn history_is_kept_short() {
    let mut history = History::default();
    for frame in 0..6 {
        save(&mut history, frame, &[], &named(1));
    }
    history.sync_depth(4);
    assert!(!history.has_frame(1) && history.has_frame(2) && history.has_frame(5));
    history.sync_depth(10);
    assert!(history.has_frame(2));
    history.discard_old_snapshots(4);
    assert!(!history.has_frame(3) && history.has_frame(4) && history.has_frame(5));
    history.rollback(4);
    assert_eq!(stored(&history, 0), Some("c0".to_string()));
    history.discard_old_snapshots(9);
    assert!(history.peek_latest().is_none());
}

#[test]
fn incremental_save_equals_a_save_anew() {
    let mut patched = History::default();
    save(&mut patched, 0, &[], &named(7));
    let mut full = named(7);
    full[3].1 = "changed".to_string();
    let changed = vec![full[3].clone()];
    save(&mut patched, 1, &changed, &full);
    let mut anew = History::default();
    Plugin::save_reflect(&mut anew, &RollbackFrameCount(1), &rows(&full));
    assert_eq!(patched.get().len(), anew.get().len());
    for (id, value) in &full {
        assert_eq!(stored(&patched, *id), Some(value.clone()));
        assert_eq!(stored(&anew, *id), Some(value.clone()));
    }
}

#[test]
fn last_of_two_components_counts() {
    let snapshot: GgrsComponentSnapshot<u8, u8> = GgrsComponentSnapshot::new(vec![
        (RollbackId(9), 1),
        (RollbackId(2), 2),
        (RollbackId(9), 3),
    ]);
    assert_eq!(snapshot.len(), 2);
    assert_eq!(snapshot.get(&RollbackId(9)), Some(&3));
    assert_eq!(snapshot.get(&RollbackId(2)), Some(&2));
    assert_eq!(snapshot.get(&RollbackId(5)), None);
}

fn describe(commands: &[LoadCommand<String>]) -> Vec<(u64, Option<String>)> {
    commands
        .iter()
        .map(|command| match command {
            LoadCommand::Remove(entity) => (*entity, None),
            LoadCommand::Insert(entity, value) => (*entity, Some(value.clone())),
        })
        .collect()
}

#[test]
fn load_updates_removes_and_inserts() {
    let mut history = History::default();
    save(&mut history, 5, &[], &named(2));
    save(&mut history, 6, &[], &named(2));
    save(&mut history, 7, &[], &named(2));
    let mut kept = "later".to_string();
    let mut extra = "extra".to_string();
    let load_rows = vec![
        LoadRow { entity: 100, rollback: RollbackId(0), component: Some(&mut kept) },
        LoadRow { entity: 101, rollback: RollbackId(1), component: None },
        LoadRow { entity: 102, rollback: RollbackId(8), component: Some(&mut extra) },
        LoadRow { entity: 103, rollback: RollbackId(9), component: None },
    ];
    let commands = Plugin::load(&mut history, &RollbackFrameCount(6), load_rows);
    assert_eq!(kept, "c0");
    assert_eq!(extra, "extra");
    assert_eq!(
        describe(&commands),
        vec![(101, Some("c1".to_string())), (102, None)]
    );
    // Frame 7 is forgotten.
    assert!(history.has_frame(5) && history.has_frame(6) && !history.has_frame(7));
}

#[test]
fn immutable_load_inserts_anew() {
    let mut history = History::default();
    save(&mut history, 0, &[], &named(2));
    let load_rows = vec![
        (100, RollbackId(0), true),
        (101, RollbackId(1), false),
        (102, RollbackId(8), true),
        (103, RollbackId(9), false),
    ];
    let commands = ImmutablePlugin::load(&mut history, &RollbackFrameCount(0), &load_rows);
    assert_eq!(
        describe(&commands),
        vec![
            (100, Some("c0".to_string())),
            (101, Some("c1".to_string())),
            (102, None),
        ]
    );
}

#[test]
fn rollback_goes_to_the_latest_save_of_a_frame() {
    let mut history = History::default();
    save(&mut history, 1, &[], &named(1));
    save(&mut history, 2, &[], &named(1));
    let again = vec![(0, "again".to_string())];
    save(&mut history, 1, &again, &again);
    save(&mut history, 3, &[], &again);
    history.rollback(1);
    assert_eq!(stored(&history, 0), Some("again".to_string()));
    assert!(!history.has_frame(3));
    assert!(history.has_frame(2));
}

/// Keeps numbers as text.
struct AsText;

impl Strategy for AsText {
    type Target = u32;
    type Stored = String;

    fn store(target: &u32) -> String {
        target.to_string()
    }

    fn load(stored: &String) -> u32 {
        stored.parse().unwrap()
    }

    fn update(target: &mut u32, stored: &String) {
        *target = Self::load(stored);
    }
}

#[test]
fn strategies_decide_what_is_kept() {
    let mut history: GgrsComponentSnapshots<u32, String> = GgrsComponentSnapshots::default();
    let numbers = [11u32, 12];
    let full = vec![(RollbackId(1), &numbers[0]), (RollbackId(2), &numbers[1])];
    ComponentSnapshotPlugin::<AsText>::save_reflect(&mut history, &RollbackFrameCount(4), &full);
    assert_eq!(history.get().get(&RollbackId(2)), Some(&"12".to_string()));
    let mut now = 99;
    let commands = ComponentSnapshotPlugin::<AsText>::load(
        &mut history,
        &RollbackFrameCount(4),
        vec![LoadRow { entity: 7, rollback: RollbackId(1), component: Some(&mut now) }],
    );
    assert!(commands.is_empty());
    assert_eq!(now, 11);
}

#[test]
fn cloning_brings_the_same_component_back() {
    let target = "kept".to_string();
    let stored = CloneStrategy::<String>::store(&target);
    assert_eq!(CloneStrategy::<String>::load(&stored), target);
    let mut now = "later".to_string();
    CloneStrategy::<String>::update(&mut now, &stored);
    assert_eq!(now, target);
}
