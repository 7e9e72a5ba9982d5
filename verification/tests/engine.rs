use cascade::color::ColorPalette;
use cascade::engine::{collect_activation_events, Engine, SelectedItem};
use cascade::geom::{Position, SIZE_CAP};
use cascade::model::{
    ActivatorColor, ActivatorEnabledEvent, ActivatorSize, ActivatorState, ActivatorType,
    LevelConfig, NotePlayedEvent,
};
use cascade::state::GameState;

fn engine(grow_factor: u64) -> Engine {
    Engine::new(LevelConfig { grow_factor })
}

fn at(x: i64, y: i64) -> Position {
    Position { x, y }
}

fn violet() -> ActivatorColor {
    ActivatorColor(ColorPalette::BlueViolet)
}

#[test]
fn scenario_one_note_at_distance_fifty() {
    // main activator at the origin, growth 10 per time unit, one note at
    // distance 50: the note must not play while the radius is at most 50,
    // and plays as soon as the radius passes it
    let mut e = engine(10);
    let main_id = e.add_activator(at(0, 0), ActivatorType::Main, violet());
    let note_id = e.add_note(at(50, 0));
    e.enter_execution();
    assert_eq!(GameState::Execute, e.phase);
    for _ in 0..5 {
        let report = e.tick(1);
        assert!(report.notes.is_empty());
        assert!(!report.round_complete);
    }
    // after exactly 5 time units the radius is exactly 50: on the boundary,
    // not yet crossed
    assert_eq!(Some((50, true)), e.activator_status(main_id));
    let report = e.tick(1);
    assert_eq!(1, report.notes.len());
    assert_eq!(main_id, report.notes[0].source);
    assert_eq!(note_id, report.notes[0].note);
    // the only object has played: the round is over
    assert!(report.round_complete);
    assert_eq!(GameState::Build, e.phase);
    assert_eq!(Some((0, false)), e.activator_status(main_id));
}

#[test]
fn scenario_chained_activators() {
    // main activator at the origin with activators at distances 1000 and
    // 3000 and growth 100: when the radius reaches 1500 only the near one
    // has been enabled, seeded fresh from its own position
    let mut e = engine(100);
    let main_id = e.add_activator(at(0, 0), ActivatorType::Main, violet());
    let near_id = e.add_activator(at(1000, 0), ActivatorType::Passive, violet());
    let far_id = e.add_activator(at(3000, 0), ActivatorType::Passive, violet());
    e.enter_execution();
    assert_eq!(vec![near_id, far_id], e.pending_of(main_id).unwrap());
    let report = e.tick(15);
    assert!(report.notes.is_empty());
    assert!(!report.round_complete);
    assert_eq!(Some((1500, true)), e.activator_status(main_id));
    // the near activator is enabled and seeded; the far one is untouched
    assert_eq!(Some((0, true)), e.activator_status(near_id));
    assert_eq!(Some((0, false)), e.activator_status(far_id));
    // the near activator's pending set is built from all other objects,
    // by distance from its own position: main at 1000, far at 2000
    assert_eq!(vec![main_id, far_id], e.pending_of(near_id).unwrap());
    // the main activator no longer pends the near one
    assert_eq!(vec![far_id], e.pending_of(main_id).unwrap());
}

#[test]
fn scenario_exit_mid_cascade_leaks_nothing() {
    let mut e = engine(100);
    let main_id = e.add_activator(at(0, 0), ActivatorType::Main, violet());
    let near_id = e.add_activator(at(1000, 0), ActivatorType::Passive, violet());
    let note_id = e.add_note(at(2500, 0));
    e.enter_execution();
    e.tick(15);
    // mid-cascade: the near activator is enabled with pending objects
    assert_eq!(Some((0, true)), e.activator_status(near_id));
    e.exit_execution();
    // everything is disabled with radius zero and no pending set
    assert_eq!(GameState::Build, e.phase);
    assert_eq!(Some((0, false)), e.activator_status(main_id));
    assert_eq!(Some((0, false)), e.activator_status(near_id));
    assert!(e.pending_of(main_id).unwrap().is_empty());
    assert!(e.pending_of(near_id).unwrap().is_empty());
    // re-entering builds the same pending sets as a first-ever round over
    // the same layout
    e.enter_execution();
    let mut fresh = engine(100);
    let f_main = fresh.add_activator(at(0, 0), ActivatorType::Main, violet());
    let f_near = fresh.add_activator(at(1000, 0), ActivatorType::Passive, violet());
    let f_note = fresh.add_note(at(2500, 0));
    fresh.enter_execution();
    assert_eq!(f_main, main_id);
    assert_eq!(f_near, near_id);
    assert_eq!(f_note, note_id);
    assert_eq!(
        fresh.pending_of(f_main).unwrap(),
        e.pending_of(main_id).unwrap()
    );
}

#[test]
fn scenario_stale_event_for_deleted_object() {
    // an event emitted on one step may reference an object the editor has
    // deleted before the event is processed: the engine drops it silently
    let mut e = engine(100);
    let main_id = e.add_activator(at(0, 0), ActivatorType::Main, violet());
    let passive_id = e.add_activator(at(10, 0), ActivatorType::Passive, violet());
    e.enter_execution();
    let (notes, enables) = e.execute_activator_and_check_collisions(1);
    assert!(notes.is_empty());
    assert_eq!(1, enables.len());
    assert_eq!(passive_id, enables[0].target);
    // the phase flips before the event is handled, and the editor deletes
    // the target
    e.exit_execution();
    e.delete_object(at(10, 0), 5);
    assert_eq!(None, e.activator_status(passive_id));
    // handling the stale event changes nothing and does not fail
    e.apply_enable_requests(&enables);
    assert_eq!(Some((0, false)), e.activator_status(main_id));
    assert_eq!(None, e.activator_status(passive_id));
    // even back in the execution phase the stale reference is skipped
    e.enter_execution();
    e.apply_enable_requests(&enables);
    assert_eq!(None, e.activator_status(passive_id));
}

#[test]
fn radius_grows_monotonically_and_resets_on_disable() {
    let mut e = engine(7);
    let main_id = e.add_activator(at(0, 0), ActivatorType::Main, violet());
    e.add_note(at(1_000_000, 0));
    e.enter_execution();
    let mut last: u64 = 0;
    for elapsed in [0u64, 3, 1, 0, 5] {
        e.tick(elapsed);
        let (radius, enabled) = e.activator_status(main_id).unwrap();
        assert!(enabled);
        assert!(radius >= last);
        last = radius;
    }
    assert_eq!(7 * 9, last);
    e.exit_execution();
    assert_eq!(Some((0, false)), e.activator_status(main_id));
}

#[test]
fn growth_saturates_at_the_cap() {
    let mut e = engine(u64::MAX);
    let main_id = e.add_activator(at(0, 0), ActivatorType::Main, violet());
    e.add_note(at(1_000_000_000, 1_000_000_000));
    e.enter_execution();
    let report = e.tick(u64::MAX);
    // the radius clips at the cap, which covers the whole playfield: the
    // farthest possible note fires on a single step, the round completes,
    // and the radius resets with it
    assert_eq!(1, report.notes.len());
    assert!(report.round_complete);
    assert_eq!(Some((0, false)), e.activator_status(main_id));
}

#[test]
fn enabling_twice_changes_nothing() {
    let mut e = engine(100);
    let main_id = e.add_activator(at(0, 0), ActivatorType::Main, violet());
    e.add_note(at(500, 0));
    e.add_note(at(300, 0));
    e.enter_execution();
    let pending_before = e.pending_of(main_id).unwrap();
    let status_before = e.activator_status(main_id);
    // a second enable request for an already-enabled activator is a no-op:
    // no double seed, no radius reset
    e.activate_activator(&ActivatorEnabledEvent {
        source: None,
        target: main_id,
    });
    assert_eq!(pending_before, e.pending_of(main_id).unwrap());
    assert_eq!(status_before, e.activator_status(main_id));
    // likewise after some growth
    e.tick(1);
    let status_grown = e.activator_status(main_id);
    e.activate_activator(&ActivatorEnabledEvent {
        source: None,
        target: main_id,
    });
    assert_eq!(status_grown, e.activator_status(main_id));
}

#[test]
fn an_object_fires_at_most_once() {
    // the near note stays inside the circle for every later step, yet plays
    // only once: removal from the pending set prevents a second emission
    let mut e = engine(10);
    let main_id = e.add_activator(at(0, 0), ActivatorType::Main, violet());
    let near_note = e.add_note(at(50, 0));
    e.add_note(at(100_000, 0));
    e.enter_execution();
    for _ in 0..5 {
        assert!(e.tick(1).notes.is_empty());
    }
    let report = e.tick(1);
    assert_eq!(1, report.notes.len());
    assert_eq!(near_note, report.notes[0].note);
    for _ in 0..20 {
        let later = e.tick(1);
        assert!(later.notes.is_empty());
        assert_eq!(main_id, report.notes[0].source);
    }
}

#[test]
fn crossings_match_a_full_scan() {
    // objects placed in scrambled order; one step must fire at exactly the
    // ones strictly inside the radius, in ascending distance order — the
    // early exit of the sorted scan skips no true crossing
    let mut e = engine(10);
    let main_id = e.add_activator(at(0, 0), ActivatorType::Main, violet());
    let n5 = e.add_note(at(5, 0));
    let n15 = e.add_note(at(0, 15));
    let n8 = e.add_note(at(0, -8));
    let n3 = e.add_note(at(-3, 0));
    e.enter_execution();
    assert_eq!(vec![n3, n5, n8, n15], e.pending_of(main_id).unwrap());
    let report = e.tick(1);
    let fired: Vec<u64> = report.notes.iter().map(|ev| ev.note).collect();
    assert_eq!(vec![n3, n5, n8], fired);
    assert_eq!(vec![n15], e.pending_of(main_id).unwrap());
    assert!(!report.round_complete);
}

#[test]
fn equal_distances_keep_insertion_order() {
    let mut e = engine(10);
    let main_id = e.add_activator(at(0, 0), ActivatorType::Main, violet());
    let right = e.add_note(at(10, 0));
    let left = e.add_note(at(-10, 0));
    let up = e.add_note(at(0, 10));
    e.enter_execution();
    assert_eq!(vec![right, left, up], e.pending_of(main_id).unwrap());
}

#[test]
fn round_completes_only_when_all_pending_sets_empty() {
    let mut e = engine(100);
    e.add_activator(at(0, 0), ActivatorType::Main, violet());
    let far = e.add_activator(at(2000, 0), ActivatorType::Passive, violet());
    e.enter_execution();
    // the near cascade enables the far activator; completion must wait
    // until the far activator has fired back over everything
    let mut completed = false;
    let mut steps = 0;
    while !completed && steps < 100 {
        let report = e.tick(1);
        completed = report.round_complete;
        steps += 1;
        if !completed {
            assert_eq!(GameState::Execute, e.phase);
        }
    }
    assert!(completed);
    assert_eq!(GameState::Build, e.phase);
    assert_eq!(Some((0, false)), e.activator_status(far));
}

#[test]
fn round_with_lone_main_completes_immediately() {
    let mut e = engine(100);
    let main_id = e.add_activator(at(0, 0), ActivatorType::Main, violet());
    e.enter_execution();
    assert!(e.pending_of(main_id).unwrap().is_empty());
    let report = e.tick(1);
    assert!(report.notes.is_empty());
    assert!(report.round_complete);
    assert_eq!(GameState::Build, e.phase);
}

#[test]
fn dry_activator_is_not_reseeded() {
    // once an activator has run dry it is disabled; a circle reaching it
    // again within the same round must not re-seed it into firing twice
    let mut e = engine(1);
    let main_id = e.add_activator(at(0, 0), ActivatorType::Main, violet());
    let twin = e.add_activator(at(4, 0), ActivatorType::Passive, violet());
    let note = e.add_note(at(2, 0));
    e.enter_execution();
    let mut note_plays = 0;
    let mut completed = false;
    let mut steps = 0;
    while !completed && steps < 50 {
        let report = e.tick(1);
        note_plays += report
            .notes
            .iter()
            .filter(|ev| ev.note == note)
            .count();
        completed = report.round_complete;
        steps += 1;
    }
    assert!(completed);
    // the note plays once from each activator, and no more, even though
    // both circles keep covering it while the cascade finishes
    assert_eq!(2, note_plays);
    assert_eq!(Some((0, false)), e.activator_status(main_id));
    assert_eq!(Some((0, false)), e.activator_status(twin));
}

#[test]
fn editor_places_and_deletes() {
    let mut e = engine(100);
    let main_id = e.add_activator(at(0, 0), ActivatorType::Main, violet());
    let trigger_id = e.place_object(SelectedItem::Trigger, at(100, 0), violet());
    let note_id = e.place_object(SelectedItem::Note, at(200, 0), violet());
    assert_eq!(Some((0, false)), e.activator_status(trigger_id));
    assert_eq!(None, e.activator_status(note_id));
    // deleting near the trigger removes it; the main activator resists
    e.delete_object(at(100, 0), 5);
    assert_eq!(None, e.activator_status(trigger_id));
    e.delete_object(at(0, 0), 5);
    assert_eq!(Some((0, false)), e.activator_status(main_id));
}

#[test]
fn selected_item_switch_and_name() {
    assert_eq!(SelectedItem::Note, SelectedItem::Trigger.switch());
    assert_eq!(SelectedItem::Trigger, SelectedItem::Note.switch());
    assert_eq!("Trigger", SelectedItem::Trigger.name());
    assert_eq!("Note", SelectedItem::Note.name());
}

#[test]
fn activation_events_classify_uniformly() {
    let notes = vec![NotePlayedEvent { source: 7, note: 9 }];
    let enables = vec![
        ActivatorEnabledEvent {
            source: None,
            target: 3,
        },
        ActivatorEnabledEvent {
            source: Some(7),
            target: 4,
        },
    ];
    let activated = collect_activation_events(&notes, &enables);
    assert_eq!(3, activated.len());
    assert_eq!(Some(7), activated[0].source);
    assert_eq!(9, activated[0].object);
    assert_eq!(None, activated[1].source);
    assert_eq!(3, activated[1].object);
    assert_eq!(Some(7), activated[2].source);
    assert_eq!(4, activated[2].object);
}

#[test]
fn grow_is_a_no_op_while_disabled() {
    let mut e = engine(100);
    let main_id = e.add_activator(at(0, 0), ActivatorType::Main, violet());
    let other = e.add_activator(at(500, 0), ActivatorType::Passive, violet());
    e.add_note(at(900, 0));
    e.enter_execution();
    e.grow(main_id, 7);
    e.grow(main_id, 4);
    assert_eq!(Some((11, true)), e.activator_status(main_id));
    // the passive activator is not enabled yet: growing it does nothing
    e.grow(other, 50);
    assert_eq!(Some((0, false)), e.activator_status(other));
    // an unknown identity is skipped silently
    e.grow(12345, 50);
    assert_eq!(Some((11, true)), e.activator_status(main_id));
}

#[test]
fn activator_size_saturates() {
    let mut size = ActivatorSize::zero();
    assert_eq!(0, size.0);
    size.increment(10);
    assert_eq!(10, size.0);
    size.increment(u64::MAX);
    assert_eq!(SIZE_CAP, size.0);
    assert!(ActivatorState::Enabled.is_active());
    assert!(!ActivatorState::Disabled.is_active());
}
