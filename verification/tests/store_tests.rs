use song_store::error::StoreError;
use song_store::event::{Event, EventInput, EventKind, EventUpdater};
use song_store::id::Id;
use song_store::note::{NoteInput, NoteNumber, NoteUpdater, Velocity};
use song_store::song::{GetEventsFilter, Song};
use song_store::store::Store;
use song_store::ticks::Ticks;

fn note_input(ticks: u32, duration: u32, velocity: u8, note_number: u8, track_id: Id) -> EventInput {
    EventInput::Note(NoteInput {
        ticks: Ticks::new(ticks),
        duration: Ticks::new(duration),
        velocity: Velocity::new(velocity),
        note_number: NoteNumber::new(note_number),
        track_id,
    })
}

fn empty_updater(id: Id) -> NoteUpdater {
    NoteUpdater { id, ticks: None, duration: None, velocity: None, note_number: None, track_id: None }
}

#[test]
fn store_needs_a_song_first() {
    let mut store = Store::new();
    assert!(store.get_song().is_none());
    assert_eq!(store.get_tracks().err(), Some(StoreError::PreconditionViolated));
    assert_eq!(store.add_track().err(), Some(StoreError::PreconditionViolated));
    assert_eq!(store.get_events(None).err(), Some(StoreError::PreconditionViolated));
    assert_eq!(store.get_event(&Id::new()).err(), Some(StoreError::PreconditionViolated));
    assert_eq!(store.remove_event(&Id::new()).err(), Some(StoreError::PreconditionViolated));
    store.create_song("test".to_string(), 480);
    assert!(store.get_song().is_some());
    assert_eq!(store.get_tracks().unwrap().len(), 0);
    store.clear_song();
    assert!(store.get_song().is_none());
}

#[test]
fn store_set_song_replaces_the_active_song() {
    let mut store = Store::new();
    let mut song = Song::new("prepared".to_string(), 96);
    song.add_empty_track().unwrap();
    store.set_song(song);
    assert_eq!(store.get_tracks().unwrap().len(), 1);
    assert_eq!(store.get_song().as_ref().unwrap().get_title(), "prepared");
}

#[test]
fn store_round_trip_add_get_event() {
    let mut store = Store::new();
    store.create_song("test".to_string(), 480);
    let track_id = store.add_track().unwrap();
    let ev = store.add_event(note_input(240, 480, 100, 60, track_id)).unwrap();
    assert_eq!(ev.get_kind(), EventKind::Note);
    let got = store.get_event(&ev.get_id()).unwrap().unwrap();
    assert_eq!(got, ev);
    assert_eq!(got.get_ticks().as_u32(), 240);
    assert_eq!(got.get_duration(), Some(Ticks::new(480)));
    assert_eq!(got.get_track_id(), track_id);
    match got {
        Event::Note(n) => {
            assert_eq!(n.velocity.as_u8(), 100);
            assert_eq!(n.note_number.as_u8(), 60);
        },
    }
}

#[test]
fn add_event_to_unknown_track_is_not_found() {
    let mut song = Song::new("test".to_string(), 480);
    let r = song.add_event(note_input(0, 1, 1, 1, Id::new()));
    assert_eq!(r.err(), Some(StoreError::NotFound));
    assert_eq!(song.get_events(None).len(), 0);
}

#[test]
fn add_event_with_taken_id_is_an_invariant_violation() {
    let mut song = Song::new("test".to_string(), 480);
    let track_id = song.add_empty_track().unwrap();
    let ev = song
        .add_event_with_id(note_input(0, 100, 1, 1, track_id), Id::new())
        .unwrap();
    let r = song.add_event_with_id(note_input(50, 100, 2, 2, track_id), ev.get_id());
    assert_eq!(r.err(), Some(StoreError::InvariantViolation));
    assert_eq!(song.get_events(None).len(), 1);
}

#[test]
fn add_empty_track_with_id_refuses_a_taken_id() {
    let mut song = Song::new("test".to_string(), 480);
    let id = Id::new();
    assert_eq!(song.add_empty_track_with_id(id), Ok(id));
    assert_eq!(song.add_empty_track_with_id(id), Err(StoreError::InvariantViolation));
    assert_eq!(song.get_tracks().len(), 1);
}

#[test]
fn update_event_replaces_only_present_fields() {
    let mut song = Song::new("test".to_string(), 480);
    let track_id = song.add_empty_track().unwrap();
    let ev = song.add_event(note_input(240, 480, 100, 60, track_id)).unwrap();

    let mut updater = empty_updater(ev.get_id());
    updater.velocity = Some(Velocity::new(42));
    let updated = song.update_event(EventUpdater::Note(updater)).unwrap();

    assert_eq!(updated.get_id(), ev.get_id());
    assert_eq!(updated.get_ticks().as_u32(), 240);
    assert_eq!(updated.get_duration(), Some(Ticks::new(480)));
    assert_eq!(updated.get_track_id(), track_id);
    match updated {
        Event::Note(n) => {
            assert_eq!(n.velocity.as_u8(), 42);
            assert_eq!(n.note_number.as_u8(), 60);
        },
    }
    assert_eq!(song.get_event(&ev.get_id()), Some(updated));
    assert_eq!(song.get_events(None).len(), 1);
}

#[test]
fn update_event_can_move_an_event_between_tracks() {
    let mut song = Song::new("test".to_string(), 480);
    let track_id1 = song.add_empty_track().unwrap();
    let track_id2 = song.add_empty_track().unwrap();
    let ev = song.add_event(note_input(240, 480, 100, 60, track_id1)).unwrap();

    let mut updater = empty_updater(ev.get_id());
    updater.track_id = Some(track_id2);
    let moved = song.update_event(EventUpdater::Note(updater)).unwrap();
    assert_eq!(moved.get_track_id(), track_id2);

    let on_first = song.get_events(Some(GetEventsFilter { track_ids: Some(vec![track_id1]) }));
    assert_eq!(on_first.len(), 0);
    let on_second = song.get_events(Some(GetEventsFilter { track_ids: Some(vec![track_id2]) }));
    assert_eq!(on_second.len(), 1);
    assert_eq!(on_second[0], moved);
}

#[test]
fn update_event_unknown_id_is_not_found() {
    let mut song = Song::new("test".to_string(), 480);
    song.add_empty_track().unwrap();
    let r = song.update_event(EventUpdater::Note(empty_updater(Id::new())));
    assert_eq!(r.err(), Some(StoreError::NotFound));
}

#[test]
fn update_event_to_unknown_track_is_not_found_and_changes_nothing() {
    let mut song = Song::new("test".to_string(), 480);
    let track_id = song.add_empty_track().unwrap();
    let ev = song.add_event(note_input(240, 480, 100, 60, track_id)).unwrap();

    let mut updater = empty_updater(ev.get_id());
    updater.track_id = Some(Id::new());
    let r = song.update_event(EventUpdater::Note(updater));
    assert_eq!(r.err(), Some(StoreError::NotFound));
    assert_eq!(song.get_event(&ev.get_id()), Some(ev));
}

#[test]
fn removed_event_vanishes_from_every_query() {
    let mut song = Song::new("test".to_string(), 480);
    let track_id = song.add_empty_track().unwrap();
    let kept = song.add_event(note_input(0, 480, 100, 60, track_id)).unwrap();
    let gone = song.add_event(note_input(240, 480, 100, 60, track_id)).unwrap();

    song.remove_event(&gone.get_id()).unwrap();

    assert_eq!(song.get_event(&gone.get_id()), None);
    let all = song.get_events(None);
    assert_eq!(all, vec![kept]);
    let ranged = song.get_events_in_ticks_range(Ticks::new(0), Ticks::new(4000), true, None);
    assert_eq!(ranged, vec![kept]);
    assert_eq!(song.remove_event(&gone.get_id()).err(), Some(StoreError::NotFound));
}

#[test]
fn removed_track_takes_its_events_with_it() {
    let mut song = Song::new("test".to_string(), 480);
    let track_id1 = song.add_empty_track().unwrap();
    let track_id2 = song.add_empty_track().unwrap();
    let doomed = song.add_event(note_input(0, 480, 100, 60, track_id1)).unwrap();
    let kept = song.add_event(note_input(240, 480, 100, 60, track_id2)).unwrap();

    song.remove_track(&track_id1).unwrap();

    assert_eq!(song.get_event(&doomed.get_id()), None);
    assert_eq!(song.get_events(None), vec![kept]);
    assert!(song.get_track(&track_id1).is_none());
    assert_eq!(song.remove_track(&track_id1).err(), Some(StoreError::NotFound));
}

#[test]
fn sustain_boundaries_are_open_at_window_start() {
    let mut song = Song::new("test".to_string(), 480);
    let track_id = song.add_empty_track().unwrap();
    song.add_event(note_input(0, 479, 100, 60, track_id)).unwrap();
    let ends_exactly = song.add_event(note_input(0, 480, 100, 61, track_id)).unwrap();
    let still_sounding = song.add_event(note_input(0, 960, 100, 62, track_id)).unwrap();

    let events = song.get_events_in_ticks_range(Ticks::new(480), Ticks::new(960), true, None);
    assert_eq!(events.len(), 1);
    assert_eq!(events[0], still_sounding);
    assert_ne!(events[0], ends_exactly);

    let none_start = song.get_events_in_ticks_range(Ticks::new(480), Ticks::new(960), false, None);
    assert_eq!(none_start.len(), 0);
}

#[test]
fn filtered_query_is_an_ordered_restriction() {
    let mut song = Song::new("test".to_string(), 480);
    let track_id1 = song.add_empty_track().unwrap();
    let track_id2 = song.add_empty_track().unwrap();
    song.add_event(note_input(960, 10, 1, 1, track_id1)).unwrap();
    song.add_event(note_input(0, 10, 1, 1, track_id1)).unwrap();
    song.add_event(note_input(480, 10, 1, 1, track_id2)).unwrap();
    song.add_event(note_input(240, 10, 1, 1, track_id1)).unwrap();

    let all = song.get_events(None);
    let only_first: Vec<_> = all
        .iter()
        .copied()
        .filter(|e| e.get_track_id() == track_id1)
        .collect();
    let narrowed = song.get_events(Some(GetEventsFilter { track_ids: Some(vec![track_id1]) }));
    assert_eq!(narrowed, only_first);
    assert_eq!(narrowed.len(), 3);
    assert!(narrowed.len() < all.len());

    let unknown = song.get_events(Some(GetEventsFilter { track_ids: Some(vec![Id::new()]) }));
    assert_eq!(unknown.len(), 0);

    let unfiltered_inner = song.get_events(Some(GetEventsFilter { track_ids: None }));
    assert_eq!(unfiltered_inner, all);

    let duplicated = song.get_events(Some(GetEventsFilter {
        track_ids: Some(vec![track_id1, track_id1]),
    }));
    assert_eq!(duplicated, only_first);
}

#[test]
fn equal_ticks_across_tracks_follow_track_order() {
    let mut song = Song::new("test".to_string(), 480);
    let track_id1 = song.add_empty_track().unwrap();
    let track_id2 = song.add_empty_track().unwrap();
    let on_second = song.add_event(note_input(480, 10, 1, 1, track_id2)).unwrap();
    let on_first = song.add_event(note_input(480, 10, 1, 1, track_id1)).unwrap();

    let all = song.get_events(None);
    assert_eq!(all, vec![on_first, on_second]);
}

#[test]
fn store_delegates_the_whole_operation_set() {
    let mut store = Store::new();
    store.create_song("test".to_string(), 480);
    let track_id = store.add_track().unwrap();
    assert!(store.get_track(&track_id).unwrap().is_some());

    let ev = store.add_event(note_input(100, 50, 9, 9, track_id)).unwrap();
    let mut updater = empty_updater(ev.get_id());
    updater.ticks = Some(Ticks::new(200));
    let updated = store.update_event(EventUpdater::Note(updater)).unwrap();
    assert_eq!(updated.get_ticks().as_u32(), 200);

    let in_range = store
        .get_events_in_ticks_range(Ticks::new(200), Ticks::new(201), false, None)
        .unwrap();
    assert_eq!(in_range, vec![updated]);

    store.remove_event(&ev.get_id()).unwrap();
    assert_eq!(store.get_events(None).unwrap().len(), 0);

    store.remove_track(&track_id).unwrap();
    assert_eq!(store.get_tracks().unwrap().len(), 0);
}
