use song_store::event::Event;
use song_store::id::Id;
use song_store::note::{Note, NoteNumber, Velocity};
use song_store::ticks::Ticks;
use song_store::track::Track;

#[test]
fn test_new_track() {
    let id = Id::new();
    let track = Track::new(id, None);
    assert_eq!(track.get_id(), id);
    assert_eq!(track.get_events().len(), 0);
    assert_eq!(track.get_events_in_ticks_range(Ticks::new(0), Ticks::new(u32::MAX), false).len(), 0);
    assert_eq!(track.get_events_in_ticks_range(Ticks::new(0), Ticks::new(u32::MAX), true).len(), 0);
}

#[test]
fn test_new_track_with_events() {
    let track_id = Id::new();

    let event1 = Event::Note(Note {
        id: Id::new(),
        ticks: Ticks::new(0),
        duration: Ticks::new(480),
        velocity: Velocity::new(100),
        note_number: NoteNumber::new(60),
        track_id,
    });

    let event2 = Event::Note(Note {
        id: Id::new(),
        ticks: Ticks::new(480),
        duration: Ticks::new(480),
        velocity: Velocity::new(100),
        note_number: NoteNumber::new(60),
        track_id,
    });

    let track = Track::new(track_id, Some(vec![event1, event2]));
    assert_eq!(track.get_id(), track_id);
    assert_eq!(track.get_events().len(), 2);
}

#[test]
fn track_events_come_out_sorted_by_start_tick() {
    let track_id = Id::new();
    let mk = |ticks: u32| {
        Event::Note(Note {
            id: Id::new(),
            ticks: Ticks::new(ticks),
            duration: Ticks::new(120),
            velocity: Velocity::new(80),
            note_number: NoteNumber::new(64),
            track_id,
        })
    };
    let track = Track::new(track_id, Some(vec![mk(960), mk(0), mk(480), mk(240), mk(480)]));
    let events = track.get_events();
    let ticks: Vec<u32> = events.iter().map(|e| e.get_ticks().as_u32()).collect();
    assert_eq!(ticks, vec![0, 240, 480, 480, 960]);
}

#[test]
fn track_equal_ticks_keep_insertion_order() {
    let track_id = Id::new();
    let first = Event::Note(Note {
        id: Id::new(),
        ticks: Ticks::new(480),
        duration: Ticks::new(120),
        velocity: Velocity::new(10),
        note_number: NoteNumber::new(60),
        track_id,
    });
    let second = Event::Note(Note {
        id: Id::new(),
        ticks: Ticks::new(480),
        duration: Ticks::new(120),
        velocity: Velocity::new(20),
        note_number: NoteNumber::new(61),
        track_id,
    });
    let mut track = Track::new(track_id, None);
    track.add_event(first);
    track.add_event(second);
    let events = track.get_events();
    assert_eq!(events[0], first);
    assert_eq!(events[1], second);
}

#[test]
fn track_remove_event_takes_only_the_named_event() {
    let track_id = Id::new();
    let a = Event::Note(Note {
        id: Id::new(),
        ticks: Ticks::new(0),
        duration: Ticks::new(100),
        velocity: Velocity::new(1),
        note_number: NoteNumber::new(1),
        track_id,
    });
    let b = Event::Note(Note {
        id: Id::new(),
        ticks: Ticks::new(200),
        duration: Ticks::new(100),
        velocity: Velocity::new(2),
        note_number: NoteNumber::new(2),
        track_id,
    });
    let mut track = Track::new(track_id, Some(vec![a, b]));
    let removed = track.remove_event(&a.get_id()).unwrap();
    assert_eq!(removed, a);
    assert!(track.get_event(&a.get_id()).is_none());
    assert_eq!(track.get_event(&b.get_id()), Some(b));
    assert_eq!(track.get_events(), vec![b]);
}

#[test]
fn track_remove_event_answers_not_found_when_absent() {
    let mut track = Track::new(Id::new(), None);
    assert_eq!(track.remove_event(&Id::new()), Err(song_store::error::StoreError::NotFound));
}
