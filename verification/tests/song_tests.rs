use song_store::event::EventInput;
use song_store::id::Id;
use song_store::note::{NoteInput, NoteNumber, Velocity};
use song_store::song::{GetEventsFilter, Song};
use song_store::ticks::Ticks;

fn note_input(ticks: u32, duration: u32, velocity: u8, note_number: u8, track_id: Id) -> EventInput {
    EventInput::Note(NoteInput {
        ticks: Ticks::new(ticks),
        duration: Ticks::new(duration),
        velocity: Velocity::new(velocity),
        note_number: NoteNumber::new(note_number),
        track_id,
    })
}

#[test]
fn test_new_song() {
    let title = "My Song";
    let ppq = 480;
    let song = Song::new(title.to_string(), ppq);

    assert_eq!(song.get_title(), title);
    assert_eq!(song.get_ppq(), ppq);
    assert_eq!(song.get_end_of_song().as_u32(), 0);
}

#[test]
fn test_get_track() {
    let mut song = Song::new("My Song".to_string(), 480);

    song.add_empty_track().unwrap();
    song.add_empty_track().unwrap();

    let track_id = song.get_tracks()[0].get_id();

    let track = song.get_track(&track_id).unwrap();

    assert_eq!(track.get_id(), track_id);
}

#[test]
fn test_add_empty_tracks() {
    let mut song = Song::new("My Song".to_string(), 480);

    song.add_empty_track().unwrap();
    song.add_empty_track().unwrap();

    assert_eq!(song.get_tracks().len(), 2);
}

#[test]
fn test_remove_track() {
    let mut song = Song::new("My Song".to_string(), 480);

    song.add_empty_track().unwrap();
    song.add_empty_track().unwrap();

    let track_id = song.get_tracks()[0].get_id();

    song.remove_track(&track_id).unwrap();

    assert_eq!(song.get_tracks().len(), 1);
}

#[test]
fn test_song() {
    let song = Song::new("test".to_string(), 480);
    assert_eq!(song.get_title(), "test");
    assert_eq!(song.get_ppq(), 480);
    assert_eq!(song.get_end_of_song(), Ticks::new(0));
}

#[test]
fn test_tracks_scenario() {
    let mut song = Song::new("test".to_string(), 480);
    song.add_empty_track().unwrap();
    song.add_empty_track().unwrap();

    let tracks = song.get_tracks();
    assert_eq!(tracks.len(), 2);

    let first_track_id = tracks[0].get_id();
    let track = song.get_track(&first_track_id).unwrap();
    assert_eq!(track.get_id(), first_track_id);

    song.remove_track(&first_track_id).unwrap();
    let tracks = song.get_tracks();
    assert_eq!(tracks.len(), 1);

    assert!(song.get_track(&first_track_id).is_none());
}

#[test]
fn test_events_scenario() {
    let mut song = Song::new("test".to_string(), 480);

    let track_id1 = song.add_empty_track().unwrap();
    let track_id2 = song.add_empty_track().unwrap();

    let event1 = song.add_event(note_input(240, 480, 100, 60, track_id1)).unwrap();
    song.add_event(note_input(480, 720, 90, 72, track_id2)).unwrap();

    let event = song.get_event(&event1.get_id()).unwrap();
    assert_eq!(event.get_ticks().as_u32(), 240);

    let events = song.get_events(None);
    assert_eq!(events.len(), 2);
    assert_eq!(events[0].get_ticks().as_u32(), 240);

    let events = song.get_events(Some(GetEventsFilter { track_ids: Some(vec![track_id1]) }));
    assert_eq!(events.len(), 1);
    assert_eq!(events[0].get_ticks().as_u32(), 240);

    song.remove_event(&event.get_id()).unwrap();
    let events = song.get_events(None);
    assert_eq!(events.len(), 1);
}

#[test]
fn test_get_events() {
    let mut song = Song::new("test".to_string(), 480);

    let track_id1 = song.add_empty_track().unwrap();
    let track_id2 = song.add_empty_track().unwrap();
    let track_id3 = song.add_empty_track().unwrap();

    song.add_event(note_input(480, 480, 100, 60, track_id1)).unwrap();
    song.add_event(note_input(240, 480, 100, 60, track_id1)).unwrap();
    song.add_event(note_input(0, 480, 100, 60, track_id2)).unwrap();
    song.add_event(note_input(960, 480, 100, 60, track_id2)).unwrap();
    song.add_event(note_input(720, 480, 100, 60, track_id3)).unwrap();

    let events = song.get_events(None);

    assert_eq!(events.len(), 5);
    assert_eq!(events[0].get_ticks().as_u32(), 0);
    assert_eq!(events[1].get_ticks().as_u32(), 240);
    assert_eq!(events[2].get_ticks().as_u32(), 480);
    assert_eq!(events[3].get_ticks().as_u32(), 720);
    assert_eq!(events[4].get_ticks().as_u32(), 960);

    let events = song.get_events(Some(GetEventsFilter { track_ids: Some(vec![track_id1]) }));

    assert_eq!(events.len(), 2);
    assert_eq!(events[0].get_ticks().as_u32(), 240);
    assert_eq!(events[1].get_ticks().as_u32(), 480);
}

#[test]
fn range_query_on_three_tracks() {
    let mut song = Song::new("test".to_string(), 480);

    let track_id1 = song.add_empty_track().unwrap();
    let track_id2 = song.add_empty_track().unwrap();
    let track_id3 = song.add_empty_track().unwrap();

    song.add_event(note_input(480, 480, 100, 60, track_id1)).unwrap();
    song.add_event(note_input(240, 480, 100, 60, track_id1)).unwrap();
    song.add_event(note_input(0, 480, 100, 60, track_id2)).unwrap();
    song.add_event(note_input(960, 480, 100, 60, track_id2)).unwrap();
    song.add_event(note_input(720, 480, 100, 60, track_id3)).unwrap();

    // Only the events starting inside [480, 960): the one at 960 sits past
    // the exclusive end.
    let events = song.get_events_in_ticks_range(Ticks::new(480), Ticks::new(960), false, None);
    let ticks: Vec<u32> = events.iter().map(|e| e.get_ticks().as_u32()).collect();
    assert_eq!(ticks, vec![480, 720]);

    // Sustaining events join in: the note at 240 still sounds at 480 (it
    // ends at 720), while the note at 0 ends exactly at 480 and stays out.
    let events = song.get_events_in_ticks_range(Ticks::new(480), Ticks::new(960), true, None);
    let ticks: Vec<u32> = events.iter().map(|e| e.get_ticks().as_u32()).collect();
    assert_eq!(ticks, vec![240, 480, 720]);
}

fn create_tracks_and_events(song: &mut Song) -> [Id; 2] {
    let track_id1 = song.add_empty_track().unwrap();
    let track_id2 = song.add_empty_track().unwrap();

    song.add_event(note_input(480, 480, 100, 60, track_id1)).unwrap();
    song.add_event(note_input(959, 480, 100, 60, track_id2)).unwrap();
    song.add_event(note_input(0, 240, 100, 60, track_id1)).unwrap();
    song.add_event(note_input(240, 480, 100, 60, track_id2)).unwrap();
    song.add_event(note_input(0, 480, 100, 60, track_id1)).unwrap();
    song.add_event(note_input(0, 960, 100, 60, track_id2)).unwrap();
    song.add_event(note_input(0, 479, 100, 60, track_id1)).unwrap();
    song.add_event(note_input(960, 480, 100, 60, track_id2)).unwrap();
    song.add_event(note_input(120, 1920, 100, 60, track_id1)).unwrap();

    [track_id1, track_id2]
}

#[test]
fn test_get_events_in_ticks_range_within_duration() {
    let mut song = Song::new("test".to_string(), 480);

    let [track_id1, track_id2] = create_tracks_and_events(&mut song);

    let events = song.get_events_in_ticks_range(Ticks::new(480), Ticks::new(960), true, None);
    assert_eq!(events.len(), 5);
    assert_eq!(events[0].get_ticks().as_u32(), 0);
    assert_eq!(events[1].get_ticks().as_u32(), 120);
    assert_eq!(events[2].get_ticks().as_u32(), 240);
    assert_eq!(events[3].get_ticks().as_u32(), 480);
    assert_eq!(events[4].get_ticks().as_u32(), 959);

    let events = song.get_events_in_ticks_range(
        Ticks::new(480),
        Ticks::new(960),
        true,
        Some(GetEventsFilter { track_ids: Some(vec![track_id1]) }),
    );
    assert_eq!(events.len(), 2);
    assert_eq!(events[0].get_ticks().as_u32(), 120);
    assert_eq!(events[1].get_ticks().as_u32(), 480);

    let events = song.get_events_in_ticks_range(
        Ticks::new(480),
        Ticks::new(960),
        true,
        Some(GetEventsFilter { track_ids: Some(vec![track_id2]) }),
    );
    assert_eq!(events.len(), 3);
    assert_eq!(events[0].get_ticks().as_u32(), 0);
    assert_eq!(events[1].get_ticks().as_u32(), 240);
    assert_eq!(events[2].get_ticks().as_u32(), 959);
}

#[test]
fn test_get_events_in_ticks_range_without_duration() {
    let mut song = Song::new("test".to_string(), 480);

    let [track_id1, track_id2] = create_tracks_and_events(&mut song);

    let events = song.get_events_in_ticks_range(Ticks::new(480), Ticks::new(960), false, None);
    assert_eq!(events.len(), 2);
    assert_eq!(events[0].get_ticks().as_u32(), 480);
    assert_eq!(events[1].get_ticks().as_u32(), 959);

    let events = song.get_events_in_ticks_range(
        Ticks::new(480),
        Ticks::new(960),
        false,
        Some(GetEventsFilter { track_ids: Some(vec![track_id1]) }),
    );
    assert_eq!(events.len(), 1);
    assert_eq!(events[0].get_ticks().as_u32(), 480);

    let events = song.get_events_in_ticks_range(
        Ticks::new(480),
        Ticks::new(960),
        false,
        Some(GetEventsFilter { track_ids: Some(vec![track_id2]) }),
    );
    assert_eq!(events.len(), 1);
    assert_eq!(events[0].get_ticks().as_u32(), 959);
}
