use song_store::error::StoreError;
use song_store::id::Id;
use song_store::ticks::Ticks;

#[test]
fn test_new_id() {
    let id = Id::new();
    assert!(uuid::Uuid::parse_str(&id.to_string()).is_ok());
}

#[test]
fn id_text_is_canonical_hyphenated_form() {
    let id = Id::new();
    let text = id.to_string();
    assert_eq!(text.len(), 36);
    let bytes = text.as_bytes();
    for (i, b) in bytes.iter().enumerate() {
        if i == 8 || i == 13 || i == 18 || i == 23 {
            assert_eq!(*b, b'-');
        } else {
            assert!(b.is_ascii_hexdigit());
        }
    }
}

#[test]
fn id_round_trips_through_its_text() {
    let id = Id::new();
    let text = id.to_string();
    let back = Id::try_from(&text).unwrap();
    assert_eq!(back, id);
    assert_eq!(back.to_string(), text);
}

#[test]
fn id_known_text_round_trips_exactly() {
    let text = "a1a2a3a4-b1b2-c1c2-d1d2-d3d4d5d6d7d8";
    let id = Id::try_from(text).unwrap();
    assert_eq!(id.to_string(), text);
}

#[test]
fn id_rejects_malformed_text() {
    assert_eq!(Id::try_from("not-an-identifier"), Err(StoreError::InvalidIdentifier));
    assert_eq!(Id::try_from(""), Err(StoreError::InvalidIdentifier));
}

#[test]
fn ticks_arithmetic() {
    let a = Ticks::new(480);
    let b = Ticks::new(240);
    assert_eq!(a.add(b).as_u32(), 720);
    assert_eq!(a.sub(b).as_u32(), 240);
    assert_eq!(Ticks::new(7), Ticks::new(7));
}
