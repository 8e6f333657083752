use conduit_memory::memory::{Field, FormatError, Memory, MemoryError};
use conduit_memory::timestamp::{parse_timestamp, resolve_timestamp, Timestamp, MAX_SECS, MIN_SECS};

fn at(secs: i64) -> Timestamp {
    Timestamp::from_unix(secs, 0).unwrap()
}

fn sample() -> Memory {
    Memory {
        id: "abc-123".to_string(),
        title: "Shopping List".to_string(),
        content: "milk\neggs\n\n---\nbread".to_string(),
        tags: vec!["food".to_string(), " weekly ".to_string()],
        created_at: at(1672567200),
        updated_at: Timestamp::from_unix(1672570800, 250_000_000).unwrap(),
    }
}

#[test]
fn encodes_canonical_text() {
    let m = sample();
    assert_eq!(
        m.to_markdown(),
        "---\nid: abc-123\ntitle: Shopping List\ntags: [food,  weekly ]\ncreated_at: 2023-01-01T10:00:00+00:00\nupdated_at: 2023-01-01T11:00:00.250+00:00\n---\n\nmilk\neggs\n\n---\nbread"
    );
}

#[test]
fn round_trip_keeps_fields_and_trims_tags() {
    let m = sample();
    let back = Memory::from_markdown(&m.to_markdown()).unwrap();
    assert_eq!(back.id, m.id);
    assert_eq!(back.title, m.title);
    assert_eq!(back.content, m.content);
    assert_eq!(back.tags, vec!["food".to_string(), "weekly".to_string()]);
    assert_eq!(back.created_at, m.created_at);
    assert_eq!(back.updated_at, m.updated_at);
}

#[test]
fn round_trip_of_empty_tags() {
    let mut m = sample();
    m.tags = Vec::new();
    let text = m.to_markdown();
    assert!(text.contains("\ntags: []\n"));
    let back = Memory::from_markdown(&text).unwrap();
    assert!(back.tags.is_empty());
}

#[test]
fn round_trip_of_empty_body() {
    let mut m = sample();
    m.content = String::new();
    let back = Memory::from_markdown(&m.to_markdown()).unwrap();
    assert_eq!(back.content, "");
}

#[test]
fn fallback_whole_seconds_with_offset() {
    let text = "---\nid: a\ntitle: t\ntags: [x]\ncreated_at: 2023-01-01 10:00:00 +0000\nupdated_at: 2023-01-01T10:00:00+00:00\n---\n\nbody";
    let m = Memory::from_markdown(text).unwrap();
    assert_eq!(m.created_at, m.updated_at);
    assert_eq!(m.created_at, at(1672567200));
}

#[test]
fn fallback_fractional_seconds_with_offset() {
    let t = parse_timestamp("2023-01-01 12:00:00.5 +0200").unwrap();
    assert_eq!(t, Timestamp::from_unix(1672567200, 500_000_000).unwrap());
}

#[test]
fn fallback_naive_is_utc() {
    assert_eq!(parse_timestamp("2023-01-01 10:00:00"), Some(at(1672567200)));
}

#[test]
fn rfc3339_with_offset() {
    assert_eq!(parse_timestamp("2023-01-01T12:00:00+02:00"), Some(at(1672567200)));
}

#[test]
fn unreadable_timestamp() {
    assert_eq!(parse_timestamp("yesterday"), None);
    assert_eq!(parse_timestamp(""), None);
}

#[test]
fn first_reading_wins() {
    let a = Some(at(1));
    let b = Some(at(2));
    assert_eq!(resolve_timestamp(None, b, a, None), b);
    assert_eq!(resolve_timestamp(a, b, None, None), a);
    assert_eq!(resolve_timestamp(None, None, None, b), b);
    assert_eq!(resolve_timestamp(None, None, None, None), None);
}

#[test]
fn missing_tags_named() {
    let text = "---\nid: a\ntitle: t\ncreated_at: 2023-01-01T10:00:00+00:00\nupdated_at: 2023-01-01T10:00:00+00:00\n---\n\nbody";
    assert!(matches!(Memory::decode(text), Err(FormatError::MissingField(Field::Tags))));
    match Memory::from_markdown(text) {
        Err(MemoryError::InvalidFormat(d)) => assert_eq!(d, "Missing tags"),
        other => panic!("unexpected {:?}", other),
    }
}

#[test]
fn missing_id_and_title() {
    let no_id = "---\ntitle: t\ntags: []\n---\n\n";
    assert!(matches!(Memory::decode(no_id), Err(FormatError::MissingField(Field::Id))));
    let no_title = "---\nid: a\ntags: []\n---\n\n";
    assert!(matches!(Memory::decode(no_title), Err(FormatError::MissingField(Field::Title))));
}

#[test]
fn tags_without_brackets_are_missing() {
    let text = "---\nid: a\ntitle: t\ntags: x, y\n---\n\n";
    assert!(matches!(Memory::decode(text), Err(FormatError::MissingField(Field::Tags))));
}

#[test]
fn missing_delimiter() {
    assert!(matches!(Memory::decode("id: a\ntitle: t\n"), Err(FormatError::MissingDelimiter)));
    assert!(matches!(Memory::decode("---\nid: a\n---\nbody"), Err(FormatError::MissingDelimiter)));
    match Memory::from_markdown("") {
        Err(MemoryError::InvalidFormat(d)) => assert_eq!(d, "Invalid markdown format"),
        other => panic!("unexpected {:?}", other),
    }
}

#[test]
fn invalid_and_missing_timestamps() {
    let bad = "---\nid: a\ntitle: t\ntags: [x]\ncreated_at: someday\nupdated_at: 2023-01-01T10:00:00+00:00\n---\n\n";
    match Memory::decode(bad) {
        Err(e) => {
            assert!(e.is_timestamp_fault());
            assert_eq!(e.message(), "Invalid created_at format: someday");
        }
        Ok(_) => panic!("decoded"),
    }
    let missing = "---\nid: a\ntitle: t\ntags: [x]\ncreated_at: 2023-01-01T10:00:00+00:00\n---\n\n";
    match Memory::decode(missing) {
        Err(e) => {
            assert!(!e.is_timestamp_fault());
            assert_eq!(e.message(), "Missing updated_at");
        }
        Ok(_) => panic!("decoded"),
    }
}

#[test]
fn structural_faults_are_not_recoverable() {
    assert!(!FormatError::MissingDelimiter.is_timestamp_fault());
    assert!(!FormatError::MissingField(Field::Tags).is_timestamp_fault());
    assert!(!FormatError::MissingField(Field::CreatedAt).is_timestamp_fault());
}

#[test]
fn recover_replaces_timestamps() {
    let bad = "---\nid: a\ntitle: t\ntags: [x, y] trailing\ncreated_at: someday\nupdated_at: never\n---\n\nbody";
    let now = at(99);
    let m = Memory::recover(bad, now).unwrap();
    assert_eq!(m.id, "a");
    assert_eq!(m.title, "t");
    assert_eq!(m.tags, vec!["x".to_string(), "y".to_string()]);
    assert_eq!(m.content, "body");
    assert_eq!(m.created_at, now);
    assert_eq!(m.updated_at, now);
    assert!(Memory::recover("---\ntitle: t\ntags: []\n---\n\n", now).is_none());
}

#[test]
fn header_keys_are_line_starts() {
    let text = "---\nid: a\ntitle: my id: b\ntags: [x]\ncreated_at: 2023-01-01T10:00:00Z\nupdated_at: 2023-01-01T10:00:00Z\nid: later\n---\n\n";
    let m = Memory::from_markdown(text).unwrap();
    assert_eq!(m.id, "a");
    assert_eq!(m.title, "my id: b");
}

#[test]
fn new_memory_has_uuid_and_equal_times() {
    let m = Memory::new("t".to_string(), "c".to_string(), vec!["x".to_string()]);
    assert_eq!(m.id.len(), 36);
    for (i, c) in m.id.chars().enumerate() {
        if i == 8 || i == 13 || i == 18 || i == 23 {
            assert_eq!(c, '-');
        } else {
            assert!(c.is_ascii_hexdigit() && !c.is_ascii_uppercase());
        }
    }
    assert_eq!(m.created_at, m.updated_at);
    assert!(m.created_at.secs > 1_600_000_000);
    let other = Memory::new("t".to_string(), "c".to_string(), Vec::new());
    assert_ne!(m.id, other.id);
}

#[test]
fn timestamp_range() {
    assert!(Timestamp::from_unix(MIN_SECS, 0).is_some());
    assert!(Timestamp::from_unix(MAX_SECS, 999_999_999).is_some());
    assert!(Timestamp::from_unix(MIN_SECS - 1, 0).is_none());
    assert!(Timestamp::from_unix(MAX_SECS + 1, 0).is_none());
    assert!(Timestamp::from_unix(59, 1_500_000_000).is_some());
    assert!(Timestamp::from_unix(-1, 1_500_000_000).is_some());
    assert!(Timestamp::from_unix(58, 1_500_000_000).is_none());
    assert!(Timestamp::from_unix(59, 2_000_000_000).is_none());
}

#[test]
fn extreme_timestamps_encode() {
    let mut m = sample();
    m.created_at = Timestamp::from_unix(MIN_SECS, 0).unwrap();
    m.updated_at = Timestamp::from_unix(MAX_SECS, 0).unwrap();
    let text = m.to_markdown();
    assert!(text.contains("created_at: -262143-01-01T00:00:00+00:00"));
    assert!(text.contains("updated_at: +262142-12-31T23:59:59+00:00"));
}

#[test]
fn error_messages() {
    assert_eq!(MemoryError::NotFound("x".to_string()).message(), "Memory not found: x");
    assert_eq!(MemoryError::Io("denied".to_string()).message(), "IO error: denied");
    assert_eq!(
        MemoryError::InvalidFormat("Missing id".to_string()).message(),
        "Invalid memory format: Missing id"
    );
    assert_eq!(Field::UpdatedAt.name(), "updated_at");
}

#[test]
fn timestamps_survive_writing() {
    for (secs, nanos) in [
        (0, 0),
        (1672567200, 123_456_789),
        (1672567200, 1_000),
        (-62167219200, 0),
        (253402300799, 999_999_999),
        (-1, 500_000_000),
    ] {
        let t = Timestamp::from_unix(secs, nanos).unwrap();
        let mut m = sample();
        m.created_at = t;
        m.updated_at = t;
        let back = Memory::from_markdown(&m.to_markdown()).unwrap();
        assert_eq!(back.created_at, t);
        assert_eq!(back.updated_at, t);
    }
}
