use conduit_memory::backend::{resolve_memory_path, ApiError, ApiResponse, ConduitBackend};
use conduit_memory::memory::{Memory, MemoryError};
use conduit_memory::store::{
    filter_by_query, filter_by_tag, query_matches, tag_matches, MemoryStore, StoredFile,
};
use conduit_memory::timestamp::Timestamp;
use std::collections::BTreeMap;

fn at(secs: i64) -> Timestamp {
    Timestamp::from_unix(secs, 0).unwrap()
}

fn record(id: &str, title: &str, content: &str, tags: &[&str]) -> Memory {
    Memory {
        id: id.to_string(),
        title: title.to_string(),
        content: content.to_string(),
        tags: tags.iter().map(|t| t.to_string()).collect(),
        created_at: at(1672567200),
        updated_at: at(1672567200),
    }
}

fn file(name: &str, text: &str) -> StoredFile {
    StoredFile { name: name.to_string(), text: text.to_string() }
}

const BAD_CREATED: &str = "---\nid: broken\ntitle: Old note\ntags: [legacy]\ncreated_at: not a date\nupdated_at: 2023-01-01T10:00:00+00:00\n---\n\nold body";

/// A directory held in memory, driven through the store's decisions.
struct Dir {
    store: MemoryStore,
    files: BTreeMap<String, String>,
}

impl Dir {
    fn new() -> Dir {
        Dir { store: MemoryStore::new("/data/memories".to_string()), files: BTreeMap::new() }
    }

    fn save(&mut self, m: &Memory) {
        let (path, text) = self.store.save(m);
        self.files.insert(path, text);
    }

    fn get(&self, id: &str) -> Result<Memory, MemoryError> {
        let path = self.store.get_memory_path(id);
        self.store.get(id, self.files.get(&path).cloned())
    }

    fn delete(&mut self, id: &str) -> Result<(), MemoryError> {
        let path = self.store.get_memory_path(id);
        let exists = self.files.contains_key(&path);
        let target = self.store.delete(id, exists)?;
        self.files.remove(&target);
        Ok(())
    }
}

#[test]
fn memory_path_joins_base_and_id() {
    let s = MemoryStore::new("/data/memories".to_string());
    assert_eq!(s.get_memory_path("abc"), "/data/memories/abc.md");
    let t = MemoryStore::new("/data/memories/".to_string());
    assert_eq!(t.get_memory_path("abc"), "/data/memories/abc.md");
}

#[test]
fn record_file_names() {
    assert!(MemoryStore::is_record_file("abc.md"));
    assert!(MemoryStore::is_record_file("a.b.md"));
    assert!(!MemoryStore::is_record_file(".md"));
    assert!(!MemoryStore::is_record_file("abc.txt"));
    assert!(!MemoryStore::is_record_file("abcmd"));
}

#[test]
fn save_then_get() {
    let mut d = Dir::new();
    let m = record("one", "Title", "Body", &["a", "b"]);
    d.save(&m);
    let back = d.get("one").unwrap();
    assert_eq!(back.title, "Title");
    assert_eq!(back.tags, vec!["a".to_string(), "b".to_string()]);
}

#[test]
fn get_and_delete_absent_are_not_found() {
    let mut d = Dir::new();
    d.save(&record("one", "Title", "Body", &[]));
    let before = d.files.clone();
    assert!(matches!(d.get("missing"), Err(MemoryError::NotFound(id)) if id == "missing"));
    assert!(matches!(d.delete("missing"), Err(MemoryError::NotFound(id)) if id == "missing"));
    assert_eq!(d.files, before);
}

#[test]
fn delete_twice() {
    let mut d = Dir::new();
    d.save(&record("one", "Title", "Body", &[]));
    assert!(d.delete("one").is_ok());
    assert!(d.files.is_empty());
    assert!(matches!(d.delete("one"), Err(MemoryError::NotFound(id)) if id == "one"));
}

#[test]
fn save_overwrites() {
    let mut d = Dir::new();
    d.save(&record("one", "First", "Body", &[]));
    d.save(&record("one", "Second", "Body", &[]));
    assert_eq!(d.files.len(), 1);
    assert_eq!(d.get("one").unwrap().title, "Second");
}

#[test]
fn list_recovers_bad_timestamps_and_get_fails() {
    let s = MemoryStore::new("/data".to_string());
    let good = record("good", "Fine", "text", &["x"]).to_markdown();
    let files = vec![
        file("good.md", &good),
        file("broken.md", BAD_CREATED),
        file("notes.txt", &good),
        file("junk.md", "no header here"),
    ];
    let now = at(5);
    let listed = s.list_at(&files, now);
    assert_eq!(listed.len(), 2);
    assert_eq!(listed[0].id, "good");
    assert_eq!(listed[1].id, "broken");
    assert_eq!(listed[1].title, "Old note");
    assert_eq!(listed[1].tags, vec!["legacy".to_string()]);
    assert_eq!(listed[1].created_at, now);
    assert_eq!(listed[1].updated_at, now);
    match s.get("broken", Some(BAD_CREATED.to_string())) {
        Err(MemoryError::InvalidFormat(d)) => assert_eq!(d, "Invalid created_at format: not a date"),
        other => panic!("unexpected {:?}", other),
    }
}

#[test]
fn list_with_clock() {
    let s = MemoryStore::new("/data".to_string());
    let files = vec![file("broken.md", BAD_CREATED)];
    let listed = s.list(&files);
    assert_eq!(listed.len(), 1);
    assert!(listed[0].created_at.secs > 1_600_000_000);
}

#[test]
fn missing_tags_is_skipped_not_recovered() {
    let s = MemoryStore::new("/data".to_string());
    let text = "---\nid: a\ntitle: t\ncreated_at: bad\nupdated_at: bad\n---\n\n";
    assert!(s.list_at(&vec![file("a.md", text)], at(1)).is_empty());
}

#[test]
fn repair_pass_rewrites_only_timestamp_failures() {
    let s = MemoryStore::new("/data".to_string());
    let good = record("good", "Fine", "text", &[]).to_markdown();
    let files = vec![
        file("good.md", &good),
        file("broken.md", BAD_CREATED),
        file("junk.md", "no header"),
    ];
    let fixes = s.fix_invalid_memory_files(&files, at(1672567200));
    assert_eq!(fixes.len(), 1);
    assert_eq!(fixes[0].name, "broken.md");
    assert_eq!(
        fixes[0].text,
        "---\nid: broken\ntitle: Old note\ntags: [legacy]\ncreated_at: 2023-01-01T10:00:00+00:00\nupdated_at: 2023-01-01T10:00:00+00:00\n---\n\nold body"
    );
    let fixed = s.try_fix_memory_file(BAD_CREATED).unwrap();
    assert_eq!(fixed.id, "broken");
}

#[test]
fn search_ignores_case() {
    let ms = vec![
        record("1", "Shopping List", "milk", &[]),
        record("2", "Work plan", "SHOPPING later", &[]),
        record("3", "Other", "nothing", &["Shopping"]),
        record("4", "Other", "nothing", &["home"]),
    ];
    let hits = filter_by_query(&ms, "shopping");
    let ids: Vec<&str> = hits.iter().map(|m| m.id.as_str()).collect();
    assert_eq!(ids, vec!["1", "2", "3"]);
    assert!(filter_by_query(&ms, "absent").is_empty());
    assert_eq!(filter_by_query(&ms, "").len(), 4);
}

#[test]
fn search_by_tag_is_exact_ignoring_case() {
    let ms = vec![
        record("1", "a", "b", &["work", "personal"]),
        record("2", "a", "b", &["home"]),
        record("3", "a", "b", &["workshop"]),
    ];
    let hits = filter_by_tag(&ms, "Work");
    assert_eq!(hits.len(), 1);
    assert_eq!(hits[0].id, "1");
}

#[test]
fn search_over_files() {
    let s = MemoryStore::new("/data".to_string());
    let files = vec![
        file("1.md", &record("1", "Shopping List", "milk", &["work", "personal"]).to_markdown()),
        file("2.md", &record("2", "Chores", "sweep", &["home"]).to_markdown()),
    ];
    let hits = s.search(&files, "shopping");
    assert_eq!(hits.len(), 1);
    assert_eq!(hits[0].id, "1");
    let tagged = s.search_by_tag(&files, "Work");
    assert_eq!(tagged.len(), 1);
    assert_eq!(tagged[0].id, "1");
}

#[test]
fn backend_operations() {
    let b = ConduitBackend::new(Some("/data/memories".to_string())).unwrap();
    assert_eq!(b.memory_store().base_path, "/data/memories");
    let (m, (path, text)) = b.create_memory("T".to_string(), "C".to_string(), vec!["x".to_string()]);
    assert_eq!(path, format!("/data/memories/{}.md", m.id));
    let got = b.get_memory(&m.id, Some(text.clone())).unwrap();
    assert_eq!(got.title, "T");
    assert_eq!(b.get_memory("nope", None).unwrap_err(), "Memory not found: nope");
    assert_eq!(b.delete_memory("nope", false).unwrap_err(), "Memory not found: nope");
    assert_eq!(b.delete_memory(&m.id, true).unwrap(), path);
    let files = vec![file(&format!("{}.md", m.id), &text)];
    assert_eq!(b.list_memories(&files).len(), 1);
    assert_eq!(b.search_memories(&files, "t").len(), 1);
    assert!(b.search_memories(&files, "zzz").is_empty());
}

#[test]
fn default_memory_path() {
    assert_eq!(
        resolve_memory_path(None, Some("/home/ann".to_string())).unwrap(),
        "/home/ann/.conduit/memories"
    );
    assert_eq!(resolve_memory_path(Some("/x".to_string()), None).unwrap(), "/x");
    assert_eq!(
        resolve_memory_path(None, None).unwrap_err(),
        "Could not find home directory"
    );
}

#[test]
fn backend_default_path_is_under_home() {
    match ConduitBackend::new(None) {
        Ok(b) => assert!(b.memory_store().base_path.ends_with("/.conduit/memories")),
        Err(e) => assert_eq!(e, "Could not find home directory"),
    }
}

#[test]
fn api_responses_and_errors() {
    let ok = ApiResponse::success(3);
    assert_eq!(ok.data, 3);
    assert!(ok.error.is_none());
    let bad = ApiResponse::error(0, "broken".to_string());
    assert_eq!(bad.error, Some("broken".to_string()));
    let e: ApiError = MemoryError::NotFound("x".to_string()).into();
    assert_eq!(e.message(), "Memory error: Memory not found: x");
    assert_eq!(ApiError::InvalidRequest("q".to_string()).message(), "Invalid request: q");
    assert_eq!(ApiError::Server("s".to_string()).message(), "Server error: s");
}

#[test]
fn skipped_files_give_reasons() {
    let s = MemoryStore::new("/data".to_string());
    let good = record("good", "Fine", "text", &[]).to_markdown();
    let files = vec![
        file("good.md", &good),
        file("broken.md", BAD_CREATED),
        file("junk.md", "no header"),
        file("notes.txt", "no header"),
        file("untagged.md", "---\nid: a\ntitle: t\n---\n\n"),
    ];
    let skipped = s.skipped_files(&files, at(1));
    assert_eq!(skipped.len(), 2);
    assert_eq!(skipped[0].0, "junk.md");
    assert_eq!(skipped[0].1.message(), "Invalid markdown format");
    assert_eq!(skipped[1].0, "untagged.md");
    assert_eq!(skipped[1].1.message(), "Missing tags");
}

const NO_CREATED: &str = "---\nid: gone\ntitle: No date\ntags: [x]\nupdated_at: 2023-01-01T10:00:00+00:00\n---\n\nbody";

#[test]
fn missing_timestamp_line_is_neither_listed_nor_repaired() {
    let s = MemoryStore::new("/data".to_string());
    let files = vec![file("gone.md", NO_CREATED)];
    assert!(s.list_at(&files, at(1)).is_empty());
    assert!(s.fix_invalid_memory_files(&files, at(1)).is_empty());
    let skipped = s.skipped_files(&files, at(1));
    assert_eq!(skipped.len(), 1);
    assert_eq!(skipped[0].1.message(), "Missing created_at");
}

#[test]
fn query_over_lowercased_texts() {
    let tags = vec!["work".to_string(), "personal".to_string()];
    assert!(query_matches("shopping list", "milk", &Vec::new(), "shopping"));
    assert!(query_matches("a", "b", &tags, "person"));
    assert!(!query_matches("a", "b", &tags, "home"));
    assert!(query_matches("", "", &Vec::new(), ""));
    assert!(tag_matches(&tags, "work"));
    assert!(!tag_matches(&vec!["home".to_string()], "work"));
    assert!(!tag_matches(&vec!["workshop".to_string()], "work"));
}

#[test]
fn empty_query_keeps_everything() {
    let ms = vec![record("1", "A", "b", &[]), record("2", "C", "d", &["e"])];
    assert_eq!(filter_by_query(&ms, "").len(), 2);
}
