use plumbline_core::notes::Notes;
use plumbline_core::reference::VRef;
use serde_json::Value;

const SAMPLE: &str = "{\"b\":\"Gen\",\"c\":1,\"v\":4,\"note\":\"first note on 1:4\"}\n{\"b\":\"Gen\",\"c\":1,\"v\":4,\"note\":\"second note on 1:4\"}\n\ngarbage line, not json\n{\"b\":\"John\",\"c\":3,\"v\":16,\"note\":\"a note on John 3:16\"}";

/// The notes JSONL read the way a shell reads it: every line that decodes as a
/// note record, in file order.
fn notes_from_str(raw: &str) -> Notes {
    let mut recs = Vec::new();
    for line in raw.lines() {
        if line.trim().is_empty() {
            continue;
        }
        let Ok(v) = serde_json::from_str::<Value>(line) else { continue };
        let (Some(b), Some(c), Some(vs), Some(note)) =
            (v["b"].as_str(), v["c"].as_u64(), v["v"].as_u64(), v["note"].as_str())
        else {
            continue;
        };
        recs.push((VRef::new(b, c as u16, vs as u16), note.to_string()));
    }
    Notes::from_records(recs)
}

#[test]
fn parses_groups_and_skips_bad_lines() {
    let notes = notes_from_str(SAMPLE);
    // Two verses have notes; the blank + garbage lines are skipped.
    assert_eq!(notes.len(), 2);
    // Multiple notes on one verse keep file order.
    let gen = notes.get(&VRef::new("Gen", 1, 4)).unwrap();
    assert_eq!(gen, &["first note on 1:4", "second note on 1:4"]);
    assert_eq!(notes.get(&VRef::new("John", 3, 16)).unwrap().len(), 1);
    assert!(!notes.contains_key(&VRef::new("Gen", 1, 5)));
}

#[test]
fn interleaved_notes_still_group_in_file_order() {
    let notes = Notes::from_records(vec![
        (VRef::new("Gen", 1, 1), "a".to_string()),
        (VRef::new("Exod", 2, 2), "b".to_string()),
        (VRef::new("Gen", 1, 1), "c".to_string()),
    ]);
    assert_eq!(notes.len(), 2);
    assert_eq!(notes.get(&VRef::new("Gen", 1, 1)).unwrap(), &["a", "c"]);
    assert_eq!(notes.get(&VRef::new("Exod", 2, 2)).unwrap(), &["b"]);
    assert!(Notes::new().is_empty());
    assert!(notes.get(&VRef::new("Gen", 1, 2)).is_none());
}
