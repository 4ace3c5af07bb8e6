use plumbline_core::akjv::{encode_akjv_bin, parse_akjv_bin, Akjv, AkjvSpan, AkjvVerseRecord};
use plumbline_core::reference::VRef;
use serde_json::Value;

const OVERLAY: &str = "{\"format\":\"overlay-akjv-v1\",\"tokenization\":\"kjv1769-tok2\",\"source\":\"AKJV 1999 (public domain)\"}\n{\"b\":\"John\",\"c\":3,\"v\":3,\"d\":[[3,3,\"to\"],[5,6,\"Truly, truly\"],[9,10,\"to you\"]]}\n{\"b\":\"Gen\",\"c\":1,\"v\":2,\"d\":[[7,7,\"on\"]]}\n{\"b\":\"Ps\",\"c\":23,\"v\":1,\"d\":[[2,2,\"\"]]}";

/// The overlay's JSONL read the way a shell reads it: the header's stamp and
/// provenance, then every verse line that decodes. `None` when the header does
/// not decode.
fn read_jsonl(text: &str) -> Option<(String, String, Vec<AkjvVerseRecord>)> {
    let mut lines = text.lines().filter(|l| !l.trim().is_empty());
    let header: Value = serde_json::from_str(lines.next()?).ok()?;
    let tokenization = header.get("tokenization")?.as_str()?.to_string();
    let source = header.get("source").and_then(|v| v.as_str()).unwrap_or("").to_string();
    let mut records = Vec::new();
    for line in lines {
        let Ok(v) = serde_json::from_str::<Value>(line) else { continue };
        let rec = (|| {
            let book = v.get("b")?.as_str()?.to_string();
            let chapter = u16::try_from(v.get("c")?.as_u64()?).ok()?;
            let verse = u16::try_from(v.get("v")?.as_u64()?).ok()?;
            let mut spans = Vec::new();
            for d in v.get("d")?.as_array()? {
                let d = d.as_array()?;
                spans.push(AkjvSpan {
                    start: u16::try_from(d.first()?.as_u64()?).ok()?,
                    end: u16::try_from(d.get(1)?.as_u64()?).ok()?,
                    text: d.get(2)?.as_str()?.to_string(),
                });
            }
            Some(AkjvVerseRecord { book, chapter, verse, spans })
        })();
        if let Some(r) = rec {
            records.push(r);
        }
    }
    Some((tokenization, source, records))
}

fn parse(tok: &str, text: &str) -> Option<Akjv> {
    let (tokenization, source, records) = read_jsonl(text)?;
    Akjv::from_records(tok, &tokenization, source, records)
}

fn encode(tok: &str, text: &str) -> Option<Vec<u8>> {
    let (tokenization, source, records) = read_jsonl(text)?;
    encode_akjv_bin(tok, &tokenization, source, records)
}

fn overlay() -> Akjv {
    parse("kjv1769-tok2", OVERLAY).unwrap()
}

#[test]
fn parses_spans_and_finds_them_by_token() {
    let a = overlay();
    assert_eq!(a.verse_count(), 3);
    assert_eq!(a.source(), "AKJV 1999 (public domain)");
    let john = VRef::new("John", 3, 3);
    assert_eq!(a.spans(&john).len(), 3);
    assert_eq!(a.span_at(&john, 3).map(|s| s.text.as_str()), Some("to"));
    assert_eq!(a.span_at(&john, 5).map(|s| s.text.as_str()), Some("Truly, truly"));
    assert_eq!(a.span_at(&john, 6).map(|s| s.text.as_str()), Some("Truly, truly"));
    assert_eq!(a.span_at(&john, 4), None);
    assert_eq!(a.span_at(&john, 99), None);
    assert!(a.spans(&VRef::new("Rev", 1, 1)).is_empty());
    assert_eq!(a.span_at(&VRef::new("Ps", 23, 1), 2).map(|s| s.text.as_str()), Some(""));
}

#[test]
fn a_stale_overlay_is_refused() {
    assert!(parse("kjv1611-tok1", OVERLAY).is_none());
    assert!(parse("kjv1769-tok2", "").is_none());
    assert!(parse("kjv1769-tok2", "not json at all").is_none());
}

#[test]
fn packed_loads_identically_to_the_text() {
    let text = overlay();
    let bytes = encode("kjv1769-tok2", OVERLAY).expect("encodes");
    let packed = parse_akjv_bin("kjv1769-tok2", &bytes).unwrap();
    assert_eq!(packed.verse_count(), text.verse_count());
    assert_eq!(packed.source(), text.source());
    for r in [VRef::new("John", 3, 3), VRef::new("Gen", 1, 2), VRef::new("Ps", 23, 1)] {
        assert_eq!(packed.spans(&r), text.spans(&r), "{r:?}");
        for tok in 0..12u16 {
            assert_eq!(packed.span_at(&r, tok), text.span_at(&r, tok), "{r:?} tok {tok}");
        }
    }
}

#[test]
fn packing_is_deterministic() {
    let a = encode("kjv1769-tok2", OVERLAY).unwrap();
    for _ in 0..8 {
        assert_eq!(encode("kjv1769-tok2", OVERLAY).unwrap(), a);
    }
}

#[test]
fn a_bad_packed_file_is_none_not_garbage() {
    let good = encode("kjv1769-tok2", OVERLAY).unwrap();
    assert!(parse_akjv_bin("kjv1769-tok2", b"not an akjvb").is_none());
    assert!(parse_akjv_bin("kjv1769-tok2", &good[..good.len() - 8]).is_none());
    assert!(parse_akjv_bin("kjv1769-tok2", &[]).is_none());
    assert!(parse_akjv_bin("kjv1611-tok1", &good).is_none());
    assert!(encode("kjv1611-tok1", OVERLAY).is_none());
}

#[test]
fn inverted_runs_are_dropped_and_a_later_record_wins() {
    let recs = vec![
        AkjvVerseRecord {
            book: "Gen".into(),
            chapter: 1,
            verse: 1,
            spans: vec![AkjvSpan { start: 4, end: 2, text: "x".into() }],
        },
        AkjvVerseRecord {
            book: "Gen".into(),
            chapter: 1,
            verse: 2,
            spans: vec![AkjvSpan { start: 1, end: 1, text: "a".into() }],
        },
        AkjvVerseRecord {
            book: "Gen".into(),
            chapter: 1,
            verse: 2,
            spans: vec![
                AkjvSpan { start: 5, end: 6, text: "c".into() },
                AkjvSpan { start: 2, end: 3, text: "b".into() },
            ],
        },
    ];
    let a = Akjv::from_records("t", "t", "s".into(), recs).unwrap();
    // A verse whose only run is inverted carries nothing.
    assert_eq!(a.verse_count(), 1);
    assert!(a.spans(&VRef::new("Gen", 1, 1)).is_empty());
    // The later record replaced the earlier one, its runs in token order.
    let s = a.spans(&VRef::new("Gen", 1, 2));
    assert_eq!(s.iter().map(|x| x.text.as_str()).collect::<Vec<_>>(), vec!["b", "c"]);
    assert_eq!(a.span_at(&VRef::new("Gen", 1, 2), 1), None);
}
