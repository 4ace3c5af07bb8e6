use plumbline_core::corpus::{render_tokens, Corpus, Token, Verse, FLAG_PARA, FLAG_TITLE};
use plumbline_core::reference::VRef;
use plumbline_core::Error;
use serde_json::Value;

const SAMPLE: &str = "{\"format\":\"overlay-kjv-canonical\",\"tokenization\":\"kjv1769-tok2\",\"verses\":3}\n{\"b\":\"Gen\",\"c\":1,\"t\":[[\"\",\"In\",\"\",[],0],[\"\",\"the\",\"\",[],0],[\"\",\"beginning\",\"\",[\"H7225\"],0],[\"\",\"God\",\"\",[\"H430\"],0],[\"\",\"created\",\"\",[\"H1254\"],0]],\"v\":1}\n{\"b\":\"Gen\",\"c\":1,\"t\":[[\"\",\"And\",\"\",[],0],[\"\",\"God\",\"\",[\"H430\"],0],[\"\",\"said\",\",\",[\"H559\"],0]],\"v\":2}\n{\"b\":\"Gen\",\"c\":2,\"t\":[[\"\",\"Thus\",\"\",[],8],[\"\",\"the\",\"\",[],0],[\"\",\"heavens\",\"\",[\"H8064\"],0]],\"v\":1}";

fn token(v: &Value) -> Option<Token> {
    let a = v.as_array()?;
    Some(Token {
        pre: a.first()?.as_str()?.to_string(),
        word: a.get(1)?.as_str()?.to_string(),
        post: a.get(2)?.as_str()?.to_string(),
        strongs: a.get(3)?.as_array()?.iter().map(|s| s.as_str().map(str::to_string)).collect::<Option<_>>()?,
        flags: u32::try_from(a.get(4)?.as_u64()?).ok()?,
    })
}

fn verse(v: &Value) -> Option<Verse> {
    Some(Verse {
        book: v.get("b")?.as_str()?.to_string(),
        chapter: u16::try_from(v.get("c")?.as_u64()?).ok()?,
        verse: u16::try_from(v.get("v")?.as_u64()?).ok()?,
        tokens: v.get("t")?.as_array()?.iter().map(token).collect::<Option<_>>()?,
    })
}

/// The corpus JSONL read the way a shell reads it, then handed to the library.
fn from_str(raw: &str) -> Result<Corpus, Error> {
    let mut lines = raw.lines();
    let header = lines.next().ok_or_else(|| Error::Corpus("corpus file is empty".into()))?;
    let hdr: Value = serde_json::from_str(header).map_err(|e| Error::Corpus(format!("bad corpus header: {e}")))?;
    let declared = hdr.get("verses").and_then(|v| v.as_u64()).ok_or_else(|| Error::Corpus("header missing verse count".into()))? as usize;
    let tok = hdr.get("tokenization").and_then(|v| v.as_str()).ok_or_else(|| Error::Corpus("header missing tokenization version".into()))?.to_string();
    let mut verses = Vec::new();
    for line in lines {
        if line.trim().is_empty() {
            continue;
        }
        let v: Value = serde_json::from_str(line).map_err(|e| Error::Corpus(format!("bad verse line: {e}")))?;
        verses.push(verse(&v).ok_or_else(|| Error::Corpus("bad verse line".into()))?);
    }
    Corpus::from_parsed(tok, declared, verses)
}

#[test]
fn loads_and_indexes() {
    let c = from_str(SAMPLE).unwrap();
    assert_eq!(c.len(), 3);
    assert_eq!(c.tokenization_version(), "kjv1769-tok2");
    assert_eq!(c.chapter_count("Gen"), 2);
    assert_eq!(c.chapter_verses("Gen", 1).len(), 2);
    assert_eq!(c.chapter_verses("Gen", 2).len(), 1);
    assert_eq!(c.chapter_verses("Gen", 9).len(), 0);

    let v = c.verse(&VRef::new("Gen", 1, 1)).unwrap();
    assert_eq!(v.body(), "In the beginning God created");
    assert_eq!(v.tokens[2].strongs, vec!["H7225".to_string()]);
}

#[test]
fn paragraph_flag_reads() {
    let c = from_str(SAMPLE).unwrap();
    let v = c.verse(&VRef::new("Gen", 2, 1)).unwrap();
    assert!(v.tokens[0].has_flag(FLAG_PARA));
    assert!(!v.tokens[1].has_flag(FLAG_PARA));
}

#[test]
fn rejects_out_of_order() {
    let bad = "{\"format\":\"x\",\"tokenization\":\"kjv1769-tok2\",\"verses\":2}\n{\"b\":\"Gen\",\"c\":1,\"t\":[],\"v\":2}\n{\"b\":\"Gen\",\"c\":1,\"t\":[],\"v\":1}";
    assert!(from_str(bad).is_err());
}

#[test]
fn rejects_count_mismatch() {
    let bad = "{\"format\":\"x\",\"tokenization\":\"kjv1769-tok2\",\"verses\":5}\n{\"b\":\"Gen\",\"c\":1,\"t\":[],\"v\":1}";
    assert!(from_str(bad).is_err());
}

#[test]
fn indexes_and_ordinals_agree() {
    let c = from_str(SAMPLE).unwrap();
    assert_eq!(c.verse_at(2).unwrap().vref(), VRef::new("Gen", 2, 1));
    assert!(c.verse_at(3).is_none());
    assert_eq!(c.index_of(&VRef::new("Gen", 2, 1)), Some(2));
    assert_eq!(c.index_of(&VRef::new("Gen", 1, 9)), None);
    assert_eq!(c.verses_iter().len(), 3);
    assert_eq!(c.chapter_count("Exod"), 1);
    assert!(!c.is_empty());
}

#[test]
fn the_error_messages_name_what_went_wrong() {
    let v = |c: u16, n: u16| Verse { book: "Gen".into(), chapter: c, verse: n, tokens: vec![] };
    match Corpus::from_parsed("t".into(), 2, vec![v(1, 2), v(1, 1)]) {
        Err(Error::Corpus(m)) => assert_eq!(m, "corpus not in canonical order at Gen 1:1"),
        _ => panic!("out of order must be refused"),
    }
    match Corpus::from_parsed("t".into(), 5, vec![v(1, 1)]) {
        Err(Error::Corpus(m)) => assert_eq!(m, "verse count mismatch: header says 5, file has 1"),
        _ => panic!("a count mismatch must be refused"),
    }
    // A book that comes back after another one is out of order too.
    let b = |book: &str| Verse { book: book.into(), chapter: 1, verse: 1, tokens: vec![] };
    assert!(Corpus::from_parsed("t".into(), 3, vec![b("Gen"), b("Exod"), b("Gen")]).is_err());
}

#[test]
fn titles_and_bodies_render_apart() {
    let t = |w: &str, f: u32| Token { pre: String::new(), word: w.into(), post: String::new(), strongs: vec![], flags: f };
    let v = Verse {
        book: "Ps".into(),
        chapter: 3,
        verse: 1,
        tokens: vec![t("A", FLAG_TITLE), t("Psalm", FLAG_TITLE), t("LORD,", 0), t("how", 0)],
    };
    assert_eq!(v.title(), "A Psalm");
    assert_eq!(v.body(), "LORD, how");
    assert_eq!(render_tokens(&v.tokens), "A Psalm LORD, how");
    let p = Token { pre: "(".into(), word: "the".into(), post: ")".into(), strongs: vec![], flags: 0 };
    assert_eq!(p.render(), "(the)");
    assert_eq!(plumbline_core::corpus::cache_path("data/kjv.jsonl"), "data/kjv.jsonl.idxcache");
}
