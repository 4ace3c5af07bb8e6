use plumbline_core::canon::{book_at, BOOK_COUNT};
use plumbline_core::i18n::{
    book_name, catalog, has_native_intros, is_intro_prose, missing, plural, resolve, resolved, t, Catalog,
    Catalogs, Lang, LANG_COUNT,
};

/// The first-run prose prefixes.
const INTRO_PROSE: [&str; 2] = ["intro.welcome.", "intro.curious."];

/// German book names for the books the tests read, and a stand-in for the rest.
fn de_book(id: &str, name: &str) -> String {
    match id {
        "Gen" => "1. Mose".into(),
        "Ezek" => "Hesekiel".into(),
        "1Cor" => "1. Korinther".into(),
        "John" => "Johannes".into(),
        _ => name.into(),
    }
}

/// A catalogue set shaped like the shipped one: English carries the prose and
/// the app strings, every other language translates all of them (with the
/// first-run prose complete in German and absent elsewhere) and names every
/// book.
fn catalogs() -> Catalogs {
    let en: Vec<(&str, &str)> = vec![
        ("present.passages.one", "{n} passage"),
        ("present.passages.other", "{n} passages"),
        ("shell.hymnal", "Hymnal"),
        ("search.results", "{n} results for {q}"),
        ("intro.welcome.lead", "Welcome."),
        ("intro.welcome.body", "This is a Bible."),
        ("intro.curious.lead", "Curious?"),
    ];
    let mut cats = Catalogs::new();
    cats.set(Lang::En, Catalog::from_pairs(en.iter().map(|(k, v)| ((*k).to_string(), (*v).to_string())).collect()));
    for lang in Lang::all() {
        if lang == Lang::En {
            continue;
        }
        let mut pairs: Vec<(String, String)> = Vec::new();
        for (k, v) in &en {
            if is_intro_prose(k) && lang != Lang::De {
                continue;
            }
            pairs.push(((*k).to_string(), format!("[{}] {}", lang.code(), v)));
        }
        for i in 0..BOOK_COUNT {
            let b = book_at(i);
            let name = if lang == Lang::De { de_book(b.id, b.name) } else { format!("{} ({})", b.name, lang.code()) };
            pairs.push((format!("book.{}", b.id), name));
        }
        cats.set(lang, Catalog::from_pairs(pairs));
    }
    cats
}

#[test]
fn each_variant_reaches_its_own_row() {
    assert_eq!(Lang::En.code(), "en");
    assert_eq!(Lang::De.code(), "de");
    assert_eq!(Lang::Es.code(), "es");
    assert_eq!(Lang::Fr.code(), "fr");
    assert_eq!(Lang::Zht.code(), "zht");
    assert_eq!(Lang::Zhs.code(), "zhs");
    assert_eq!(Lang::De.corpus().file, "luther1912.jsonl");
    assert_eq!(Lang::Es.corpus().file, "rv1909.jsonl");
    assert_eq!(Lang::Fr.corpus().file, "ost1996.jsonl");
    assert_eq!(Lang::Zht.corpus().file, "cuv1919t.jsonl");
    assert_eq!(Lang::Zhs.corpus().file, "cuv1919s.jsonl");
    assert_eq!(Lang::all().len(), LANG_COUNT);
}

#[test]
fn chinese_locales_land_on_the_right_row() {
    for tag in ["zh-TW", "zh-HK", "zh-MO", "zh-Hant", "zh-Hant-TW", "zht"] {
        assert_eq!(Lang::shipped(tag), Some(Lang::Zht), "{tag}");
    }
    for tag in ["zh", "zh-CN", "zh-SG", "zh-Hans", "zh-Hans-CN", "zhs"] {
        assert_eq!(Lang::shipped(tag), Some(Lang::Zhs), "{tag}");
    }
    assert_eq!(Lang::shipped("zh-Hans-HK"), Some(Lang::Zhs));
    assert_eq!(Lang::shipped("fr-CA"), Some(Lang::Fr));
}

#[test]
fn a_row_is_complete() {
    for lang in Lang::all() {
        let s = lang.spec();
        assert!(!s.code.is_empty(), "a language with no code");
        assert!(!s.endonym.is_empty(), "{} has no endonym", s.code);
        assert!(!s.exonym.is_empty(), "{} has no exonym", s.code);
        if let Some(c) = &s.corpus {
            assert!(!c.file.is_empty() && !c.tokenization.is_empty(), "{}'s corpus row is half-filled", s.code);
            assert!(!c.label.is_empty(), "{}'s corpus has no name a reader would know it by", s.code);
            assert_eq!(c.cache_file(), format!("{}.idxcache", c.file));
        }
        if s.lexicon.is_some() && lang != Lang::En {
            assert!(s.corpus.is_some(), "{} has a localized lexicon but reads English's text", s.code);
        }
        if let Some(n) = &s.numbering {
            assert!(!n.label.is_empty(), "{}'s numbering is credited to nobody", s.code);
            assert!(!n.table_file.trim().is_empty(), "{}'s numbering table is empty", s.code);
        }
    }
}

#[test]
fn no_two_languages_share_a_data_file() {
    let mut files: Vec<&str> = Vec::new();
    let mut toks: Vec<&str> = Vec::new();
    let mut lexicons: Vec<&str> = Vec::new();
    for lang in Lang::all() {
        if let Some(c) = &lang.spec().corpus {
            assert!(!files.contains(&c.file), "{} reuses the corpus file {}", lang.code(), c.file);
            assert!(!toks.contains(&c.tokenization), "{} reuses the stamp {}", lang.code(), c.tokenization);
            files.push(c.file);
            toks.push(c.tokenization);
        }
        if let Some(l) = lang.spec().lexicon {
            assert!(!lexicons.contains(&l.file), "{} reuses the dictionary {}", lang.code(), l.file);
            lexicons.push(l.file);
        }
    }
}

#[test]
fn every_catalogue_parses() {
    let cats = catalogs();
    for lang in Lang::all() {
        let c = catalog(&cats, lang);
        assert!(!c.is_empty() || lang != Lang::En, "{} is empty", lang.code());
    }
}

#[test]
fn codes_round_trip_and_tolerate_regions() {
    assert_eq!(Lang::parse("de"), Lang::De);
    assert_eq!(Lang::parse("de-CH"), Lang::De);
    assert_eq!(Lang::parse("de_AT"), Lang::De);
    assert_eq!(Lang::parse("DE"), Lang::De);
    assert_eq!(Lang::parse("en-GB"), Lang::En);
    assert_eq!(Lang::parse("fr-CA"), Lang::Fr);
    assert_eq!(Lang::parse("it"), Lang::En);
    assert_eq!(Lang::parse(""), Lang::En);
    for lang in Lang::all() {
        assert_eq!(Lang::parse(lang.code()), lang);
    }
}

#[test]
fn a_setting_beats_the_device_and_an_empty_setting_follows_it() {
    assert_eq!(resolve("", "de-DE"), Lang::De);
    assert_eq!(resolve("", "en-US"), Lang::En);
    assert_eq!(resolve("en", "de-DE"), Lang::En);
    assert_eq!(resolve("de", "en-US"), Lang::De);
    assert_eq!(resolve("", "fr-FR"), Lang::Fr);
    assert_eq!(resolve("", "zh-TW"), Lang::Zht);
    assert_eq!(resolve("", "zh-CN"), Lang::Zhs);
    assert_eq!(resolve("it", "de-DE"), Lang::De);
    assert_eq!(resolve("", "it-IT"), Lang::En);
    assert_eq!(resolve("", ""), Lang::En);
}

#[test]
fn resolved_falls_back_to_english_key_by_key() {
    let mut cats = catalogs();
    // A translation that lacks a key still answers it, in English.
    cats.set(Lang::De, Catalog::from_pairs(vec![("shell.hymnal".into(), "Gesangbuch".into())]));
    let en = catalog(&cats, Lang::En);
    let de = resolved(&cats, Lang::De);
    for (k, _) in en.pairs() {
        assert!(de.get(&k).is_some(), "resolved de lost the key {k}");
    }
    assert_eq!(de.get("shell.hymnal"), Some("Gesangbuch"));
    assert_eq!(de.get("present.passages.one"), Some("{n} passage"));
}

#[test]
fn placeholders_fill_and_survive_a_missing_argument() {
    assert_eq!(plumbline_core::i18n::format("Read {book} {chapter}", &[("book", "John"), ("chapter", "3")]), "Read John 3");
    assert_eq!(plumbline_core::i18n::format("Read {book}", &[]), "Read {book}");
    assert_eq!(plumbline_core::i18n::format("Read {book", &[("book", "John")]), "Read {book");
    assert_eq!(plumbline_core::i18n::format("Hymnal", &[]), "Hymnal");
}

#[test]
fn an_unknown_id_shows_itself() {
    assert_eq!(t(&catalogs(), Lang::En, "no.such.key", &[]), "no.such.key");
}

#[test]
fn every_book_is_named_in_every_language() {
    let cats = catalogs();
    for lang in Lang::all() {
        if lang == Lang::En {
            continue;
        }
        let c = catalog(&cats, lang);
        for i in 0..BOOK_COUNT {
            let b = book_at(i);
            let key = format!("book.{}", b.id);
            assert!(c.get(&key).is_some(), "{} has no name for {} ({key})", lang.code(), b.name);
        }
    }
}

#[test]
fn every_shipped_string_is_translated() {
    let cats = catalogs();
    for lang in Lang::all() {
        if lang == Lang::En {
            continue;
        }
        let gaps: Vec<String> = missing(&cats, lang).into_iter().filter(|k| !is_intro_prose(k)).collect();
        assert!(gaps.is_empty(), "{} is missing {} key(s): {:?}", lang.code(), gaps.len(), gaps);
    }
}

#[test]
fn english_carries_the_prose_the_gate_is_about() {
    let en = catalog(&catalogs(), Lang::En);
    for prefix in INTRO_PROSE {
        assert!(en.pairs().iter().any(|(k, _)| k.starts_with(prefix)), "English has no {prefix}* strings");
    }
}

#[test]
fn the_first_run_prose_is_all_or_nothing_in_every_language() {
    let cats = catalogs();
    let en = catalog(&cats, Lang::En);
    let all: Vec<String> = en.pairs().into_iter().map(|(k, _)| k).filter(|k| is_intro_prose(k)).collect();
    for lang in Lang::all() {
        let mine = catalog(&cats, lang);
        let have = all.iter().filter(|k| mine.get(k).is_some()).count();
        assert!(have == 0 || have == all.len(), "{} has {have} of {} first-run prose strings", lang.code(), all.len());
    }
}

#[test]
fn the_gate_and_the_words_can_never_disagree() {
    let cats = catalogs();
    for lang in Lang::all() {
        let own = catalog(&cats, lang);
        let fell_back = catalog(&cats, Lang::En)
            .pairs()
            .into_iter()
            .filter(|(k, _)| is_intro_prose(k))
            .filter(|(k, _)| own.get(k).is_none())
            .count();
        assert_eq!(has_native_intros(&cats, lang), fell_back == 0, "{} disagrees with its gate", lang.code());
    }
    assert!(has_native_intros(&cats, Lang::De));
    assert!(!has_native_intros(&cats, Lang::Fr));
}

#[test]
fn a_translation_never_invents_a_key_english_does_not_have() {
    let cats = catalogs();
    let en = catalog(&cats, Lang::En);
    for lang in Lang::all() {
        if lang == Lang::En {
            continue;
        }
        let orphans: Vec<String> = catalog(&cats, lang)
            .pairs()
            .into_iter()
            .map(|(k, _)| k)
            .filter(|k| en.get(k).is_none() && !k.starts_with("book."))
            .collect();
        assert!(orphans.is_empty(), "{} has keys English does not: {:?}", lang.code(), orphans);
    }
}

#[test]
fn a_translated_string_keeps_every_placeholder_it_was_given() {
    let cats = catalogs();
    let en = catalog(&cats, Lang::En);
    let names = |s: &str| -> Vec<String> {
        let mut out: Vec<String> =
            s.split('{').skip(1).filter_map(|part| part.split_once('}').map(|(n, _)| n.to_string())).collect();
        out.sort();
        out
    };
    for lang in Lang::all() {
        if lang == Lang::En {
            continue;
        }
        for (key, translated) in catalog(&cats, lang).pairs() {
            let Some(source) = en.get(&key) else { continue };
            assert_eq!(names(source), names(&translated), "{} {key}: placeholders differ", lang.code());
        }
    }
}

#[test]
fn book_names_localize_and_fall_back_to_the_canon_table() {
    let cats = catalogs();
    assert_eq!(book_name(&cats, Lang::En, "Ezek"), "Ezekiel");
    assert_eq!(book_name(&cats, Lang::De, "Ezek"), "Hesekiel");
    assert_eq!(book_name(&cats, Lang::De, "Gen"), "1. Mose");
    assert_eq!(book_name(&cats, Lang::De, "1Cor"), "1. Korinther");
    let _ = book_name(&cats, Lang::De, "Nope");
    assert_eq!(book_name(&Catalogs::new(), Lang::De, "Nope"), "Nope");
}

#[test]
fn plural_picks_a_form_and_lends_it_n() {
    let cats = catalogs();
    assert_eq!(plural(&cats, Lang::En, "present.passages.one", "present.passages.other", 1, &[]), "1 passage");
    assert_eq!(plural(&cats, Lang::En, "present.passages.one", "present.passages.other", 6, &[]), "6 passages");
    assert_eq!(plural(&cats, Lang::En, "present.passages.one", "present.passages.other", 0, &[]), "0 passages");
}

#[test]
fn a_string_missing_in_a_language_reads_english() {
    let mut cats = catalogs();
    cats.set(Lang::Es, Catalog::empty());
    assert_eq!(t(&cats, Lang::Es, "search.results", &[("n", "3"), ("q", "grace")]), "3 results for grace");
    assert_eq!(missing(&cats, Lang::Es).len(), 7);
    assert!(missing(&cats, Lang::En).is_empty());
}
