use plumbline_core::font::Font;
use plumbline_core::i18n::{Lang, Script};

fn all_langs() -> Vec<Lang> {
    Lang::all()
}

#[test]
fn tokens_round_trip() {
    for f in Font::all() {
        assert_eq!(Font::parse(f.token()), Some(f), "{} does not round-trip", f.name());
    }
}

#[test]
fn an_unknown_token_is_none_rather_than_a_default() {
    assert_eq!(Font::parse("helvetica"), None);
    assert_eq!(Font::parse(""), None);
    assert_eq!(Font::parse("EB Garamond"), None, "the NAME is not the token");
}

#[test]
fn every_variant_is_in_all() {
    for f in [
        Font::EbGaramond,
        Font::Literata,
        Font::Inter,
        Font::FiraCode,
        Font::AtkinsonHyperlegible,
        Font::Amiri,
        Font::NotoSerifGurmukhi,
        Font::NotoSerifDevanagari,
        Font::NotoSerifTC,
    ] {
        assert!(Font::all().contains(&f), "{} is missing from Font::all()", f.name());
    }
    assert_eq!(Font::all().len(), 9);
}

#[test]
fn every_shipped_language_has_at_least_one_face() {
    for lang in all_langs() {
        let offered = Font::all_for(lang);
        assert!(!offered.is_empty(), "{} is offered no face at all", lang.code());
        for f in &offered {
            assert_eq!(f.script(), lang.script(), "{} is offered {}", lang.code(), f.name());
        }
    }
}

#[test]
fn a_face_is_offered_exactly_where_it_can_set_the_text() {
    for f in Font::all() {
        for lang in all_langs() {
            assert_eq!(f.offered_for(lang), f.script() == lang.script(), "{} for {}", f.name(), lang.code());
        }
    }
    assert!(Font::NotoSerifGurmukhi.offered_for(Lang::Pa));
    assert!(!Font::NotoSerifGurmukhi.offered_for(Lang::Hi));
    assert!(!Font::EbGaramond.offered_for(Lang::Pa));
    assert!(!Font::Amiri.offered_for(Lang::Hi));
}

#[test]
fn each_non_latin_script_has_exactly_one_face() {
    for script in [Script::Arabic, Script::Gurmukhi, Script::Devanagari, Script::Han] {
        let n = Font::all().iter().filter(|f| f.script() == script).count();
        assert_eq!(n, 1, "{script:?} has {n} faces");
    }
}

#[test]
fn tokens_and_names_are_distinct() {
    let all = Font::all();
    let mut tokens: Vec<&str> = all.iter().map(|f| f.token()).collect();
    let mut names: Vec<&str> = all.iter().map(|f| f.name()).collect();
    tokens.sort_unstable();
    tokens.dedup();
    names.sort_unstable();
    names.dedup();
    assert_eq!(tokens.len(), all.len(), "two faces share a token");
    assert_eq!(names.len(), all.len(), "two faces share a name");
}

#[test]
fn the_default_is_the_shipped_face() {
    assert_eq!(Font::default(), Font::EbGaramond);
}

#[test]
fn only_the_latin_reading_faces_carry_an_italic() {
    for f in [Font::FiraCode, Font::Amiri, Font::NotoSerifGurmukhi, Font::NotoSerifDevanagari, Font::NotoSerifTC] {
        assert!(!f.has_italic(), "{} ships no italic", f.name());
    }
    for f in [Font::EbGaramond, Font::Literata, Font::Inter, Font::AtkinsonHyperlegible] {
        assert!(f.has_italic(), "{} should have an italic", f.name());
    }
}

#[test]
fn only_atkinson_carries_a_static_bold() {
    assert!(Font::AtkinsonHyperlegible.static_bold());
    for f in [
        Font::EbGaramond,
        Font::Literata,
        Font::Inter,
        Font::FiraCode,
        Font::NotoSerifGurmukhi,
        Font::NotoSerifDevanagari,
    ] {
        assert!(!f.static_bold(), "{} is a variable family", f.name());
    }
}

#[test]
fn the_picker_lists_faces_in_order() {
    assert_eq!(
        Font::all_for(Lang::En),
        vec![Font::EbGaramond, Font::Literata, Font::Inter, Font::FiraCode, Font::AtkinsonHyperlegible]
    );
    assert_eq!(Font::all_for(Lang::Zhs), vec![Font::NotoSerifTC]);
    assert_eq!(Font::EbGaramond.name(), "EB Garamond");
}
