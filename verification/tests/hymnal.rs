use plumbline_core::hymnal::{
    is_chord, key_uses_flats, parse_line, stanza_lines, transpose_chord, transpose_key, Hymn, HymnText, Hymnal, Segment,
};

fn text(title: &str, author: &str, translator: Option<&str>, year: Option<u32>, stanza: &str) -> HymnText {
    HymnText {
        title: title.into(),
        author: author.into(),
        translator: translator.map(str::to_string),
        year,
        stanzas: vec![stanza.into()],
        chorus: None,
    }
}

/// The two hymns of the sample document, in the order the file lists them.
fn sample() -> Vec<Hymn> {
    vec![
        Hymn {
            id: "amazing-grace".into(),
            number: 14,
            tune: "NEW BRITAIN".into(),
            meter: "8.6.8.6".into(),
            key: "G".into(),
            texts: vec![(
                "en".into(),
                text(
                    "Amazing Grace",
                    "John Newton",
                    None,
                    Some(1779),
                    "A[G]mazing grace! how [C]sweet the [G]sound,\nThat saved a wretch like [D]me!",
                ),
            )],
        },
        Hymn {
            id: "ein-feste-burg".into(),
            number: 3,
            tune: "EIN FESTE BURG".into(),
            meter: "8.7.8.7.6.6.6.6.7".into(),
            key: "C".into(),
            texts: vec![
                ("de".into(), text("Ein feste Burg ist unser Gott", "Martin Luther", None, None, "[C]Ein feste [G]Burg ist [C]unser Gott")),
                (
                    "en".into(),
                    text(
                        "A Mighty Fortress Is Our God",
                        "Martin Luther",
                        Some("Frederick H. Hedge"),
                        None,
                        "[C]A mighty [G]fortress [C]is our God",
                    ),
                ),
            ],
        },
    ]
}

#[test]
fn loads_and_sorts_by_number() {
    let h = Hymnal::from_hymns(sample());
    assert_eq!(h.hymns.len(), 2);
    assert_eq!(h.hymns[0].id, "ein-feste-burg"); // number 3 before 14
    assert_eq!(h.get("amazing-grace").unwrap().number, 14);
    let burg = h.get("ein-feste-burg").unwrap();
    assert_eq!(burg.texts.len(), 2);
    let en = &burg.texts.iter().find(|(l, _)| l == "en").unwrap().1;
    assert_eq!(en.translator.as_deref(), Some("Frederick H. Hedge"));
    assert!(h.get("nope").is_none());
}

#[test]
fn hymns_sharing_a_number_keep_their_order() {
    let mut hs = sample();
    hs[1].number = 14;
    let h = Hymnal::from_hymns(hs);
    assert_eq!(h.hymns[0].id, "amazing-grace");
    assert_eq!(h.hymns[1].id, "ein-feste-burg");
    assert!(Hymnal::empty().hymns.is_empty());
}

#[test]
fn parse_line_splits_at_chords() {
    let segs = parse_line("A[G]mazing grace! how [C7]sweet the [G]sound,");
    assert_eq!(
        segs,
        vec![
            Segment { chord: None, text: "A".into() },
            Segment { chord: Some("G".into()), text: "mazing grace! how ".into() },
            Segment { chord: Some("C7".into()), text: "sweet the ".into() },
            Segment { chord: Some("G".into()), text: "sound,".into() },
        ]
    );
}

#[test]
fn plain_line_is_one_chordless_segment() {
    assert_eq!(parse_line("Was blind, but now I see."), vec![Segment { chord: None, text: "Was blind, but now I see.".into() }]);
    assert_eq!(parse_line(""), vec![Segment { chord: None, text: "".into() }]);
}

#[test]
fn non_chord_brackets_stay_literal() {
    let segs = parse_line("Sing praise [Selah] and [G]rejoice [always");
    assert_eq!(segs[0].text, "Sing praise [Selah] and ");
    assert_eq!(segs[1].chord.as_deref(), Some("G"));
    assert_eq!(segs[1].text, "rejoice [always");
}

#[test]
fn back_to_back_chords_keep_both() {
    let segs = parse_line("[G][C]Go");
    assert_eq!(segs.len(), 2);
    assert_eq!(segs[0], Segment { chord: Some("G".into()), text: "".into() });
    assert_eq!(segs[1], Segment { chord: Some("C".into()), text: "Go".into() });
}

#[test]
fn chord_grammar() {
    for ok in ["G", "F#", "Bb", "Em", "C7", "Gmaj7", "Dsus4", "Am7", "D/F#", "G7/B", "Cm7b5", "Baug7", "Fadd9", "C7sus4", "Emadd9"] {
        assert!(is_chord(ok), "{ok} should parse");
    }
    for bad in ["", "H", "Gx", "G#b", "Selah", "G/", "G/H", "Gmaj7x", "Gm7b5x", "7"] {
        assert!(!is_chord(bad), "{bad} should not parse");
    }
}

#[test]
fn transposition_moves_root_and_bass_only() {
    assert_eq!(transpose_chord("G", 2, false), "A");
    assert_eq!(transpose_chord("Em7", 3, false), "Gm7");
    assert_eq!(transpose_chord("D/F#", -2, false), "C/E");
    assert_eq!(transpose_chord("G", 1, true), "Ab");
    assert_eq!(transpose_chord("G", 1, false), "G#");
    assert_eq!(transpose_chord("Bb7", 2, false), "C7");
}

#[test]
fn transposition_round_trips_every_offset() {
    for semis in -11..=11 {
        let up = transpose_chord("Gmaj7", semis, key_uses_flats(&transpose_key("G", semis)));
        let back = transpose_chord(&up, -semis, false);
        assert_eq!(back, "Gmaj7", "offset {semis} went {up} then {back}");
    }
}

#[test]
fn keys_spell_by_their_own_signature() {
    assert_eq!(transpose_key("G", 3), "Bb");
    assert_eq!(transpose_key("G", -3), "E");
    assert_eq!(transpose_key("C", 6), "Gb");
    assert_eq!(transpose_key("Em", 1), "Fm");
    assert!(key_uses_flats("F"));
    assert!(key_uses_flats("Dm"));
    assert!(!key_uses_flats("Em"));
    assert!(!key_uses_flats("A"));
}

#[test]
fn stanza_lines_transpose_in_place() {
    let lines = stanza_lines("A[G]mazing [C]grace\nThat [D7]saved", 2, false);
    assert_eq!(lines.len(), 2);
    assert_eq!(lines[0][1].chord.as_deref(), Some("A"));
    assert_eq!(lines[0][2].chord.as_deref(), Some("D"));
    assert_eq!(lines[1][1].chord.as_deref(), Some("E7"));
    let same = stanza_lines("[F#]x", 0, true);
    assert_eq!(same[0][0].chord.as_deref(), Some("F#"));
}

#[test]
fn a_key_that_is_not_a_tonic_transposes_to_itself() {
    assert_eq!(transpose_key("Gsus", 2), "Gsus");
    assert_eq!(transpose_key("", 2), "");
    assert_eq!(transpose_chord("Selah", 2, false), "Selah");
    assert_eq!(transpose_key("A", 12), "A");
}

#[test]
fn the_hymnal_format_tag_is_checked() {
    assert!(plumbline_core::hymnal::is_hymnal_format("hymnal-v1"));
    assert!(!plumbline_core::hymnal::is_hymnal_format("hymnal-v0"));
}

#[test]
fn later_segments_always_begin_at_a_chord() {
    let segs = parse_line("Lo [Selah] [G][C]He [x comes");
    assert!(!segs.is_empty());
    for s in segs.iter().skip(1) {
        assert!(s.chord.is_some());
    }
    assert_eq!(segs[0].chord, None);
    assert_eq!(segs[0].text, "Lo [Selah] ");
    assert_eq!(segs[1].chord.as_deref(), Some("G"));
    assert_eq!(segs[1].text, "");
    assert_eq!(segs[2].chord.as_deref(), Some("C"));
    assert_eq!(segs[2].text, "He [x comes");
}
