use plumbline_core::church::{clock, form_decode, form_encode};
use plumbline_core::church::{
    clean, from_query, has, safe_url, share_url, shared_at_ref, shared_devotional, shared_lang, shared_thread, title,
    title_in, with_at, ShareOpts, NAME_MAX, PWA_URL, TARGET_MAX, URL_MAX,
};
use plumbline_core::config::Church;
use plumbline_core::i18n::{Catalog, Catalogs, Lang};

fn church(name: &str, service: Option<u16>, url: &str) -> Church {
    Church { name: name.into(), service, url: url.into() }
}

/// The catalogue strings the church title is built from, as shipped.
fn catalogs() -> Catalogs {
    let mut cats = Catalogs::new();
    cats.set(
        Lang::En,
        Catalog::from_pairs(vec![
            ("shell.churchFallback".into(), "Your church".into()),
            ("church.meets".into(), "Meets Sundays at {time}".into()),
        ]),
    );
    cats.set(Lang::De, Catalog::from_pairs(vec![("church.meets".into(), "Trifft sich sonntags um {time}".into())]));
    cats
}

#[test]
fn clean_trims_and_caps() {
    let c = clean(&church(&"n".repeat(200), Some(600), &"u".repeat(400)));
    assert_eq!(c.name.chars().count(), NAME_MAX);
    assert_eq!(c.service, Some(600));
    assert_eq!(c.url.chars().count(), URL_MAX);
}

#[test]
fn clean_never_splits_a_character() {
    let c = clean(&church(&"😀".repeat(NAME_MAX + 10), None, ""));
    assert_eq!(c.name.chars().count(), NAME_MAX);
    assert!(c.name.chars().all(|ch| ch == '😀'), "a character was cut in half");
}

#[test]
fn share_url_is_plain_when_no_church_is_set() {
    assert_eq!(share_url(PWA_URL, &Church::default(), &ShareOpts::default()), PWA_URL);
    assert!(!has(&church("   ", Some(600), "y")), "a name of spaces is not a name");
    assert_eq!(share_url(PWA_URL, &church("   ", Some(600), "y"), &ShareOpts::default()), PWA_URL);
}

#[test]
fn a_literal_plus_survives_the_round_trip() {
    let c = church("Faith + Hope Chapel", None, "");
    let url = share_url(PWA_URL, &c, &ShareOpts::default());
    assert!(url.contains("church=Faith+%2B+Hope+Chapel"), "{url}");
    let q = url.split_once('?').unwrap().1;
    assert_eq!(from_query(q).unwrap().name, "Faith + Hope Chapel");
}

#[test]
fn everything_the_link_carries_comes_back_out() {
    let c = church("Iglesia Bíblica", Some(600), "https://ejemplo.org/a?b=c");
    let url = share_url(PWA_URL, &c, &ShareOpts { at: Some("Ps 23:1"), ..Default::default() });
    let q = url.split_once('?').unwrap().1;
    assert_eq!(from_query(q), Some(c));
    assert_eq!(shared_at_ref(q).as_deref(), Some("Ps 23:1"));

    let long = from_query(&format!("?church=%20%20{}", "n".repeat(200))).expect("a name is a church");
    assert_eq!(long.name, "n".repeat(NAME_MAX));
}

#[test]
fn the_palette_parameters_round_trip() {
    let c = church("Grace", None, "");
    let url = share_url(
        PWA_URL,
        &c,
        &ShareOpts { lang: Some("pa"), thread: Some("Romans Road"), devotional: Some("new-believer-30"), ..Default::default() },
    );
    let q = url.split_once('?').unwrap().1;
    assert_eq!(shared_lang(q), Some("pa"));
    assert_eq!(shared_thread(q).as_deref(), Some("Romans Road"));
    assert_eq!(shared_devotional(q).as_deref(), Some("new-believer-30"));
    assert!(url.contains("thread=Romans+Road"), "{url}");
}

#[test]
fn a_strangers_palette_parameters_are_refused() {
    assert_eq!(shared_lang("?lang=xx"), None);
    assert_eq!(shared_lang("?lang="), None);
    assert_eq!(shared_lang("?church=Grace"), None);
    assert_eq!(shared_lang("?lang=PA"), Some("pa"));
    assert_eq!(shared_lang("?lang=pa-IN"), Some("pa"));
    assert_eq!(shared_lang("?lang=de-AT"), Some("de"));

    assert_eq!(shared_thread("?thread=%20%20"), None);
    assert_eq!(shared_thread(&format!("?thread={}", "t".repeat(TARGET_MAX + 1))), None);
    assert_eq!(shared_thread(&format!("?thread={}", "t".repeat(TARGET_MAX))).map(|t| t.len()), Some(TARGET_MAX));
    assert_eq!(shared_devotional("?devotional="), None);
}

#[test]
fn share_url_replaces_rather_than_duplicates() {
    let once = share_url(PWA_URL, &church("A", None, ""), &ShareOpts::default());
    let twice = share_url(&once, &church("B", None, ""), &ShareOpts::default());
    assert_eq!(twice, "https://plumblinebible.org/?church=B");
    assert_eq!(share_url("https://x/?keep=1", &church("A", None, ""), &ShareOpts::default()), "https://x/?keep=1&church=A",);
}

#[test]
fn with_at_leaves_the_rest_of_the_link_alone() {
    let link = share_url(PWA_URL, &church("Grace", None, ""), &ShareOpts { at: None, ..Default::default() });
    assert_eq!(with_at(&link, "1John 4:8"), format!("{link}&at=1John+4%3A8"));
    assert_eq!(with_at(&link, "  "), link, "no verse, no change");
    assert_eq!(with_at(&with_at(&link, "Ps 1:1"), "Ps 2:2"), format!("{link}&at=Ps+2%3A2"));
}

#[test]
fn a_fragment_stays_at_the_end() {
    let out = share_url("https://x/#/John/3", &church("Grace", None, ""), &ShareOpts::default());
    assert_eq!(out, "https://x/?church=Grace#/John/3");
}

#[test]
fn only_http_urls_are_offered_as_links() {
    assert_eq!(safe_url("https://gracebible.org"), Some("https://gracebible.org".to_string()));
    assert_eq!(safe_url("  http://gracebible.org/x?y#z  "), Some("http://gracebible.org/x?y#z".to_string()));
    assert_eq!(safe_url("HTTPS://GRACE.ORG"), Some("HTTPS://GRACE.ORG".to_string()));
    for (typed, want) in [
        ("gracebible.org", "https://gracebible.org"),
        ("www.gracebible.org", "https://www.gracebible.org"),
        ("  gracebible.org/welcome  ", "https://gracebible.org/welcome"),
        ("grace.org:8080/x", "https://grace.org:8080/x"),
    ] {
        assert_eq!(safe_url(typed), Some(want.to_string()), "{typed:?}");
    }
    for bad in [
        "javascript:alert(1)",
        "JavaScript:alert(1)",
        "javascript://grace.org/%0aalert(1)",
        "JAVASCRIPT://grace.org/\u{000a}alert(1)",
        "data:text/html,<script>",
        "ftp://files.grace.org",
        "mailto:pastor@grace.org",
        "https://",
        "https://@",
        "",
        "   ",
        "https://grace.org\njavascript:alert(1)",
        "Grace Bible Church",
        "gracebible",
        "javascript:void(0)",
    ] {
        assert_eq!(safe_url(bad), None, "{bad:?} must not be offered as a link");
    }
}

#[test]
fn a_strangers_at_parameter_has_to_look_like_a_ref() {
    for good in ["Ps 23:1", "1John 4:8", "Gen 1:1", "Song 1:1"] {
        assert_eq!(shared_at_ref(&format!("?at={good}")).as_deref(), Some(good));
    }
    for bad in ["", "Ps23:1", "Ps 23", "Ps 1234:1", "1 Jn 4:8", "../../etc", "Ps 23:1x"] {
        let q = format!("?at={}", bad.replace(' ', "%20"));
        assert_eq!(shared_at_ref(&q), None, "{bad:?} must not be accepted");
    }
}

#[test]
fn title_falls_back_to_something_a_reader_can_read() {
    let cats = catalogs();
    assert_eq!(title(&cats, &Church::default()), "Your church");
    assert_eq!(title(&cats, &church("Grace", None, "")), "Grace");
    assert_eq!(title(&cats, &church("Grace", Some(600), "")), "Grace: Meets Sundays at 10:00 AM");
    assert_eq!(title_in(&cats, Lang::De, &church("Grace", Some(600), "")), "Grace: Trifft sich sonntags um 10:00");
}

#[test]
fn a_meeting_time_reads_on_the_readers_clock() {
    assert_eq!(clock(Lang::En, 0), "12:00 AM");
    assert_eq!(clock(Lang::En, 13 * 60 + 5), "1:05 PM");
    assert_eq!(clock(Lang::De, 13 * 60 + 5), "13:05");
    // A church with a time but no name still shows the time.
    assert_eq!(title(&catalogs(), &church("", Some(630), "")), "Meets Sundays at 10:30 AM");
}

#[test]
fn form_encoding_round_trips_every_text() {
    for s in ["", "a b", "Faith + Hope", "100% & more=yes", "Iglesia Bíblica", "😀#?"] {
        let mut enc = String::new();
        form_encode(s, &mut enc);
        assert!(!enc.contains('&') && !enc.contains('=') && !enc.contains('#'), "{enc}");
        assert_eq!(form_decode(&enc), s);
    }
    // An escape that is not one stays as typed.
    assert_eq!(form_decode("100%zz"), "100%zz");
}
