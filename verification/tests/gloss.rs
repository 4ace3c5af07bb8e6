use plumbline_core::gloss::distil_gloss;

#[test]
fn distil_gloss_takes_the_clean_leading_clause() {
    assert_eq!(distil_gloss("(be-)love(-ed)."), Some("love".to_string()));
    assert_eq!(distil_gloss("to love (in a social or moral sense)"), Some("to love".to_string()));
    assert_eq!(distil_gloss("love, i.e. affection or benevolence"), Some("love".to_string()));
    assert_eq!(distil_gloss("()"), None);
}

#[test]
fn distil_gloss_skips_clauses_without_a_letter() {
    assert_eq!(distil_gloss("123; (x) ,  grace."), Some("grace".to_string()));
    assert_eq!(distil_gloss("42, 7"), None);
    assert_eq!(distil_gloss(""), None);
}

#[test]
fn distil_gloss_caps_the_clause_at_thirty_characters() {
    let long = "abcdefghijklmnopqrstuvwxyzabcdefghij";
    assert_eq!(distil_gloss(long), Some("abcdefghijklmnopqrstuvwxyzabcd".to_string()));
}

#[test]
fn distil_gloss_keeps_inner_hyphens_and_nests_brackets() {
    assert_eq!(distil_gloss("self-Existent ((a) b) c"), Some("self-Existent  c".to_string()));
    assert_eq!(distil_gloss(") stray closer"), Some("stray closer".to_string()));
}
