use plumbline_core::canon::{book_at, book_by_id, book_by_imp_name, book_ids, book_order, display_name, BOOK_COUNT};

#[test]
fn sixty_six_books_in_order() {
    assert_eq!(BOOK_COUNT, 66);
    assert_eq!(book_ids().len(), 66);
    assert_eq!(book_at(0).id, "Gen");
    assert_eq!(book_at(65).id, "Rev");
    assert_eq!(book_order("Gen"), Some(0));
    assert_eq!(book_order("Mal"), Some(38)); // last OT book
    assert_eq!(book_order("Matt"), Some(39)); // first NT book
    assert_eq!(book_order("Rev"), Some(65));
}

#[test]
fn lookups() {
    assert_eq!(book_by_id("1Cor").unwrap().name, "1 Corinthians");
    assert_eq!(book_by_imp_name("Revelation of John").unwrap().id, "Rev");
    assert_eq!(display_name("Ps"), "Psalms");
    assert_eq!(display_name("Nonexistent"), "Nonexistent");
    assert!(book_by_id("nope").is_none());
}

#[test]
fn adjacent_books_step_within_the_canon() {
    assert_eq!(plumbline_core::canon::adjacent_book("Gen", 1), Some("Exod"));
    assert_eq!(plumbline_core::canon::adjacent_book("Gen", -1), None);
    assert_eq!(plumbline_core::canon::adjacent_book("Rev", 1), None);
    assert_eq!(plumbline_core::canon::adjacent_book("nope", 1), None);
}
