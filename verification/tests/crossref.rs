use plumbline_core::crossref::{parse_cross_refs, parse_xref_line, xref_count, XRefIxBuilder};
use plumbline_core::reference::VRef;

#[test]
fn parses_rows_skipping_comments_and_junk() {
    assert_eq!(parse_xref_line("# a comment"), None);
    assert_eq!(parse_xref_line("garbage"), None);
    let (from, r) = parse_xref_line("John 3:16\tRom 5:8\t\t42").unwrap();
    assert_eq!(from, VRef::new("John", 3, 16));
    assert_eq!(r.to, VRef::new("Rom", 5, 8));
    assert_eq!(r.end, None);
    assert_eq!(r.votes, 42);
    // A ranged target.
    let (_, r2) = parse_xref_line("Gen 1:1\tJohn 1:1\tJohn 1:3\t7").unwrap();
    assert_eq!(r2.end, Some(VRef::new("John", 1, 3)));
}

#[test]
fn indexes_and_sorts_by_votes() {
    let tsv = "# header\n\
               John 3:16\tRom 5:8\t\t5\n\
               John 3:16\tEph 2:4\t\t20\n\
               John 3:16\t1John 4:9\t\t12\n\
               bad line without tabs\n";
    let ix = parse_cross_refs(tsv);
    assert_eq!(xref_count(&ix), 3);
    let refs = ix.get(&VRef::new("John", 3, 16));
    // best-voted first
    assert_eq!(refs[0].to, VRef::new("Eph", 2, 4));
    assert_eq!(refs[1].to, VRef::new("1John", 4, 9));
    assert_eq!(refs[2].to, VRef::new("Rom", 5, 8));
}

#[test]
fn the_sliced_parse_agrees_with_the_one_shot_parse() {
    let text = "# TSK\r\nJohn 3:16\tRom 5:8\t\t5\r\n\njunk\nJohn 3:16\tGen 1:1\t\t42\nGen 1:1\tJohn 1:1\tJohn 1:3\t7\nJohn 3:16\t1John 4:9\t\t19";
    let want = parse_cross_refs(text);
    assert_eq!(want.len(), 2, "fixture should hold two source verses");
    assert_eq!(want.get(&VRef::new("John", 3, 16)).len(), 3);

    for n in [1usize, 2, 3, 7, 1000] {
        let mut b = XRefIxBuilder::from_text(text);
        let mut rounds = 0;
        while b.feed(n) {
            rounds += 1;
            assert!(rounds < 1000, "feed({n}) never finished — the cursor is not advancing");
        }
        let got = b.finish();
        assert_eq!(got, want, "slice size {n} produced a different index");
    }
}

#[test]
fn an_absent_file_finishes_empty() {
    let mut b = XRefIxBuilder::empty();
    assert!(!b.feed(64), "there is nothing to feed");
    assert!(b.finish().is_empty());
}

#[test]
fn equal_votes_keep_their_file_order_and_bad_votes_drop_the_row() {
    let tsv = "Gen 1:1\tJohn 1:1\t\t3\nGen 1:1\tRom 1:1\t\t3\nGen 1:1\tEph 1:1\t\tx\nGen 1:1\tPs 1:1\t\t-2\n";
    let ix = parse_cross_refs(tsv);
    let refs = ix.get(&VRef::new("Gen", 1, 1));
    assert_eq!(refs.len(), 3);
    assert_eq!(refs[0].to, VRef::new("John", 1, 1));
    assert_eq!(refs[1].to, VRef::new("Rom", 1, 1));
    assert_eq!(refs[2].votes, -2);
    assert!(ix.get(&VRef::new("Rev", 1, 1)).is_empty());
}

#[test]
fn a_feed_reads_exactly_n_lines_and_reports_whether_more_were_left() {
    let text = "# header\nGen 1:1\tJohn 1:1\t5\nGen 1:2\tJohn 1:2\t3\nbad line\nGen 1:3\tJohn 1:3\t1";
    let mut b = XRefIxBuilder::from_text(text);
    assert!(b.feed(2)); // 5 lines, 2 read
    assert!(b.feed(2)); // 4 read
    assert!(!b.feed(1)); // the last one
    assert!(!b.feed(3));
    let mut exact = XRefIxBuilder::from_text("Gen 1:1\tJohn 1:1\t5\nGen 1:2\tJohn 1:2\t3");
    assert!(!exact.feed(2), "two lines left, two read: nothing remains");
    assert!(!XRefIxBuilder::empty().feed(4));
}
