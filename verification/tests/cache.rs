use std::io::Write;
use plumbline_core::corpus::{
    cache_is_fresh, chapter_span, frame_dir_cache, is_gzip, payload_offsets, read_dir_frame, CacheFrame, Corpus,
    Verse,
};

fn v(book: &str, chapter: u16, verse: u16) -> Verse {
    Verse { book: book.into(), chapter, verse, tokens: Vec::new() }
}

#[test]
fn a_framed_cache_reads_back_its_directory() {
    let bytes = frame_dir_cache(&[1, 2, 3], &[9, 9]);
    assert_eq!(&bytes[..8], b"PLBC0001");
    assert_eq!(&bytes[8..12], &3u32.to_le_bytes());
    assert_eq!(read_dir_frame(&bytes), CacheFrame::Directory { dir_start: 12, dir_end: 15 });
    assert_eq!(&bytes[12..15], &[1, 2, 3]);
    assert_eq!(&bytes[15..], &[9, 9]);
}

#[test]
fn a_cache_cut_inside_its_directory_is_truncated() {
    let bytes = frame_dir_cache(&[1, 2, 3, 4], &[]);
    assert_eq!(read_dir_frame(&bytes[..14]), CacheFrame::Truncated);
    assert_eq!(read_dir_frame(&bytes[..10]), CacheFrame::Truncated);
    // Anything else is the whole-corpus layout of earlier versions.
    assert_eq!(read_dir_frame(b"PLBC0002...."), CacheFrame::Whole);
    assert_eq!(read_dir_frame(&[0x1f, 0x8b, 0]), CacheFrame::Whole);
    assert!(is_gzip(&[0x1f, 0x8b, 0]));
    assert!(!is_gzip(&[0x1f]));
}

#[test]
fn a_cache_is_fresh_only_for_its_own_source() {
    assert!(cache_is_fresh(10, 20, "kjv1769-tok2", Some((10, 20))));
    assert!(!cache_is_fresh(10, 21, "kjv1769-tok2", Some((10, 20))));
    assert!(!cache_is_fresh(11, 20, "kjv1769-tok2", Some((10, 20))));
    // With no source file, the tokenization alone decides.
    assert!(cache_is_fresh(0, 0, "kjv1769-tok2", None));
    assert!(!cache_is_fresh(10, 20, "someone-elses-tok", Some((10, 20))));
}

#[test]
fn a_chapter_past_the_end_is_refused() {
    assert_eq!(chapter_span(12, 5, 3, 20), Some((17, 3)));
    assert_eq!(chapter_span(12, 5, 4, 20), None);
    assert_eq!(chapter_span(30, 0, 0, 20), None);
    assert_eq!(chapter_span(usize::MAX - 1, u32::MAX, u32::MAX, usize::MAX), None);
}

#[test]
fn chapters_lay_out_end_to_end() {
    assert_eq!(payload_offsets(&[5, 0, 7]), vec![(0, 5), (5, 0), (5, 7)]);
    assert!(payload_offsets(&[]).is_empty());
}

#[test]
fn the_cache_lays_chapters_out_in_canon_order() {
    let c = Corpus::from_verses(
        "kjv1769-tok2".into(),
        vec![v("John", 1, 1), v("Zzz", 1, 1), v("Gen", 2, 1), v("Aaa", 3, 1), v("Gen", 1, 1)],
    );
    assert_eq!(c.slot_count(), 5);
    // Gen 2 and Gen 1 were stored in that order; canon order puts chapter 1 first,
    // then John, then the books the canon does not know, by id.
    assert_eq!(c.cache_order(), vec![4, 2, 0, 3, 1]);
    let (book, chapter, verses) = c.slot(3);
    assert_eq!((book, chapter, verses.len()), ("Aaa", 3, 1));
}

#[test]
fn a_gzipped_whole_cache_inflates_and_a_raw_one_passes_through() {
    let mut enc = flate2::write::GzEncoder::new(Vec::new(), flate2::Compression::default());
    enc.write_all(b"the whole corpus").unwrap();
    let gz = enc.finish().unwrap();
    assert_eq!(plumbline_core::corpus::cache_v1_payload(&gz), Some(b"the whole corpus".to_vec()));
    assert_eq!(plumbline_core::corpus::cache_v1_payload(b"raw bytes"), Some(b"raw bytes".to_vec()));
    // The gzip magic followed by junk will not inflate.
    assert_eq!(plumbline_core::corpus::cache_v1_payload(&[0x1f, 0x8b, 1, 2, 3]), None);
}
