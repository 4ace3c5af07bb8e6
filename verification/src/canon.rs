//! The fixed canon: the 66 books' identities and order, plus the
//! tokenization version stamp the frozen data is addressed in.

use vstd::prelude::*;

use crate::text::str_eq;

verus! {

/// The tokenizer's version stamp. Data stamped with another version is refused
/// on load: weave links and thread entries address tokens by index.
pub const TOKENIZATION_VERSION: &'static str = "kjv1769-tok2";

/// A canonical book: its OSIS id (the key in every data file and ref), the
/// name SWORD's `mod2imp` prints, and the display name.
#[derive(Debug, Clone, Copy, PartialEq, Eq)]
pub struct Book {
    /// OSIS id, e.g. `"Gen"`.
    pub id: &'static str,
    /// Name as printed by `mod2imp` (used by the offline importer).
    pub imp_name: &'static str,
    /// Display name, e.g. `"1 Corinthians"`.
    pub name: &'static str,
}

/// The number of books in the canon.
pub const BOOK_COUNT: usize = 66;

/// The book at canon position `i` (Genesis is 0, Revelation 65). Frozen.
pub open spec fn book_row(i: usize) -> Book {
    match i {
        0 => Book { id: "Gen", imp_name: "Genesis", name: "Genesis" },
        1 => Book { id: "Exod", imp_name: "Exodus", name: "Exodus" },
        2 => Book { id: "Lev", imp_name: "Leviticus", name: "Leviticus" },
        3 => Book { id: "Num", imp_name: "Numbers", name: "Numbers" },
        4 => Book { id: "Deut", imp_name: "Deuteronomy", name: "Deuteronomy" },
        5 => Book { id: "Josh", imp_name: "Joshua", name: "Joshua" },
        6 => Book { id: "Judg", imp_name: "Judges", name: "Judges" },
        7 => Book { id: "Ruth", imp_name: "Ruth", name: "Ruth" },
        8 => Book { id: "1Sam", imp_name: "I Samuel", name: "1 Samuel" },
        9 => Book { id: "2Sam", imp_name: "II Samuel", name: "2 Samuel" },
        10 => Book { id: "1Kgs", imp_name: "I Kings", name: "1 Kings" },
        11 => Book { id: "2Kgs", imp_name: "II Kings", name: "2 Kings" },
        12 => Book { id: "1Chr", imp_name: "I Chronicles", name: "1 Chronicles" },
        13 => Book { id: "2Chr", imp_name: "II Chronicles", name: "2 Chronicles" },
        14 => Book { id: "Ezra", imp_name: "Ezra", name: "Ezra" },
        15 => Book { id: "Neh", imp_name: "Nehemiah", name: "Nehemiah" },
        16 => Book { id: "Esth", imp_name: "Esther", name: "Esther" },
        17 => Book { id: "Job", imp_name: "Job", name: "Job" },
        18 => Book { id: "Ps", imp_name: "Psalms", name: "Psalms" },
        19 => Book { id: "Prov", imp_name: "Proverbs", name: "Proverbs" },
        20 => Book { id: "Eccl", imp_name: "Ecclesiastes", name: "Ecclesiastes" },
        21 => Book { id: "Song", imp_name: "Song of Solomon", name: "Song of Solomon" },
        22 => Book { id: "Isa", imp_name: "Isaiah", name: "Isaiah" },
        23 => Book { id: "Jer", imp_name: "Jeremiah", name: "Jeremiah" },
        24 => Book { id: "Lam", imp_name: "Lamentations", name: "Lamentations" },
        25 => Book { id: "Ezek", imp_name: "Ezekiel", name: "Ezekiel" },
        26 => Book { id: "Dan", imp_name: "Daniel", name: "Daniel" },
        27 => Book { id: "Hos", imp_name: "Hosea", name: "Hosea" },
        28 => Book { id: "Joel", imp_name: "Joel", name: "Joel" },
        29 => Book { id: "Amos", imp_name: "Amos", name: "Amos" },
        30 => Book { id: "Obad", imp_name: "Obadiah", name: "Obadiah" },
        31 => Book { id: "Jonah", imp_name: "Jonah", name: "Jonah" },
        32 => Book { id: "Mic", imp_name: "Micah", name: "Micah" },
        33 => Book { id: "Nah", imp_name: "Nahum", name: "Nahum" },
        34 => Book { id: "Hab", imp_name: "Habakkuk", name: "Habakkuk" },
        35 => Book { id: "Zeph", imp_name: "Zephaniah", name: "Zephaniah" },
        36 => Book { id: "Hag", imp_name: "Haggai", name: "Haggai" },
        37 => Book { id: "Zech", imp_name: "Zechariah", name: "Zechariah" },
        38 => Book { id: "Mal", imp_name: "Malachi", name: "Malachi" },
        39 => Book { id: "Matt", imp_name: "Matthew", name: "Matthew" },
        40 => Book { id: "Mark", imp_name: "Mark", name: "Mark" },
        41 => Book { id: "Luke", imp_name: "Luke", name: "Luke" },
        42 => Book { id: "John", imp_name: "John", name: "John" },
        43 => Book { id: "Acts", imp_name: "Acts", name: "Acts" },
        44 => Book { id: "Rom", imp_name: "Romans", name: "Romans" },
        45 => Book { id: "1Cor", imp_name: "I Corinthians", name: "1 Corinthians" },
        46 => Book { id: "2Cor", imp_name: "II Corinthians", name: "2 Corinthians" },
        47 => Book { id: "Gal", imp_name: "Galatians", name: "Galatians" },
        48 => Book { id: "Eph", imp_name: "Ephesians", name: "Ephesians" },
        49 => Book { id: "Phil", imp_name: "Philippians", name: "Philippians" },
        50 => Book { id: "Col", imp_name: "Colossians", name: "Colossians" },
        51 => Book { id: "1Thess", imp_name: "I Thessalonians", name: "1 Thessalonians" },
        52 => Book { id: "2Thess", imp_name: "II Thessalonians", name: "2 Thessalonians" },
        53 => Book { id: "1Tim", imp_name: "I Timothy", name: "1 Timothy" },
        54 => Book { id: "2Tim", imp_name: "II Timothy", name: "2 Timothy" },
        55 => Book { id: "Titus", imp_name: "Titus", name: "Titus" },
        56 => Book { id: "Phlm", imp_name: "Philemon", name: "Philemon" },
        57 => Book { id: "Heb", imp_name: "Hebrews", name: "Hebrews" },
        58 => Book { id: "Jas", imp_name: "James", name: "James" },
        59 => Book { id: "1Pet", imp_name: "I Peter", name: "1 Peter" },
        60 => Book { id: "2Pet", imp_name: "II Peter", name: "2 Peter" },
        61 => Book { id: "1John", imp_name: "I John", name: "1 John" },
        62 => Book { id: "2John", imp_name: "II John", name: "2 John" },
        63 => Book { id: "3John", imp_name: "III John", name: "3 John" },
        64 => Book { id: "Jude", imp_name: "Jude", name: "Jude" },
        _ => Book { id: "Rev", imp_name: "Revelation of John", name: "Revelation" },
    }
}

/// The book at canon position `i`.
pub fn book_at(i: usize) -> (b: Book)
    requires
        i < BOOK_COUNT,
    ensures
        b == book_row(i),
{
    match i {
        0 => Book { id: "Gen", imp_name: "Genesis", name: "Genesis" },
        1 => Book { id: "Exod", imp_name: "Exodus", name: "Exodus" },
        2 => Book { id: "Lev", imp_name: "Leviticus", name: "Leviticus" },
        3 => Book { id: "Num", imp_name: "Numbers", name: "Numbers" },
        4 => Book { id: "Deut", imp_name: "Deuteronomy", name: "Deuteronomy" },
        5 => Book { id: "Josh", imp_name: "Joshua", name: "Joshua" },
        6 => Book { id: "Judg", imp_name: "Judges", name: "Judges" },
        7 => Book { id: "Ruth", imp_name: "Ruth", name: "Ruth" },
        8 => Book { id: "1Sam", imp_name: "I Samuel", name: "1 Samuel" },
        9 => Book { id: "2Sam", imp_name: "II Samuel", name: "2 Samuel" },
        10 => Book { id: "1Kgs", imp_name: "I Kings", name: "1 Kings" },
        11 => Book { id: "2Kgs", imp_name: "II Kings", name: "2 Kings" },
        12 => Book { id: "1Chr", imp_name: "I Chronicles", name: "1 Chronicles" },
        13 => Book { id: "2Chr", imp_name: "II Chronicles", name: "2 Chronicles" },
        14 => Book { id: "Ezra", imp_name: "Ezra", name: "Ezra" },
        15 => Book { id: "Neh", imp_name: "Nehemiah", name: "Nehemiah" },
        16 => Book { id: "Esth", imp_name: "Esther", name: "Esther" },
        17 => Book { id: "Job", imp_name: "Job", name: "Job" },
        18 => Book { id: "Ps", imp_name: "Psalms", name: "Psalms" },
        19 => Book { id: "Prov", imp_name: "Proverbs", name: "Proverbs" },
        20 => Book { id: "Eccl", imp_name: "Ecclesiastes", name: "Ecclesiastes" },
        21 => Book { id: "Song", imp_name: "Song of Solomon", name: "Song of Solomon" },
        22 => Book { id: "Isa", imp_name: "Isaiah", name: "Isaiah" },
        23 => Book { id: "Jer", imp_name: "Jeremiah", name: "Jeremiah" },
        24 => Book { id: "Lam", imp_name: "Lamentations", name: "Lamentations" },
        25 => Book { id: "Ezek", imp_name: "Ezekiel", name: "Ezekiel" },
        26 => Book { id: "Dan", imp_name: "Daniel", name: "Daniel" },
        27 => Book { id: "Hos", imp_name: "Hosea", name: "Hosea" },
        28 => Book { id: "Joel", imp_name: "Joel", name: "Joel" },
        29 => Book { id: "Amos", imp_name: "Amos", name: "Amos" },
        30 => Book { id: "Obad", imp_name: "Obadiah", name: "Obadiah" },
        31 => Book { id: "Jonah", imp_name: "Jonah", name: "Jonah" },
        32 => Book { id: "Mic", imp_name: "Micah", name: "Micah" },
        33 => Book { id: "Nah", imp_name: "Nahum", name: "Nahum" },
        34 => Book { id: "Hab", imp_name: "Habakkuk", name: "Habakkuk" },
        35 => Book { id: "Zeph", imp_name: "Zephaniah", name: "Zephaniah" },
        36 => Book { id: "Hag", imp_name: "Haggai", name: "Haggai" },
        37 => Book { id: "Zech", imp_name: "Zechariah", name: "Zechariah" },
        38 => Book { id: "Mal", imp_name: "Malachi", name: "Malachi" },
        39 => Book { id: "Matt", imp_name: "Matthew", name: "Matthew" },
        40 => Book { id: "Mark", imp_name: "Mark", name: "Mark" },
        41 => Book { id: "Luke", imp_name: "Luke", name: "Luke" },
        42 => Book { id: "John", imp_name: "John", name: "John" },
        43 => Book { id: "Acts", imp_name: "Acts", name: "Acts" },
        44 => Book { id: "Rom", imp_name: "Romans", name: "Romans" },
        45 => Book { id: "1Cor", imp_name: "I Corinthians", name: "1 Corinthians" },
        46 => Book { id: "2Cor", imp_name: "II Corinthians", name: "2 Corinthians" },
        47 => Book { id: "Gal", imp_name: "Galatians", name: "Galatians" },
        48 => Book { id: "Eph", imp_name: "Ephesians", name: "Ephesians" },
        49 => Book { id: "Phil", imp_name: "Philippians", name: "Philippians" },
        50 => Book { id: "Col", imp_name: "Colossians", name: "Colossians" },
        51 => Book { id: "1Thess", imp_name: "I Thessalonians", name: "1 Thessalonians" },
        52 => Book { id: "2Thess", imp_name: "II Thessalonians", name: "2 Thessalonians" },
        53 => Book { id: "1Tim", imp_name: "I Timothy", name: "1 Timothy" },
        54 => Book { id: "2Tim", imp_name: "II Timothy", name: "2 Timothy" },
        55 => Book { id: "Titus", imp_name: "Titus", name: "Titus" },
        56 => Book { id: "Phlm", imp_name: "Philemon", name: "Philemon" },
        57 => Book { id: "Heb", imp_name: "Hebrews", name: "Hebrews" },
        58 => Book { id: "Jas", imp_name: "James", name: "James" },
        59 => Book { id: "1Pet", imp_name: "I Peter", name: "1 Peter" },
        60 => Book { id: "2Pet", imp_name: "II Peter", name: "2 Peter" },
        61 => Book { id: "1John", imp_name: "I John", name: "1 John" },
        62 => Book { id: "2John", imp_name: "II John", name: "2 John" },
        63 => Book { id: "3John", imp_name: "III John", name: "3 John" },
        64 => Book { id: "Jude", imp_name: "Jude", name: "Jude" },
        _ => Book { id: "Rev", imp_name: "Revelation of John", name: "Revelation" },
    }
}

/// The first canon position whose id is `id`.
pub open spec fn is_first_id(i: usize, id: Seq<char>) -> bool {
    i < BOOK_COUNT && book_row(i).id@ == id && forall|j: usize| j < i ==> book_row(j).id@ != id
}

/// No book has the id `id`.
pub open spec fn no_such_id(id: Seq<char>) -> bool {
    forall|j: usize| j < BOOK_COUNT ==> book_row(j).id@ != id
}

/// The 0-based canon position of a book id (Gen = 0 … Rev = 65), or `None`.
pub fn book_order(id: &str) -> (r: Option<usize>)
    ensures
        r matches Some(i) ==> is_first_id(i, id@),
        r is None ==> no_such_id(id@),
{
    let mut i: usize = 0;
    while i < BOOK_COUNT
        invariant
            i <= BOOK_COUNT,
            forall|j: usize| j < i ==> book_row(j).id@ != id@,
        decreases BOOK_COUNT - i,
    {
        let b = book_at(i);
        if str_eq(b.id, id) {
            return Some(i);
        }
        i = i + 1;
    }
    None
}

/// Look up a book by OSIS id.
pub fn book_by_id(id: &str) -> (r: Option<Book>)
    ensures
        r matches Some(b) ==> exists|i: usize| is_first_id(i, id@) && b == book_row(i),
        r is None ==> no_such_id(id@),
{
    match book_order(id) {
        Some(i) => Some(book_at(i)),
        None => None,
    }
}

/// Look up a book by its `mod2imp` name (offline importer only).
pub fn book_by_imp_name(name: &str) -> (r: Option<Book>)
    ensures
        r matches Some(b) ==> exists|i: usize|
            i < BOOK_COUNT && b == book_row(i) && book_row(i).imp_name@ == name@ && forall|j: usize|
                j < i ==> book_row(j).imp_name@ != name@,
        r is None ==> forall|j: usize| j < BOOK_COUNT ==> book_row(j).imp_name@ != name@,
{
    let mut i: usize = 0;
    while i < BOOK_COUNT
        invariant
            i <= BOOK_COUNT,
            forall|j: usize| j < i ==> book_row(j).imp_name@ != name@,
        decreases BOOK_COUNT - i,
    {
        let b = book_at(i);
        if str_eq(b.imp_name, name) {
            return Some(b);
        }
        i = i + 1;
    }
    None
}

/// The display name for an OSIS id, falling back to the id itself.
pub fn display_name(id: &str) -> (r: &str)
    ensures
        no_such_id(id@) ==> r@ == id@,
        forall|i: usize| is_first_id(i, id@) ==> r@ == book_row(i).name@,
{
    match book_by_id(id) {
        Some(b) => b.name,
        None => id,
    }
}

/// Canon book ids in order.
pub fn book_ids() -> (r: Vec<&'static str>)
    ensures
        r@.len() == BOOK_COUNT,
        forall|i: int| 0 <= i < BOOK_COUNT ==> r@[i] == book_row(i as usize).id,
{
    let mut out: Vec<&'static str> = Vec::new();
    let mut i: usize = 0;
    while i < BOOK_COUNT
        invariant
            i <= BOOK_COUNT,
            out@.len() == i,
            forall|j: int| 0 <= j < i ==> out@[j] == book_row(j as usize).id,
        decreases BOOK_COUNT - i,
    {
        out.push(book_at(i).id);
        i = i + 1;
    }
    out
}

/// The OSIS id `delta` books away from `id` in canon order (`delta` may be
/// negative), or `None` past either end or for an unknown id. Chapter
/// stepping rolls across book boundaries with this.
pub fn adjacent_book(id: &str, delta: i32) -> (r: Option<&'static str>)
    ensures
        no_such_id(id@) ==> r is None,
        forall|i: usize|
            is_first_id(i, id@) ==> r == (if 0 <= i + delta < BOOK_COUNT {
                Some(book_row((i + delta) as usize).id)
            } else {
                None
            }),
{
    let i = match book_order(id) {
        Some(i) => i,
        None => return None,
    };
    let j: i64 = i as i64 + delta as i64;
    if j < 0 || j >= BOOK_COUNT as i64 {
        None
    } else {
        Some(book_at(j as usize).id)
    }
}


/// The canon as the Protestant Bible orders it, Genesis to Revelation: each
/// book's OSIS id, the name `mod2imp` prints, and its display name.
pub open spec fn protestant_canon() -> Seq<(Seq<char>, Seq<char>, Seq<char>)> {
    seq![
        ("Gen"@, "Genesis"@, "Genesis"@),
        ("Exod"@, "Exodus"@, "Exodus"@),
        ("Lev"@, "Leviticus"@, "Leviticus"@),
        ("Num"@, "Numbers"@, "Numbers"@),
        ("Deut"@, "Deuteronomy"@, "Deuteronomy"@),
        ("Josh"@, "Joshua"@, "Joshua"@),
        ("Judg"@, "Judges"@, "Judges"@),
        ("Ruth"@, "Ruth"@, "Ruth"@),
        ("1Sam"@, "I Samuel"@, "1 Samuel"@),
        ("2Sam"@, "II Samuel"@, "2 Samuel"@),
        ("1Kgs"@, "I Kings"@, "1 Kings"@),
        ("2Kgs"@, "II Kings"@, "2 Kings"@),
        ("1Chr"@, "I Chronicles"@, "1 Chronicles"@),
        ("2Chr"@, "II Chronicles"@, "2 Chronicles"@),
        ("Ezra"@, "Ezra"@, "Ezra"@),
        ("Neh"@, "Nehemiah"@, "Nehemiah"@),
        ("Esth"@, "Esther"@, "Esther"@),
        ("Job"@, "Job"@, "Job"@),
        ("Ps"@, "Psalms"@, "Psalms"@),
        ("Prov"@, "Proverbs"@, "Proverbs"@),
        ("Eccl"@, "Ecclesiastes"@, "Ecclesiastes"@),
        ("Song"@, "Song of Solomon"@, "Song of Solomon"@),
        ("Isa"@, "Isaiah"@, "Isaiah"@),
        ("Jer"@, "Jeremiah"@, "Jeremiah"@),
        ("Lam"@, "Lamentations"@, "Lamentations"@),
        ("Ezek"@, "Ezekiel"@, "Ezekiel"@),
        ("Dan"@, "Daniel"@, "Daniel"@),
        ("Hos"@, "Hosea"@, "Hosea"@),
        ("Joel"@, "Joel"@, "Joel"@),
        ("Amos"@, "Amos"@, "Amos"@),
        ("Obad"@, "Obadiah"@, "Obadiah"@),
        ("Jonah"@, "Jonah"@, "Jonah"@),
        ("Mic"@, "Micah"@, "Micah"@),
        ("Nah"@, "Nahum"@, "Nahum"@),
        ("Hab"@, "Habakkuk"@, "Habakkuk"@),
        ("Zeph"@, "Zephaniah"@, "Zephaniah"@),
        ("Hag"@, "Haggai"@, "Haggai"@),
        ("Zech"@, "Zechariah"@, "Zechariah"@),
        ("Mal"@, "Malachi"@, "Malachi"@),
        ("Matt"@, "Matthew"@, "Matthew"@),
        ("Mark"@, "Mark"@, "Mark"@),
        ("Luke"@, "Luke"@, "Luke"@),
        ("John"@, "John"@, "John"@),
        ("Acts"@, "Acts"@, "Acts"@),
        ("Rom"@, "Romans"@, "Romans"@),
        ("1Cor"@, "I Corinthians"@, "1 Corinthians"@),
        ("2Cor"@, "II Corinthians"@, "2 Corinthians"@),
        ("Gal"@, "Galatians"@, "Galatians"@),
        ("Eph"@, "Ephesians"@, "Ephesians"@),
        ("Phil"@, "Philippians"@, "Philippians"@),
        ("Col"@, "Colossians"@, "Colossians"@),
        ("1Thess"@, "I Thessalonians"@, "1 Thessalonians"@),
        ("2Thess"@, "II Thessalonians"@, "2 Thessalonians"@),
        ("1Tim"@, "I Timothy"@, "1 Timothy"@),
        ("2Tim"@, "II Timothy"@, "2 Timothy"@),
        ("Titus"@, "Titus"@, "Titus"@),
        ("Phlm"@, "Philemon"@, "Philemon"@),
        ("Heb"@, "Hebrews"@, "Hebrews"@),
        ("Jas"@, "James"@, "James"@),
        ("1Pet"@, "I Peter"@, "1 Peter"@),
        ("2Pet"@, "II Peter"@, "2 Peter"@),
        ("1John"@, "I John"@, "1 John"@),
        ("2John"@, "II John"@, "2 John"@),
        ("3John"@, "III John"@, "3 John"@),
        ("Jude"@, "Jude"@, "Jude"@),
        ("Rev"@, "Revelation of John"@, "Revelation"@)
    ]
}

/// The table holds the sixty-six books in canon order: the book at position
/// `i` is the `i`-th book of the Protestant canon, with its id and names
/// (Hosea, then Joel, then Amos; Malachi, then Matthew).
pub proof fn lemma_books_in_canon_order()
    ensures
        protestant_canon().len() == BOOK_COUNT,
        forall|i: usize|
            i < BOOK_COUNT ==> {
                let b = #[trigger] book_row(i);
                (b.id@, b.imp_name@, b.name@) == protestant_canon()[i as int]
            },
{
    let c = protestant_canon();
    assert forall|i: usize| i < BOOK_COUNT implies {
        let b = #[trigger] book_row(i);
        (b.id@, b.imp_name@, b.name@) == c[i as int]
    } by {
        if i == 0 {
            assert(c[0] == ("Gen"@, "Genesis"@, "Genesis"@));
        }
        if i == 1 {
            assert(c[1] == ("Exod"@, "Exodus"@, "Exodus"@));
        }
        if i == 2 {
            assert(c[2] == ("Lev"@, "Leviticus"@, "Leviticus"@));
        }
        if i == 3 {
            assert(c[3] == ("Num"@, "Numbers"@, "Numbers"@));
        }
        if i == 4 {
            assert(c[4] == ("Deut"@, "Deuteronomy"@, "Deuteronomy"@));
        }
        if i == 5 {
            assert(c[5] == ("Josh"@, "Joshua"@, "Joshua"@));
        }
        if i == 6 {
            assert(c[6] == ("Judg"@, "Judges"@, "Judges"@));
        }
        if i == 7 {
            assert(c[7] == ("Ruth"@, "Ruth"@, "Ruth"@));
        }
        if i == 8 {
            assert(c[8] == ("1Sam"@, "I Samuel"@, "1 Samuel"@));
        }
        if i == 9 {
            assert(c[9] == ("2Sam"@, "II Samuel"@, "2 Samuel"@));
        }
        if i == 10 {
            assert(c[10] == ("1Kgs"@, "I Kings"@, "1 Kings"@));
        }
        if i == 11 {
            assert(c[11] == ("2Kgs"@, "II Kings"@, "2 Kings"@));
        }
        if i == 12 {
            assert(c[12] == ("1Chr"@, "I Chronicles"@, "1 Chronicles"@));
        }
        if i == 13 {
            assert(c[13] == ("2Chr"@, "II Chronicles"@, "2 Chronicles"@));
        }
        if i == 14 {
            assert(c[14] == ("Ezra"@, "Ezra"@, "Ezra"@));
        }
        if i == 15 {
            assert(c[15] == ("Neh"@, "Nehemiah"@, "Nehemiah"@));
        }
        if i == 16 {
            assert(c[16] == ("Esth"@, "Esther"@, "Esther"@));
        }
        if i == 17 {
            assert(c[17] == ("Job"@, "Job"@, "Job"@));
        }
        if i == 18 {
            assert(c[18] == ("Ps"@, "Psalms"@, "Psalms"@));
        }
        if i == 19 {
            assert(c[19] == ("Prov"@, "Proverbs"@, "Proverbs"@));
        }
        if i == 20 {
            assert(c[20] == ("Eccl"@, "Ecclesiastes"@, "Ecclesiastes"@));
        }
        if i == 21 {
            assert(c[21] == ("Song"@, "Song of Solomon"@, "Song of Solomon"@));
        }
        if i == 22 {
            assert(c[22] == ("Isa"@, "Isaiah"@, "Isaiah"@));
        }
        if i == 23 {
            assert(c[23] == ("Jer"@, "Jeremiah"@, "Jeremiah"@));
        }
        if i == 24 {
            assert(c[24] == ("Lam"@, "Lamentations"@, "Lamentations"@));
        }
        if i == 25 {
            assert(c[25] == ("Ezek"@, "Ezekiel"@, "Ezekiel"@));
        }
        if i == 26 {
            assert(c[26] == ("Dan"@, "Daniel"@, "Daniel"@));
        }
        if i == 27 {
            assert(c[27] == ("Hos"@, "Hosea"@, "Hosea"@));
        }
        if i == 28 {
            assert(c[28] == ("Joel"@, "Joel"@, "Joel"@));
        }
        if i == 29 {
            assert(c[29] == ("Amos"@, "Amos"@, "Amos"@));
        }
        if i == 30 {
            assert(c[30] == ("Obad"@, "Obadiah"@, "Obadiah"@));
        }
        if i == 31 {
            assert(c[31] == ("Jonah"@, "Jonah"@, "Jonah"@));
        }
        if i == 32 {
            assert(c[32] == ("Mic"@, "Micah"@, "Micah"@));
        }
        if i == 33 {
            assert(c[33] == ("Nah"@, "Nahum"@, "Nahum"@));
        }
        if i == 34 {
            assert(c[34] == ("Hab"@, "Habakkuk"@, "Habakkuk"@));
        }
        if i == 35 {
            assert(c[35] == ("Zeph"@, "Zephaniah"@, "Zephaniah"@));
        }
        if i == 36 {
            assert(c[36] == ("Hag"@, "Haggai"@, "Haggai"@));
        }
        if i == 37 {
            assert(c[37] == ("Zech"@, "Zechariah"@, "Zechariah"@));
        }
        if i == 38 {
            assert(c[38] == ("Mal"@, "Malachi"@, "Malachi"@));
        }
        if i == 39 {
            assert(c[39] == ("Matt"@, "Matthew"@, "Matthew"@));
        }
        if i == 40 {
            assert(c[40] == ("Mark"@, "Mark"@, "Mark"@));
        }
        if i == 41 {
            assert(c[41] == ("Luke"@, "Luke"@, "Luke"@));
        }
        if i == 42 {
            assert(c[42] == ("John"@, "John"@, "John"@));
        }
        if i == 43 {
            assert(c[43] == ("Acts"@, "Acts"@, "Acts"@));
        }
        if i == 44 {
            assert(c[44] == ("Rom"@, "Romans"@, "Romans"@));
        }
        if i == 45 {
            assert(c[45] == ("1Cor"@, "I Corinthians"@, "1 Corinthians"@));
        }
        if i == 46 {
            assert(c[46] == ("2Cor"@, "II Corinthians"@, "2 Corinthians"@));
        }
        if i == 47 {
            assert(c[47] == ("Gal"@, "Galatians"@, "Galatians"@));
        }
        if i == 48 {
            assert(c[48] == ("Eph"@, "Ephesians"@, "Ephesians"@));
        }
        if i == 49 {
            assert(c[49] == ("Phil"@, "Philippians"@, "Philippians"@));
        }
        if i == 50 {
            assert(c[50] == ("Col"@, "Colossians"@, "Colossians"@));
        }
        if i == 51 {
            assert(c[51] == ("1Thess"@, "I Thessalonians"@, "1 Thessalonians"@));
        }
        if i == 52 {
            assert(c[52] == ("2Thess"@, "II Thessalonians"@, "2 Thessalonians"@));
        }
        if i == 53 {
            assert(c[53] == ("1Tim"@, "I Timothy"@, "1 Timothy"@));
        }
        if i == 54 {
            assert(c[54] == ("2Tim"@, "II Timothy"@, "2 Timothy"@));
        }
        if i == 55 {
            assert(c[55] == ("Titus"@, "Titus"@, "Titus"@));
        }
        if i == 56 {
            assert(c[56] == ("Phlm"@, "Philemon"@, "Philemon"@));
        }
        if i == 57 {
            assert(c[57] == ("Heb"@, "Hebrews"@, "Hebrews"@));
        }
        if i == 58 {
            assert(c[58] == ("Jas"@, "James"@, "James"@));
        }
        if i == 59 {
            assert(c[59] == ("1Pet"@, "I Peter"@, "1 Peter"@));
        }
        if i == 60 {
            assert(c[60] == ("2Pet"@, "II Peter"@, "2 Peter"@));
        }
        if i == 61 {
            assert(c[61] == ("1John"@, "I John"@, "1 John"@));
        }
        if i == 62 {
            assert(c[62] == ("2John"@, "II John"@, "2 John"@));
        }
        if i == 63 {
            assert(c[63] == ("3John"@, "III John"@, "3 John"@));
        }
        if i == 64 {
            assert(c[64] == ("Jude"@, "Jude"@, "Jude"@));
        }
        if i == 65 {
            assert(c[65] == ("Rev"@, "Revelation of John"@, "Revelation"@));
        }
    }
}

} // verus!
