//! Every word the reader sees, in every language: the registry of shipped
//! languages, how a locale tag picks one, and the string catalogues with their
//! English fallback.
//!
//! One catalogue per language, keyed by stable dotted ids. `en` is the source:
//! a key missing elsewhere falls back to English rather than showing its id,
//! and [`missing`] lists the gaps.

use vstd::prelude::*;

use crate::text::{
    ascii_lowercase, chars_eq, chars_of, find_char, find_char_in, push_char, push_str, split_chars, split_on,
    str_eq, lower_all,
};

verus! {

/// The languages the app ships.
#[derive(Debug, Clone, Copy, PartialEq, Eq, Structural, PartialOrd, Ord, Hash)]
pub enum Lang {
    En,
    De,
    Es,
    Ar,
    Pa,
    Hi,
    Fr,
    Zht,
    Zhs,
}

/// The writing system a language is set in: the source of both direction and
/// which faces can set the text.
#[derive(Debug, Clone, Copy, PartialEq, Eq, Structural)]
pub enum Script {
    Latin,
    Arabic,
    Gurmukhi,
    Devanagari,
    /// One script serving both Chinese rows.
    Han,
}

/// Whether a script is written right to left.
pub open spec fn script_rtl(s: Script) -> bool {
    s == Script::Arabic
}

/// The wire token of a script.
pub open spec fn script_token(s: Script) -> Seq<char> {
    match s {
        Script::Latin => "latin"@,
        Script::Arabic => "arabic"@,
        Script::Gurmukhi => "gurmukhi"@,
        Script::Devanagari => "devanagari"@,
        Script::Han => "han"@,
    }
}

impl Script {
    /// Whether this script is written right to left.
    pub fn is_rtl(self) -> (r: bool)
        ensures
            r == script_rtl(self),
    {
        matches!(self, Script::Arabic)
    }

    /// The token that crosses the wire, for a shell that names a script.
    pub fn token(self) -> (r: &'static str)
        ensures
            r@ == script_token(self),
    {
        match self {
            Script::Latin => "latin",
            Script::Arabic => "arabic",
            Script::Gurmukhi => "gurmukhi",
            Script::Devanagari => "devanagari",
            Script::Han => "han",
        }
    }
}

/// The scripture a language reads.
#[derive(Debug, Clone, Copy, PartialEq, Eq)]
pub struct CorpusSpec {
    /// The file under the home's `data/`, e.g. `"luther1912.jsonl"`.
    pub file: &'static str,
    /// The tokenization stamp its header must carry.
    pub tokenization: &'static str,
    /// What a reader would call this Bible.
    pub label: &'static str,
}

impl CorpusSpec {
    /// The start-up cache beside it: the corpus file name and `.idxcache`.
    pub fn cache_file(&self) -> (r: String)
        ensures
            r@ == self.file@ + ".idxcache"@,
    {
        let mut s = crate::text::string_from(self.file);
        push_str(&mut s, ".idxcache");
        s
    }
}

/// A language's Strong's dictionary.
#[derive(Debug, Clone, Copy, PartialEq, Eq)]
pub struct LexiconSpec {
    /// The file under `data/`, e.g. `"strongs-de.json"`.
    pub file: &'static str,
    /// Whether its definitions are machine-translated, which the study card
    /// discloses on screen.
    pub machine_translated: bool,
}

/// What a printed Bible in this language calls a verse the KJV addresses
/// differently. It annotates, never renumbers.
#[derive(Debug, Clone, Copy, PartialEq, Eq)]
pub struct NumberingSpec {
    /// The table (`osis \t chapter \t verse \t printedRef`), as the path of
    /// its file in the source tree.
    pub table_file: &'static str,
    /// Whose numbering it is.
    pub label: &'static str,
}

/// Everything that makes a language a language, in one row.
#[derive(Debug, Clone, Copy)]
pub struct LangSpec {
    /// The code that crosses the wire and sits in the reader's config.
    pub code: &'static str,
    /// What this language calls itself.
    pub endonym: &'static str,
    /// Its English name.
    pub exonym: &'static str,
    /// The writing system this language is set in.
    pub script: Script,
    /// The scripture this language reads, when it has one of its own.
    pub corpus: Option<CorpusSpec>,
    /// The Strong's dictionary under `data/`.
    pub lexicon: Option<LexiconSpec>,
    /// A modernization of this language's standard translation.
    pub modernization: Option<&'static str>,
    /// Printed numbering that disagrees with the KJV's addresses.
    pub numbering: Option<NumberingSpec>,
}

/// The number of shipped languages.
pub const LANG_COUNT: usize = 9;

/// The position of a language in [`Lang::all`].
pub open spec fn lang_index(l: Lang) -> nat {
    match l {
        Lang::En => 0,
        Lang::De => 1,
        Lang::Es => 2,
        Lang::Ar => 3,
        Lang::Pa => 4,
        Lang::Hi => 5,
        Lang::Fr => 6,
        Lang::Zht => 7,
        Lang::Zhs => 8,
    }
}

/// The language at a position of [`Lang::all`].
pub open spec fn lang_at(i: nat) -> Lang {
    if i == 0 {
        Lang::En
    } else if i == 1 {
        Lang::De
    } else if i == 2 {
        Lang::Es
    } else if i == 3 {
        Lang::Ar
    } else if i == 4 {
        Lang::Pa
    } else if i == 5 {
        Lang::Hi
    } else if i == 6 {
        Lang::Fr
    } else if i == 7 {
        Lang::Zht
    } else {
        Lang::Zhs
    }
}

/// A language's code.
pub open spec fn lang_code(l: Lang) -> Seq<char> {
    match l {
        Lang::En => "en"@,
        Lang::De => "de"@,
        Lang::Es => "es"@,
        Lang::Ar => "ar"@,
        Lang::Pa => "pa"@,
        Lang::Hi => "hi"@,
        Lang::Fr => "fr"@,
        Lang::Zht => "zht"@,
        Lang::Zhs => "zhs"@,
    }
}

/// A language's script.
pub open spec fn lang_script(l: Lang) -> Script {
    match l {
        Lang::En | Lang::De | Lang::Es | Lang::Fr => Script::Latin,
        Lang::Ar => Script::Arabic,
        Lang::Pa => Script::Gurmukhi,
        Lang::Hi => Script::Devanagari,
        Lang::Zht | Lang::Zhs => Script::Han,
    }
}

/// A language's corpus file.
pub open spec fn corpus_file(l: Lang) -> Seq<char> {
    match l {
        Lang::En => "kjv.jsonl"@,
        Lang::De => "luther1912.jsonl"@,
        Lang::Es => "rv1909.jsonl"@,
        Lang::Ar => "svd1865.jsonl"@,
        Lang::Pa => "pan-fbi.jsonl"@,
        Lang::Hi => "hin-fbi.jsonl"@,
        Lang::Fr => "ost1996.jsonl"@,
        Lang::Zht => "cuv1919t.jsonl"@,
        Lang::Zhs => "cuv1919s.jsonl"@,
    }
}

/// A language's tokenization stamp.
pub open spec fn corpus_tokenization(l: Lang) -> Seq<char> {
    match l {
        Lang::En => "kjv1769-tok2"@,
        Lang::De => "luther1912-tok1"@,
        Lang::Es => "rv1909-tok1"@,
        Lang::Ar => "svd1865-tok1"@,
        Lang::Pa => "pan-fbi-tok1"@,
        Lang::Hi => "hin-fbi-tok1"@,
        Lang::Fr => "ost1996-tok1"@,
        Lang::Zht => "cuv1919t-tok1"@,
        Lang::Zhs => "cuv1919s-tok1"@,
    }
}

/// Whether a language has its own Strong's dictionary.
pub open spec fn has_lexicon(l: Lang) -> bool {
    l == Lang::En || l == Lang::De || l == Lang::Es
}

/// Whether a language's dictionary has machine-translated definitions.
pub open spec fn lexicon_machine(l: Lang) -> bool {
    l == Lang::De || l == Lang::Es
}

/// The name of the Bible a language reads.
pub open spec fn corpus_label(l: Lang) -> Seq<char> {
    match l {
        Lang::En => "KJV"@,
        Lang::De => "Luther"@,
        Lang::Es => "Reina-Valera"@,
        Lang::Ar => "Van Dyck"@,
        Lang::Pa => "ਪਵਿੱਤਰ ਬਾਈਬਲ"@,
        Lang::Hi => "पवित्र बाइबल"@,
        Lang::Fr => "Ostervald"@,
        Lang::Zht => "和合本"@,
        Lang::Zhs => "和合本"@,
    }
}

impl Lang {
    /// Every shipped language, in registry order.
    pub fn all() -> (r: Vec<Lang>)
        ensures
            r@.len() == LANG_COUNT,
            forall|i: int| 0 <= i < LANG_COUNT ==> r@[i] == lang_at(i as nat),
    {
        vec![Lang::En, Lang::De, Lang::Es, Lang::Ar, Lang::Pa, Lang::Hi, Lang::Fr, Lang::Zht, Lang::Zhs]
    }

    /// The position of this language in [`Lang::all`].
    pub fn index(self) -> (r: usize)
        ensures
            r == lang_index(self),
            lang_at(r as nat) == self,
    {
        match self {
            Lang::En => 0,
            Lang::De => 1,
            Lang::Es => 2,
            Lang::Ar => 3,
            Lang::Pa => 4,
            Lang::Hi => 5,
            Lang::Fr => 6,
            Lang::Zht => 7,
            Lang::Zhs => 8,
        }
    }

    /// This language's row.
    pub fn spec(self) -> (r: LangSpec)
        ensures
            r.code@ == lang_code(self),
            r.endonym@ == self.spec_endonym(),
            r.exonym@ == self.spec_exonym(),
            r.script == lang_script(self),
            r.corpus matches Some(c) && c.file@ == corpus_file(self) && c.tokenization@
                == corpus_tokenization(self) && c.label@ == corpus_label(self),
            r.lexicon is Some == has_lexicon(self),
            r.lexicon matches Some(x) ==> x.machine_translated == lexicon_machine(self),
            r.modernization is Some == (self == Lang::En),
    {
        match self {
            Lang::En => LangSpec {
                code: "en",
                endonym: "English",
                exonym: "English",
                script: Script::Latin,
                corpus: Some(
                    CorpusSpec {
                        file: "kjv.jsonl",
                        tokenization: crate::canon::TOKENIZATION_VERSION,
                        label: "KJV",
                    },
                ),
                lexicon: Some(LexiconSpec { file: "strongs.json", machine_translated: false }),
                modernization: Some("akjv.jsonl"),
                numbering: None,
            },
            Lang::De => LangSpec {
                code: "de",
                endonym: "Deutsch",
                exonym: "German",
                script: Script::Latin,
                corpus: Some(
                    CorpusSpec {
                        file: "luther1912.jsonl",
                        tokenization: "luther1912-tok1",
                        label: "Luther",
                    },
                ),
                lexicon: Some(LexiconSpec { file: "strongs-de.json", machine_translated: true }),
                modernization: None,
                numbering: Some(
                    NumberingSpec {
                        table_file: "versification/luther-numbering.tsv",
                        label: "Luther",
                    },
                ),
            },
            Lang::Es => LangSpec {
                code: "es",
                endonym: "Español",
                exonym: "Spanish",
                script: Script::Latin,
                corpus: Some(
                    CorpusSpec {
                        file: "rv1909.jsonl",
                        tokenization: "rv1909-tok1",
                        label: "Reina-Valera",
                    },
                ),
                lexicon: Some(LexiconSpec { file: "strongs-es.json", machine_translated: true }),
                modernization: None,
                numbering: None,
            },
            Lang::Ar => LangSpec {
                code: "ar",
                endonym: "العربية",
                exonym: "Arabic",
                script: Script::Arabic,
                corpus: Some(
                    CorpusSpec {
                        file: "svd1865.jsonl",
                        tokenization: "svd1865-tok1",
                        label: "Van Dyck",
                    },
                ),
                lexicon: None,
                modernization: None,
                numbering: None,
            },
            Lang::Pa => LangSpec {
                code: "pa",
                endonym: "ਪੰਜਾਬੀ",
                exonym: "Punjabi",
                script: Script::Gurmukhi,
                corpus: Some(
                    CorpusSpec {
                        file: "pan-fbi.jsonl",
                        tokenization: "pan-fbi-tok1",
                        label: "ਪਵਿੱਤਰ ਬਾਈਬਲ",
                    },
                ),
                lexicon: None,
                modernization: None,
                numbering: None,
            },
            Lang::Hi => LangSpec {
                code: "hi",
                endonym: "हिन्दी",
                exonym: "Hindi",
                script: Script::Devanagari,
                corpus: Some(
                    CorpusSpec {
                        file: "hin-fbi.jsonl",
                        tokenization: "hin-fbi-tok1",
                        label: "पवित्र बाइबल",
                    },
                ),
                lexicon: None,
                modernization: None,
                numbering: None,
            },
            Lang::Fr => LangSpec {
                code: "fr",
                endonym: "Français",
                exonym: "French",
                script: Script::Latin,
                corpus: Some(
                    CorpusSpec {
                        file: "ost1996.jsonl",
                        tokenization: "ost1996-tok1",
                        label: "Ostervald",
                    },
                ),
                lexicon: None,
                modernization: None,
                numbering: Some(
                    NumberingSpec {
                        table_file: "versification/ostervald-numbering.tsv",
                        label: "Ostervald",
                    },
                ),
            },
            Lang::Zht => LangSpec {
                code: "zht",
                endonym: "中文（繁體）",
                exonym: "Traditional Chinese",
                script: Script::Han,
                corpus: Some(
                    CorpusSpec {
                        file: "cuv1919t.jsonl",
                        tokenization: "cuv1919t-tok1",
                        label: "和合本",
                    },
                ),
                lexicon: None,
                modernization: None,
                numbering: Some(
                    NumberingSpec { table_file: "versification/cuv-numbering.tsv", label: "和合本" },
                ),
            },
            Lang::Zhs => LangSpec {
                code: "zhs",
                endonym: "中文（简体）",
                exonym: "Simplified Chinese",
                script: Script::Han,
                corpus: Some(
                    CorpusSpec {
                        file: "cuv1919s.jsonl",
                        tokenization: "cuv1919s-tok1",
                        label: "和合本",
                    },
                ),
                lexicon: None,
                modernization: None,
                numbering: Some(
                    NumberingSpec { table_file: "versification/cuv-numbering.tsv", label: "和合本" },
                ),
            },
        }
    }

    /// The code that crosses the wire and sits in the reader's config.
    pub fn code(self) -> (r: &'static str)
        ensures
            r@ == lang_code(self),
    {
        self.spec().code
    }

    /// What this language calls itself.
    pub fn endonym(self) -> (r: &'static str)
        ensures
            r@ == self.spec_endonym(),
    {
        self.spec().endonym
    }

    /// This language's English name.
    pub fn exonym(self) -> (r: &'static str)
        ensures
            r@ == self.spec_exonym(),
    {
        self.spec().exonym
    }

    /// What a language calls itself.
    pub open spec fn spec_endonym(self) -> Seq<char> {
        match self {
            Lang::En => "English"@,
            Lang::De => "Deutsch"@,
            Lang::Es => "Español"@,
            Lang::Ar => "العربية"@,
            Lang::Pa => "ਪੰਜਾਬੀ"@,
            Lang::Hi => "हिन्दी"@,
            Lang::Fr => "Français"@,
            Lang::Zht => "中文（繁體）"@,
            Lang::Zhs => "中文（简体）"@,
        }
    }

    /// A language's English name.
    pub open spec fn spec_exonym(self) -> Seq<char> {
        match self {
            Lang::En => "English"@,
            Lang::De => "German"@,
            Lang::Es => "Spanish"@,
            Lang::Ar => "Arabic"@,
            Lang::Pa => "Punjabi"@,
            Lang::Hi => "Hindi"@,
            Lang::Fr => "French"@,
            Lang::Zht => "Traditional Chinese"@,
            Lang::Zhs => "Simplified Chinese"@,
        }
    }

    /// The writing system this language is set in.
    pub fn script(self) -> (r: Script)
        ensures
            r == lang_script(self),
    {
        self.spec().script
    }

    /// Whether this language is written right to left; derived from the script.
    pub fn is_rtl(self) -> (r: bool)
        ensures
            r == script_rtl(lang_script(self)),
    {
        self.spec().script.is_rtl()
    }

    /// The text this language reads (every shipped language has its own).
    pub fn corpus(self) -> (r: CorpusSpec)
        ensures
            r.file@ == corpus_file(self),
            r.tokenization@ == corpus_tokenization(self),
            r.label@ == corpus_label(self),
    {
        match self.spec().corpus {
            Some(c) => c,
            None => {
                proof {
                    assert(false);
                }
                CorpusSpec { file: "", tokenization: "", label: "" }
            },
        }
    }

    /// Whether this language reads a text of its own rather than English's.
    pub fn has_own_corpus(self) -> (r: bool)
        ensures
            r == (self != Lang::En),
    {
        self.spec().corpus.is_some() && self != Lang::En
    }

    /// The manifest role this language's corpus cache is filed under:
    /// `corpusCache` for English, `corpus:<code>` otherwise.
    pub fn corpus_role(self) -> (r: String)
        ensures
            self == Lang::En ==> r@ == "corpusCache"@,
            self != Lang::En ==> r@ == "corpus:"@ + lang_code(self),
    {
        if self == Lang::En {
            crate::text::string_from("corpusCache")
        } else {
            let mut s = crate::text::string_from("corpus:");
            push_str(&mut s, self.code());
            s
        }
    }

    /// The manifest role this language's own Strong's dictionary is filed
    /// under: `lexicon:<code>`.
    pub fn lexicon_role(self) -> (r: String)
        ensures
            r@ == "lexicon:"@ + lang_code(self),
    {
        let mut s = crate::text::string_from("lexicon:");
        push_str(&mut s, self.code());
        s
    }

    /// The language whose text carries this tokenization stamp.
    pub fn for_tokenization(tok: &str) -> (r: Option<Lang>)
        ensures
            r == lang_for_tokenization(tok@),
    {
        let all = Lang::all();
        let mut i: usize = 0;
        while i < all.len()
            invariant
                i <= LANG_COUNT,
                all@.len() == LANG_COUNT,
                forall|j: int| 0 <= j < LANG_COUNT ==> all@[j] == lang_at(j as nat),
                forall|j: nat| j < i ==> corpus_tokenization(#[trigger] lang_at(j)) != tok@,
            decreases LANG_COUNT - i,
        {
            if str_eq(all[i].corpus().tokenization, tok) {
                proof {
                    lemma_first_lang_tok(tok@, i as nat);
                }
                return Some(all[i]);
            }
            i = i + 1;
        }
        proof {
            lemma_no_lang_tok(tok@);
        }
        None
    }
}

/// The first language (in registry order) whose tokenization stamp is `tok`.
pub open spec fn lang_for_tokenization(tok: Seq<char>) -> Option<Lang> {
    if tok == corpus_tokenization(Lang::En) {
        Some(Lang::En)
    } else if tok == corpus_tokenization(Lang::De) {
        Some(Lang::De)
    } else if tok == corpus_tokenization(Lang::Es) {
        Some(Lang::Es)
    } else if tok == corpus_tokenization(Lang::Ar) {
        Some(Lang::Ar)
    } else if tok == corpus_tokenization(Lang::Pa) {
        Some(Lang::Pa)
    } else if tok == corpus_tokenization(Lang::Hi) {
        Some(Lang::Hi)
    } else if tok == corpus_tokenization(Lang::Fr) {
        Some(Lang::Fr)
    } else if tok == corpus_tokenization(Lang::Zht) {
        Some(Lang::Zht)
    } else if tok == corpus_tokenization(Lang::Zhs) {
        Some(Lang::Zhs)
    } else {
        None
    }
}

proof fn lemma_first_lang_tok(tok: Seq<char>, i: nat)
    requires
        i < LANG_COUNT,
        corpus_tokenization(lang_at(i)) == tok,
        forall|j: nat| j < i ==> corpus_tokenization(#[trigger] lang_at(j)) != tok,
    ensures
        lang_for_tokenization(tok) == Some(lang_at(i)),
{
    assert(corpus_tokenization(lang_at(0)) != tok ==> i != 0);
    if i >= 1 {
        assert(corpus_tokenization(lang_at(0)) != tok);
    }
    if i >= 2 {
        assert(corpus_tokenization(lang_at(1)) != tok);
    }
    if i >= 3 {
        assert(corpus_tokenization(lang_at(2)) != tok);
    }
    if i >= 4 {
        assert(corpus_tokenization(lang_at(3)) != tok);
    }
    if i >= 5 {
        assert(corpus_tokenization(lang_at(4)) != tok);
    }
    if i >= 6 {
        assert(corpus_tokenization(lang_at(5)) != tok);
    }
    if i >= 7 {
        assert(corpus_tokenization(lang_at(6)) != tok);
    }
    if i >= 8 {
        assert(corpus_tokenization(lang_at(7)) != tok);
    }
}

proof fn lemma_no_lang_tok(tok: Seq<char>)
    requires
        forall|j: nat| j < LANG_COUNT ==> corpus_tokenization(#[trigger] lang_at(j)) != tok,
    ensures
        lang_for_tokenization(tok) is None,
{
    assert(corpus_tokenization(lang_at(0)) != tok);
    assert(corpus_tokenization(lang_at(1)) != tok);
    assert(corpus_tokenization(lang_at(2)) != tok);
    assert(corpus_tokenization(lang_at(3)) != tok);
    assert(corpus_tokenization(lang_at(4)) != tok);
    assert(corpus_tokenization(lang_at(5)) != tok);
    assert(corpus_tokenization(lang_at(6)) != tok);
    assert(corpus_tokenization(lang_at(7)) != tok);
    assert(corpus_tokenization(lang_at(8)) != tok);
}

} // verus!

verus! {

// ── locale tags ──────────────────────────────────────────────────────────────

/// `_` read as `-`: both separate the subtags of a locale.
pub open spec fn dash_sep(c: char) -> char {
    if c == '_' {
        '-'
    } else {
        c
    }
}

/// The subtags of a locale tag, lowered: `zh-Hant_TW` → `zh`, `hant`, `tw`.
pub open spec fn locale_tags(code: Seq<char>) -> Seq<Seq<char>> {
    split_chars(lower_all(code).map_values(|c: char| dash_sep(c)), '-')
}

/// The language whose code is exactly `c`.
pub open spec fn lang_with_code(c: Seq<char>) -> Option<Lang> {
    if c == "en"@ {
        Some(Lang::En)
    } else if c == "de"@ {
        Some(Lang::De)
    } else if c == "es"@ {
        Some(Lang::Es)
    } else if c == "ar"@ {
        Some(Lang::Ar)
    } else if c == "pa"@ {
        Some(Lang::Pa)
    } else if c == "hi"@ {
        Some(Lang::Hi)
    } else if c == "fr"@ {
        Some(Lang::Fr)
    } else if c == "zht"@ {
        Some(Lang::Zht)
    } else if c == "zhs"@ {
        Some(Lang::Zhs)
    } else {
        None
    }
}

/// The language a locale tag names, tolerating region and script subtags.
/// Chinese is the one language whose subtags choose between shipped rows: a
/// `hant` script tag, else `hans`, else the regions `tw`, `hk`, `mo` mean
/// traditional; otherwise simplified.
pub open spec fn shipped_spec(code: Seq<char>) -> Option<Lang> {
    let tags = locale_tags(code);
    let base = tags[0];
    let rest = tags.skip(1);
    if base == "zh"@ {
        let traditional = if rest.contains("hant"@) {
            true
        } else if rest.contains("hans"@) {
            false
        } else {
            rest.contains("tw"@) || rest.contains("hk"@) || rest.contains("mo"@)
        };
        Some(
            if traditional {
                Lang::Zht
            } else {
                Lang::Zhs
            },
        )
    } else {
        lang_with_code(base)
    }
}

/// The language to paint in, given the reader's setting and the device's
/// locale: the setting when it names a shipped language, else the device's,
/// else English.
pub open spec fn resolve_spec(chosen: Seq<char>, device: Seq<char>) -> Lang {
    match shipped_spec(chosen) {
        Some(l) => l,
        None => match shipped_spec(device) {
            Some(l) => l,
            None => Lang::En,
        },
    }
}

pub(crate) fn code_lang(c: &str) -> (r: Option<Lang>)
    ensures
        r == lang_with_code(c@),
{
    if str_eq(c, "en") {
        Some(Lang::En)
    } else if str_eq(c, "de") {
        Some(Lang::De)
    } else if str_eq(c, "es") {
        Some(Lang::Es)
    } else if str_eq(c, "ar") {
        Some(Lang::Ar)
    } else if str_eq(c, "pa") {
        Some(Lang::Pa)
    } else if str_eq(c, "hi") {
        Some(Lang::Hi)
    } else if str_eq(c, "fr") {
        Some(Lang::Fr)
    } else if str_eq(c, "zht") {
        Some(Lang::Zht)
    } else if str_eq(c, "zhs") {
        Some(Lang::Zhs)
    } else {
        None
    }
}

/// Whether one of `tags[from..]` is `t`.
fn tags_contain(tags: &Vec<String>, from: usize, t: &str) -> (r: bool)
    requires
        from <= tags@.len(),
    ensures
        r == tags@.map_values(|s: String| s@).skip(from as int).contains(t@),
{
    let ghost tv = tags@.map_values(|s: String| s@).skip(from as int);
    let mut i = from;
    while i < tags.len()
        invariant
            from <= i <= tags@.len(),
            tv == tags@.map_values(|s: String| s@).skip(from as int),
            forall|j: int| 0 <= j < i - from ==> tv[j] != t@,
        decreases tags@.len() - i,
    {
        assert(tv[i - from] == tags@[i as int]@);
        if str_eq(tags[i].as_str(), t) {
            return true;
        }
        i = i + 1;
    }
    false
}

impl Lang {
    /// The language this code names, if the app ships it, tolerating a region
    /// tag (`de-CH` is German). `None` otherwise.
    pub fn shipped(code: &str) -> (r: Option<Lang>)
        ensures
            r == shipped_spec(code@),
    {
        let cs = chars_of(code);
        let low = ascii_lowercase(cs.as_slice());
        let mut norm: Vec<char> = Vec::new();
        let mut i: usize = 0;
        while i < low.len()
            invariant
                i <= low@.len(),
                norm@ == low@.take(i as int).map_values(|c: char| dash_sep(c)),
            decreases low@.len() - i,
        {
            let c = low[i];
            norm.push(if c == '_' {
                '-'
            } else {
                c
            });
            i = i + 1;
            assert(norm@ =~= low@.take(i as int).map_values(|c: char| dash_sep(c)));
        }
        assert(low@.take(low@.len() as int) == low@);
        let s = crate::text::string_of(norm.as_slice());
        let tags = split_on(s.as_str(), '-');
        let ghost tv = tags@.map_values(|x: String| x@);
        assert(tv =~= locale_tags(code@));
        assert(tags@.len() >= 1);
        let base = tags[0].as_str();
        assert(base@ == locale_tags(code@)[0]);
        if str_eq(base, "zh") {
            let traditional = if tags_contain(&tags, 1, "hant") {
                true
            } else if tags_contain(&tags, 1, "hans") {
                false
            } else {
                tags_contain(&tags, 1, "tw") || tags_contain(&tags, 1, "hk") || tags_contain(
                    &tags,
                    1,
                    "mo",
                )
            };
            return Some(
                if traditional {
                    Lang::Zht
                } else {
                    Lang::Zhs
                },
            );
        }
        code_lang(base)
    }

    /// Parse a code, tolerating a region tag. Unknown languages are English,
    /// never an error.
    pub fn parse(code: &str) -> (r: Lang)
        ensures
            r == match shipped_spec(code@) {
                Some(l) => l,
                None => Lang::En,
            },
    {
        match Lang::shipped(code) {
            Some(l) => l,
            None => Lang::En,
        }
    }
}

/// The language to paint in, given the reader's setting and the device's
/// locale. An empty setting means "follow the device".
pub fn resolve(chosen: &str, device: &str) -> (r: Lang)
    ensures
        r == resolve_spec(chosen@, device@),
{
    match Lang::shipped(chosen) {
        Some(l) => l,
        None => match Lang::shipped(device) {
            Some(l) => l,
            None => Lang::En,
        },
    }
}

/// A language's own code names it back.
pub proof fn lemma_code_round_trip(l: Lang)
    ensures
        shipped_spec(lang_code(l)) == Some(l),
{
    reveal_strlit("en");
    reveal_strlit("de");
    reveal_strlit("es");
    reveal_strlit("ar");
    reveal_strlit("pa");
    reveal_strlit("hi");
    reveal_strlit("fr");
    reveal_strlit("zht");
    reveal_strlit("zhs");
    reveal_strlit("zh");
    let c = lang_code(l);
    let n = lower_all(c).map_values(|x: char| dash_sep(x));
    assert(n =~= c);
    crate::text::lemma_find_char(c, '-', c.len() as int);
    assert(split_chars(c, '-') == seq![c]);
    let codes = seq!["en"@, "de"@, "es"@, "ar"@, "pa"@, "hi"@, "fr"@, "zht"@, "zhs"@, "zh"@];
    assert forall|i: int, j: int| 0 <= i < j < 10 implies codes[i] != codes[j] by {
        let a = codes[i];
        let b = codes[j];
        if a.len() == b.len() {
            if a[0] == b[0] {
                assert(a[1] != b[1] || a[2] != b[2]);
            }
        }
    }
    assert(codes[0] == "en"@ && codes[1] == "de"@ && codes[2] == "es"@ && codes[3] == "ar"@);
    assert(codes[4] == "pa"@ && codes[5] == "hi"@ && codes[6] == "fr"@ && codes[7] == "zht"@);
    assert(codes[8] == "zhs"@ && codes[9] == "zh"@);
}

} // verus!

verus! {

// ── placeholders ─────────────────────────────────────────────────────────────

/// The characters of a list of `(name, value)` arguments.
pub open spec fn args_view(args: Seq<(&str, &str)>) -> Seq<(Seq<char>, Seq<char>)> {
    args.map_values(|p: (&str, &str)| (p.0@, p.1@))
}

/// The value of the first argument called `name`.
pub open spec fn arg_lookup(args: Seq<(Seq<char>, Seq<char>)>, name: Seq<char>) -> Option<
    Seq<char>,
>
    decreases args.len(),
{
    if args.len() == 0 {
        None
    } else if args[0].0 == name {
        Some(args[0].1)
    } else {
        arg_lookup(args.drop_first(), name)
    }
}

/// `{placeholders}` in `rest` filled from `args`. A placeholder with no
/// argument is left as it is; an unclosed brace and what follows it are kept.
#[verifier::opaque]
pub open spec fn fill(rest: Seq<char>, args: Seq<(Seq<char>, Seq<char>)>) -> Seq<char>
    decreases rest.len(),
{
    let at = find_char(rest, '{');
    let after = rest.skip(at + 1);
    let end = find_char(after, '}');
    let name = after.take(end);
    if at >= rest.len() || at < 0 {
        rest
    } else if end >= after.len() || end < 0 {
        rest.take(at) + seq!['{'] + after
    } else {
        rest.take(at) + (match arg_lookup(args, name) {
            Some(v) => v,
            None => seq!['{'] + name + seq!['}'],
        }) + fill(after.skip(end + 1), args)
    }
}

fn find_arg<'a>(args: &[(&'a str, &'a str)], name: &[char]) -> (r: Option<&'a str>)
    ensures
        match arg_lookup(args_view(args@), name@) {
            Some(v) => r matches Some(x) && x@ == v,
            None => r is None,
        },
{
    let ghost av = args_view(args@);
    let mut i: usize = 0;
    assert(av.skip(0) == av);
    while i < args.len()
        invariant
            i <= args@.len(),
            av == args_view(args@),
            av.len() == args@.len(),
            arg_lookup(av, name@) == arg_lookup(av.skip(i as int), name@),
        decreases args@.len() - i,
    {
        let (k, v) = args[i];
        assert(av.skip(i as int)[0] == av[i as int]);
        let kc = chars_of(k);
        if chars_eq(kc.as_slice(), name) {
            return Some(v);
        }
        assert(av.skip(i as int).drop_first() == av.skip(i + 1));
        i = i + 1;
    }
    None
}

proof fn lemma_fill_step(rest: Seq<char>, args: Seq<(Seq<char>, Seq<char>)>, a: int, e: int)
    requires
        a == find_char(rest, '{'),
        0 <= a,
        a < rest.len() ==> e == find_char(rest.skip(a + 1), '}') && 0 <= e,
    ensures
        a >= rest.len() ==> fill(rest, args) == rest,
        a < rest.len() && e >= rest.len() - a - 1 ==> fill(rest, args) == rest.take(a) + seq!['{']
            + rest.skip(a + 1),
        a < rest.len() && e < rest.len() - a - 1 ==> fill(rest, args) == rest.take(a) + (match arg_lookup(
            args,
            rest.skip(a + 1).take(e),
        ) {
            Some(v) => v,
            None => seq!['{'] + rest.skip(a + 1).take(e) + seq!['}'],
        }) + fill(rest.skip(a + 1).skip(e + 1), args),
{
    reveal(fill);
}

fn push_range(out: &mut String, cs: &[char], lo: usize, hi: usize)
    requires
        lo <= hi <= cs@.len(),
    ensures
        final(out)@ == old(out)@ + cs@.subrange(lo as int, hi as int),
{
    let v = crate::text::slice_to_chars(cs, lo, hi);
    crate::text::push_chars(out, v.as_slice());
}

/// Fill `{placeholders}` from `args`. A placeholder with no argument is left
/// as it is rather than blanked, so the bug is on screen.
pub fn format(template: &str, args: &[(&str, &str)]) -> (r: String)
    ensures
        r@ == fill(template@, args_view(args@)),
{
    let ghost av = args_view(args@);
    let cs = chars_of(template);
    let n = cs.len();
    let mut out = String::new();
    let mut pos: usize = 0;
    assert(cs@.subrange(0, n as int) == cs@);
    loop
        invariant_except_break
            pos <= n,
            n == cs@.len(),
            cs@ == template@,
            av == args_view(args@),
            out@ + fill(cs@.subrange(pos as int, n as int), av) == fill(template@, av),
        ensures
            out@ == fill(template@, av),
        decreases n - pos,
    {
        let ghost rest = cs@.subrange(pos as int, n as int);
        let at = find_char_in(cs.as_slice(), pos, n, '{');
        proof {
            crate::text::lemma_find_char_props(rest, '{');
        }
        if at >= n {
            proof {
                lemma_fill_step(rest, av, at - pos, 0);
            }
            push_range(&mut out, cs.as_slice(), pos, n);
            break;
        }
        let ghost a = at - pos;
        let ghost after = rest.skip(a + 1);
        assert(rest.take(a) == cs@.subrange(pos as int, at as int));
        assert(after == cs@.subrange(at + 1, n as int));
        push_range(&mut out, cs.as_slice(), pos, at);
        let end = find_char_in(cs.as_slice(), at + 1, n, '}');
        proof {
            crate::text::lemma_find_char_props(after, '}');
            lemma_fill_step(rest, av, a, end - at - 1);
        }
        if end >= n {
            push_char(&mut out, '{');
            push_range(&mut out, cs.as_slice(), at + 1, n);
            break;
        }
        let name = crate::text::slice_to_chars(cs.as_slice(), at + 1, end);
        assert(name@ == after.take(end - at - 1));
        match find_arg(args, name.as_slice()) {
            Some(v) => push_str(&mut out, v),
            None => {
                push_char(&mut out, '{');
                crate::text::push_chars(&mut out, name.as_slice());
                push_char(&mut out, '}');
            },
        }
        assert(after.skip(end - at) == cs@.subrange(end + 1, n as int));
        pos = end + 1;
    }
    out
}

} // verus!

verus! {

// ── catalogues ───────────────────────────────────────────────────────────────

/// The value of the first entry with key `k`.
pub open spec fn cat_get(es: Seq<(Seq<char>, Seq<char>)>, k: Seq<char>) -> Option<Seq<char>>
    decreases es.len(),
{
    if es.len() == 0 {
        None
    } else if es[0].0 == k {
        Some(es[0].1)
    } else {
        cat_get(es.drop_first(), k)
    }
}

/// `es` with `k` set to `v`: the entry replaced where it stands, or added at
/// the end.
pub open spec fn put(es: Seq<(Seq<char>, Seq<char>)>, k: Seq<char>, v: Seq<char>) -> Seq<
    (Seq<char>, Seq<char>),
>
    decreases es.len(),
{
    if es.len() == 0 {
        seq![(k, v)]
    } else if es[0].0 == k {
        seq![(k, v)] + es.drop_first()
    } else {
        seq![es[0]] + put(es.drop_first(), k, v)
    }
}

/// Entries put one after another, later ones replacing earlier ones.
pub open spec fn put_all(es: Seq<(Seq<char>, Seq<char>)>, items: Seq<(Seq<char>, Seq<char>)>) -> Seq<
    (Seq<char>, Seq<char>),
>
    decreases items.len(),
{
    if items.len() == 0 {
        es
    } else {
        let prev = put_all(es, items.drop_last());
        put(prev, items.last().0, items.last().1)
    }
}

/// No key stands twice.
pub open spec fn keys_distinct(es: Seq<(Seq<char>, Seq<char>)>) -> bool {
    forall|i: int, j: int| 0 <= i < j < es.len() ==> es[i].0 != es[j].0
}

proof fn lemma_put_at(es: Seq<(Seq<char>, Seq<char>)>, k: Seq<char>, v: Seq<char>, p: int)
    requires
        0 <= p <= es.len(),
        forall|i: int| 0 <= i < p ==> (#[trigger] es[i]).0 != k,
        p < es.len() ==> es[p].0 == k,
    ensures
        put(es, k, v) == if p < es.len() {
            es.update(p, (k, v))
        } else {
            es.push((k, v))
        },
    decreases p,
{
    if p == 0 {
        if es.len() > 0 {
            assert(seq![(k, v)] + es.drop_first() =~= es.update(0, (k, v)));
        } else {
            assert(seq![(k, v)] =~= es.push((k, v)));
        }
    } else {
        let t = es.drop_first();
        assert forall|i: int| 0 <= i < p - 1 implies (#[trigger] t[i]).0 != k by {
            assert(t[i] == es[i + 1]);
        }
        lemma_put_at(t, k, v, p - 1);
        if p < es.len() {
            assert(seq![es[0]] + t.update(p - 1, (k, v)) =~= es.update(p, (k, v)));
        } else {
            assert(seq![es[0]] + t.push((k, v)) =~= es.push((k, v)));
        }
    }
}

/// One language's strings, id → text, each id once.
#[derive(Debug)]
pub struct Catalog {
    entries: Vec<(String, String)>,
}

/// The characters of stored entries.
pub open spec fn entries_view(v: Seq<(String, String)>) -> Seq<(Seq<char>, Seq<char>)> {
    v.map_values(|e: (String, String)| (e.0@, e.1@))
}

impl View for Catalog {
    type V = Seq<(Seq<char>, Seq<char>)>;

    closed spec fn view(&self) -> Seq<(Seq<char>, Seq<char>)> {
        entries_view(self.entries@)
    }
}

/// Set `k` to `v` in stored entries.
fn put_entry(entries: &mut Vec<(String, String)>, k: String, v: String)
    requires
        keys_distinct(entries_view(old(entries)@)),
    ensures
        entries_view(final(entries)@) == put(entries_view(old(entries)@), k@, v@),
        keys_distinct(entries_view(final(entries)@)),
{
    let ghost es = entries_view(entries@);
    let mut p: usize = 0;
    while p < entries.len()
        invariant
            p <= entries@.len(),
            es == entries_view(entries@),
            forall|i: int| 0 <= i < p ==> (#[trigger] es[i]).0 != k@,
        ensures
            p <= entries@.len(),
            forall|i: int| 0 <= i < p ==> (#[trigger] es[i]).0 != k@,
            p < entries@.len() ==> es[p as int].0 == k@,
        decreases entries@.len() - p,
    {
        assert(es[p as int].0 == entries@[p as int].0@);
        if str_eq(entries[p].0.as_str(), k.as_str()) {
            break;
        }
        p = p + 1;
    }
    proof {
        lemma_put_at(es, k@, v@, p as int);
    }
    if p < entries.len() {
        entries.set(p, (k, v));
    } else {
        entries.push((k, v));
    }
    assert(entries_view(entries@) =~= put(es, k@, v@));
}

impl Catalog {
    #[verifier::type_invariant]
    closed spec fn inv(self) -> bool {
        keys_distinct(entries_view(self.entries@))
    }

    /// A catalogue with no strings.
    pub fn empty() -> (r: Catalog)
        ensures
            r@ == Seq::<(Seq<char>, Seq<char>)>::empty(),
    {
        let r = Catalog { entries: Vec::new() };
        assert(r@ =~= Seq::empty());
        r
    }

    /// A catalogue from `(id, text)` pairs as read; a later pair for an id
    /// replaces an earlier one.
    pub fn from_pairs(pairs: Vec<(String, String)>) -> (r: Catalog)
        ensures
            r@ == put_all(Seq::empty(), entries_view(pairs@)),
            keys_distinct(r@),
    {
        let ghost pv = entries_view(pairs@);
        let mut rev: Vec<(String, String)> = Vec::new();
        let mut src = pairs;
        let ghost orig = src@;
        while src.len() > 0
            invariant
                src@ == orig.take(src@.len() as int),
                rev@.len() + src@.len() == orig.len(),
                forall|i: int| 0 <= i < rev@.len() ==> #[trigger] rev@[i] == orig[orig.len() - 1 - i],
            decreases src@.len(),
        {
            let x = src.pop().unwrap();
            rev.push(x);
        }
        let mut entries: Vec<(String, String)> = Vec::new();
        let ghost mut done: int = 0;
        assert(entries_view(entries@) =~= put_all(Seq::empty(), pv.take(0)));
        while rev.len() > 0
            invariant
                0 <= done <= orig.len(),
                pv == entries_view(orig),
                rev@.len() + done == orig.len(),
                forall|i: int| 0 <= i < rev@.len() ==> #[trigger] rev@[i] == orig[orig.len() - 1 - i],
                entries_view(entries@) == put_all(Seq::empty(), pv.take(done)),
                keys_distinct(entries_view(entries@)),
            decreases rev@.len(),
        {
            let (k, v) = rev.pop().unwrap();
            assert(pv[done] == (k@, v@));
            assert(pv.take(done + 1).drop_last() == pv.take(done));
            put_entry(&mut entries, k, v);
            proof {
                done = done + 1;
            }
        }
        assert(pv.take(orig.len() as int) == pv);
        Catalog { entries }
    }

    /// The text for `id`, if this catalogue has it.
    pub fn get(&self, id: &str) -> (r: Option<&str>)
        ensures
            match cat_get(self@, id@) {
                Some(v) => r matches Some(x) && x@ == v,
                None => r is None,
            },
    {
        let ghost es = self@;
        let mut i: usize = 0;
        assert(es.skip(0) == es);
        while i < self.entries.len()
            invariant
                i <= self.entries@.len(),
                es == self@,
                es == entries_view(self.entries@),
                cat_get(es, id@) == cat_get(es.skip(i as int), id@),
            decreases self.entries@.len() - i,
        {
            assert(es.skip(i as int)[0] == es[i as int]);
            if str_eq(self.entries[i].0.as_str(), id) {
                return Some(self.entries[i].1.as_str());
            }
            assert(es.skip(i as int).drop_first() == es.skip(i + 1));
            i = i + 1;
        }
        None
    }

    /// How many strings this catalogue has.
    pub fn len(&self) -> (r: usize)
        ensures
            r == self@.len(),
    {
        self.entries.len()
    }

    /// Whether this catalogue has no strings.
    pub fn is_empty(&self) -> (r: bool)
        ensures
            r == (self@.len() == 0),
    {
        self.entries.len() == 0
    }

    /// The `(id, text)` pairs, in order.
    pub fn pairs(&self) -> (r: Vec<(String, String)>)
        ensures
            entries_view(r@) == self@,
    {
        let mut out: Vec<(String, String)> = Vec::new();
        let mut i: usize = 0;
        while i < self.entries.len()
            invariant
                i <= self.entries@.len(),
                entries_view(out@) == entries_view(self.entries@).take(i as int),
            decreases self.entries@.len() - i,
        {
            let k = crate::text::string_from(self.entries[i].0.as_str());
            let v = crate::text::string_from(self.entries[i].1.as_str());
            let ghost e = entries_view(self.entries@)[i as int];
            assert(e == (self.entries@[i as int].0@, self.entries@[i as int].1@));
            assert(k@ == e.0 && v@ == e.1);
            let ghost before = entries_view(out@);
            out.push((k, v));
            assert(entries_view(out@) =~= before.push(e));
            assert(entries_view(self.entries@).take(i + 1) =~= entries_view(self.entries@).take(
                i as int,
            ).push(e));
            i = i + 1;
            assert(entries_view(out@) =~= entries_view(self.entries@).take(i as int));
        }
        assert(entries_view(self.entries@).take(self.entries@.len() as int) == entries_view(self.entries@));
        out
    }

    /// Set `id` to `text` (see [`put`]).
    pub fn insert(&mut self, id: String, text: String)
        ensures
            final(self)@ == put(old(self)@, id@, text@),
    {
        proof {
            use_type_invariant(&*self);
        }
        let mut entries: Vec<(String, String)> = Vec::new();
        std::mem::swap(&mut entries, &mut self.entries);
        put_entry(&mut entries, id, text);
        self.entries = entries;
    }
}

impl Clone for Catalog {
    fn clone(&self) -> (r: Catalog)
        ensures
            r@ == self@,
    {
        proof {
            use_type_invariant(self);
        }
        Catalog { entries: self.pairs() }
    }
}

} // verus!

verus! {

/// Every shipped language's catalogue, English first.
#[derive(Debug)]
pub struct Catalogs {
    tables: Vec<Catalog>,
}

impl View for Catalogs {
    type V = Seq<Seq<(Seq<char>, Seq<char>)>>;

    closed spec fn view(&self) -> Seq<Seq<(Seq<char>, Seq<char>)>> {
        self.tables@.map_values(|c: Catalog| c@)
    }
}

/// The text for `id` in `lang`, falling back to English key by key.
pub open spec fn lookup_spec(cats: Seq<Seq<(Seq<char>, Seq<char>)>>, lang: Lang, id: Seq<char>) -> Option<
    Seq<char>,
> {
    match cat_get(cats[lang_index(lang) as int], id) {
        Some(v) => Some(v),
        None => cat_get(cats[0], id),
    }
}

/// One string, resolved and formatted; an id missing from every language
/// comes back as the id itself.
pub open spec fn t_spec(
    cats: Seq<Seq<(Seq<char>, Seq<char>)>>,
    lang: Lang,
    id: Seq<char>,
    args: Seq<(Seq<char>, Seq<char>)>,
) -> Seq<char> {
    match lookup_spec(cats, lang, id) {
        Some(s) => fill(s, args),
        None => id,
    }
}

/// Whether `id` is one of the first-run prose strings.
pub open spec fn intro_prose(id: Seq<char>) -> bool {
    crate::hymnal::has_prefix(id, "intro.welcome."@) || crate::hymnal::has_prefix(
        id,
        "intro.curious."@,
    )
}

impl Catalogs {
    #[verifier::type_invariant]
    closed spec fn inv(self) -> bool {
        self.tables@.len() == LANG_COUNT
    }

    /// Every language with an empty catalogue.
    pub fn new() -> (r: Catalogs)
        ensures
            r@.len() == LANG_COUNT,
            forall|i: int| 0 <= i < LANG_COUNT ==> (#[trigger] r@[i]).len() == 0,
    {
        let mut tables: Vec<Catalog> = Vec::new();
        let mut i: usize = 0;
        while i < LANG_COUNT
            invariant
                i <= LANG_COUNT,
                tables@.len() == i,
                forall|j: int| 0 <= j < i ==> (#[trigger] tables@[j])@.len() == 0,
            decreases LANG_COUNT - i,
        {
            tables.push(Catalog::empty());
            i = i + 1;
        }
        Catalogs { tables }
    }

    /// How many catalogues there are: one per shipped language.
    pub fn count(&self) -> (r: usize)
        ensures
            r == self@.len(),
            r == LANG_COUNT,
    {
        proof {
            use_type_invariant(self);
        }
        self.tables.len()
    }

    /// Install `lang`'s catalogue.
    pub fn set(&mut self, lang: Lang, cat: Catalog)
        ensures
            final(self)@ == old(self)@.update(lang_index(lang) as int, cat@),
    {
        proof {
            use_type_invariant(&*self);
        }
        let i = lang.index();
        let mut tables = Catalogs::new().tables;
        std::mem::swap(&mut tables, &mut self.tables);
        tables.set(i, cat);
        self.tables = tables;
        assert(self@ =~= old(self)@.update(lang_index(lang) as int, cat@));
    }

    /// `lang`'s own catalogue.
    pub fn table(&self, lang: Lang) -> (r: &Catalog)
        ensures
            r@ == self@[lang_index(lang) as int],
            self@.len() == LANG_COUNT,
    {
        proof {
            use_type_invariant(self);
        }
        &self.tables[lang.index()]
    }
}

/// A copy of one language's catalogue.
pub fn catalog(cats: &Catalogs, lang: Lang) -> (r: Catalog)
    ensures
        r@ == cats@[lang_index(lang) as int],
{
    cats.table(lang).clone()
}

/// The catalogue a shell should paint with: `lang`'s strings laid over
/// English, so every key is present even where the translation is not.
pub fn resolved(cats: &Catalogs, lang: Lang) -> (r: Catalog)
    ensures
        r@ == (if lang == Lang::En {
            cats@[0]
        } else {
            put_all(cats@[0], cats@[lang_index(lang) as int])
        }),
{
    let mut out = cats.table(Lang::En).clone();
    if lang == Lang::En {
        return out;
    }
    let mine = cats.table(lang).pairs();
    let ghost mv = entries_view(mine@);
    let ghost base = out@;
    let mut i: usize = 0;
    assert(mv.take(0) =~= Seq::<(Seq<char>, Seq<char>)>::empty());
    while i < mine.len()
        invariant
            i <= mine@.len(),
            mv == entries_view(mine@),
            out@ == put_all(base, mv.take(i as int)),
        decreases mine@.len() - i,
    {
        let k = crate::text::string_from(mine[i].0.as_str());
        let v = crate::text::string_from(mine[i].1.as_str());
        assert(mv[i as int] == (k@, v@));
        assert(mv.take(i + 1).drop_last() == mv.take(i as int));
        out.insert(k, v);
        i = i + 1;
    }
    assert(mv.take(mv.len() as int) == mv);
    out
}

/// Keys English has that `lang` does not, in English's order. Empty for
/// English.
pub fn missing(cats: &Catalogs, lang: Lang) -> (r: Vec<String>)
    ensures
        r@.map_values(|s: String| s@) == cats@[0].map_values(
            |e: (Seq<char>, Seq<char>)| e.0,
        ).filter(|k: Seq<char>| cat_get(cats@[lang_index(lang) as int], k) is None),
{
    let en = cats.table(Lang::En).pairs();
    let mine = cats.table(lang);
    let ghost keys = cats@[0].map_values(|e: (Seq<char>, Seq<char>)| e.0);
    let ghost f = |k: Seq<char>| cat_get(cats@[lang_index(lang) as int], k) is None;
    let mut out: Vec<String> = Vec::new();
    let mut i: usize = 0;
    assert(keys.take(0) =~= Seq::<Seq<char>>::empty());
    proof {
        reveal(Seq::filter);
    }
    while i < en.len()
        invariant
            i <= en@.len(),
            entries_view(en@) == cats@[0],
            keys == cats@[0].map_values(|e: (Seq<char>, Seq<char>)| e.0),
            keys.len() == en@.len(),
            mine@ == cats@[lang_index(lang) as int],
            f == (|k: Seq<char>| cat_get(cats@[lang_index(lang) as int], k) is None),
            out@.map_values(|s: String| s@) == keys.take(i as int).filter(f),
        decreases en@.len() - i,
    {
        let k = en[i].0.as_str();
        assert(keys[i as int] == k@) by {
            assert(entries_view(en@)[i as int] == (en@[i as int].0@, en@[i as int].1@));
        }
        let ghost prev = out@.map_values(|s: String| s@);
        assert(keys.take(i + 1).drop_last() == keys.take(i as int));
        assert(keys.take(i + 1).last() == k@);
        proof {
            reveal(Seq::filter);
        }
        if mine.get(k).is_none() {
            out.push(crate::text::string_from(k));
            assert(out@.map_values(|s: String| s@) =~= prev.push(k@));
        }
        i = i + 1;
    }
    assert(keys.take(keys.len() as int) == keys);
    out
}

/// One string, resolved and formatted. An id missing from every language
/// comes back as the id itself.
pub fn t(cats: &Catalogs, lang: Lang, id: &str, args: &[(&str, &str)]) -> (r: String)
    ensures
        r@ == t_spec(cats@, lang, id@, args_view(args@)),
{
    let found = match cats.table(lang).get(id) {
        Some(s) => Some(s),
        None => cats.table(Lang::En).get(id),
    };
    match found {
        Some(s) => format(s, args),
        None => crate::text::string_from(id),
    }
}

/// A book's name in `lang`, by OSIS id: the language's `book.<id>` string
/// when it has one, else the canon's English name.
pub fn book_name(cats: &Catalogs, lang: Lang, osis: &str) -> (r: String)
    ensures
        lang != Lang::En && cat_get(cats@[lang_index(lang) as int], "book."@ + osis@) is Some ==> r@
            == cat_get(cats@[lang_index(lang) as int], "book."@ + osis@).unwrap(),
        !(lang != Lang::En && cat_get(cats@[lang_index(lang) as int], "book."@ + osis@) is Some)
            ==> {
            &&& crate::canon::no_such_id(osis@) ==> r@ == osis@
            &&& forall|i: usize|
                crate::canon::is_first_id(i, osis@) ==> r@ == crate::canon::book_row(i).name@
        },
{
    if lang != Lang::En {
        let mut key = crate::text::string_from("book.");
        push_str(&mut key, osis);
        if let Some(name) = cats.table(lang).get(key.as_str()) {
            return crate::text::string_from(name);
        }
    }
    crate::text::string_from(crate::canon::display_name(osis))
}

/// Pick between a one-form and a many-form key, lending the count to both as
/// `{n}`.
pub fn plural(
    cats: &Catalogs,
    lang: Lang,
    id_one: &str,
    id_other: &str,
    n: u64,
    args: &[(&str, &str)],
) -> (r: String)
    ensures
        r@ == t_spec(
            cats@,
            lang,
            if n == 1 {
                id_one@
            } else {
                id_other@
            },
            seq![("n"@, crate::text::dec(n as nat))] + args_view(args@),
        ),
{
    let count = crate::text::dec_string(n);
    let mut all: Vec<(&str, &str)> = Vec::new();
    all.push(("n", count.as_str()));
    let mut i: usize = 0;
    while i < args.len()
        invariant
            i <= args@.len(),
            args_view(all@) == seq![("n"@, count@)] + args_view(args@).take(i as int),
        decreases args@.len() - i,
    {
        let ghost before = args_view(all@);
        let a = args[i];
        all.push(a);
        assert(args_view(all@) =~= before.push((a.0@, a.1@)));
        assert(args_view(args@)[i as int] == (a.0@, a.1@));
        assert(args_view(args@).take(i + 1) =~= args_view(args@).take(i as int).push((a.0@, a.1@)));
        i = i + 1;
    }
    assert(args_view(args@).take(args@.len() as int) == args_view(args@));
    t(cats, lang, if n == 1 {
        id_one
    } else {
        id_other
    }, all.as_slice())
}

/// Whether `id` is one of the first-run prose strings: the two welcomes that
/// address the reader's own life rather than the app.
pub fn is_intro_prose(id: &str) -> (r: bool)
    ensures
        r == intro_prose(id@),
{
    let cs = chars_of(id);
    let a = chars_of("intro.welcome.");
    let b = chars_of("intro.curious.");
    let n = cs.len();
    assert(cs@.subrange(0, n as int) == cs@);
    crate::hymnal::starts_with_at(cs.as_slice(), 0, n, a.as_slice())
        || crate::hymnal::starts_with_at(cs.as_slice(), 0, n, b.as_slice())
}

/// Whether `lang`'s own catalogue carries all of the first-run prose English
/// has (always, for English).
pub fn has_native_intros(cats: &Catalogs, lang: Lang) -> (r: bool)
    ensures
        r == native_intros(cats@, lang),
{
    if lang == Lang::En {
        return true;
    }
    let en = cats.table(Lang::En).pairs();
    let mine = cats.table(lang);
    let mut any = false;
    let mut i: usize = 0;
    while i < en.len()
        invariant
            i <= en@.len(),
            entries_view(en@) == cats@[0],
            mine@ == cats@[lang_index(lang) as int],
            lang != Lang::En,
            any == (exists|j: int| 0 <= j < i && intro_prose(#[trigger] cats@[0][j].0)),
            forall|j: int|
                0 <= j < i && intro_prose(#[trigger] cats@[0][j].0) ==> cat_get(
                    cats@[lang_index(lang) as int],
                    cats@[0][j].0,
                ) is Some,
        decreases en@.len() - i,
    {
        let k = en[i].0.as_str();
        assert(cats@[0][i as int].0 == k@) by {
            assert(entries_view(en@)[i as int] == (en@[i as int].0@, en@[i as int].1@));
        }
        if is_intro_prose(k) {
            any = true;
            if mine.get(k).is_none() {
                return false;
            }
        }
        i = i + 1;
    }
    any
}


// ── the laws of a string lookup ──────────────────────────────────────────────

proof fn lemma_get_put(es: Seq<(Seq<char>, Seq<char>)>, k: Seq<char>, v: Seq<char>, q: Seq<char>)
    ensures
        cat_get(put(es, k, v), q) == if q == k { Some(v) } else { cat_get(es, q) },
    decreases es.len(),
{
    reveal_with_fuel(cat_get, 2);
    let p = put(es, k, v);
    if es.len() == 0 {
        assert(p.drop_first() =~= Seq::<(Seq<char>, Seq<char>)>::empty());
    }
    if es.len() > 0 && es[0].0 != k {
        lemma_get_put(es.drop_first(), k, v, q);
        assert((seq![es[0]] + put(es.drop_first(), k, v)).drop_first() =~= put(es.drop_first(), k, v));
    } else if es.len() > 0 {
        assert((seq![(k, v)] + es.drop_first()).drop_first() =~= es.drop_first());
    }
}

proof fn lemma_get_last(es: Seq<(Seq<char>, Seq<char>)>, q: Seq<char>)
    requires
        es.len() > 0,
        keys_distinct(es),
    ensures
        cat_get(es, q) == if es.last().0 == q { Some(es.last().1) } else { cat_get(es.drop_last(), q) },
    decreases es.len(),
{
    reveal_with_fuel(cat_get, 2);
    if es.len() == 1 {
        assert(es.drop_first() =~= Seq::<(Seq<char>, Seq<char>)>::empty());
        assert(es.drop_last() =~= Seq::<(Seq<char>, Seq<char>)>::empty());
    }
    if es.len() > 1 {
        let t = es.drop_first();
        assert(keys_distinct(t)) by {
            assert forall|i: int, j: int| 0 <= i < j < t.len() implies t[i].0 != t[j].0 by {
                assert(t[i] == es[i + 1] && t[j] == es[j + 1]);
            }
        }
        lemma_get_last(t, q);
        assert(t.last() == es.last());
        assert(t.drop_last() =~= es.drop_last().drop_first());
        assert(es.drop_last()[0] == es[0]);
        if es[0].0 == q {
            assert(es[0].0 != es[es.len() - 1].0);
        }
    }
}

proof fn lemma_get_put_all(es: Seq<(Seq<char>, Seq<char>)>, items: Seq<(Seq<char>, Seq<char>)>, q: Seq<char>)
    requires
        keys_distinct(items),
    ensures
        cat_get(put_all(es, items), q) == match cat_get(items, q) {
            Some(v) => Some(v),
            None => cat_get(es, q),
        },
    decreases items.len(),
{
    if items.len() > 0 {
        let d = items.drop_last();
        assert(keys_distinct(d)) by {
            assert forall|i: int, j: int| 0 <= i < j < d.len() implies d[i].0 != d[j].0 by {
                assert(d[i] == items[i] && d[j] == items[j]);
            }
        }
        lemma_get_put_all(es, d, q);
        lemma_get_put(put_all(es, d), items.last().0, items.last().1, q);
        lemma_get_last(items, q);
    }
}

/// A string comes from the language's catalogue laid over English: [`t`]
/// looks `id` up in that combined catalogue and fills it in, and an id found
/// nowhere comes back as itself.
pub proof fn lemma_t_reads_the_resolved_catalogue(
    cats: Seq<Seq<(Seq<char>, Seq<char>)>>,
    lang: Lang,
    id: Seq<char>,
    args: Seq<(Seq<char>, Seq<char>)>,
)
    requires
        cats.len() == LANG_COUNT,
        forall|i: int| 0 <= i < cats.len() ==> keys_distinct(#[trigger] cats[i]),
    ensures
        t_spec(cats, lang, id, args) == match cat_get(
            if lang == Lang::En { cats[0] } else { put_all(cats[0], cats[lang_index(lang) as int]) },
            id,
        ) {
            Some(s) => fill(s, args),
            None => id,
        },
{
    if lang != Lang::En {
        assert(0 <= lang_index(lang) < LANG_COUNT);
        lemma_get_put_all(cats[0], cats[lang_index(lang) as int], id);
    } else {
        assert(lang_index(lang) == 0);
    }
}


/// Whether `lang` has the first-run prose of its own: English always; any
/// other language when English has intro strings and it has every one.
pub open spec fn native_intros(cats: Seq<Seq<(Seq<char>, Seq<char>)>>, lang: Lang) -> bool {
    lang == Lang::En || ((exists|i: int| 0 <= i < cats[0].len() && intro_prose(#[trigger] cats[0][i].0))
        && forall|i: int|
        0 <= i < cats[0].len() && intro_prose(#[trigger] cats[0][i].0) ==> cat_get(cats[lang_index(lang) as int], cats[0][i].0)
            is Some)
}

proof fn lemma_get_present(es: Seq<(Seq<char>, Seq<char>)>, i: int)
    requires
        0 <= i < es.len(),
    ensures
        cat_get(es, es[i].0) is Some,
    decreases es.len(),
{
    if i > 0 && es[0].0 != es[i].0 {
        lemma_get_present(es.drop_first(), i - 1);
        assert(es.drop_first()[i - 1] == es[i]);
    }
}

/// The native-intros test and the catalogue's words always agree: once
/// English has intro strings, a language (English included) has intros of
/// its own exactly when its catalogue holds every English intro string.
pub proof fn lemma_native_intros_are_the_english_keys(cats: Seq<Seq<(Seq<char>, Seq<char>)>>, lang: Lang)
    requires
        cats.len() == LANG_COUNT,
        exists|i: int| 0 <= i < cats[0].len() && intro_prose(#[trigger] cats[0][i].0),
    ensures
        native_intros(cats, lang) == forall|i: int|
            0 <= i < cats[0].len() && intro_prose(#[trigger] cats[0][i].0) ==> cat_get(cats[lang_index(lang) as int], cats[0][i].0)
                is Some,
{
    if lang == Lang::En {
        assert(lang_index(lang) == 0);
        assert forall|i: int| 0 <= i < cats[0].len() && intro_prose(#[trigger] cats[0][i].0) implies cat_get(
            cats[lang_index(lang) as int],
            cats[0][i].0,
        ) is Some by {
            lemma_get_present(cats[0], i);
        }
    }
}

} // verus!
