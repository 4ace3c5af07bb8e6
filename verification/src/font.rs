//! The type axes: which face paints scripture, and which paints the chrome.
//!
//! The core owns the vocabulary (which faces exist, what each can do); the font
//! files themselves are shell assets. A face without a real italic never gets
//! a synthesised one: translator-supplied words are then told apart by the
//! palette's tone alone.

use vstd::prelude::*;

use crate::i18n::{lang_script, Lang, Script};

verus! {

/// A face the reader can choose, for either type axis.
#[derive(Debug, Clone, Copy, PartialEq, Eq, Structural)]
pub enum Font {
    /// The shipped default on both axes: a Garamond revival.
    EbGaramond,
    /// A contemporary reading serif drawn for screens.
    Literata,
    /// A neutral, tightly-fitted UI sans.
    Inter,
    /// A monospace; the only Latin face with no italic.
    FiraCode,
    /// The low-vision face: exaggerated letterform distinctions.
    AtkinsonHyperlegible,
    /// The naskh face, the only bundled face with an Arabic glyph.
    Amiri,
    /// The Gurmukhi face.
    NotoSerifGurmukhi,
    /// The Devanagari face.
    NotoSerifDevanagari,
    /// The Han face, serving both Chinese rows.
    NotoSerifTC,
}

impl Default for Font {
    /// The shipped default face.
    fn default() -> (r: Font)
        ensures
            r == Font::EbGaramond,
    {
        Font::EbGaramond
    }
}

/// The wire/config token of a face.
pub open spec fn font_token(f: Font) -> Seq<char> {
    match f {
        Font::EbGaramond => "eb-garamond"@,
        Font::Literata => "literata"@,
        Font::Inter => "inter"@,
        Font::FiraCode => "fira-code"@,
        Font::AtkinsonHyperlegible => "atkinson-hyperlegible"@,
        Font::Amiri => "amiri"@,
        Font::NotoSerifGurmukhi => "noto-serif-gurmukhi"@,
        Font::NotoSerifDevanagari => "noto-serif-devanagari"@,
        Font::NotoSerifTC => "noto-serif-tc"@,
    }
}

/// The face a token names, if this build ships it.
pub open spec fn font_of(t: Seq<char>) -> Option<Font> {
    if t == "eb-garamond"@ {
        Some(Font::EbGaramond)
    } else if t == "literata"@ {
        Some(Font::Literata)
    } else if t == "inter"@ {
        Some(Font::Inter)
    } else if t == "fira-code"@ {
        Some(Font::FiraCode)
    } else if t == "atkinson-hyperlegible"@ {
        Some(Font::AtkinsonHyperlegible)
    } else if t == "amiri"@ {
        Some(Font::Amiri)
    } else if t == "noto-serif-gurmukhi"@ {
        Some(Font::NotoSerifGurmukhi)
    } else if t == "noto-serif-devanagari"@ {
        Some(Font::NotoSerifDevanagari)
    } else if t == "noto-serif-tc"@ {
        Some(Font::NotoSerifTC)
    } else {
        None
    }
}

/// The script a face can set.
pub open spec fn font_script(f: Font) -> Script {
    match f {
        Font::EbGaramond | Font::Literata | Font::Inter | Font::FiraCode
        | Font::AtkinsonHyperlegible => Script::Latin,
        Font::Amiri => Script::Arabic,
        Font::NotoSerifGurmukhi => Script::Gurmukhi,
        Font::NotoSerifDevanagari => Script::Devanagari,
        Font::NotoSerifTC => Script::Han,
    }
}

/// Every face in picker order, default first.
pub open spec fn font_at(i: int) -> Font {
    if i == 0 {
        Font::EbGaramond
    } else if i == 1 {
        Font::Literata
    } else if i == 2 {
        Font::Inter
    } else if i == 3 {
        Font::FiraCode
    } else if i == 4 {
        Font::AtkinsonHyperlegible
    } else if i == 5 {
        Font::Amiri
    } else if i == 6 {
        Font::NotoSerifGurmukhi
    } else if i == 7 {
        Font::NotoSerifDevanagari
    } else {
        Font::NotoSerifTC
    }
}

/// The faces of `fonts` (a prefix of the picker order) that can set `s`.
pub open spec fn fonts_for(n: nat, s: Script) -> Seq<Font>
    decreases n,
{
    if n == 0 {
        Seq::empty()
    } else if font_script(font_at(n - 1)) == s {
        fonts_for((n - 1) as nat, s).push(font_at(n - 1))
    } else {
        fonts_for((n - 1) as nat, s)
    }
}

/// The number of faces.
pub const FONT_COUNT: usize = 9;

impl Font {
    /// The wire/config token. Frozen once written into a reader's config.
    pub fn token(self) -> (r: &'static str)
        ensures
            r@ == font_token(self),
    {
        match self {
            Font::EbGaramond => "eb-garamond",
            Font::Literata => "literata",
            Font::Inter => "inter",
            Font::FiraCode => "fira-code",
            Font::AtkinsonHyperlegible => "atkinson-hyperlegible",
            Font::Amiri => "amiri",
            Font::NotoSerifGurmukhi => "noto-serif-gurmukhi",
            Font::NotoSerifDevanagari => "noto-serif-devanagari",
            Font::NotoSerifTC => "noto-serif-tc",
        }
    }

    /// A token back to a face; `None` for anything this build does not ship.
    pub fn parse(t: &str) -> (r: Option<Font>)
        ensures
            r == font_of(t@),
    {
        if crate::text::str_eq(t, "eb-garamond") {
            Some(Font::EbGaramond)
        } else if crate::text::str_eq(t, "literata") {
            Some(Font::Literata)
        } else if crate::text::str_eq(t, "inter") {
            Some(Font::Inter)
        } else if crate::text::str_eq(t, "fira-code") {
            Some(Font::FiraCode)
        } else if crate::text::str_eq(t, "atkinson-hyperlegible") {
            Some(Font::AtkinsonHyperlegible)
        } else if crate::text::str_eq(t, "amiri") {
            Some(Font::Amiri)
        } else if crate::text::str_eq(t, "noto-serif-gurmukhi") {
            Some(Font::NotoSerifGurmukhi)
        } else if crate::text::str_eq(t, "noto-serif-devanagari") {
            Some(Font::NotoSerifDevanagari)
        } else if crate::text::str_eq(t, "noto-serif-tc") {
            Some(Font::NotoSerifTC)
        } else {
            None
        }
    }

    /// The face's own name, as its designers spell it.
    pub fn name(self) -> (r: &'static str)
        ensures
            r@ == match self {
                Font::EbGaramond => "EB Garamond"@,
                Font::Literata => "Literata"@,
                Font::Inter => "Inter"@,
                Font::FiraCode => "Fira Code"@,
                Font::AtkinsonHyperlegible => "Atkinson Hyperlegible"@,
                Font::Amiri => "Amiri"@,
                Font::NotoSerifGurmukhi => "Noto Serif Gurmukhi"@,
                Font::NotoSerifDevanagari => "Noto Serif Devanagari"@,
                Font::NotoSerifTC => "Noto Serif TC"@,
            },
    {
        match self {
            Font::EbGaramond => "EB Garamond",
            Font::Literata => "Literata",
            Font::Inter => "Inter",
            Font::FiraCode => "Fira Code",
            Font::AtkinsonHyperlegible => "Atkinson Hyperlegible",
            Font::Amiri => "Amiri",
            Font::NotoSerifGurmukhi => "Noto Serif Gurmukhi",
            Font::NotoSerifDevanagari => "Noto Serif Devanagari",
            Font::NotoSerifTC => "Noto Serif TC",
        }
    }

    /// Whether this face ships a real italic. The non-Latin faces and the
    /// monospace bundle none.
    pub fn has_italic(self) -> (r: bool)
        ensures
            r == !(self == Font::FiraCode || self == Font::Amiri || self == Font::NotoSerifGurmukhi
                || self == Font::NotoSerifDevanagari || self == Font::NotoSerifTC),
    {
        match self {
            Font::FiraCode | Font::Amiri | Font::NotoSerifGurmukhi | Font::NotoSerifDevanagari
            | Font::NotoSerifTC => false,
            _ => true,
        }
    }

    /// Whether this face ships its bold as separate static files rather than
    /// a weight axis.
    pub fn static_bold(self) -> (r: bool)
        ensures
            r == (self == Font::AtkinsonHyperlegible),
    {
        match self {
            Font::AtkinsonHyperlegible => true,
            _ => false,
        }
    }

    /// The script this face can set.
    pub fn script(self) -> (r: Script)
        ensures
            r == font_script(self),
    {
        match self {
            Font::EbGaramond | Font::Literata | Font::Inter | Font::FiraCode
            | Font::AtkinsonHyperlegible => Script::Latin,
            Font::Amiri => Script::Arabic,
            Font::NotoSerifGurmukhi => Script::Gurmukhi,
            Font::NotoSerifDevanagari => Script::Devanagari,
            Font::NotoSerifTC => Script::Han,
        }
    }

    /// Whether this face is offered to a reader of `lang`: exactly when it can
    /// set the language's script.
    pub fn offered_for(self, lang: Lang) -> (r: bool)
        ensures
            r == (font_script(self) == lang_script(lang)),
    {
        let a = self.script();
        let b = lang.script();
        match (a, b) {
            (Script::Latin, Script::Latin) => true,
            (Script::Arabic, Script::Arabic) => true,
            (Script::Gurmukhi, Script::Gurmukhi) => true,
            (Script::Devanagari, Script::Devanagari) => true,
            (Script::Han, Script::Han) => true,
            _ => false,
        }
    }

    /// Every face in picker order, default first.
    pub fn all() -> (r: Vec<Font>)
        ensures
            r@.len() == FONT_COUNT,
            forall|i: int| 0 <= i < FONT_COUNT ==> r@[i] == font_at(i),
    {
        vec![Font::EbGaramond, Font::Literata, Font::Inter, Font::FiraCode, Font::AtkinsonHyperlegible, Font::Amiri, Font::NotoSerifGurmukhi, Font::NotoSerifDevanagari, Font::NotoSerifTC
        ]
    }

    /// The faces offered to a reader of `lang`, in picker order.
    pub fn all_for(lang: Lang) -> (r: Vec<Font>)
        ensures
            r@ == fonts_for(FONT_COUNT as nat, lang_script(lang)),
    {
        let all = Font::all();
        let mut out: Vec<Font> = Vec::new();
        let mut i: usize = 0;
        while i < all.len()
            invariant
                i <= all@.len(),
                all@.len() == FONT_COUNT,
                forall|j: int| 0 <= j < FONT_COUNT ==> all@[j] == font_at(j),
                out@ == fonts_for(i as nat, lang_script(lang)),
            decreases all@.len() - i,
        {
            let f = all[i];
            if f.offered_for(lang) {
                out.push(f);
            }
            i = i + 1;
        }
        out
    }
}

/// Every face's token parses back to that face.
pub proof fn lemma_font_token_round_trip(f: Font)
    ensures
        font_of(font_token(f)) == Some(f),
{
    reveal_strlit("eb-garamond");
    reveal_strlit("literata");
    reveal_strlit("inter");
    reveal_strlit("fira-code");
    reveal_strlit("atkinson-hyperlegible");
    reveal_strlit("amiri");
    reveal_strlit("noto-serif-gurmukhi");
    reveal_strlit("noto-serif-devanagari");
    reveal_strlit("noto-serif-tc");
    assert("eb-garamond"@.len() == 11);
    assert("literata"@.len() == 8);
    assert("inter"@.len() == 5);
    assert("fira-code"@.len() == 9);
    assert("atkinson-hyperlegible"@.len() == 21);
    assert("amiri"@.len() == 5);
    assert("noto-serif-gurmukhi"@.len() == 19);
    assert("noto-serif-devanagari"@.len() == 21);
    assert("noto-serif-tc"@.len() == 13);
    assert("inter"@[0] != "amiri"@[0]);
    assert("atkinson-hyperlegible"@[0] != "noto-serif-devanagari"@[0]);
}

/// Every shipped language is offered at least one face.
pub proof fn lemma_every_language_has_a_face(l: Lang)
    ensures
        fonts_for(FONT_COUNT as nat, lang_script(l)).len() > 0,
{
    reveal_with_fuel(fonts_for, 11);
}

} // verus!
