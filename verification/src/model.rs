//! The UI-agnostic data model: styled words, verses, and the structural
//! containers built from whole-module scans.

use vstd::prelude::*;

verus! {

/// How a segment should be rendered or interpreted.
#[derive(Debug, Clone, Copy, PartialEq, Eq, Structural)]
pub enum SegmentStyle {
    Plain,
    /// Supplied words (italics / brackets).
    Added,
    /// Words of Christ.
    RedLetter,
    /// Footnotes or annotations.
    Note,
}

/// Lexical metadata attached to a word.
#[derive(Debug, Clone)]
pub struct LexicalInfo {
    /// Strong's numbers, e.g. "G3056"; a word can carry several.
    pub strongs: Vec<String>,
    /// Greek/Hebrew lemma.
    pub lemma: Option<String>,
    /// Short gloss, e.g. "word, speech".
    pub gloss: Option<String>,
    /// Decoded morphological tag.
    pub morph: Option<String>,
}

/// Mathematical model of a `LexicalInfo`.
pub struct LexicalInfoV {
    pub strongs: Seq<Seq<char>>,
    pub lemma: Option<Seq<char>>,
    pub gloss: Option<Seq<char>>,
    pub morph: Option<Seq<char>>,
}

impl View for LexicalInfo {
    type V = LexicalInfoV;

    open spec fn view(&self) -> LexicalInfoV {
        LexicalInfoV {
            strongs: self.strongs.deep_view(),
            lemma: match self.lemma {
                Some(ref s) => Some(s@),
                None => None,
            },
            gloss: match self.gloss {
                Some(ref s) => Some(s@),
                None => None,
            },
            morph: match self.morph {
                Some(ref s) => Some(s@),
                None => None,
            },
        }
    }
}

impl DeepView for LexicalInfo {
    type V = LexicalInfoV;

    open spec fn deep_view(&self) -> LexicalInfoV {
        self@
    }
}

/// A single renderable word or punctuation mark.
#[derive(Debug, Clone)]
pub struct Word {
    pub text: String,
    pub style: SegmentStyle,
    pub is_red: bool,
    pub is_italic: bool,
    pub is_bold_text: bool,
    /// Lexicon and dictionary hooks.
    pub lex: Option<LexicalInfo>,
    /// Footnote attached to this word.
    pub note: Option<String>,
    /// Grouping flags for Added / red-letter spans.
    pub is_first_in_group: bool,
    pub is_last_in_group: bool,
    /// Layout hint.
    pub is_punctuation: bool,
}

/// Mathematical model of a `Word`.
pub struct WordV {
    pub text: Seq<char>,
    pub style: SegmentStyle,
    pub is_red: bool,
    pub is_italic: bool,
    pub is_bold_text: bool,
    pub lex: Option<LexicalInfoV>,
    pub note: Option<Seq<char>>,
    pub is_first_in_group: bool,
    pub is_last_in_group: bool,
    pub is_punctuation: bool,
}

impl View for Word {
    type V = WordV;

    open spec fn view(&self) -> WordV {
        WordV {
            text: self.text@,
            style: self.style,
            is_red: self.is_red,
            is_italic: self.is_italic,
            is_bold_text: self.is_bold_text,
            lex: match self.lex {
                Some(ref l) => Some(l@),
                None => None,
            },
            note: match self.note {
                Some(ref s) => Some(s@),
                None => None,
            },
            is_first_in_group: self.is_first_in_group,
            is_last_in_group: self.is_last_in_group,
            is_punctuation: self.is_punctuation,
        }
    }
}

impl DeepView for Word {
    type V = WordV;

    open spec fn deep_view(&self) -> WordV {
        self@
    }
}

impl Default for Word {
    /// An empty Plain word with no flags set.
    fn default() -> (r: Word)
        ensures
            r@.text.len() == 0,
            r@.style == SegmentStyle::Plain,
            !r@.is_red,
            !r@.is_italic,
            !r@.is_bold_text,
            r@.lex is None,
            r@.note is None,
            !r@.is_first_in_group,
            !r@.is_last_in_group,
            !r@.is_punctuation,
    {
        Word {
            text: String::new(),
            lex: None,
            style: SegmentStyle::Plain,
            is_red: false,
            is_italic: false,
            is_bold_text: false,
            is_punctuation: false,
            is_first_in_group: false,
            is_last_in_group: false,
            note: None,
        }
    }
}

/// A full verse, UI-agnostic.
#[derive(Debug, Clone)]
pub struct Verse {
    pub osis_id: String,
    /// Parsed from the key's final `.`/`:`-delimited segment; 0 if unparseable.
    pub number: i32,
    pub words: Vec<Word>,
    /// Unattached footnote / cross-reference strings.
    pub notes: Vec<String>,
    /// Paragraph indentation hint.
    pub is_paragraph_start: bool,
}

/// Mathematical model of a `Verse`.
pub struct VerseV {
    pub osis_id: Seq<char>,
    pub number: i32,
    pub words: Seq<WordV>,
    pub notes: Seq<Seq<char>>,
    pub is_paragraph_start: bool,
}

impl View for Verse {
    type V = VerseV;

    open spec fn view(&self) -> VerseV {
        VerseV {
            osis_id: self.osis_id@,
            number: self.number,
            words: self.words.deep_view(),
            notes: self.notes.deep_view(),
            is_paragraph_start: self.is_paragraph_start,
        }
    }
}

impl DeepView for Verse {
    type V = VerseV;

    open spec fn deep_view(&self) -> VerseV {
        self@
    }
}

/// A chapter of a book, as the whole-module scan builds it.
#[derive(Debug, Clone)]
pub struct Chapter {
    pub title: String,
    pub osis_ref: String,
    pub number: String,
    pub verses: Vec<Verse>,
}

/// Mathematical model of a `Chapter`.
pub struct ChapterV {
    pub title: Seq<char>,
    pub osis_ref: Seq<char>,
    pub number: Seq<char>,
    pub verses: Seq<VerseV>,
}

impl View for Chapter {
    type V = ChapterV;

    open spec fn view(&self) -> ChapterV {
        ChapterV {
            title: self.title@,
            osis_ref: self.osis_ref@,
            number: self.number@,
            verses: self.verses.deep_view(),
        }
    }
}

impl DeepView for Chapter {
    type V = ChapterV;

    open spec fn deep_view(&self) -> ChapterV {
        self@
    }
}

/// A book with its chapters.
#[derive(Debug, Clone)]
pub struct Book {
    pub osis_id: String,
    pub title: String,
    pub chapters: Vec<Chapter>,
    pub canonical: bool,
}

/// Mathematical model of a `Book`.
pub struct BookV {
    pub osis_id: Seq<char>,
    pub title: Seq<char>,
    pub chapters: Seq<ChapterV>,
    pub canonical: bool,
}

impl View for Book {
    type V = BookV;

    open spec fn view(&self) -> BookV {
        BookV {
            osis_id: self.osis_id@,
            title: self.title@,
            chapters: self.chapters.deep_view(),
            canonical: self.canonical,
        }
    }
}

impl DeepView for Book {
    type V = BookV;

    open spec fn deep_view(&self) -> BookV {
        self@
    }
}

/// Identification of one translation, read from an OSIS header.
#[derive(Debug, Clone)]
pub struct BibleVersion {
    /// e.g. "KJV".
    pub osis_id: String,
    /// e.g. "King James Version (1769)".
    pub title: String,
    /// e.g. "Bible.KJV".
    pub identifier: String,
    /// e.g. "Gen-Rev".
    pub scope: String,
    /// e.g. "Bible.KJV".
    pub ref_system: String,
}

/// Mathematical model of a `BibleVersion`.
pub struct BibleVersionV {
    pub osis_id: Seq<char>,
    pub title: Seq<char>,
    pub identifier: Seq<char>,
    pub scope: Seq<char>,
    pub ref_system: Seq<char>,
}

impl View for BibleVersion {
    type V = BibleVersionV;

    open spec fn view(&self) -> BibleVersionV {
        BibleVersionV {
            osis_id: self.osis_id@,
            title: self.title@,
            identifier: self.identifier@,
            scope: self.scope@,
            ref_system: self.ref_system@,
        }
    }
}

impl DeepView for BibleVersion {
    type V = BibleVersionV;

    open spec fn deep_view(&self) -> BibleVersionV {
        self@
    }
}

/// One event of a pre-rendered (HTML-dialect) verse stream.
#[derive(Debug)]
pub enum HtmlEvent {
    Text(String),
    /// e.g. "G3056".
    Strong(String),
    /// e.g. "V-PAI-3S".
    Morph(String),
    Note(String),
    RedStart,
    RedEnd,
    AddedWord,
}


/// Copies a list of strings; the derived `Clone` carries no contract.
pub fn clone_string_vec(v: &Vec<String>) -> (r: Vec<String>)
    ensures
        r.deep_view() == v.deep_view(),
{
    let n = v.len();
    let mut out: Vec<String> = Vec::new();
    let mut i: usize = 0;
    while i < n
        invariant
            n == v.len(),
            i <= n,
            out.deep_view() == v.deep_view().subrange(0, i as int),
        decreases n - i,
    {
        let ghost dv0 = out.deep_view();
        out.push(v[i].clone());
        proof {
            assert(out.deep_view() =~= dv0.push(v.deep_view()[i as int]));
            assert(dv0.push(v.deep_view()[i as int]) =~= v.deep_view().subrange(0, i as int + 1));
        }
        i = i + 1;
    }
    proof {
        assert(v.deep_view().subrange(0, n as int) =~= v.deep_view());
    }
    out
}

/// Copies an optional string.
pub fn clone_opt_string(o: &Option<String>) -> (r: Option<String>)
    ensures
        r.deep_view() == o.deep_view(),
{
    match o {
        Some(s) => Some(s.clone()),
        None => None,
    }
}

/// Copies a `LexicalInfo` field by field.
pub fn clone_lexical(l: &LexicalInfo) -> (r: LexicalInfo)
    ensures
        r@ == l@,
{
    LexicalInfo {
        strongs: clone_string_vec(&l.strongs),
        lemma: clone_opt_string(&l.lemma),
        gloss: clone_opt_string(&l.gloss),
        morph: clone_opt_string(&l.morph),
    }
}

/// Copies an optional `LexicalInfo`.
pub fn clone_opt_lexical(o: &Option<LexicalInfo>) -> (r: Option<LexicalInfo>)
    ensures
        (match r {
            Some(l) => o matches Some(ol) && l@ == ol@,
            None => o matches None,
        }),
{
    match o {
        Some(l) => Some(clone_lexical(l)),
        None => None,
    }
}

} // verus!
