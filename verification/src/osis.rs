//! Whole-document OSIS parsing: targeted chapter extraction, book/chapter
//! structure scanning, and header identification, all over the XML event
//! stream. Element and attribute names are matched exactly here: the XML
//! reader preserves their case.

use vstd::prelude::*;

use crate::events::{attr_lookup, get_attr, read_xml_events, xml_events, MarkupEvent,
    MarkupEventV};
use crate::model::{clone_opt_lexical, BibleVersion, BibleVersionV, Book, BookV, Chapter, ChapterV,
    LexicalInfo, LexicalInfoV, SegmentStyle, Verse, VerseV, Word, WordV};
use crate::lexical::{dedup_keep_first, lemma_dedup_keeps_elements, vec_contains_string};
use crate::text::{char_is_ascii_punct, has_prefix, is_ascii_punct, last_dot_segment, parse_i32,
    parse_i32_spec, split_whitespace, split_ws, starts_with_str, str_eq, strip_one_prefix,
    strip_prefix_once, take_after_last_dot, trim_spec, trim_str};

verus! {

/// The whole-document OSIS parsing engine.
pub struct OsisEngine;

/// An attribute's value under exact name lookup, or the empty string.
pub open spec fn attr_or_empty_ex(attrs: Seq<(Seq<char>, Seq<char>)>, key: Seq<char>) -> Seq<
    char,
> {
    match attr_lookup(attrs, key) {
        Some(v) => v,
        None => Seq::empty(),
    }
}

/// The Strong's numbers of a `lemma` attribute under the single-strip rule:
/// whitespace tokens prefixed `strong:`, each with one copy of the prefix
/// removed, a repeated number keeping only its first occurrence within the
/// one attribute.
pub open spec fn strongs_single_spec(s: Seq<char>) -> Seq<Seq<char>> {
    dedup_keep_first(
        split_ws(s).filter(|t: Seq<char>| has_prefix(t, "strong:"@)).map_values(
            |t: Seq<char>| t.skip("strong:"@.len() as int),
        ),
    )
}

/// What `parse_strongs` yields for an optional `lemma` attribute.
pub open spec fn parse_strongs_spec(attr: Option<Seq<char>>) -> Seq<Seq<char>> {
    match attr {
        Some(s) => strongs_single_spec(s),
        None => strongs_single_spec(Seq::empty()),
    }
}

/// What `parse_morph` yields: the `morph` attribute without its
/// `strongMorph:` prefix, `None` when the attribute or prefix is missing.
pub open spec fn parse_morph_spec(attr: Option<Seq<char>>) -> Option<Seq<char>> {
    match attr {
        Some(s) => strip_one_prefix(s, "strongMorph:"@),
        None => None,
    }
}

/// A trailing character the tokenizer peels off a word: ASCII punctuation
/// other than the apostrophe.
pub open spec fn peelable(c: char) -> bool {
    is_ascii_punct(c) && c != '\''
}

/// Where a token's stem ends: everything from here on is peelable trailing
/// punctuation.
pub open spec fn stem_len(p: Seq<char>) -> int
    decreases p.len(),
{
    if p.len() == 0 {
        0
    } else if peelable(p.last()) {
        stem_len(p.drop_last())
    } else {
        p.len() as int
    }
}

/// The style text takes: the innermost enclosing styled element's, or Plain.
pub open spec fn style_top(styles: Seq<SegmentStyle>) -> SegmentStyle {
    if styles.len() > 0 {
        styles.last()
    } else {
        SegmentStyle::Plain
    }
}

/// The words one token becomes: its stem under the current style and
/// lexical info, then its peeled trailing punctuation as a Plain
/// punctuation word; the stem word stands even when empty.
pub open spec fn piece_words(
    style: SegmentStyle,
    red: bool,
    lex: Option<LexicalInfoV>,
    p: Seq<char>,
) -> Seq<WordV> {
    let b = stem_len(p);
    let stem = WordV {
        text: p.take(b),
        style,
        is_red: red,
        is_italic: false,
        is_bold_text: false,
        lex,
        note: None,
        is_first_in_group: false,
        is_last_in_group: false,
        is_punctuation: false,
    };
    if b < p.len() {
        seq![
            stem,
            WordV {
                text: p.skip(b),
                style: SegmentStyle::Plain,
                is_red: red,
                is_italic: false,
                is_bold_text: false,
                lex: None,
                note: None,
                is_first_in_group: false,
                is_last_in_group: false,
                is_punctuation: true,
            },
        ]
    } else {
        seq![stem]
    }
}

/// The words a token list becomes, in order.
pub open spec fn pieces_words(
    style: SegmentStyle,
    red: bool,
    lex: Option<LexicalInfoV>,
    ps: Seq<Seq<char>>,
) -> Seq<WordV>
    decreases ps.len(),
{
    if ps.len() == 0 {
        Seq::empty()
    } else {
        piece_words(style, red, lex, ps[0]) + pieces_words(style, red, lex, ps.drop_first())
    }
}

/// The words one text node adds to a verse: its whitespace tokens under the
/// innermost style, red when any enclosing element is red-letter.
pub open spec fn osis_text_words(
    styles: Seq<SegmentStyle>,
    lex: Option<LexicalInfoV>,
    t: Seq<char>,
) -> Seq<WordV> {
    pieces_words(style_top(styles), styles.contains(SegmentStyle::RedLetter), lex, split_ws(t))
}

proof fn lemma_stem_len_at(p: Seq<char>, b: int)
    requires
        0 <= b <= p.len(),
        forall|m: int| b <= m < p.len() ==> peelable(#[trigger] p[m]),
        b > 0 ==> !peelable(p[b - 1]),
    ensures
        stem_len(p) == b,
    decreases p.len(),
{
    if p.len() == 0 {
    } else if b == p.len() {
    } else {
        assert(peelable(p.last()));
        let t = p.drop_last();
        assert(forall|m: int| 0 <= m < t.len() ==> #[trigger] t[m] == p[m]);
        lemma_stem_len_at(t, b);
    }
}

/// Tests whether a style is on the stack.
fn styles_contain(styles: &Vec<SegmentStyle>, s: SegmentStyle) -> (r: bool)
    ensures
        r == styles@.contains(s),
{
    let n = styles.len();
    let mut i: usize = 0;
    while i < n
        invariant
            n == styles.len(),
            i <= n,
            forall|k: int| 0 <= k < i ==> styles@[k] != s,
        decreases n - i,
    {
        if styles[i] == s {
            proof {
                assert(styles@[i as int] == s);
            }
            return true;
        }
        i = i + 1;
    }
    false
}

impl OsisEngine {
    /// The Strong's numbers of an optional `lemma` attribute, one prefix
    /// strip per token.
    pub fn parse_strongs(attr: Option<String>) -> (r: Vec<String>)
        ensures
            r.deep_view() == parse_strongs_spec(attr.deep_view()),
    {
        proof {
            reveal_strlit("strong:");
        }
        let s: String = match attr {
            Some(v) => v,
            None => String::new(),
        };
        let pieces = split_whitespace(s.as_str());
        let ghost all = pieces.deep_view();
        let n = pieces.len();
        let mut out: Vec<String> = Vec::new();
        let mut j: usize = 0;
        proof {
            reveal(Seq::filter);
            assert(all.subrange(0, 0).filter(|t: Seq<char>| has_prefix(t, "strong:"@)).map_values(
                |t: Seq<char>| t.skip("strong:"@.len() as int),
            ) =~= out.deep_view());
        }
        while j < n
            invariant
                n == pieces.len(),
                j <= n,
                all == pieces.deep_view(),
                "strong:"@.len() == 7,
                out.deep_view() == dedup_keep_first(
                    all.subrange(0, j as int).filter(|t: Seq<char>| has_prefix(t, "strong:"@))
                        .map_values(|t: Seq<char>| t.skip("strong:"@.len() as int)),
                ),
            decreases n - j,
        {
            let ghost pre = all.subrange(0, j as int);
            let ghost post = all.subrange(0, j as int + 1);
            let ghost f = |t: Seq<char>| t.skip("strong:"@.len() as int);
            let ghost pd = |t: Seq<char>| has_prefix(t, "strong:"@);
            let ghost dv0 = out.deep_view();
            proof {
                reveal(Seq::filter);
                assert(post.drop_last() =~= pre);
                assert(post.last() == all[j as int]);
            }
            if starts_with_str(pieces[j].as_str(), "strong:") {
                let m = pieces[j].as_str().unicode_len();
                let stripped = pieces[j].as_str().substring_char(7, m).to_owned();
                let ghost sv = stripped@;
                proof {
                    assert(post.filter(pd) =~= pre.filter(pd).push(all[j as int]));
                    assert(post.filter(pd).map_values(f) =~= pre.filter(pd).map_values(f).push(
                        sv,
                    ));
                    assert(post.filter(pd).map_values(f).drop_last() =~= pre.filter(pd)
                        .map_values(f));
                    lemma_dedup_keeps_elements(pre.filter(pd).map_values(f), sv);
                }
                if !vec_contains_string(&out, stripped.as_str()) {
                    out.push(stripped);
                    proof {
                        assert(out.deep_view() =~= dv0.push(sv));
                    }
                }
            } else {
                proof {
                    assert(post.filter(pd) =~= pre.filter(pd));
                }
            }
            j = j + 1;
        }
        proof {
            assert(all.subrange(0, n as int) =~= all);
            assert(split_ws(Seq::<char>::empty()) =~= Seq::<Seq<char>>::empty());
        }
        out
    }

    /// The `morph` attribute without its `strongMorph:` prefix.
    pub fn parse_morph(attr: Option<String>) -> (r: Option<String>)
        ensures
            r.deep_view() == parse_morph_spec(attr.deep_view()),
    {
        match attr {
            Some(s) => strip_prefix_once(s.as_str(), "strongMorph:"),
            None => None,
        }
    }

    /// The verse number segment of an OSIS id: the part after the last `.`.
    pub fn verse_number_from_osis(osis_id: &str) -> (r: String)
        ensures
            r@ == last_dot_segment(osis_id@),
    {
        take_after_last_dot(osis_id)
    }

    /// Splits one text node into words appended to the verse: each
    /// whitespace token's trailing punctuation (apostrophes excepted) is
    /// peeled into a separate Plain punctuation word.
    pub fn process_text_into_words(
        v: &mut Verse,
        raw_text: &str,
        styles: &Vec<SegmentStyle>,
        lex: &Option<LexicalInfo>,
    )
        ensures
            final(v).osis_id == old(v).osis_id,
            final(v).number == old(v).number,
            final(v).notes == old(v).notes,
            final(v).is_paragraph_start == old(v).is_paragraph_start,
            final(v).words.deep_view() == old(v).words.deep_view() + osis_text_words(
                styles@,
                lex.deep_view(),
                raw_text@,
            ),
    {
        let style: SegmentStyle = if styles.len() > 0 {
            styles[styles.len() - 1]
        } else {
            SegmentStyle::Plain
        };
        let red = styles_contain(styles, SegmentStyle::RedLetter);
        let ghost lexv = lex.deep_view();
        let ghost base = v.words.deep_view();
        let pieces = split_whitespace(raw_text);
        let ghost pv = pieces.deep_view();
        let n = pieces.len();
        let mut k: usize = 0;
        proof {
            assert(pv.skip(0) =~= pv);
        }
        while k < n
            invariant
                n == pieces.len(),
                pv == pieces.deep_view(),
                pv == split_ws(raw_text@),
                k <= n,
                style == style_top(styles@),
                red == styles@.contains(SegmentStyle::RedLetter),
                lexv == lex.deep_view(),
                v.osis_id == old(v).osis_id,
                v.number == old(v).number,
                v.notes == old(v).notes,
                v.is_paragraph_start == old(v).is_paragraph_start,
                base == old(v).words.deep_view(),
                v.words.deep_view() + pieces_words(style, red, lexv, pv.skip(k as int)) == base
                    + pieces_words(style, red, lexv, pv),
            decreases n - k,
        {
            let ghost rest = pv.skip(k as int);
            proof {
                assert(rest[0] == pv[k as int]);
                assert(rest.drop_first() =~= pv.skip(k as int + 1));
            }
            let p = &pieces[k];
            let plen = p.as_str().unicode_len();
            let mut b: usize = plen;
            let mut peeling = true;
            while peeling && b > 0
                invariant
                    plen == p@.len(),
                    b <= plen,
                    forall|m: int| b <= m < plen ==> peelable(#[trigger] p@[m]),
                    !peeling ==> b > 0 && !peelable(p@[b - 1]),
                decreases b + (if peeling { 1int } else { 0int }),
            {
                let c = p.as_str().get_char(b - 1);
                if char_is_ascii_punct(c) && c != '\'' {
                    b = b - 1;
                } else {
                    peeling = false;
                }
            }
            proof {
                lemma_stem_len_at(p@, b as int);
            }
            let stem_text = p.as_str().substring_char(0, b).to_owned();
            let ghost wdv0 = v.words.deep_view();
            let stem = Word {
                text: stem_text,
                style,
                is_red: red,
                is_italic: false,
                is_bold_text: false,
                lex: clone_opt_lexical(lex),
                note: None,
                is_first_in_group: false,
                is_last_in_group: false,
                is_punctuation: false,
            };
            v.words.push(stem);
            if b < plen {
                let punc_text = p.as_str().substring_char(b, plen).to_owned();
                let punc = Word {
                    text: punc_text,
                    style: SegmentStyle::Plain,
                    is_red: red,
                    is_italic: false,
                    is_bold_text: false,
                    lex: None,
                    note: None,
                    is_first_in_group: false,
                    is_last_in_group: false,
                    is_punctuation: true,
                };
                v.words.push(punc);
                proof {
                    assert(v.words.deep_view() =~= wdv0 + piece_words(
                        style,
                        red,
                        lexv,
                        pv[k as int],
                    ));
                }
            } else {
                proof {
                    assert(v.words.deep_view() =~= wdv0 + piece_words(
                        style,
                        red,
                        lexv,
                        pv[k as int],
                    ));
                }
            }
            proof {
                assert((wdv0 + piece_words(style, red, lexv, pv[k as int])) + pieces_words(
                    style,
                    red,
                    lexv,
                    pv.skip(k as int + 1),
                ) =~= wdv0 + (piece_words(style, red, lexv, pv[k as int]) + pieces_words(
                    style,
                    red,
                    lexv,
                    pv.skip(k as int + 1),
                )));
            }
            k = k + 1;
        }
        proof {
            assert(pv.skip(n as int).len() == 0);
            assert(pieces_words(style, red, lexv, pv.skip(n as int)) =~= Seq::<WordV>::empty());
            assert(v.words.deep_view() + Seq::<WordV>::empty() =~= v.words.deep_view());
        }
    }
}


/// The running state of targeted chapter extraction.
pub struct VParseV {
    pub verses: Seq<VerseV>,
    pub cur: Option<VerseV>,
    pub styles: Seq<SegmentStyle>,
    pub lex: Option<LexicalInfoV>,
    pub inside: bool,
    pub in_para: bool,
    pub done: bool,
}

/// The state before any event: a Plain style at the stack's bottom, outside
/// the target chapter.
pub open spec fn vparse_init() -> VParseV {
    VParseV {
        verses: Seq::empty(),
        cur: None,
        styles: seq![SegmentStyle::Plain],
        lex: None,
        inside: false,
        in_para: false,
        done: false,
    }
}

/// The verse number of a verse marker: its `n` attribute, or the OSIS id's
/// final `.` segment, read as a number; 0 when that fails.
pub open spec fn osis_verse_number(attrs: Seq<(Seq<char>, Seq<char>)>, id: Seq<char>) -> i32 {
    let numstr = match attr_lookup(attrs, "n"@) {
        Some(v) => v,
        None => last_dot_segment(id),
    };
    match parse_i32_spec(numstr) {
        Some(v) => v,
        None => 0,
    }
}

/// An opening or self-closing tag's effect on the chapter extraction.
/// A `chapter` marker enters or — for a different chapter once inside —
/// ends the scan; `verse` markers with `sID`/`osisID` open a verse (a
/// paragraph start when a `p` was seen or the verse number is 1) and with
/// `eID` close it into the output; `q who="Jesus"`, `transChange
/// type="added"` and `note` push styles, any other `q` or `transChange`
/// keeps the inherited style on the stack so its close pops in balance; `w`
/// sets the lexical info the following text takes.
pub open spec fn vparse_open(
    st: VParseV,
    name: Seq<char>,
    attrs: Seq<(Seq<char>, Seq<char>)>,
    target: Seq<char>,
) -> VParseV {
    if name == "chapter"@ {
        let osis_id = attr_or_empty_ex(attrs, "osisID"@);
        if st.inside && osis_id.len() > 0 && osis_id != target {
            VParseV {
                verses: st.verses,
                cur: st.cur,
                styles: st.styles,
                lex: st.lex,
                inside: st.inside,
                in_para: st.in_para,
                done: true,
            }
        } else if osis_id == target {
            VParseV {
                verses: st.verses,
                cur: st.cur,
                styles: st.styles,
                lex: st.lex,
                inside: true,
                in_para: st.in_para,
                done: st.done,
            }
        } else {
            st
        }
    } else if name == "p"@ {
        VParseV {
            verses: st.verses,
            cur: st.cur,
            styles: st.styles,
            lex: st.lex,
            inside: st.inside,
            in_para: true,
            done: st.done,
        }
    } else if name == "verse"@ && st.inside {
        let sid = attr_lookup(attrs, "sID"@);
        let eid = attr_lookup(attrs, "eID"@);
        let osis = attr_lookup(attrs, "osisID"@);
        let id_opt = if sid is Some {
            sid
        } else {
            osis
        };
        match id_opt {
            Some(id) => VParseV {
                verses: st.verses,
                cur: Some(
                    VerseV {
                        osis_id: id,
                        number: osis_verse_number(attrs, id),
                        words: Seq::empty(),
                        notes: Seq::empty(),
                        is_paragraph_start: st.in_para || osis_verse_number(attrs, id) == 1,
                    },
                ),
                styles: st.styles,
                lex: st.lex,
                inside: st.inside,
                in_para: false,
                done: st.done,
            },
            None => {
                if eid is Some {
                    VParseV {
                        verses: match st.cur {
                            Some(v) => st.verses.push(v),
                            None => st.verses,
                        },
                        cur: None,
                        styles: st.styles,
                        lex: st.lex,
                        inside: st.inside,
                        in_para: st.in_para,
                        done: st.done,
                    }
                } else {
                    st
                }
            },
        }
    } else if name == "q"@ && st.inside {
        VParseV {
            verses: st.verses,
            cur: st.cur,
            styles: st.styles.push(
                if attr_lookup(attrs, "who"@) == Some("Jesus"@) {
                    SegmentStyle::RedLetter
                } else {
                    style_top(st.styles)
                },
            ),
            lex: st.lex,
            inside: st.inside,
            in_para: st.in_para,
            done: st.done,
        }
    } else if name == "transChange"@ && st.inside {
        VParseV {
            verses: st.verses,
            cur: st.cur,
            styles: st.styles.push(
                if attr_lookup(attrs, "type"@) == Some("added"@) {
                    SegmentStyle::Added
                } else {
                    style_top(st.styles)
                },
            ),
            lex: st.lex,
            inside: st.inside,
            in_para: st.in_para,
            done: st.done,
        }
    } else if name == "note"@ && st.inside {
        VParseV {
            verses: st.verses,
            cur: st.cur,
            styles: st.styles.push(SegmentStyle::Note),
            lex: st.lex,
            inside: st.inside,
            in_para: st.in_para,
            done: st.done,
        }
    } else if name == "w"@ && st.inside {
        VParseV {
            verses: st.verses,
            cur: st.cur,
            styles: st.styles,
            lex: Some(
                LexicalInfoV {
                    strongs: parse_strongs_spec(attr_lookup(attrs, "lemma"@)),
                    lemma: None,
                    gloss: None,
                    morph: parse_morph_spec(attr_lookup(attrs, "morph"@)),
                },
            ),
            inside: st.inside,
            in_para: st.in_para,
            done: st.done,
        }
    } else {
        st
    }
}

/// One event's effect on the chapter extraction. Once the scan is done,
/// nothing changes. Text inside the target chapter joins the open verse:
/// into its notes while a `note` style is on the stack, into its words
/// otherwise, consuming the pending lexical info. A closing `q`,
/// `transChange` or `note` pops the style stack.
pub open spec fn vparse_step(st: VParseV, ev: MarkupEventV, target: Seq<char>) -> VParseV {
    if st.done {
        st
    } else {
        match ev {
            MarkupEventV::Open { name, attrs } => vparse_open(st, name, attrs, target),
            MarkupEventV::SelfClose { name, attrs } => vparse_open(st, name, attrs, target),
            MarkupEventV::Text(t) => {
                if st.inside {
                    match st.cur {
                        Some(v) => {
                            if st.styles.contains(SegmentStyle::Note) {
                                VParseV {
                                    verses: st.verses,
                                    cur: Some(
                                        VerseV {
                                            osis_id: v.osis_id,
                                            number: v.number,
                                            words: v.words,
                                            notes: v.notes.push(t),
                                            is_paragraph_start: v.is_paragraph_start,
                                        },
                                    ),
                                    styles: st.styles,
                                    lex: st.lex,
                                    inside: st.inside,
                                    in_para: st.in_para,
                                    done: st.done,
                                }
                            } else {
                                VParseV {
                                    verses: st.verses,
                                    cur: Some(
                                        VerseV {
                                            osis_id: v.osis_id,
                                            number: v.number,
                                            words: v.words + osis_text_words(
                                                st.styles,
                                                st.lex,
                                                t,
                                            ),
                                            notes: v.notes,
                                            is_paragraph_start: v.is_paragraph_start,
                                        },
                                    ),
                                    styles: st.styles,
                                    lex: None,
                                    inside: st.inside,
                                    in_para: st.in_para,
                                    done: st.done,
                                }
                            }
                        },
                        None => st,
                    }
                } else {
                    st
                }
            },
            MarkupEventV::Close { name } => {
                if st.inside && (name == "q"@ || name == "transChange"@ || name == "note"@) {
                    VParseV {
                        verses: st.verses,
                        cur: st.cur,
                        styles: if st.styles.len() > 0 {
                            st.styles.drop_last()
                        } else {
                            st.styles
                        },
                        lex: st.lex,
                        inside: st.inside,
                        in_para: st.in_para,
                        done: st.done,
                    }
                } else {
                    st
                }
            },
            MarkupEventV::Skip => st,
        }
    }
}

/// The extraction's state after all of `evs`.
pub open spec fn vparse_states(evs: Seq<MarkupEventV>, target: Seq<char>) -> VParseV
    decreases evs.len(),
{
    if evs.len() == 0 {
        vparse_init()
    } else {
        vparse_step(vparse_states(evs.drop_last(), target), evs.last(), target)
    }
}

/// The verses of the target chapter in `evs`: exactly those whose verse
/// span was closed while the scan stood inside the chapter; a verse left
/// open is dropped.
pub open spec fn parse_verses_events_spec(evs: Seq<MarkupEventV>, target: Seq<char>) -> Seq<
    VerseV,
> {
    vparse_states(evs, target).verses
}

/// Tests whether an attribute has exactly the given value.
fn attr_is_ex(attrs: &Vec<(String, String)>, key: &str, value: &str) -> (r: bool)
    ensures
        r == (attr_lookup(attrs.deep_view(), key@) == Some(value@)),
{
    match get_attr(attrs, key) {
        Some(v) => str_eq(v.as_str(), value),
        None => false,
    }
}

/// The recognized OSIS element names are pairwise distinct.
proof fn lemma_osis_tag_names_distinct()
    ensures
        "chapter"@ != "p"@,
        "chapter"@ != "verse"@,
        "chapter"@ != "q"@,
        "chapter"@ != "transChange"@,
        "chapter"@ != "note"@,
        "chapter"@ != "w"@,
        "p"@ != "verse"@,
        "p"@ != "q"@,
        "p"@ != "transChange"@,
        "p"@ != "note"@,
        "p"@ != "w"@,
        "verse"@ != "q"@,
        "verse"@ != "transChange"@,
        "verse"@ != "note"@,
        "verse"@ != "w"@,
        "q"@ != "transChange"@,
        "q"@ != "note"@,
        "q"@ != "w"@,
        "transChange"@ != "note"@,
        "transChange"@ != "w"@,
        "note"@ != "w"@,
{
    reveal_strlit("chapter");
    reveal_strlit("p");
    reveal_strlit("verse");
    reveal_strlit("q");
    reveal_strlit("transChange");
    reveal_strlit("note");
    reveal_strlit("w");
    assert("chapter"@.len() == 7);
    assert("p"@.len() == 1);
    assert("verse"@.len() == 5);
    assert("q"@.len() == 1);
    assert("transChange"@.len() == 11);
    assert("note"@.len() == 4);
    assert("w"@.len() == 1);
    assert("p"@[0] == 'p');
    assert("q"@[0] == 'q');
    assert("w"@[0] == 'w');
}

/// Applies one opening or self-closing tag to the extraction state.
fn apply_open_tag(
    verses: &mut Vec<Verse>,
    cur: &mut Option<Verse>,
    styles: &mut Vec<SegmentStyle>,
    lex: &mut Option<LexicalInfo>,
    inside: &mut bool,
    in_para: &mut bool,
    done: &mut bool,
    name: &str,
    attrs: &Vec<(String, String)>,
    target: &str,
)
    ensures
        ({
            let st = VParseV {
                verses: old(verses).deep_view(),
                cur: old(cur).deep_view(),
                styles: old(styles)@,
                lex: old(lex).deep_view(),
                inside: *old(inside),
                in_para: *old(in_para),
                done: *old(done),
            };
            let st2 = vparse_open(st, name@, attrs.deep_view(), target@);
            final(verses).deep_view() == st2.verses && final(cur).deep_view() == st2.cur
                && final(styles)@ == st2.styles && final(lex).deep_view() == st2.lex
                && *final(inside) == st2.inside && *final(in_para) == st2.in_para
                && *final(done) == st2.done
        }),
{
    let ghost st0 = VParseV {
        verses: verses.deep_view(),
        cur: cur.deep_view(),
        styles: styles@,
        lex: lex.deep_view(),
        inside: *inside,
        in_para: *in_para,
        done: *done,
    };
    let ghost so = vparse_open(st0, name@, attrs.deep_view(), target@);
    proof {
        lemma_osis_tag_names_distinct();
    }
    if str_eq(name, "chapter") {
        let osis_id = match get_attr(attrs, "osisID") {
            Some(v) => v,
            None => String::new(),
        };
        proof {
            assert(osis_id@ == attr_or_empty_ex(attrs.deep_view(), "osisID"@));
        }
        let olen = osis_id.as_str().unicode_len();
        if *inside && olen > 0 && !str_eq(osis_id.as_str(), target) {
            *done = true;
        } else if str_eq(osis_id.as_str(), target) {
            *inside = true;
        }
    } else if str_eq(name, "p") {
        *in_para = true;
    } else if str_eq(name, "verse") {
        if *inside {
            let sid = get_attr(attrs, "sID");
            let eid = get_attr(attrs, "eID");
            let osis = get_attr(attrs, "osisID");
            let id_opt = if sid.is_some() {
                sid
            } else {
                osis
            };
            match id_opt {
                Some(id) => {
                    let nstr = match get_attr(attrs, "n") {
                        Some(v) => v,
                        None => OsisEngine::verse_number_from_osis(id.as_str()),
                    };
                    let num: i32 = match parse_i32(nstr.as_str()) {
                        Some(v) => v,
                        None => 0,
                    };
                    let nv = Verse {
                        osis_id: id,
                        number: num,
                        words: Vec::new(),
                        notes: Vec::new(),
                        is_paragraph_start: *in_para || num == 1,
                    };
                    proof {
                        assert(nv@.words =~= Seq::<WordV>::empty());
                        assert(nv@.notes =~= Seq::<Seq<char>>::empty());
                    }
                    *cur = Some(nv);
                    *in_para = false;
                },
                None => {
                    if eid.is_some() {
                        let mut prev: Option<Verse> = None;
                        core::mem::swap(&mut prev, cur);
                        match prev {
                            Some(v) => {
                                let ghost dv0 = verses.deep_view();
                                let ghost vv = v@;
                                verses.push(v);
                                proof {
                                    assert(verses.deep_view() =~= dv0.push(vv));
                                }
                            },
                            None => {},
                        }
                    }
                },
            }
        }
    } else if str_eq(name, "q") {
        if *inside {
            if attr_is_ex(attrs, "who", "Jesus") {
                styles.push(SegmentStyle::RedLetter);
            } else {
                let top: SegmentStyle = if styles.len() > 0 {
                    styles[styles.len() - 1]
                } else {
                    SegmentStyle::Plain
                };
                styles.push(top);
            }
        }
    } else if str_eq(name, "transChange") {
        if *inside {
            if attr_is_ex(attrs, "type", "added") {
                styles.push(SegmentStyle::Added);
            } else {
                let top: SegmentStyle = if styles.len() > 0 {
                    styles[styles.len() - 1]
                } else {
                    SegmentStyle::Plain
                };
                styles.push(top);
            }
        }
    } else if str_eq(name, "note") {
        if *inside {
            styles.push(SegmentStyle::Note);
        }
    } else if str_eq(name, "w") {
        if *inside {
            let strongs = OsisEngine::parse_strongs(get_attr(attrs, "lemma"));
            let morph = OsisEngine::parse_morph(get_attr(attrs, "morph"));
            *lex = Some(LexicalInfo { strongs, lemma: None, gloss: None, morph });
        }
    }
    proof {
        assert(styles@ == so.styles);
        assert(lex.deep_view() == so.lex);
    }
}

impl OsisEngine {
    /// Extracts the verses of one chapter (e.g. "Gen.1") from a document's
    /// event stream.
    pub fn parse_verses_from_events(events: &Vec<MarkupEvent>, target_chapter: &str) -> (verses:
        Vec<Verse>)
        ensures
            verses.deep_view() == parse_verses_events_spec(events.deep_view(), target_chapter@),
    {
        let ghost evs = events.deep_view();
        let ghost tv = target_chapter@;
        let n = events.len();
        let mut verses: Vec<Verse> = Vec::new();
        let mut cur: Option<Verse> = None;
        let mut styles: Vec<SegmentStyle> = Vec::new();
        styles.push(SegmentStyle::Plain);
        let mut lex: Option<LexicalInfo> = None;
        let mut inside = false;
        let mut in_para = false;
        let mut done = false;
        let mut i: usize = 0;
        proof {
            assert(evs.take(0) =~= Seq::<MarkupEventV>::empty());
            assert(verses.deep_view() =~= vparse_init().verses);
            assert(styles@ =~= vparse_init().styles);
        }
        while i < n
            invariant
                n == events.len(),
                evs == events.deep_view(),
                tv == target_chapter@,
                i <= n,
                verses.deep_view() == vparse_states(evs.take(i as int), tv).verses,
                cur.deep_view() == vparse_states(evs.take(i as int), tv).cur,
                styles@ == vparse_states(evs.take(i as int), tv).styles,
                lex.deep_view() == vparse_states(evs.take(i as int), tv).lex,
                inside == vparse_states(evs.take(i as int), tv).inside,
                in_para == vparse_states(evs.take(i as int), tv).in_para,
                done == vparse_states(evs.take(i as int), tv).done,
            decreases n - i,
        {
            let ghost st = vparse_states(evs.take(i as int), tv);
            let ghost st2 = vparse_step(st, evs[i as int], tv);
            proof {
                assert(evs.take(i as int + 1).drop_last() =~= evs.take(i as int));
                assert(evs.take(i as int + 1).last() == evs[i as int]);
                assert(events[i as int].deep_view() == evs[i as int]);
                assert(vparse_states(evs.take(i as int + 1), tv) == st2);
            }
            if !done {
                match &events[i] {
                    MarkupEvent::Open { name, attrs } => {
                        apply_open_tag(
                            &mut verses,
                            &mut cur,
                            &mut styles,
                            &mut lex,
                            &mut inside,
                            &mut in_para,
                            &mut done,
                            name.as_str(),
                            attrs,
                            target_chapter,
                        );
                    },
                    MarkupEvent::SelfClose { name, attrs } => {
                        apply_open_tag(
                            &mut verses,
                            &mut cur,
                            &mut styles,
                            &mut lex,
                            &mut inside,
                            &mut in_para,
                            &mut done,
                            name.as_str(),
                            attrs,
                            target_chapter,
                        );
                    },
                    MarkupEvent::Text(t) => {
                        if inside {
                            let prev = cur;
                            cur = None;
                            match prev {
                                Some(mut v) => {
                                    if styles_contain(&styles, SegmentStyle::Note) {
                                        let ghost ndv0 = v.notes.deep_view();
                                        v.notes.push(t.clone());
                                        proof {
                                            assert(v.notes.deep_view() =~= ndv0.push(t@));
                                            assert(st2.cur == Some(v@));
                                        }
                                        cur = Some(v);
                                    } else {
                                        OsisEngine::process_text_into_words(
                                            &mut v,
                                            t.as_str(),
                                            &styles,
                                            &lex,
                                        );
                                        lex = None;
                                        proof {
                                            assert(st2.cur == Some(v@));
                                        }
                                        cur = Some(v);
                                    }
                                },
                                None => {},
                            }
                        }
                        proof {
                            assert(styles@ == st2.styles);
                            assert(lex.deep_view() == st2.lex);
                        }
                    },
                    MarkupEvent::Close { name } => {
                        if inside && (str_eq(name.as_str(), "q") || str_eq(
                            name.as_str(),
                            "transChange",
                        ) || str_eq(name.as_str(), "note")) {
                            if styles.len() > 0 {
                                let ghost sdv = styles@;
                                styles.pop();
                                proof {
                                    assert(styles@ =~= sdv.drop_last());
                                }
                            }
                        }
                    },
                    MarkupEvent::Skip => {},
                }
            }
            i = i + 1;
        }
        proof {
            assert(evs.take(n as int) =~= evs);
        }
        verses
    }

    /// Extracts the verses of one chapter from a whole OSIS document: the
    /// verified extraction applied to the events the XML reader yields for
    /// `xml`.
    pub fn parse_verses(xml: &str, target_chapter: &str) -> (verses: Vec<Verse>)
        ensures
            verses.deep_view() == parse_verses_events_spec(xml_events(xml@), target_chapter@),
    {
        let events = read_xml_events(xml);
        OsisEngine::parse_verses_from_events(&events, target_chapter)
    }
}


/// The structural and header element names are pairwise distinct.
proof fn lemma_doc_tag_names_distinct()
    ensures
        "div"@ != "chapter"@,
        "div"@ != "title"@,
        "chapter"@ != "title"@,
        "header"@ != "work"@,
        "header"@ != "title"@,
        "header"@ != "identifier"@,
        "header"@ != "scope"@,
        "header"@ != "refSystem"@,
        "work"@ != "title"@,
        "work"@ != "identifier"@,
        "work"@ != "scope"@,
        "work"@ != "refSystem"@,
        "title"@ != "identifier"@,
        "title"@ != "scope"@,
        "title"@ != "refSystem"@,
        "identifier"@ != "scope"@,
        "identifier"@ != "refSystem"@,
        "scope"@ != "refSystem"@,
{
    reveal_strlit("div");
    reveal_strlit("chapter");
    reveal_strlit("title");
    reveal_strlit("header");
    reveal_strlit("work");
    reveal_strlit("identifier");
    reveal_strlit("scope");
    reveal_strlit("refSystem");
    assert("div"@.len() == 3);
    assert("chapter"@.len() == 7);
    assert("title"@.len() == 5);
    assert("header"@.len() == 6);
    assert("work"@.len() == 4);
    assert("identifier"@.len() == 10);
    assert("scope"@.len() == 5);
    assert("refSystem"@.len() == 9);
    assert("title"@[0] == 't');
    assert("scope"@[0] == 's');
}

/// The running state of the book/chapter structure scan.
pub struct BParseV {
    pub books: Seq<BookV>,
    pub cur: Option<BookV>,
    pub in_title: bool,
}

/// One event's effect on the structure scan. A `div` of type `book` flushes
/// the open book and starts a new one; a `chapter` container joins the open
/// book; the first text inside a `title` element becomes the open book's
/// title.
pub open spec fn bparse_step(st: BParseV, ev: MarkupEventV) -> BParseV {
    match ev {
        MarkupEventV::Open { name, attrs } => {
            if name == "div"@ && attr_lookup(attrs, "type"@) == Some("book"@) {
                BParseV {
                    books: match st.cur {
                        Some(b) => st.books.push(b),
                        None => st.books,
                    },
                    cur: Some(
                        BookV {
                            osis_id: attr_or_empty_ex(attrs, "osisID"@),
                            title: Seq::empty(),
                            chapters: Seq::empty(),
                            canonical: true,
                        },
                    ),
                    in_title: st.in_title,
                }
            } else if name == "chapter"@ {
                match st.cur {
                    Some(b) => BParseV {
                        books: st.books,
                        cur: Some(
                            BookV {
                                osis_id: b.osis_id,
                                title: b.title,
                                chapters: b.chapters.push(
                                    ChapterV {
                                        title: attr_or_empty_ex(attrs, "chapterTitle"@),
                                        osis_ref: attr_or_empty_ex(attrs, "osisID"@),
                                        number: attr_or_empty_ex(attrs, "n"@),
                                        verses: Seq::empty(),
                                    },
                                ),
                                canonical: b.canonical,
                            },
                        ),
                        in_title: st.in_title,
                    },
                    None => st,
                }
            } else if name == "title"@ {
                BParseV { books: st.books, cur: st.cur, in_title: true }
            } else {
                st
            }
        },
        MarkupEventV::Text(t) => {
            if st.in_title {
                match st.cur {
                    Some(b) => {
                        if b.title.len() == 0 {
                            BParseV {
                                books: st.books,
                                cur: Some(
                                    BookV {
                                        osis_id: b.osis_id,
                                        title: t,
                                        chapters: b.chapters,
                                        canonical: b.canonical,
                                    },
                                ),
                                in_title: st.in_title,
                            }
                        } else {
                            st
                        }
                    },
                    None => st,
                }
            } else {
                st
            }
        },
        MarkupEventV::Close { name } => {
            if name == "title"@ {
                BParseV { books: st.books, cur: st.cur, in_title: false }
            } else {
                st
            }
        },
        MarkupEventV::SelfClose { name, attrs } => st,
        MarkupEventV::Skip => st,
    }
}

/// The structure scan's state after all of `evs`.
pub open spec fn bparse_states(evs: Seq<MarkupEventV>) -> BParseV
    decreases evs.len(),
{
    if evs.len() == 0 {
        BParseV { books: Seq::empty(), cur: None, in_title: false }
    } else {
        bparse_step(bparse_states(evs.drop_last()), evs.last())
    }
}

/// The books of a document's event stream, the last book flushed after the
/// end of input.
pub open spec fn parse_books_events_spec(evs: Seq<MarkupEventV>) -> Seq<BookV> {
    let st = bparse_states(evs);
    match st.cur {
        Some(b) => st.books.push(b),
        None => st.books,
    }
}

/// The running state of the header scan.
pub struct PParseV {
    pub in_header: bool,
    pub in_work: bool,
    pub is_bible: bool,
    pub tag: Option<Seq<char>>,
    pub version: Option<BibleVersionV>,
    pub result: Option<BibleVersionV>,
    pub done: bool,
}

/// One metadata field name inside a `work` element.
pub open spec fn is_work_field(name: Seq<char>) -> bool {
    name == "title"@ || name == "identifier"@ || name == "scope"@ || name == "refSystem"@
}

/// One event's effect on the header scan. A `work` element inside the
/// header collects its fields; a work whose `refSystem` starts with
/// `Bible.` is the answer and ends the scan; the header's own end ends the
/// scan empty-handed.
pub open spec fn pparse_step(st: PParseV, ev: MarkupEventV) -> PParseV {
    if st.done {
        st
    } else {
        match ev {
            MarkupEventV::Open { name, attrs } => {
                if name == "header"@ {
                    PParseV {
                        in_header: true,
                        in_work: st.in_work,
                        is_bible: st.is_bible,
                        tag: st.tag,
                        version: st.version,
                        result: st.result,
                        done: st.done,
                    }
                } else if st.in_header && name == "work"@ {
                    PParseV {
                        in_header: st.in_header,
                        in_work: true,
                        is_bible: false,
                        tag: None,
                        version: Some(
                            BibleVersionV {
                                osis_id: attr_or_empty_ex(attrs, "osisWork"@),
                                title: Seq::empty(),
                                identifier: Seq::empty(),
                                scope: Seq::empty(),
                                ref_system: Seq::empty(),
                            },
                        ),
                        result: st.result,
                        done: st.done,
                    }
                } else if st.in_header && st.in_work && is_work_field(name) {
                    PParseV {
                        in_header: st.in_header,
                        in_work: st.in_work,
                        is_bible: st.is_bible,
                        tag: Some(name),
                        version: st.version,
                        result: st.result,
                        done: st.done,
                    }
                } else {
                    st
                }
            },
            MarkupEventV::Text(t) => {
                if st.in_header && st.in_work {
                    match (st.tag, st.version) {
                        (Some(tag), Some(ver)) => {
                            let txt = trim_spec(t);
                            if txt.len() == 0 {
                                st
                            } else {
                                PParseV {
                                    in_header: st.in_header,
                                    in_work: st.in_work,
                                    is_bible: st.is_bible || (tag == "refSystem"@ && has_prefix(
                                        txt,
                                        "Bible."@,
                                    )),
                                    tag: st.tag,
                                    version: Some(
                                        BibleVersionV {
                                            osis_id: ver.osis_id,
                                            title: if tag == "title"@ {
                                                ver.title + txt
                                            } else {
                                                ver.title
                                            },
                                            identifier: if tag == "identifier"@ {
                                                ver.identifier + txt
                                            } else {
                                                ver.identifier
                                            },
                                            scope: if tag == "scope"@ {
                                                ver.scope + txt
                                            } else {
                                                ver.scope
                                            },
                                            ref_system: if tag == "refSystem"@ {
                                                ver.ref_system + txt
                                            } else {
                                                ver.ref_system
                                            },
                                        },
                                    ),
                                    result: st.result,
                                    done: st.done,
                                }
                            }
                        },
                        _ => st,
                    }
                } else {
                    st
                }
            },
            MarkupEventV::Close { name } => {
                if name == "header"@ {
                    PParseV {
                        in_header: st.in_header,
                        in_work: st.in_work,
                        is_bible: st.is_bible,
                        tag: st.tag,
                        version: st.version,
                        result: st.result,
                        done: true,
                    }
                } else if name == "work"@ {
                    if st.is_bible {
                        PParseV {
                            in_header: st.in_header,
                            in_work: st.in_work,
                            is_bible: st.is_bible,
                            tag: st.tag,
                            version: None,
                            result: st.version,
                            done: true,
                        }
                    } else {
                        PParseV {
                            in_header: st.in_header,
                            in_work: false,
                            is_bible: st.is_bible,
                            tag: None,
                            version: None,
                            result: st.result,
                            done: st.done,
                        }
                    }
                } else {
                    st
                }
            },
            MarkupEventV::SelfClose { name, attrs } => st,
            MarkupEventV::Skip => st,
        }
    }
}

/// The header scan's state after all of `evs`.
pub open spec fn pparse_states(evs: Seq<MarkupEventV>) -> PParseV
    decreases evs.len(),
{
    if evs.len() == 0 {
        PParseV {
            in_header: false,
            in_work: false,
            is_bible: false,
            tag: None,
            version: None,
            result: None,
            done: false,
        }
    } else {
        pparse_step(pparse_states(evs.drop_last()), evs.last())
    }
}

/// The Bible work a document's header identifies, if any.
pub open spec fn parse_version_events_spec(evs: Seq<MarkupEventV>) -> Option<BibleVersionV> {
    pparse_states(evs).result
}


impl OsisEngine {
    /// Scans a document's event stream for its books, each with its chapter
    /// containers and title; the last book is flushed after the end of
    /// input.
    pub fn parse_books_from_events(events: &Vec<MarkupEvent>) -> (books: Vec<Book>)
        ensures
            books.deep_view() == parse_books_events_spec(events.deep_view()),
    {
        let ghost evs = events.deep_view();
        let n = events.len();
        let mut books: Vec<Book> = Vec::new();
        let mut cur: Option<Book> = None;
        let mut in_title = false;
        let mut i: usize = 0;
        proof {
            assert(evs.take(0) =~= Seq::<MarkupEventV>::empty());
            assert(books.deep_view() =~= bparse_states(evs.take(0)).books);
        }
        while i < n
            invariant
                n == events.len(),
                evs == events.deep_view(),
                i <= n,
                books.deep_view() == bparse_states(evs.take(i as int)).books,
                cur.deep_view() == bparse_states(evs.take(i as int)).cur,
                in_title == bparse_states(evs.take(i as int)).in_title,
            decreases n - i,
        {
            let ghost st = bparse_states(evs.take(i as int));
            let ghost st2 = bparse_step(st, evs[i as int]);
            proof {
                assert(evs.take(i as int + 1).drop_last() =~= evs.take(i as int));
                assert(evs.take(i as int + 1).last() == evs[i as int]);
                assert(events[i as int].deep_view() == evs[i as int]);
                assert(bparse_states(evs.take(i as int + 1)) == st2);
                lemma_doc_tag_names_distinct();
            }
            match &events[i] {
                MarkupEvent::Open { name, attrs } => {
                    if str_eq(name.as_str(), "div") && attr_is_ex(attrs, "type", "book") {
                        let prev = cur;
                        match prev {
                            Some(b) => {
                                let ghost dv0 = books.deep_view();
                                let ghost bv = b@;
                                books.push(b);
                                proof {
                                    assert(books.deep_view() =~= dv0.push(bv));
                                }
                            },
                            None => {},
                        }
                        let osis_id = match get_attr(attrs, "osisID") {
                            Some(v) => v,
                            None => String::new(),
                        };
                        let nb = Book {
                            osis_id,
                            title: String::new(),
                            chapters: Vec::new(),
                            canonical: true,
                        };
                        proof {
                            assert(nb@.chapters =~= Seq::<ChapterV>::empty());
                            assert(nb@.title =~= Seq::<char>::empty());
                            assert(st2.cur == Some(nb@));
                        }
                        cur = Some(nb);
                    } else if str_eq(name.as_str(), "chapter") {
                        let prev = cur;
                        cur = None;
                        match prev {
                            Some(mut b) => {
                                let title = match get_attr(attrs, "chapterTitle") {
                                    Some(v) => v,
                                    None => String::new(),
                                };
                                let osis_ref = match get_attr(attrs, "osisID") {
                                    Some(v) => v,
                                    None => String::new(),
                                };
                                let number = match get_attr(attrs, "n") {
                                    Some(v) => v,
                                    None => String::new(),
                                };
                                let nc = Chapter { title, osis_ref, number, verses: Vec::new() };
                                let ghost cdv0 = b.chapters.deep_view();
                                proof {
                                    assert(nc@.verses =~= Seq::<VerseV>::empty());
                                }
                                b.chapters.push(nc);
                                proof {
                                    assert(b.chapters.deep_view() =~= cdv0.push(
                                        b.chapters.deep_view().last(),
                                    ));
                                    assert(st2.cur == Some(b@));
                                }
                                cur = Some(b);
                            },
                            None => {},
                        }
                    } else if str_eq(name.as_str(), "title") {
                        in_title = true;
                    }
                },
                MarkupEvent::Text(t) => {
                    if in_title {
                        let prev = cur;
                        cur = None;
                        match prev {
                            Some(mut b) => {
                                if b.title.as_str().unicode_len() == 0 {
                                    b.title = t.clone();
                                }
                                proof {
                                    assert(st2.cur == Some(b@));
                                }
                                cur = Some(b);
                            },
                            None => {},
                        }
                    }
                },
                MarkupEvent::Close { name } => {
                    if str_eq(name.as_str(), "title") {
                        in_title = false;
                    }
                },
                MarkupEvent::SelfClose { .. } => {},
                MarkupEvent::Skip => {},
            }
            i = i + 1;
        }
        proof {
            assert(evs.take(n as int) =~= evs);
        }
        let last = cur;
        match last {
            Some(b) => {
                let ghost dv0 = books.deep_view();
                let ghost bv = b@;
                books.push(b);
                proof {
                    assert(books.deep_view() =~= dv0.push(bv));
                }
            },
            None => {},
        }
        books
    }

    /// Scans metadata and structure for the user's selection, over a whole
    /// OSIS document: the verified scan applied to the events the XML reader
    /// yields for `xml`.
    pub fn parse_books(xml: &str) -> (books: Vec<Book>)
        ensures
            books.deep_view() == parse_books_events_spec(xml_events(xml@)),
    {
        let events = read_xml_events(xml);
        OsisEngine::parse_books_from_events(&events)
    }

    /// Reads the header of a document's event stream for the Bible work it
    /// describes.
    pub fn parse_version_from_events(events: &Vec<MarkupEvent>) -> (version: Option<BibleVersion>)
        ensures
            version.deep_view() == parse_version_events_spec(events.deep_view()),
    {
        let ghost evs = events.deep_view();
        let n = events.len();
        let mut in_header = false;
        let mut in_work = false;
        let mut is_bible = false;
        let mut tag: Option<String> = None;
        let mut version: Option<BibleVersion> = None;
        let mut result: Option<BibleVersion> = None;
        let mut done = false;
        let mut i: usize = 0;
        proof {
            assert(evs.take(0) =~= Seq::<MarkupEventV>::empty());
        }
        while i < n
            invariant
                n == events.len(),
                evs == events.deep_view(),
                i <= n,
                in_header == pparse_states(evs.take(i as int)).in_header,
                in_work == pparse_states(evs.take(i as int)).in_work,
                is_bible == pparse_states(evs.take(i as int)).is_bible,
                tag.deep_view() == pparse_states(evs.take(i as int)).tag,
                version.deep_view() == pparse_states(evs.take(i as int)).version,
                result.deep_view() == pparse_states(evs.take(i as int)).result,
                done == pparse_states(evs.take(i as int)).done,
            decreases n - i,
        {
            let ghost st = pparse_states(evs.take(i as int));
            let ghost st2 = pparse_step(st, evs[i as int]);
            proof {
                assert(evs.take(i as int + 1).drop_last() =~= evs.take(i as int));
                assert(evs.take(i as int + 1).last() == evs[i as int]);
                assert(events[i as int].deep_view() == evs[i as int]);
                assert(pparse_states(evs.take(i as int + 1)) == st2);
                lemma_doc_tag_names_distinct();
            }
            if !done {
                match &events[i] {
                    MarkupEvent::Open { name, attrs } => {
                        if str_eq(name.as_str(), "header") {
                            in_header = true;
                        } else if in_header && str_eq(name.as_str(), "work") {
                            in_work = true;
                            is_bible = false;
                            tag = None;
                            let osis_id = match get_attr(attrs, "osisWork") {
                                Some(v) => v,
                                None => String::new(),
                            };
                            let nv = BibleVersion {
                                osis_id,
                                title: String::new(),
                                identifier: String::new(),
                                scope: String::new(),
                                ref_system: String::new(),
                            };
                            proof {
                                assert(nv@.title =~= Seq::<char>::empty());
                                assert(nv@.identifier =~= Seq::<char>::empty());
                                assert(nv@.scope =~= Seq::<char>::empty());
                                assert(nv@.ref_system =~= Seq::<char>::empty());
                                assert(st2.version == Some(nv@));
                            }
                            version = Some(nv);
                        } else if in_header && in_work {
                            if str_eq(name.as_str(), "title") || str_eq(
                                name.as_str(),
                                "identifier",
                            ) || str_eq(name.as_str(), "scope") || str_eq(
                                name.as_str(),
                                "refSystem",
                            ) {
                                tag = Some(name.clone());
                            }
                        }
                    },
                    MarkupEvent::Text(t) => {
                        if in_header && in_work {
                            let prev = version;
                            version = None;
                            match prev {
                                Some(mut ver) => {
                                    match &tag {
                                        Some(tg) => {
                                            let txt = trim_str(t.as_str());
                                            if txt.as_str().unicode_len() > 0 {
                                                if str_eq(tg.as_str(), "title") {
                                                    ver.title.append(txt.as_str());
                                                } else if str_eq(tg.as_str(), "identifier") {
                                                    ver.identifier.append(txt.as_str());
                                                } else if str_eq(tg.as_str(), "scope") {
                                                    ver.scope.append(txt.as_str());
                                                } else if str_eq(tg.as_str(), "refSystem") {
                                                    ver.ref_system.append(txt.as_str());
                                                    if starts_with_str(txt.as_str(), "Bible.") {
                                                        is_bible = true;
                                                    }
                                                }
                                            }
                                        },
                                        None => {},
                                    }
                                    proof {
                                        assert(st2.version == Some(ver@));
                                    }
                                    version = Some(ver);
                                },
                                None => {},
                            }
                        }
                    },
                    MarkupEvent::Close { name } => {
                        if str_eq(name.as_str(), "header") {
                            done = true;
                        } else if str_eq(name.as_str(), "work") {
                            if is_bible {
                                result = version;
                                version = None;
                                done = true;
                            } else {
                                in_work = false;
                                tag = None;
                                version = None;
                            }
                        }
                    },
                    MarkupEvent::SelfClose { .. } => {},
                    MarkupEvent::Skip => {},
                }
            }
            i = i + 1;
        }
        proof {
            assert(evs.take(n as int) =~= evs);
        }
        result
    }

    /// Reads a whole OSIS document's header for the Bible work it describes:
    /// the verified scan applied to the events the XML reader yields for
    /// `xml`.
    pub fn parse_version(xml: &str) -> (version: Option<BibleVersion>)
        ensures
            version.deep_view() == parse_version_events_spec(xml_events(xml@)),
    {
        let events = read_xml_events(xml);
        OsisEngine::parse_version_from_events(&events)
    }
}


/// No word of the verse carries the Note style.
pub open spec fn verse_words_not_note(v: VerseV) -> bool {
    forall|i: int| 0 <= i < v.words.len() ==> (#[trigger] v.words[i]).style != SegmentStyle::Note
}

proof fn lemma_pieces_words_styles(
    style: SegmentStyle,
    red: bool,
    lex: Option<LexicalInfoV>,
    ps: Seq<Seq<char>>,
)
    requires
        style != SegmentStyle::Note,
    ensures
        forall|i: int|
            0 <= i < pieces_words(style, red, lex, ps).len() ==> (#[trigger] pieces_words(
                style,
                red,
                lex,
                ps,
            )[i]).style != SegmentStyle::Note,
    decreases ps.len(),
{
    if ps.len() > 0 {
        lemma_pieces_words_styles(style, red, lex, ps.drop_first());
        let head = piece_words(style, red, lex, ps[0]);
        let rest = pieces_words(style, red, lex, ps.drop_first());
        assert forall|i: int| 0 <= i < pieces_words(style, red, lex, ps).len() implies (
        #[trigger] pieces_words(style, red, lex, ps)[i]).style != SegmentStyle::Note by {
            if i < head.len() {
                assert(pieces_words(style, red, lex, ps)[i] == head[i]);
            } else {
                assert(pieces_words(style, red, lex, ps)[i] == rest[i - head.len()]);
            }
        }
    }
}

proof fn lemma_vparse_states_not_note(evs: Seq<MarkupEventV>, target: Seq<char>)
    ensures
        forall|k: int|
            0 <= k < vparse_states(evs, target).verses.len() ==> verse_words_not_note(
                #[trigger] vparse_states(evs, target).verses[k],
            ),
        (vparse_states(evs, target).cur matches Some(v) ==> verse_words_not_note(v)),
    decreases evs.len(),
{
    if evs.len() > 0 {
        lemma_vparse_states_not_note(evs.drop_last(), target);
        let st = vparse_states(evs.drop_last(), target);
        let st2 = vparse_states(evs, target);
        match evs.last() {
            MarkupEventV::Text(t) => {
                if !st.done && st.inside && st.cur is Some && !st.styles.contains(
                    SegmentStyle::Note,
                ) {
                    let v = st.cur->0;
                    let added = osis_text_words(st.styles, st.lex, t);
                    assert(style_top(st.styles) != SegmentStyle::Note) by {
                        if st.styles.len() > 0 {
                            assert(st.styles[st.styles.len() - 1] == st.styles.last());
                        }
                    }
                    lemma_pieces_words_styles(
                        style_top(st.styles),
                        st.styles.contains(SegmentStyle::RedLetter),
                        st.lex,
                        split_ws(t),
                    );
                    let nw = v.words + added;
                    assert forall|i: int| 0 <= i < nw.len() implies (#[trigger] nw[i]).style
                        != SegmentStyle::Note by {
                        if i < v.words.len() {
                            assert(nw[i] == v.words[i]);
                        } else {
                            assert(nw[i] == added[i - v.words.len()]);
                        }
                    }
                }
            },
            _ => {},
        }
    }
}

/// No extracted verse's word stream holds a Note-styled word: text inside a
/// note element is diverted to the verse's note list, never shown as a
/// running word.
pub proof fn lemma_extraction_words_never_note(evs: Seq<MarkupEventV>, target: Seq<char>)
    ensures
        forall|k: int|
            0 <= k < parse_verses_events_spec(evs, target).len() ==> verse_words_not_note(
                #[trigger] parse_verses_events_spec(evs, target)[k],
            ),
{
    lemma_vparse_states_not_note(evs, target);
}

} // verus!
