//! Markup tree walker: recursive descent linearized over the event stream,
//! carrying inherited style state and producing the word stream.

use vstd::prelude::*;

use crate::events::{attr_lookup_ci, get_attr_ci, MarkupEvent, MarkupEventV};
use crate::lexical::{extract_strongs, extract_tr_lemma, strongs_of_lemma, tr_lemma_of};
use crate::model::{clone_opt_lexical, LexicalInfo, LexicalInfoV, SegmentStyle, Word, WordV};
use crate::morph::{decode_morph, decode_morph_spec};
use crate::text::{char_is_ascii_punct, is_ascii_punct, seq_eq_ci, split_whitespace, split_ws,
    str_eq, str_eq_ci};

verus! {

/// The inherited context of the walk: active lexical info, red-letter flag,
/// added-word flag, italic flag, inside-note flag.
pub struct WalkContext {
    pub lex: Option<LexicalInfo>,
    pub is_red: bool,
    pub is_added: bool,
    pub is_italic: bool,
    pub in_note: bool,
}

/// Mathematical model of a `WalkContext`.
pub struct WalkContextV {
    pub lex: Option<LexicalInfoV>,
    pub is_red: bool,
    pub is_added: bool,
    pub is_italic: bool,
    pub in_note: bool,
}

impl View for WalkContext {
    type V = WalkContextV;

    open spec fn view(&self) -> WalkContextV {
        WalkContextV {
            lex: match self.lex {
                Some(ref l) => Some(l@),
                None => None,
            },
            is_red: self.is_red,
            is_added: self.is_added,
            is_italic: self.is_italic,
            in_note: self.in_note,
        }
    }
}

impl DeepView for WalkContext {
    type V = WalkContextV;

    open spec fn deep_view(&self) -> WalkContextV {
        self@
    }
}

/// The context all text inherits before any element applies its rule.
pub open spec fn initial_context() -> WalkContextV {
    WalkContextV { lex: None, is_red: false, is_added: false, is_italic: false, in_note: false }
}

/// An attribute's value, or the empty string when it is absent.
pub open spec fn attr_or_empty(attrs: Seq<(Seq<char>, Seq<char>)>, key: Seq<char>) -> Seq<char> {
    match attr_lookup_ci(attrs, key) {
        Some(v) => v,
        None => Seq::empty(),
    }
}

/// The context an element hands its children: the inherited context with the
/// element's own rule applied. Element and attribute names are matched up to
/// ASCII case, because an HTML-dialect source folds their case; attribute
/// values keep theirs. Unrecognized elements change nothing.
pub open spec fn child_context_spec(
    c: WalkContextV,
    name: Seq<char>,
    attrs: Seq<(Seq<char>, Seq<char>)>,
) -> WalkContextV {
    if seq_eq_ci(name, "w"@) {
        let lemma = attr_or_empty(attrs, "lemma"@);
        let morph = attr_or_empty(attrs, "morph"@);
        WalkContextV {
            lex: Some(
                LexicalInfoV {
                    strongs: strongs_of_lemma(lemma),
                    lemma: tr_lemma_of(lemma),
                    gloss: None,
                    morph: Some(decode_morph_spec(morph)),
                },
            ),
            is_red: c.is_red,
            is_added: c.is_added,
            is_italic: c.is_italic,
            in_note: c.in_note,
        }
    } else if seq_eq_ci(name, "q"@) && attr_lookup_ci(attrs, "who"@) == Some("Jesus"@) {
        WalkContextV {
            lex: c.lex,
            is_red: true,
            is_added: c.is_added,
            is_italic: c.is_italic,
            in_note: c.in_note,
        }
    } else if seq_eq_ci(name, "transChange"@) && attr_lookup_ci(attrs, "type"@) == Some(
        "added"@,
    ) {
        WalkContextV {
            lex: c.lex,
            is_red: c.is_red,
            is_added: true,
            is_italic: c.is_italic,
            in_note: c.in_note,
        }
    } else if seq_eq_ci(name, "hi"@) && attr_lookup_ci(attrs, "type"@) == Some("italic"@) {
        WalkContextV {
            lex: c.lex,
            is_red: c.is_red,
            is_added: c.is_added,
            is_italic: true,
            in_note: c.in_note,
        }
    } else if seq_eq_ci(name, "note"@) {
        WalkContextV {
            lex: c.lex,
            is_red: c.is_red,
            is_added: c.is_added,
            is_italic: c.is_italic,
            in_note: true,
        }
    } else {
        c
    }
}

/// Every character of the piece is ASCII punctuation.
pub open spec fn all_ascii_punct(p: Seq<char>) -> bool {
    forall|i: int| 0 <= i < p.len() ==> is_ascii_punct(#[trigger] p[i])
}

/// The word one text piece becomes under context `c`: a snapshot of the
/// inherited state, Added style taking priority over Plain.
pub open spec fn word_of(c: WalkContextV, piece: Seq<char>) -> WordV {
    WordV {
        text: piece,
        style: if c.is_added {
            SegmentStyle::Added
        } else {
            SegmentStyle::Plain
        },
        is_red: c.is_red,
        is_italic: c.is_italic,
        is_bold_text: false,
        lex: c.lex,
        note: None,
        is_first_in_group: false,
        is_last_in_group: false,
        is_punctuation: all_ascii_punct(piece),
    }
}

/// The words one text node emits: none inside a note, otherwise one word per
/// whitespace-delimited piece.
pub open spec fn text_words(c: WalkContextV, t: Seq<char>) -> Seq<WordV> {
    if c.in_note {
        Seq::empty()
    } else {
        split_ws(t).map_values(|p: Seq<char>| word_of(c, p))
    }
}

/// The walk's whole state: the context stack and the words emitted so far.
pub struct WalkStateV {
    pub stack: Seq<WalkContextV>,
    pub words: Seq<WordV>,
}

/// The state before any event: one root context, no words.
pub open spec fn walk_init() -> WalkStateV {
    WalkStateV { stack: seq![initial_context()], words: Seq::empty() }
}

/// The context in force: the top of the stack.
pub open spec fn walk_top(st: WalkStateV) -> WalkContextV {
    if st.stack.len() > 0 {
        st.stack.last()
    } else {
        initial_context()
    }
}

/// One event's effect: an element pushes its children's context, text emits
/// words under the current context, a close reverts to the parent's context.
/// The root context is never popped, so stray close tags are tolerated.
pub open spec fn walk_step(st: WalkStateV, ev: MarkupEventV) -> WalkStateV {
    match ev {
        MarkupEventV::Open { name, attrs } => WalkStateV {
            stack: st.stack.push(child_context_spec(walk_top(st), name, attrs)),
            words: st.words,
        },
        MarkupEventV::Text(t) => WalkStateV {
            stack: st.stack,
            words: st.words + text_words(walk_top(st), t),
        },
        MarkupEventV::Close { name } => {
            if st.stack.len() > 1 {
                WalkStateV { stack: st.stack.drop_last(), words: st.words }
            } else {
                st
            }
        },
        MarkupEventV::SelfClose { name, attrs } => st,
        MarkupEventV::Skip => st,
    }
}

/// The state after all of `evs`.
pub open spec fn walk_events(evs: Seq<MarkupEventV>) -> WalkStateV
    decreases evs.len(),
{
    if evs.len() == 0 {
        walk_init()
    } else {
        walk_step(walk_events(evs.drop_last()), evs.last())
    }
}

/// The ordered word list the walk of `evs` emits.
pub open spec fn walk_words_spec(evs: Seq<MarkupEventV>) -> Seq<WordV> {
    walk_events(evs).words
}

/// Tests whether one attribute has exactly the given value, matching the
/// attribute name up to ASCII case.
fn attr_is_ci(attrs: &Vec<(String, String)>, key: &str, value: &str) -> (r: bool)
    ensures
        r == (attr_lookup_ci(attrs.deep_view(), key@) == Some(value@)),
{
    match get_attr_ci(attrs, key) {
        Some(v) => str_eq(v.as_str(), value),
        None => false,
    }
}

/// Computes the context an element hands its children.
fn apply_element_rules(c: &WalkContext, name: &str, attrs: &Vec<(String, String)>) -> (r:
    WalkContext)
    ensures
        r@ == child_context_spec(c@, name@, attrs.deep_view()),
{
    if str_eq_ci(name, "w") {
        let lemma = match get_attr_ci(attrs, "lemma") {
            Some(v) => v,
            None => String::new(),
        };
        let morph_attr = match get_attr_ci(attrs, "morph") {
            Some(v) => v,
            None => String::new(),
        };
        let strongs = extract_strongs(lemma.as_str());
        let tr = extract_tr_lemma(lemma.as_str());
        let dm = decode_morph(morph_attr.as_str());
        proof {
            assert(lemma@ == attr_or_empty(attrs.deep_view(), "lemma"@));
            assert(morph_attr@ == attr_or_empty(attrs.deep_view(), "morph"@));
        }
        WalkContext {
            lex: Some(LexicalInfo { strongs, lemma: tr, gloss: None, morph: Some(dm) }),
            is_red: c.is_red,
            is_added: c.is_added,
            is_italic: c.is_italic,
            in_note: c.in_note,
        }
    } else if str_eq_ci(name, "q") && attr_is_ci(attrs, "who", "Jesus") {
        WalkContext {
            lex: clone_opt_lexical(&c.lex),
            is_red: true,
            is_added: c.is_added,
            is_italic: c.is_italic,
            in_note: c.in_note,
        }
    } else if str_eq_ci(name, "transChange") && attr_is_ci(attrs, "type", "added") {
        WalkContext {
            lex: clone_opt_lexical(&c.lex),
            is_red: c.is_red,
            is_added: true,
            is_italic: c.is_italic,
            in_note: c.in_note,
        }
    } else if str_eq_ci(name, "hi") && attr_is_ci(attrs, "type", "italic") {
        WalkContext {
            lex: clone_opt_lexical(&c.lex),
            is_red: c.is_red,
            is_added: c.is_added,
            is_italic: true,
            in_note: c.in_note,
        }
    } else if str_eq_ci(name, "note") {
        WalkContext {
            lex: clone_opt_lexical(&c.lex),
            is_red: c.is_red,
            is_added: c.is_added,
            is_italic: c.is_italic,
            in_note: true,
        }
    } else {
        WalkContext {
            lex: clone_opt_lexical(&c.lex),
            is_red: c.is_red,
            is_added: c.is_added,
            is_italic: c.is_italic,
            in_note: c.in_note,
        }
    }
}

/// Tests whether every character of a piece is ASCII punctuation.
fn is_punct_token(s: &str) -> (r: bool)
    ensures
        r == all_ascii_punct(s@),
{
    let n = s.unicode_len();
    let mut i: usize = 0;
    while i < n
        invariant
            n == s@.len(),
            i <= n,
            forall|k: int| 0 <= k < i ==> is_ascii_punct(#[trigger] s@[k]),
        decreases n - i,
    {
        if !char_is_ascii_punct(s.get_char(i)) {
            proof {
                assert(!is_ascii_punct(s@[i as int]));
            }
            return false;
        }
        i = i + 1;
    }
    true
}

/// Emits the words of one text node under context `c`.
fn emit_text_words(c: &WalkContext, t: &str, words: &mut Vec<Word>)
    requires
        !c@.in_note,
    ensures
        final(words).deep_view() == old(words).deep_view() + text_words(c@, t@),
{
    let ghost base = words.deep_view();
    let ghost tw = text_words(c@, t@);
    let pieces = split_whitespace(t);
    let ghost pv = pieces.deep_view();
    let n = pieces.len();
    let mut k: usize = 0;
    proof {
        assert(base + tw.take(0) =~= base);
    }
    while k < n
        invariant
            n == pieces.len(),
            pv == pieces.deep_view(),
            !c@.in_note,
            tw == pv.map_values(|p: Seq<char>| word_of(c@, p)),
            tw == text_words(c@, t@),
            k <= n,
            words.deep_view() == base + tw.take(k as int),
        decreases n - k,
    {
        let piece = &pieces[k];
        let w = Word {
            text: piece.clone(),
            style: if c.is_added {
                SegmentStyle::Added
            } else {
                SegmentStyle::Plain
            },
            is_red: c.is_red,
            is_italic: c.is_italic,
            is_bold_text: false,
            lex: clone_opt_lexical(&c.lex),
            note: None,
            is_first_in_group: false,
            is_last_in_group: false,
            is_punctuation: is_punct_token(piece.as_str()),
        };
        let ghost dv0 = words.deep_view();
        words.push(w);
        proof {
            assert(w@ == word_of(c@, pv[k as int]));
            assert(words.deep_view() =~= dv0.push(w@));
            assert(tw[k as int] == word_of(c@, pv[k as int]));
            assert(dv0.push(tw[k as int]) =~= base + tw.take(k as int + 1));
        }
        k = k + 1;
    }
    proof {
        assert(tw.take(n as int) =~= tw);
    }
}

/// Walks one verse's markup events, producing its ordered word stream: each
/// whitespace-delimited piece of text outside notes becomes a word carrying
/// a snapshot of the inherited context at its place.
pub fn walk_osis(events: &Vec<MarkupEvent>) -> (words: Vec<Word>)
    ensures
        words.deep_view() == walk_words_spec(events.deep_view()),
{
    let ghost evs = events.deep_view();
    let n = events.len();
    let mut stack: Vec<WalkContext> = Vec::new();
    stack.push(
        WalkContext { lex: None, is_red: false, is_added: false, is_italic: false, in_note: false },
    );
    let mut words: Vec<Word> = Vec::new();
    let mut i: usize = 0;
    proof {
        assert(stack.deep_view() =~= walk_init().stack);
        assert(words.deep_view() =~= walk_init().words);
        assert(evs.take(0) =~= Seq::<MarkupEventV>::empty());
    }
    while i < n
        invariant
            n == events.len(),
            evs == events.deep_view(),
            i <= n,
            stack.len() >= 1,
            stack.deep_view() == walk_events(evs.take(i as int)).stack,
            words.deep_view() == walk_events(evs.take(i as int)).words,
        decreases n - i,
    {
        let ghost st = walk_events(evs.take(i as int));
        proof {
            assert(evs.take(i as int + 1).drop_last() =~= evs.take(i as int));
            assert(evs.take(i as int + 1).last() == evs[i as int]);
            assert(events[i as int].deep_view() == evs[i as int]);
        }
        match &events[i] {
            MarkupEvent::Open { name, attrs } => {
                let top_idx = stack.len() - 1;
                proof {
                    assert(stack[top_idx as int]@ == st.stack.last());
                }
                let child = apply_element_rules(&stack[top_idx], name.as_str(), attrs);
                let ghost sdv0 = stack.deep_view();
                stack.push(child);
                proof {
                    assert(stack.deep_view() =~= sdv0.push(child@));
                }
            },
            MarkupEvent::Text(t) => {
                let top_idx = stack.len() - 1;
                proof {
                    assert(stack[top_idx as int]@ == st.stack.last());
                }
                if !stack[top_idx].in_note {
                    let top = &stack[top_idx];
                    emit_text_words(top, t.as_str(), &mut words);
                } else {
                    proof {
                        assert(text_words(walk_top(st), t@) =~= Seq::<WordV>::empty());
                        assert(st.words + text_words(walk_top(st), t@) =~= st.words);
                    }
                }
            },
            MarkupEvent::Close { name } => {
                if stack.len() > 1 {
                    let ghost sdv0 = stack.deep_view();
                    stack.pop();
                    proof {
                        assert(stack.deep_view() =~= sdv0.drop_last());
                    }
                }
            },
            MarkupEvent::SelfClose { .. } => {},
            MarkupEvent::Skip => {},
        }
        i = i + 1;
    }
    proof {
        assert(evs.take(n as int) =~= evs);
    }
    words
}

/// No emitted word carries the Note style: note text never enters the word
/// stream as running words.
pub proof fn lemma_walk_words_never_note(evs: Seq<MarkupEventV>)
    ensures
        forall|i: int|
            0 <= i < walk_words_spec(evs).len() ==> #[trigger] walk_words_spec(evs)[i].style
                != SegmentStyle::Note,
    decreases evs.len(),
{
    if evs.len() > 0 {
        lemma_walk_words_never_note(evs.drop_last());
        let st = walk_events(evs.drop_last());
        let ev = evs.last();
        match ev {
            MarkupEventV::Text(t) => {
                let tw = text_words(walk_top(st), t);
                assert forall|i: int| 0 <= i < tw.len() implies #[trigger] tw[i].style
                    != SegmentStyle::Note by {
                    assert(tw[i] == word_of(walk_top(st), split_ws(t)[i]));
                }
                assert forall|i: int| 0 <= i < walk_words_spec(evs).len() implies #[trigger]
                    walk_words_spec(evs)[i].style != SegmentStyle::Note by {
                    if i < st.words.len() {
                        assert(walk_words_spec(evs)[i] == walk_words_spec(evs.drop_last())[i]);
                    } else {
                        assert(walk_words_spec(evs)[i] == tw[i - st.words.len()]);
                    }
                }
            },
            _ => {},
        }
    }
}


/// The walk emits every word with both group flags unset; the group
/// boundary pass is what sets them.
pub proof fn lemma_walk_words_flags_unset(evs: Seq<MarkupEventV>)
    ensures
        forall|i: int|
            0 <= i < walk_words_spec(evs).len() ==> !(#[trigger] walk_words_spec(
                evs,
            )[i]).is_first_in_group && !walk_words_spec(evs)[i].is_last_in_group,
    decreases evs.len(),
{
    if evs.len() > 0 {
        lemma_walk_words_flags_unset(evs.drop_last());
        let st = walk_events(evs.drop_last());
        let ev = evs.last();
        match ev {
            MarkupEventV::Text(t) => {
                let tw = text_words(walk_top(st), t);
                assert forall|i: int| 0 <= i < tw.len() implies !(#[trigger] tw[i]).is_first_in_group
                    && !tw[i].is_last_in_group by {
                    assert(tw[i] == word_of(walk_top(st), split_ws(t)[i]));
                }
                assert forall|i: int| 0 <= i < walk_words_spec(evs).len() implies !(
                #[trigger] walk_words_spec(evs)[i]).is_first_in_group && !walk_words_spec(
                    evs,
                )[i].is_last_in_group by {
                    if i < st.words.len() {
                        assert(walk_words_spec(evs)[i] == walk_words_spec(evs.drop_last())[i]);
                    } else {
                        assert(walk_words_spec(evs)[i] == tw[i - st.words.len()]);
                    }
                }
            },
            _ => {},
        }
    }
}

} // verus!
