//! Note and cross-reference extraction: a second structural pass over the
//! markup events that collects every `note` element, then attaches each note
//! to a word by catch-word or diverts it to the verse-level note list.

use vstd::prelude::*;

use crate::events::{MarkupEvent, MarkupEventV};
use crate::model::{Word, WordV};
use crate::text::{contains_seq, contains_str, join_spec, join_with, lower_of, remove_char_spec,
    remove_char_all, seq_eq_ci, str_eq, str_eq_ci, to_lowercase, trim_spec, trim_str};
use crate::walker::attr_or_empty;

verus! {

/// One footnote or cross-reference found in a verse's markup.
#[derive(Debug, Clone)]
pub struct NoteData {
    /// The note's `type` attribute, or empty.
    pub note_type: String,
    /// The note's `osisRef` attribute, or empty.
    pub osis_ref: String,
    /// The text nodes inside the note, in document order.
    pub body_parts: Vec<String>,
    /// The concatenated text of the first nested catchWord element, if any.
    pub catch: Option<String>,
}

/// Mathematical model of a `NoteData`.
pub struct NoteDataV {
    pub note_type: Seq<char>,
    pub osis_ref: Seq<char>,
    pub body_parts: Seq<Seq<char>>,
    pub catch: Option<Seq<char>>,
}

impl View for NoteData {
    type V = NoteDataV;

    open spec fn view(&self) -> NoteDataV {
        NoteDataV {
            note_type: self.note_type@,
            osis_ref: self.osis_ref@,
            body_parts: self.body_parts.deep_view(),
            catch: match self.catch {
                Some(ref s) => Some(s@),
                None => None,
            },
        }
    }
}

impl DeepView for NoteData {
    type V = NoteDataV;

    open spec fn deep_view(&self) -> NoteDataV {
        self@
    }
}

/// Where the scan stands with a note's catch word.
pub enum CatchState {
    /// No catchWord element seen yet in this note.
    Absent,
    /// Inside the first catchWord element, collecting its text.
    Active { open_depth: usize, text: String },
    /// The first catchWord element has closed; its text is final.
    Done(String),
}

/// Mathematical model of a `CatchState`.
pub enum CatchStateV {
    Absent,
    Active { open_depth: nat, text: Seq<char> },
    Done(Seq<char>),
}

impl View for CatchState {
    type V = CatchStateV;

    open spec fn view(&self) -> CatchStateV {
        match self {
            CatchState::Absent => CatchStateV::Absent,
            CatchState::Active { open_depth, text } => CatchStateV::Active {
                open_depth: *open_depth as nat,
                text: text@,
            },
            CatchState::Done(t) => CatchStateV::Done(t@),
        }
    }
}

/// A note element currently open in the scan. Notes can nest, and each open
/// one collects independently: all text in its subtree joins its body.
pub struct CurNote {
    /// Where this note's entry stands in the output: its place is reserved
    /// at its start tag, so entries keep document order even when notes nest.
    pub slot: usize,
    pub note_type: String,
    pub osis_ref: String,
    /// How many elements are open inside the note.
    pub depth: usize,
    pub body: Vec<String>,
    pub catch: CatchState,
}

/// Mathematical model of a `CurNote`.
pub struct CurNoteV {
    pub slot: int,
    pub note_type: Seq<char>,
    pub osis_ref: Seq<char>,
    pub depth: nat,
    pub body: Seq<Seq<char>>,
    pub catch: CatchStateV,
}

impl View for CurNote {
    type V = CurNoteV;

    open spec fn view(&self) -> CurNoteV {
        CurNoteV {
            slot: self.slot as int,
            note_type: self.note_type@,
            osis_ref: self.osis_ref@,
            depth: self.depth as nat,
            body: self.body.deep_view(),
            catch: self.catch@,
        }
    }
}

impl DeepView for CurNote {
    type V = CurNoteV;

    open spec fn deep_view(&self) -> CurNoteV {
        self@
    }
}

/// The scan's whole state: the entries so far — some still placeholders for
/// notes not yet closed — and the stack of open notes, innermost last.
pub struct NoteScanV {
    pub notes: Seq<NoteDataV>,
    pub open: Seq<CurNoteV>,
}

/// The entry a note's start tag reserves: its attributes with an empty body.
pub open spec fn note_placeholder(attrs: Seq<(Seq<char>, Seq<char>)>) -> NoteDataV {
    NoteDataV {
        note_type: attr_or_empty(attrs, "type"@),
        osis_ref: attr_or_empty(attrs, "osisRef"@),
        body_parts: Seq::empty(),
        catch: None,
    }
}

/// The finished note an open note becomes when it closes.
pub open spec fn finish_note(c: CurNoteV) -> NoteDataV {
    NoteDataV {
        note_type: c.note_type,
        osis_ref: c.osis_ref,
        body_parts: c.body,
        catch: match c.catch {
            CatchStateV::Absent => None,
            CatchStateV::Active { open_depth, text } => Some(text),
            CatchStateV::Done(t) => Some(t),
        },
    }
}

/// An open note's view of a child's start tag: one more open element, and
/// the first catchWord descendant starts this note's catch-word capture.
pub open spec fn open_bump(c: CurNoteV, name: Seq<char>) -> CurNoteV {
    CurNoteV {
        slot: c.slot,
        note_type: c.note_type,
        osis_ref: c.osis_ref,
        depth: c.depth + 1,
        body: c.body,
        catch: if c.catch is Absent && seq_eq_ci(name, "catchWord"@) {
            CatchStateV::Active { open_depth: c.depth, text: Seq::empty() }
        } else {
            c.catch
        },
    }
}

/// Every open note's view of a child's start tag.
pub open spec fn open_bump_all(open: Seq<CurNoteV>, name: Seq<char>) -> Seq<CurNoteV> {
    open.map_values(|c: CurNoteV| open_bump(c, name))
}

/// An open note's view of a self-closing child: depth is unchanged, and a
/// self-closed catchWord is an empty catch word.
pub open spec fn selfclose_bump(c: CurNoteV, name: Seq<char>) -> CurNoteV {
    CurNoteV {
        slot: c.slot,
        note_type: c.note_type,
        osis_ref: c.osis_ref,
        depth: c.depth,
        body: c.body,
        catch: if c.catch is Absent && seq_eq_ci(name, "catchWord"@) {
            CatchStateV::Done(Seq::empty())
        } else {
            c.catch
        },
    }
}

/// Every open note's view of a self-closing child.
pub open spec fn selfclose_bump_all(open: Seq<CurNoteV>, name: Seq<char>) -> Seq<CurNoteV> {
    open.map_values(|c: CurNoteV| selfclose_bump(c, name))
}

/// An open note's view of a text node: it joins the body, and the active
/// catch word while one is being captured.
pub open spec fn text_bump(c: CurNoteV, t: Seq<char>) -> CurNoteV {
    CurNoteV {
        slot: c.slot,
        note_type: c.note_type,
        osis_ref: c.osis_ref,
        depth: c.depth,
        body: c.body.push(t),
        catch: match c.catch {
            CatchStateV::Active { open_depth, text } => CatchStateV::Active {
                open_depth,
                text: text + t,
            },
            other => other,
        },
    }
}

/// Every open note's view of a text node.
pub open spec fn text_bump_all(open: Seq<CurNoteV>, t: Seq<char>) -> Seq<CurNoteV> {
    open.map_values(|c: CurNoteV| text_bump(c, t))
}

/// An open note's view of a closing child: one element fewer, and the close
/// of the capturing catchWord element itself finishes the catch word.
pub open spec fn close_bump(c: CurNoteV) -> CurNoteV {
    CurNoteV {
        slot: c.slot,
        note_type: c.note_type,
        osis_ref: c.osis_ref,
        depth: if c.depth > 0 {
            (c.depth - 1) as nat
        } else {
            0
        },
        body: c.body,
        catch: match c.catch {
            CatchStateV::Active { open_depth, text } => {
                if c.depth == open_depth + 1 {
                    CatchStateV::Done(text)
                } else {
                    c.catch
                }
            },
            _ => c.catch,
        },
    }
}

/// Every open note's view of a closing child.
pub open spec fn close_bump_all(open: Seq<CurNoteV>) -> Seq<CurNoteV> {
    open.map_values(|c: CurNoteV| close_bump(c))
}

/// One event's effect on the note scan. A `note` start tag reserves its
/// entry and opens a collector over the stack of already-open notes; text
/// joins every open note's body; depth counting per open note finds each
/// note's own close tag, which fills its reserved entry. Element names are
/// matched up to ASCII case.
pub open spec fn note_scan_step(st: NoteScanV, ev: MarkupEventV) -> NoteScanV {
    match ev {
        MarkupEventV::Open { name, attrs } => {
            let bumped = open_bump_all(st.open, name);
            if seq_eq_ci(name, "note"@) {
                NoteScanV {
                    notes: st.notes.push(note_placeholder(attrs)),
                    open: bumped.push(
                        CurNoteV {
                            slot: st.notes.len() as int,
                            note_type: attr_or_empty(attrs, "type"@),
                            osis_ref: attr_or_empty(attrs, "osisRef"@),
                            depth: 0,
                            body: Seq::empty(),
                            catch: CatchStateV::Absent,
                        },
                    ),
                }
            } else {
                NoteScanV { notes: st.notes, open: bumped }
            }
        },
        MarkupEventV::SelfClose { name, attrs } => {
            let bumped = selfclose_bump_all(st.open, name);
            if seq_eq_ci(name, "note"@) {
                NoteScanV { notes: st.notes.push(note_placeholder(attrs)), open: bumped }
            } else {
                NoteScanV { notes: st.notes, open: bumped }
            }
        },
        MarkupEventV::Text(t) => NoteScanV { notes: st.notes, open: text_bump_all(st.open, t) },
        MarkupEventV::Close { name } => {
            if st.open.len() > 0 {
                let inner = st.open.last();
                if inner.depth == 0 {
                    NoteScanV {
                        notes: st.notes.update(inner.slot, finish_note(inner)),
                        open: close_bump_all(st.open.drop_last()),
                    }
                } else {
                    NoteScanV { notes: st.notes, open: close_bump_all(st.open) }
                }
            } else {
                st
            }
        },
        MarkupEventV::Skip => st,
    }
}

/// The scan's state after all of `evs`.
pub open spec fn note_scan_state(evs: Seq<MarkupEventV>) -> NoteScanV
    decreases evs.len(),
{
    if evs.len() == 0 {
        NoteScanV { notes: Seq::empty(), open: Seq::empty() }
    } else {
        note_scan_step(note_scan_state(evs.drop_last()), evs.last())
    }
}

/// Notes the input never closes are finished where they stand.
pub open spec fn flush_notes(notes: Seq<NoteDataV>, open: Seq<CurNoteV>) -> Seq<NoteDataV>
    decreases open.len(),
{
    if open.len() == 0 {
        notes
    } else {
        flush_notes(notes.update(open.last().slot, finish_note(open.last())), open.drop_last())
    }
}

/// The notes the scan of `evs` finds, every note element included — nested
/// ones too — in the document order of their start tags.
pub open spec fn note_scan_spec(evs: Seq<MarkupEventV>) -> Seq<NoteDataV> {
    flush_notes(note_scan_state(evs).notes, note_scan_state(evs).open)
}

/// Applies one start tag to every open note.
fn bump_open_elems(open: &mut Vec<CurNote>, name: &str)
    requires
        forall|j: int| 0 <= j < old(open).len() ==> (#[trigger] old(open)@[j]).depth < usize::MAX,
    ensures
        final(open).deep_view() == open_bump_all(old(open).deep_view(), name@),
{
    let ghost odv = open.deep_view();
    let n = open.len();
    let mut out: Vec<CurNote> = Vec::new();
    proof {
        assert(out.deep_view() =~= open_bump_all(odv.subrange(0, 0), name@));
    }
    while open.len() > 0
        invariant
            odv.len() == n,
            open.len() <= n,
            open.deep_view() =~= odv.subrange(n - open.len(), n as int),
            forall|j: int| 0 <= j < open.len() ==> (#[trigger] open@[j]).depth < usize::MAX,
            out.deep_view() == open_bump_all(odv.subrange(0, n - open.len()), name@),
        decreases open.len(),
    {
        let ghost k: int = n - open.len();
        let ghost pre_raw = open@;
        let ghost pre_dv = open.deep_view();
        let c = open.remove(0);
        proof {
            assert(pre_dv[0] == odv.subrange(k, n as int)[0]);
            assert(c@ == pre_dv[0]);
            assert(c@ == odv[k]);
            assert(open@ =~= pre_raw.subrange(1, pre_raw.len() as int));
            assert forall|j: int|
                0 <= j < open.len() implies #[trigger] open.deep_view()[j] == odv.subrange(
                k + 1,
                n as int,
            )[j] by {
                assert(pre_raw.subrange(1, pre_raw.len() as int)[j] == pre_raw[j + 1]);
                assert(open@[j] == pre_raw[j + 1]);
                assert(pre_dv[j + 1] == odv.subrange(k, n as int)[j + 1]);
            };
            assert(open.deep_view() =~= odv.subrange(k + 1, n as int));
        }
        let CurNote { slot, note_type, osis_ref, depth, body, catch } = c;
        let new_catch = match catch {
            CatchState::Absent => {
                if str_eq_ci(name, "catchWord") {
                    CatchState::Active { open_depth: depth, text: String::new() }
                } else {
                    CatchState::Absent
                }
            },
            other => other,
        };
        let nb = CurNote { slot, note_type, osis_ref, depth: depth + 1, body, catch: new_catch };
        let ghost dv0 = out.deep_view();
        proof {
            assert(nb@ == open_bump(odv[k], name@));
        }
        out.push(nb);
        proof {
            assert(out.deep_view() =~= dv0.push(open_bump(odv[k], name@)));
            assert(out.deep_view() =~= open_bump_all(odv.subrange(0, k + 1), name@));
        }
    }
    proof {
        assert(odv.subrange(0, n as int) =~= odv);
    }
    *open = out;
}

/// Applies one self-closing tag to every open note.
fn bump_selfclose_elems(open: &mut Vec<CurNote>, name: &str)
    ensures
        final(open).deep_view() == selfclose_bump_all(old(open).deep_view(), name@),
{
    let ghost odv = open.deep_view();
    let n = open.len();
    let mut out: Vec<CurNote> = Vec::new();
    proof {
        assert(out.deep_view() =~= selfclose_bump_all(odv.subrange(0, 0), name@));
    }
    while open.len() > 0
        invariant
            odv.len() == n,
            open.len() <= n,
            open.deep_view() =~= odv.subrange(n - open.len(), n as int),
            out.deep_view() == selfclose_bump_all(odv.subrange(0, n - open.len()), name@),
        decreases open.len(),
    {
        let ghost k: int = n - open.len();
        let ghost pre_raw = open@;
        let ghost pre_dv = open.deep_view();
        let c = open.remove(0);
        proof {
            assert(pre_dv[0] == odv.subrange(k, n as int)[0]);
            assert(c@ == pre_dv[0]);
            assert(c@ == odv[k]);
            assert(open@ =~= pre_raw.subrange(1, pre_raw.len() as int));
            assert forall|j: int|
                0 <= j < open.len() implies #[trigger] open.deep_view()[j] == odv.subrange(
                k + 1,
                n as int,
            )[j] by {
                assert(pre_raw.subrange(1, pre_raw.len() as int)[j] == pre_raw[j + 1]);
                assert(open@[j] == pre_raw[j + 1]);
                assert(pre_dv[j + 1] == odv.subrange(k, n as int)[j + 1]);
            };
            assert(open.deep_view() =~= odv.subrange(k + 1, n as int));
        }
        let CurNote { slot, note_type, osis_ref, depth, body, catch } = c;
        let new_catch = match catch {
            CatchState::Absent => {
                if str_eq_ci(name, "catchWord") {
                    CatchState::Done(String::new())
                } else {
                    CatchState::Absent
                }
            },
            other => other,
        };
        let nb = CurNote { slot, note_type, osis_ref, depth, body, catch: new_catch };
        let ghost dv0 = out.deep_view();
        proof {
            assert(nb@ == selfclose_bump(odv[k], name@));
        }
        out.push(nb);
        proof {
            assert(out.deep_view() =~= dv0.push(selfclose_bump(odv[k], name@)));
            assert(out.deep_view() =~= selfclose_bump_all(odv.subrange(0, k + 1), name@));
        }
    }
    proof {
        assert(odv.subrange(0, n as int) =~= odv);
    }
    *open = out;
}

/// Applies one text node to every open note.
fn bump_text_elems(open: &mut Vec<CurNote>, t: &str)
    ensures
        final(open).deep_view() == text_bump_all(old(open).deep_view(), t@),
{
    let ghost odv = open.deep_view();
    let n = open.len();
    let mut out: Vec<CurNote> = Vec::new();
    proof {
        assert(out.deep_view() =~= text_bump_all(odv.subrange(0, 0), t@));
    }
    while open.len() > 0
        invariant
            odv.len() == n,
            open.len() <= n,
            open.deep_view() =~= odv.subrange(n - open.len(), n as int),
            out.deep_view() == text_bump_all(odv.subrange(0, n - open.len()), t@),
        decreases open.len(),
    {
        let ghost k: int = n - open.len();
        let ghost pre_raw = open@;
        let ghost pre_dv = open.deep_view();
        let c = open.remove(0);
        proof {
            assert(pre_dv[0] == odv.subrange(k, n as int)[0]);
            assert(c@ == pre_dv[0]);
            assert(c@ == odv[k]);
            assert(open@ =~= pre_raw.subrange(1, pre_raw.len() as int));
            assert forall|j: int|
                0 <= j < open.len() implies #[trigger] open.deep_view()[j] == odv.subrange(
                k + 1,
                n as int,
            )[j] by {
                assert(pre_raw.subrange(1, pre_raw.len() as int)[j] == pre_raw[j + 1]);
                assert(open@[j] == pre_raw[j + 1]);
                assert(pre_dv[j + 1] == odv.subrange(k, n as int)[j + 1]);
            };
            assert(open.deep_view() =~= odv.subrange(k + 1, n as int));
        }
        let CurNote { slot, note_type, osis_ref, depth, mut body, catch } = c;
        let ghost bdv0 = body.deep_view();
        body.push(t.to_owned());
        proof {
            assert(body.deep_view() =~= bdv0.push(t@));
        }
        let new_catch = match catch {
            CatchState::Active { open_depth, mut text } => {
                text.append(t);
                CatchState::Active { open_depth, text }
            },
            other => other,
        };
        let nb = CurNote { slot, note_type, osis_ref, depth, body, catch: new_catch };
        let ghost dv0 = out.deep_view();
        proof {
            assert(nb@ == text_bump(odv[k], t@));
        }
        out.push(nb);
        proof {
            assert(out.deep_view() =~= dv0.push(text_bump(odv[k], t@)));
            assert(out.deep_view() =~= text_bump_all(odv.subrange(0, k + 1), t@));
        }
    }
    proof {
        assert(odv.subrange(0, n as int) =~= odv);
    }
    *open = out;
}

/// Applies one closing tag to every open note.
fn bump_close_elems(open: &mut Vec<CurNote>)
    ensures
        final(open).deep_view() == close_bump_all(old(open).deep_view()),
{
    let ghost odv = open.deep_view();
    let n = open.len();
    let mut out: Vec<CurNote> = Vec::new();
    proof {
        assert(out.deep_view() =~= close_bump_all(odv.subrange(0, 0)));
    }
    while open.len() > 0
        invariant
            odv.len() == n,
            open.len() <= n,
            open.deep_view() =~= odv.subrange(n - open.len(), n as int),
            out.deep_view() == close_bump_all(odv.subrange(0, n - open.len())),
        decreases open.len(),
    {
        let ghost k: int = n - open.len();
        let ghost pre_raw = open@;
        let ghost pre_dv = open.deep_view();
        let c = open.remove(0);
        proof {
            assert(pre_dv[0] == odv.subrange(k, n as int)[0]);
            assert(c@ == pre_dv[0]);
            assert(c@ == odv[k]);
            assert(open@ =~= pre_raw.subrange(1, pre_raw.len() as int));
            assert forall|j: int|
                0 <= j < open.len() implies #[trigger] open.deep_view()[j] == odv.subrange(
                k + 1,
                n as int,
            )[j] by {
                assert(pre_raw.subrange(1, pre_raw.len() as int)[j] == pre_raw[j + 1]);
                assert(open@[j] == pre_raw[j + 1]);
                assert(pre_dv[j + 1] == odv.subrange(k, n as int)[j + 1]);
            };
            assert(open.deep_view() =~= odv.subrange(k + 1, n as int));
        }
        let CurNote { slot, note_type, osis_ref, depth, body, catch } = c;
        let new_catch = match catch {
            CatchState::Active { open_depth, text } => {
                if depth >= 1 && depth - 1 == open_depth {
                    CatchState::Done(text)
                } else {
                    CatchState::Active { open_depth, text }
                }
            },
            other => other,
        };
        let new_depth: usize = if depth > 0 {
            depth - 1
        } else {
            0
        };
        let nb = CurNote { slot, note_type, osis_ref, depth: new_depth, body, catch: new_catch };
        let ghost dv0 = out.deep_view();
        proof {
            assert(nb@ == close_bump(odv[k]));
        }
        out.push(nb);
        proof {
            assert(out.deep_view() =~= dv0.push(close_bump(odv[k])));
            assert(out.deep_view() =~= close_bump_all(odv.subrange(0, k + 1)));
        }
    }
    proof {
        assert(odv.subrange(0, n as int) =~= odv);
    }
    *open = out;
}

/// Builds the finished entry for one closed note.
fn finish_cur_note(c: CurNote) -> (r: NoteData)
    ensures
        r@ == finish_note(c@),
{
    let CurNote { slot, note_type, osis_ref, depth, body, catch } = c;
    NoteData {
        note_type,
        osis_ref,
        body_parts: body,
        catch: match catch {
            CatchState::Absent => None,
            CatchState::Active { open_depth, text } => Some(text),
            CatchState::Done(t) => Some(t),
        },
    }
}

/// Scans a verse's markup events for all its `note` elements, nested ones
/// included: each yields its `type` and `osisRef` attributes, the text nodes
/// of its subtree, and the text of its first nested catchWord element, in
/// the document order of the notes' start tags.
pub fn scan_notes(events: &Vec<MarkupEvent>) -> (notes: Vec<NoteData>)
    ensures
        notes.deep_view() == note_scan_spec(events.deep_view()),
{
    let ghost evs = events.deep_view();
    let n = events.len();
    let mut notes: Vec<NoteData> = Vec::new();
    let mut open: Vec<CurNote> = Vec::new();
    let mut i: usize = 0;
    proof {
        assert(evs.take(0) =~= Seq::<MarkupEventV>::empty());
        assert(notes.deep_view() =~= note_scan_state(evs.take(0)).notes);
        assert(open.deep_view() =~= note_scan_state(evs.take(0)).open);
    }
    while i < n
        invariant
            n == events.len(),
            evs == events.deep_view(),
            i <= n,
            notes.deep_view() == note_scan_state(evs.take(i as int)).notes,
            open.deep_view() == note_scan_state(evs.take(i as int)).open,
            forall|j: int|
                0 <= j < open.len() ==> (#[trigger] open@[j]).slot < notes.len() && open@[j].depth
                    <= i,
        decreases n - i,
    {
        let ghost st = note_scan_state(evs.take(i as int));
        let ghost st2 = note_scan_step(st, evs[i as int]);
        proof {
            assert(evs.take(i as int + 1).drop_last() =~= evs.take(i as int));
            assert(evs.take(i as int + 1).last() == evs[i as int]);
            assert(events[i as int].deep_view() == evs[i as int]);
            assert(note_scan_state(evs.take(i as int + 1)) == st2);
            assert forall|j: int|
                0 <= j < st.open.len() implies (#[trigger] st.open[j]).slot < st.notes.len()
                    && st.open[j].depth <= i by {
                assert(st.open[j] == open@[j]@);
                assert(st.notes.len() == notes.len());
            };
        }
        match &events[i] {
            MarkupEvent::Open { name, attrs } => {
                bump_open_elems(&mut open, name.as_str());
                proof {
                    assert(open.deep_view() == open_bump_all(st.open, name@));
                    assert(open.deep_view().len() == st.open.len());
                    assert forall|j: int|
                        0 <= j < open.len() implies #[trigger] open@[j]@ == open_bump(
                        st.open[j],
                        name@,
                    ) by {
                        assert(open.deep_view()[j] == open_bump_all(st.open, name@)[j]);
                        assert(open.deep_view()[j] == open_bump(st.open[j], name@));
                        assert(open@[j]@ == open.deep_view()[j]);
                    };
                }
                if str_eq_ci(name.as_str(), "note") {
                    let typ = match crate::events::get_attr_ci(attrs, "type") {
                        Some(v) => v,
                        None => String::new(),
                    };
                    let oref = match crate::events::get_attr_ci(attrs, "osisRef") {
                        Some(v) => v,
                        None => String::new(),
                    };
                    let slot = notes.len();
                    let nd = NoteData {
                        note_type: typ.clone(),
                        osis_ref: oref.clone(),
                        body_parts: Vec::new(),
                        catch: None,
                    };
                    let ghost ndv0 = notes.deep_view();
                    proof {
                        assert(nd@.body_parts =~= Seq::<Seq<char>>::empty());
                        assert(nd@ == note_placeholder(attrs.deep_view()));
                    }
                    notes.push(nd);
                    let nc = CurNote {
                        slot,
                        note_type: typ,
                        osis_ref: oref,
                        depth: 0,
                        body: Vec::new(),
                        catch: CatchState::Absent,
                    };
                    let ghost odv0 = open.deep_view();
                    proof {
                        assert(nc@.body =~= Seq::<Seq<char>>::empty());
                        assert(notes.deep_view() =~= ndv0.push(note_placeholder(
                            attrs.deep_view(),
                        )));
                    }
                    open.push(nc);
                    proof {
                        assert(open.deep_view() =~= odv0.push(nc@));
                        assert(open.deep_view() =~= st2.open);
                    }
                }
            },
            MarkupEvent::SelfClose { name, attrs } => {
                bump_selfclose_elems(&mut open, name.as_str());
                proof {
                    assert(open.deep_view() == selfclose_bump_all(st.open, name@));
                    assert(open.deep_view().len() == st.open.len());
                    assert forall|j: int|
                        0 <= j < open.len() implies #[trigger] open@[j]@ == selfclose_bump(
                        st.open[j],
                        name@,
                    ) by {
                        assert(open.deep_view()[j] == selfclose_bump_all(st.open, name@)[j]);
                        assert(open.deep_view()[j] == selfclose_bump(st.open[j], name@));
                        assert(open@[j]@ == open.deep_view()[j]);
                    };
                }
                if str_eq_ci(name.as_str(), "note") {
                    let typ = match crate::events::get_attr_ci(attrs, "type") {
                        Some(v) => v,
                        None => String::new(),
                    };
                    let oref = match crate::events::get_attr_ci(attrs, "osisRef") {
                        Some(v) => v,
                        None => String::new(),
                    };
                    let nd = NoteData {
                        note_type: typ,
                        osis_ref: oref,
                        body_parts: Vec::new(),
                        catch: None,
                    };
                    let ghost ndv0 = notes.deep_view();
                    proof {
                        assert(nd@.body_parts =~= Seq::<Seq<char>>::empty());
                        assert(nd@ == note_placeholder(attrs.deep_view()));
                    }
                    notes.push(nd);
                    proof {
                        assert(notes.deep_view() =~= ndv0.push(note_placeholder(
                            attrs.deep_view(),
                        )));
                    }
                }
            },
            MarkupEvent::Text(t) => {
                bump_text_elems(&mut open, t.as_str());
                proof {
                    assert(open.deep_view() == text_bump_all(st.open, t@));
                    assert(open.deep_view().len() == st.open.len());
                    assert forall|j: int|
                        0 <= j < open.len() implies #[trigger] open@[j]@ == text_bump(
                        st.open[j],
                        t@,
                    ) by {
                        assert(open.deep_view()[j] == text_bump_all(st.open, t@)[j]);
                        assert(open.deep_view()[j] == text_bump(st.open[j], t@));
                        assert(open@[j]@ == open.deep_view()[j]);
                    };
                }
            },
            MarkupEvent::Close { name } => {
                if open.len() > 0 {
                    let last_idx = open.len() - 1;
                    if open[last_idx].depth == 0 {
                        let ghost odv0 = open.deep_view();
                        let inner = open.pop().unwrap();
                        proof {
                            assert(open.deep_view() =~= odv0.drop_last());
                            assert(inner@ == st.open.last());
                        }
                        let slot = inner.slot;
                        let finished = finish_cur_note(inner);
                        let ghost ndv0 = notes.deep_view();
                        let ghost fv = finished@;
                        let displaced = notes.remove(slot);
                        notes.insert(slot, finished);
                        proof {
                            assert(notes.deep_view() =~= ndv0.update(slot as int, fv));
                        }
                        bump_close_elems(&mut open);
                        proof {
                            assert(open.deep_view() == close_bump_all(st.open.drop_last()));
                            assert(open.deep_view().len() == st.open.len() - 1);
                            assert forall|j: int|
                                0 <= j < open.len() implies #[trigger] open@[j]@ == close_bump(
                                st.open.drop_last()[j],
                            ) by {
                                assert(open.deep_view()[j] == close_bump_all(
                                    st.open.drop_last(),
                                )[j]);
                                assert(open.deep_view()[j] == close_bump(st.open.drop_last()[j]));
                                assert(open@[j]@ == open.deep_view()[j]);
                                assert(st.open.drop_last()[j] == st.open[j]);
                            };
                        }
                    } else {
                        bump_close_elems(&mut open);
                        proof {
                            assert(open.deep_view() == close_bump_all(st.open));
                            assert(open.deep_view().len() == st.open.len());
                            assert forall|j: int|
                                0 <= j < open.len() implies #[trigger] open@[j]@ == close_bump(
                                st.open[j],
                            ) by {
                                assert(open.deep_view()[j] == close_bump_all(st.open)[j]);
                                assert(open.deep_view()[j] == close_bump(st.open[j]));
                                assert(open@[j]@ == open.deep_view()[j]);
                            };
                        }
                    }
                }
            },
            MarkupEvent::Skip => {},
        }
        proof {
            let ev = evs[i as int];
            assert forall|j: int|
                0 <= j < st2.open.len() implies (#[trigger] st2.open[j]).slot < st2.notes.len()
                    && st2.open[j].depth <= i + 1 by {
                match ev {
                    MarkupEventV::Open { name, attrs } => {
                        let bumped = open_bump_all(st.open, name);
                        if j < st.open.len() {
                            assert(bumped[j] == open_bump(st.open[j], name));
                            assert(st2.open[j] == open_bump(st.open[j], name));
                        } else {
                            assert(seq_eq_ci(name, "note"@));
                            assert(st2.open[j].slot == st.notes.len());
                        }
                    },
                    MarkupEventV::SelfClose { name, attrs } => {
                        assert(selfclose_bump_all(st.open, name)[j] == selfclose_bump(
                            st.open[j],
                            name,
                        ));
                    },
                    MarkupEventV::Text(t) => {
                        assert(text_bump_all(st.open, t)[j] == text_bump(st.open[j], t));
                    },
                    MarkupEventV::Close { name } => {
                        if st.open.len() > 0 {
                            if st.open.last().depth == 0 {
                                assert(close_bump_all(st.open.drop_last())[j] == close_bump(
                                    st.open.drop_last()[j],
                                ));
                                assert(st.open.drop_last()[j] == st.open[j]);
                            } else {
                                assert(close_bump_all(st.open)[j] == close_bump(st.open[j]));
                            }
                        }
                    },
                    MarkupEventV::Skip => {},
                }
            };
            assert forall|j: int|
                0 <= j < open.len() implies (#[trigger] open@[j]).slot < notes.len() && open@[
                j].depth <= i + 1 by {
                assert(open@[j]@ == open.deep_view()[j]);
                assert(open.deep_view()[j] == st2.open[j]);
                assert(notes.deep_view().len() == st2.notes.len());
            };
        }
        i = i + 1;
    }
    proof {
        assert(evs.take(n as int) =~= evs);
    }
    while open.len() > 0
        invariant
            flush_notes(notes.deep_view(), open.deep_view()) == note_scan_spec(evs),
            forall|j: int| 0 <= j < open.len() ==> (#[trigger] open@[j]).slot < notes.len(),
        decreases open.len(),
    {
        let ghost ndv0 = notes.deep_view();
        let ghost odv0 = open.deep_view();
        let inner = open.pop().unwrap();
        proof {
            assert(open.deep_view() =~= odv0.drop_last());
            assert(inner@ == odv0.last());
        }
        let slot = inner.slot;
        let finished = finish_cur_note(inner);
        let ghost fv = finished@;
        let displaced = notes.remove(slot);
        notes.insert(slot, finished);
        proof {
            assert(notes.deep_view() =~= ndv0.update(slot as int, fv));
        }
    }
    notes
}

/// `w` with a note attached; all other fields keep their values.
pub open spec fn with_note(w: WordV, b: Seq<char>) -> WordV {
    WordV {
        text: w.text,
        style: w.style,
        is_red: w.is_red,
        is_italic: w.is_italic,
        is_bold_text: w.is_bold_text,
        lex: w.lex,
        note: Some(b),
        is_first_in_group: w.is_first_in_group,
        is_last_in_group: w.is_last_in_group,
        is_punctuation: w.is_punctuation,
    }
}

/// A catch word normalized for matching: ellipsis characters stripped,
/// lowercased, trimmed.
pub open spec fn catch_clean(ct: Seq<char>) -> Seq<char> {
    trim_spec(lower_of(remove_char_spec(ct, '\u{2026}')))
}

/// The first word whose lowercased text contains `clean` as a substring, or
/// `words.len()` if none does.
pub open spec fn first_matching_word(words: Seq<WordV>, clean: Seq<char>) -> int
    decreases words.len(),
{
    if words.len() == 0 {
        0
    } else if contains_seq(lower_of(words[0].text), clean) {
        0
    } else {
        1 + first_matching_word(words.drop_first(), clean)
    }
}

proof fn lemma_first_matching_word_bounds(words: Seq<WordV>, clean: Seq<char>)
    ensures
        0 <= first_matching_word(words, clean) <= words.len(),
    decreases words.len(),
{
    if words.len() > 0 && !contains_seq(lower_of(words[0].text), clean) {
        lemma_first_matching_word_bounds(words.drop_first(), clean);
    }
}

proof fn lemma_first_matching_word_at(words: Seq<WordV>, clean: Seq<char>, i: int)
    requires
        0 <= i <= words.len(),
        forall|k: int| 0 <= k < i ==> !contains_seq(lower_of(#[trigger] words[k].text), clean),
        i < words.len() ==> contains_seq(lower_of(words[i].text), clean),
    ensures
        first_matching_word(words, clean) == i,
    decreases i,
{
    if words.len() == 0 {
    } else if i == 0 {
    } else {
        assert(!contains_seq(lower_of(words[0].text), clean));
        let t = words.drop_first();
        assert(forall|k: int| 0 <= k < i - 1 ==> #[trigger] t[k] == words[k + 1]);
        lemma_first_matching_word_at(t, clean, i - 1);
    }
}

/// One note's disposition. A cross-reference — `type` is `crossReference` or
/// `osisRef` is nonempty — always joins the verse-level list, formatted with
/// its reference, and never attaches to a word. Otherwise a note with a
/// catch word attaches to the first word whose lowercased text contains the
/// normalized catch word, falling back to the verse-level list; a note
/// without one joins the list directly.
pub open spec fn attach_one(words: Seq<WordV>, acc: Seq<Seq<char>>, nt: NoteDataV) -> (
    Seq<WordV>,
    Seq<Seq<char>>,
) {
    let body = join_spec(nt.body_parts, " "@);
    if nt.note_type == "crossReference"@ || nt.osis_ref.len() > 0 {
        let line = if nt.osis_ref.len() > 0 {
            "[Cross-Ref: "@ + nt.osis_ref + "] "@ + body
        } else {
            body
        };
        (words, acc.push(line))
    } else {
        match nt.catch {
            Some(ct) => {
                let k = first_matching_word(words, catch_clean(ct));
                if k < words.len() {
                    (words.update(k, with_note(words[k], body)), acc)
                } else {
                    (words, acc.push(body))
                }
            },
            None => (words, acc.push(body)),
        }
    }
}

/// All notes applied in document order.
pub open spec fn attach_all(words: Seq<WordV>, acc: Seq<Seq<char>>, notes: Seq<NoteDataV>) -> (
    Seq<WordV>,
    Seq<Seq<char>>,
)
    decreases notes.len(),
{
    if notes.len() == 0 {
        (words, acc)
    } else {
        let r = attach_one(words, acc, notes[0]);
        attach_all(r.0, r.1, notes.drop_first())
    }
}

/// Attaches each scanned note to a word or to the verse-level note list, in
/// document order, and returns that list.
pub fn attach_notes(words: &mut Vec<Word>, notes: &Vec<NoteData>) -> (verse_notes: Vec<String>)
    ensures
        final(words).deep_view() == attach_all(
            old(words).deep_view(),
            Seq::empty(),
            notes.deep_view(),
        ).0,
        verse_notes.deep_view() == attach_all(
            old(words).deep_view(),
            Seq::empty(),
            notes.deep_view(),
        ).1,
{
    let ghost w0 = words.deep_view();
    let ghost all = notes.deep_view();
    let n = notes.len();
    let mut acc: Vec<String> = Vec::new();
    let mut j: usize = 0;
    proof {
        assert(all.skip(0) =~= all);
        assert(acc.deep_view() =~= Seq::<Seq<char>>::empty());
    }
    while j < n
        invariant
            n == notes.len(),
            all == notes.deep_view(),
            j <= n,
            attach_all(w0, Seq::empty(), all) == attach_all(
                words.deep_view(),
                acc.deep_view(),
                all.skip(j as int),
            ),
        decreases n - j,
    {
        let ghost rest = all.skip(j as int);
        let ghost wv = words.deep_view();
        let ghost av = acc.deep_view();
        proof {
            assert(rest[0] == all[j as int]);
            assert(rest.drop_first() =~= all.skip(j as int + 1));
            assert(notes[j as int].deep_view() == all[j as int]);
        }
        let nt = &notes[j];
        let body = join_with(&nt.body_parts, " ");
        let is_cross = str_eq(nt.note_type.as_str(), "crossReference") || nt.osis_ref.as_str()
            .unicode_len() > 0;
        if is_cross {
            let line = if nt.osis_ref.as_str().unicode_len() > 0 {
                let mut line = String::new();
                line.append("[Cross-Ref: ");
                line.append(nt.osis_ref.as_str());
                line.append("] ");
                line.append(body.as_str());
                line
            } else {
                body
            };
            let ghost adv0 = acc.deep_view();
            acc.push(line);
            proof {
                assert(acc.deep_view() =~= adv0.push(attach_one(wv, av, all[j as int]).1.last()));
                assert(acc.deep_view() =~= attach_one(wv, av, all[j as int]).1);
            }
        } else {
            match &nt.catch {
                Some(ct) => {
                    let stripped = remove_char_all(ct.as_str(), '\u{2026}');
                    let lowered = to_lowercase(stripped.as_str());
                    let clean = trim_str(lowered.as_str());
                    let ghost cleanv = catch_clean(ct@);
                    proof {
                        assert(clean@ == cleanv);
                    }
                    let m = words.len();
                    let mut k: usize = 0;
                    let mut searching = true;
                    while searching && k < m
                        invariant
                            m == words.len(),
                            wv == words.deep_view(),
                            k <= m,
                            clean@ == cleanv,
                            forall|q: int| 0 <= q < k ==> !contains_seq(
                                lower_of(#[trigger] wv[q].text),
                                cleanv,
                            ),
                            !searching ==> k < m && contains_seq(lower_of(wv[k as int].text), cleanv),
                        decreases m - k + (if searching { 1int } else { 0int }),
                    {
                        let low = to_lowercase(words[k].text.as_str());
                        if contains_str(low.as_str(), clean.as_str()) {
                            searching = false;
                        } else {
                            k = k + 1;
                        }
                    }
                    if !searching {
                        proof {
                            lemma_first_matching_word_at(wv, cleanv, k as int);
                        }
                        let mut w = words.remove(k);
                        w.note = Some(body);
                        proof {
                            assert(w@ == with_note(wv[k as int], join_spec(
                                all[j as int].body_parts,
                                " "@,
                            )));
                        }
                        words.insert(k, w);
                        proof {
                            assert(words.deep_view() =~= wv.update(
                                k as int,
                                with_note(wv[k as int], join_spec(all[j as int].body_parts, " "@)),
                            ));
                        }
                    } else {
                        proof {
                            lemma_first_matching_word_at(wv, cleanv, m as int);
                        }
                        let ghost adv0 = acc.deep_view();
                        acc.push(body);
                        proof {
                            assert(acc.deep_view() =~= adv0.push(join_spec(
                                all[j as int].body_parts,
                                " "@,
                            )));
                        }
                    }
                },
                None => {
                    let ghost adv0 = acc.deep_view();
                    acc.push(body);
                    proof {
                        assert(acc.deep_view() =~= adv0.push(join_spec(
                            all[j as int].body_parts,
                            " "@,
                        )));
                    }
                },
            }
        }
        j = j + 1;
    }
    proof {
        assert(all.skip(n as int).len() == 0);
    }
    acc
}

/// A cross-reference note — nonempty `osisRef` or `crossReference` type —
/// changes no word: it always lands in the verse-level list, with its
/// reference in front when one exists.
pub proof fn lemma_cross_reference_never_attaches(
    words: Seq<WordV>,
    acc: Seq<Seq<char>>,
    nt: NoteDataV,
)
    requires
        nt.osis_ref.len() > 0 || nt.note_type == "crossReference"@,
    ensures
        attach_one(words, acc, nt).0 == words,
        attach_one(words, acc, nt).1 == acc.push(
            if nt.osis_ref.len() > 0 {
                "[Cross-Ref: "@ + nt.osis_ref + "] "@ + join_spec(nt.body_parts, " "@)
            } else {
                join_spec(nt.body_parts, " "@)
            },
        ),
{
}


/// `a` agrees with `b` on everything but the note field.
pub open spec fn word_core_eq(a: WordV, b: WordV) -> bool {
    a.text == b.text && a.style == b.style && a.is_red == b.is_red && a.is_italic == b.is_italic
        && a.is_bold_text == b.is_bold_text && a.lex == b.lex && a.is_first_in_group
        == b.is_first_in_group && a.is_last_in_group == b.is_last_in_group && a.is_punctuation
        == b.is_punctuation
}

/// Attaching notes never changes a word's text, style, flags, or lexical
/// info: it can only fill the note field.
pub proof fn lemma_attach_preserves_words(
    words: Seq<WordV>,
    acc: Seq<Seq<char>>,
    notes: Seq<NoteDataV>,
)
    ensures
        attach_all(words, acc, notes).0.len() == words.len(),
        forall|i: int|
            0 <= i < words.len() ==> word_core_eq(
                #[trigger] attach_all(words, acc, notes).0[i],
                words[i],
            ),
    decreases notes.len(),
{
    if notes.len() > 0 {
        let r = attach_one(words, acc, notes[0]);
        match notes[0].catch {
            Some(ct) => lemma_first_matching_word_bounds(words, catch_clean(ct)),
            None => (),
        }
        assert(r.0.len() == words.len());
        assert forall|i: int| 0 <= i < words.len() implies word_core_eq(r.0[i], words[i]) by {};
        lemma_attach_preserves_words(r.0, r.1, notes.drop_first());
        let fin = attach_all(words, acc, notes).0;
        assert(fin == attach_all(r.0, r.1, notes.drop_first()).0);
        assert forall|i: int| 0 <= i < words.len() implies word_core_eq(
            #[trigger] fin[i],
            words[i],
        ) by {
            assert(word_core_eq(attach_all(r.0, r.1, notes.drop_first()).0[i], r.0[i]));
            assert(word_core_eq(r.0[i], words[i]));
        }
    }
}


/// Two word lists with the same texts have the same first catch-word match.
proof fn lemma_first_match_congruent(a: Seq<WordV>, b: Seq<WordV>, clean: Seq<char>)
    requires
        a.len() == b.len(),
        forall|i: int| 0 <= i < a.len() ==> (#[trigger] a[i]).text == b[i].text,
    ensures
        first_matching_word(a, clean) == first_matching_word(b, clean),
    decreases a.len(),
{
    if a.len() > 0 {
        assert(a[0].text == b[0].text);
        let ta = a.drop_first();
        let tb = b.drop_first();
        assert(forall|i: int| 0 <= i < ta.len() ==> (#[trigger] ta[i]).text == tb[i].text) by {
            assert(forall|i: int|
                0 <= i < ta.len() ==> #[trigger] ta[i] == a[i + 1] && tb[i] == b[i + 1]);
        }
        lemma_first_match_congruent(ta, tb, clean);
    }
}

/// The catch-word rule in full, at any place in a verse's note list: a note
/// that is no cross-reference and carries a catch word some word matches
/// attaches its body to the first matching word — first measured on the
/// verse's word list as walked, at the same index however many notes came
/// before — and touches nothing else; its body stays out of the verse-level
/// list.
pub proof fn lemma_catchword_attaches_first(words: Seq<WordV>, notes: Seq<NoteDataV>, j: int)
    requires
        0 <= j < notes.len(),
        notes[j].note_type != "crossReference"@,
        notes[j].osis_ref.len() == 0,
        notes[j].catch is Some,
        first_matching_word(words, catch_clean(notes[j].catch->0)) < words.len(),
    ensures
        ({
            let mid = attach_all(words, Seq::empty(), notes.take(j));
            let k = first_matching_word(words, catch_clean(notes[j].catch->0));
            let after = attach_one(mid.0, mid.1, notes[j]);
            after.0.len() == words.len() && after.0[k].note == Some(
                join_spec(notes[j].body_parts, " "@),
            ) && after.1 == mid.1 && forall|m: int|
                0 <= m < after.0.len() && m != k ==> #[trigger] after.0[m] == mid.0[m]
        }),
{
    let mid = attach_all(words, Seq::empty(), notes.take(j));
    let clean = catch_clean(notes[j].catch->0);
    let k = first_matching_word(words, clean);
    lemma_first_matching_word_bounds(words, clean);
    lemma_attach_preserves_words(words, Seq::empty(), notes.take(j));
    assert(forall|i: int| 0 <= i < mid.0.len() ==> (#[trigger] mid.0[i]).text == words[i].text)
        by {
        assert(forall|i: int|
            0 <= i < words.len() ==> word_core_eq(
                #[trigger] attach_all(words, Seq::empty(), notes.take(j)).0[i],
                words[i],
            ));
    }
    lemma_first_match_congruent(mid.0, words, clean);
    assert(first_matching_word(mid.0, clean) == k);
    let after = attach_one(mid.0, mid.1, notes[j]);
    assert(after.0 == mid.0.update(k, with_note(mid.0[k], join_spec(notes[j].body_parts, " "@))));
}

} // verus!
