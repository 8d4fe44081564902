//! The per-chapter rendering pipeline: one verse's markup becomes its styled
//! word stream with notes attached and group boundaries marked, and a key
//! stream becomes the chapter's ordered verse list.

use vstd::prelude::*;

use crate::events::{fragment_events, parse_fragment_events, MarkupEvent, MarkupEventV};
use crate::groups::{apply_group_metadata, apply_groups_spec, grouped_word, lemma_group_boundaries};
use crate::model::{SegmentStyle, Verse, VerseV, Word, WordV};
use crate::notes::{attach_all, attach_notes, lemma_attach_preserves_words, note_scan_spec,
    scan_notes, word_core_eq};
use crate::text::{boundary_prefix, contains_seq, contains_str, ends_with_str, has_prefix,
    has_suffix, last_key_segment, parse_i32, parse_i32_spec, starts_with_str,
    take_after_last_key_sep, take_before_first_key_sep};
use crate::walker::{lemma_walk_words_flags_unset, lemma_walk_words_never_note, walk_osis,
    walk_words_spec};

verus! {

/// The verse number a reference key carries: its final `.`/`:`-delimited
/// segment read as a decimal number, or 0 when that fails.
pub open spec fn verse_number_spec(key: Seq<char>) -> i32 {
    match parse_i32_spec(last_key_segment(key)) {
        Some(v) => v,
        None => 0,
    }
}

/// Reads the verse number off a reference key.
pub fn extract_verse_number(key: &str) -> (n: i32)
    ensures
        n == verse_number_spec(key@),
{
    let seg = take_after_last_key_sep(key);
    match parse_i32(seg.as_str()) {
        Some(v) => v,
        None => 0,
    }
}

/// What one verse's markup events yield: the walked word stream with notes
/// attached, and the verse-level note list.
pub open spec fn content_of_events(evs: Seq<MarkupEventV>) -> (Seq<WordV>, Seq<Seq<char>>) {
    attach_all(walk_words_spec(evs), Seq::empty(), note_scan_spec(evs))
}

/// Walks one verse's events into words, then attaches its notes.
pub fn extract_content(events: &Vec<MarkupEvent>) -> (r: (Vec<Word>, Vec<String>))
    ensures
        r.0.deep_view() == content_of_events(events.deep_view()).0,
        r.1.deep_view() == content_of_events(events.deep_view()).1,
{
    let mut words = walk_osis(events);
    let notes = scan_notes(events);
    let verse_notes = attach_notes(&mut words, &notes);
    (words, verse_notes)
}

/// Parses one verse's raw markup into its word stream and verse-level notes.
pub fn parse_osis_content(osis: &str) -> (r: (Vec<Word>, Vec<String>))
    ensures
        r.0.deep_view() == content_of_events(fragment_events(osis@)).0,
        r.1.deep_view() == content_of_events(fragment_events(osis@)).1,
{
    let events = parse_fragment_events(osis);
    extract_content(&events)
}

/// The finished verse one key and its raw markup become: parsed content with
/// group boundaries marked, the verse number read off the key, and the
/// paragraph hint from an explicit marker in the markup or a first-verse key.
pub open spec fn verse_of_entry(key: Seq<char>, raw: Seq<char>) -> VerseV {
    let evs = fragment_events(raw);
    let content = content_of_events(evs);
    VerseV {
        osis_id: key,
        number: verse_number_spec(key),
        words: apply_groups_spec(content.0),
        notes: content.1,
        is_paragraph_start: contains_seq(raw, "type=\"paragraph\""@) || has_suffix(key, ":1"@),
    }
}

/// Builds the finished verse for one key and its raw markup.
pub fn parse_verse_entry(key: &str, raw: &str) -> (v: Verse)
    ensures
        v@ == verse_of_entry(key@, raw@),
{
    let (mut words, notes) = parse_osis_content(raw);
    apply_group_metadata(&mut words);
    let v = Verse {
        osis_id: key.to_owned(),
        number: extract_verse_number(key),
        words,
        notes,
        is_paragraph_start: contains_str(raw, "type=\"paragraph\"") || ends_with_str(key, ":1"),
    };
    proof {
        assert(v@ == verse_of_entry(key@, raw@));
    }
    v
}

/// The verses rendered from a key/markup stream under one chapter boundary:
/// entries are taken in order while their keys start with the boundary
/// prefix, and the first key outside it ends the chapter.
pub open spec fn render_entries_spec(
    boundary: Seq<char>,
    entries: Seq<(Seq<char>, Seq<char>)>,
) -> Seq<VerseV>
    decreases entries.len(),
{
    if entries.len() == 0 {
        Seq::empty()
    } else if !has_prefix(entries[0].0, boundary) {
        Seq::empty()
    } else {
        seq![verse_of_entry(entries[0].0, entries[0].1)] + render_entries_spec(
            boundary,
            entries.drop_first(),
        )
    }
}

/// What rendering yields for a resolved starting key and the module's
/// key/markup stream from that position: the chapter boundary prefix is the
/// starting key's part before the first `:` or `.`, and verses are rendered
/// while keys stay inside it.
pub open spec fn render_content_spec(
    initial_key: Seq<char>,
    entries: Seq<(Seq<char>, Seq<char>)>,
) -> Seq<VerseV> {
    render_entries_spec(boundary_prefix(initial_key), entries)
}

/// Renders one chapter: `initial_key` is the key the module resolved the
/// request to, and `entries` are the (key, raw markup) pairs its cursor
/// yields from there, in order. Rendering stops at the first key outside the
/// chapter boundary.
pub fn render_content_to_verses(initial_key: &str, entries: &Vec<(String, String)>) -> (verses:
    Vec<Verse>)
    ensures
        verses.deep_view() == render_content_spec(initial_key@, entries.deep_view()),
{
    let ghost ev = entries.deep_view();
    let ghost full = render_content_spec(initial_key@, ev);
    let boundary = take_before_first_key_sep(initial_key);
    let n = entries.len();
    let mut verses: Vec<Verse> = Vec::new();
    let mut i: usize = 0;
    let mut going = true;
    proof {
        assert(ev.skip(0) =~= ev);
        assert(verses.deep_view() + render_entries_spec(boundary@, ev) =~= render_entries_spec(
            boundary@,
            ev,
        ));
    }
    while going && i < n
        invariant
            n == entries.len(),
            ev == entries.deep_view(),
            boundary@ == boundary_prefix(initial_key@),
            full == render_content_spec(initial_key@, ev),
            i <= n,
            going ==> verses.deep_view() + render_entries_spec(boundary@, ev.skip(i as int))
                == full,
            !going ==> verses.deep_view() == full,
        decreases n - i + (if going { 1int } else { 0int }),
    {
        let ghost rest = ev.skip(i as int);
        proof {
            assert(rest[0] == ev[i as int]);
            assert(rest.drop_first() =~= ev.skip(i as int + 1));
            assert(entries[i as int].deep_view() == ev[i as int]);
        }
        let entry = &entries[i];
        if starts_with_str(entry.0.as_str(), boundary.as_str()) {
            let v = parse_verse_entry(entry.0.as_str(), entry.1.as_str());
            let ghost dv0 = verses.deep_view();
            verses.push(v);
            proof {
                assert(verses.deep_view() =~= dv0.push(v@));
                assert(dv0.push(v@) =~= dv0 + seq![verse_of_entry(ev[i as int].0, ev[i as int].1)]);
                assert((dv0 + seq![verse_of_entry(ev[i as int].0, ev[i as int].1)])
                    + render_entries_spec(boundary@, ev.skip(i as int + 1)) =~= dv0 + (seq![
                    verse_of_entry(ev[i as int].0, ev[i as int].1)] + render_entries_spec(
                    boundary@,
                    ev.skip(i as int + 1),
                )));
            }
        } else {
            going = false;
            proof {
                assert(render_entries_spec(boundary@, rest) =~= Seq::<VerseV>::empty());
                assert(verses.deep_view() + Seq::<VerseV>::empty() =~= verses.deep_view());
            }
        }
        i = i + 1;
    }
    proof {
        if going {
            assert(ev.skip(n as int).len() == 0);
            assert(render_entries_spec(boundary@, ev.skip(n as int)) =~= Seq::<VerseV>::empty());
            assert(verses.deep_view() + Seq::<VerseV>::empty() =~= verses.deep_view());
        }
    }
    verses
}

/// Rendering takes exactly the longest prefix of entries whose keys lie
/// inside the chapter boundary: each of its entries becomes its verse, in
/// order, and the first key outside the boundary ends the chapter before it.
pub proof fn lemma_render_stops_at_boundary(
    boundary: Seq<char>,
    entries: Seq<(Seq<char>, Seq<char>)>,
)
    ensures
        render_entries_spec(boundary, entries).len() <= entries.len(),
        forall|k: int|
            0 <= k < render_entries_spec(boundary, entries).len() ==> has_prefix(
                (#[trigger] entries[k]).0,
                boundary,
            ) && render_entries_spec(boundary, entries)[k] == verse_of_entry(
                entries[k].0,
                entries[k].1,
            ),
        render_entries_spec(boundary, entries).len() < entries.len() ==> !has_prefix(
            entries[render_entries_spec(boundary, entries).len() as int].0,
            boundary,
        ),
    decreases entries.len(),
{
    if entries.len() > 0 && has_prefix(entries[0].0, boundary) {
        let rest = entries.drop_first();
        lemma_render_stops_at_boundary(boundary, rest);
        let out = render_entries_spec(boundary, entries);
        let out_rest = render_entries_spec(boundary, rest);
        assert(out == seq![verse_of_entry(entries[0].0, entries[0].1)] + out_rest);
        assert forall|k: int| 0 <= k < out.len() implies has_prefix(
            (#[trigger] entries[k]).0,
            boundary,
        ) && out[k] == verse_of_entry(entries[k].0, entries[k].1) by {
            if k > 0 {
                assert(rest[k - 1] == entries[k]);
                assert(out[k] == out_rest[k - 1]);
            }
        }
        if out.len() < entries.len() {
            assert(rest[out_rest.len() as int] == entries[out.len() as int]);
        }
    }
}

/// No verse's word stream holds a Note-styled word: note text is diverted to
/// the note lists and never shown as a running word.
pub proof fn lemma_verse_words_never_note(key: Seq<char>, raw: Seq<char>)
    ensures
        forall|i: int|
            0 <= i < verse_of_entry(key, raw).words.len() ==> (#[trigger] verse_of_entry(
                key,
                raw,
            ).words[i]).style != SegmentStyle::Note,
{
    let evs = fragment_events(raw);
    let walked = walk_words_spec(evs);
    let content = content_of_events(evs);
    lemma_walk_words_never_note(evs);
    lemma_attach_preserves_words(walked, Seq::empty(), note_scan_spec(evs));
    assert forall|i: int| 0 <= i < verse_of_entry(key, raw).words.len() implies (
    #[trigger] verse_of_entry(key, raw).words[i]).style != SegmentStyle::Note by {
        assert(verse_of_entry(key, raw).words[i] == grouped_word(content.0, i));
        assert(grouped_word(content.0, i).style == content.0[i].style);
        assert(word_core_eq(content.0[i], walked[i]));
    }
}

/// A word first in its group, anywhere after a verse's first word, differs
/// from its left neighbor in the grouping-relevant dimension: Added status,
/// or the red-letter flag when it is not Added.
pub proof fn lemma_verse_group_boundaries(key: Seq<char>, raw: Seq<char>)
    ensures
        forall|i: int|
            0 < i < verse_of_entry(key, raw).words.len() && (#[trigger] verse_of_entry(
                key,
                raw,
            ).words[i]).is_first_in_group ==> {
                let ws = verse_of_entry(key, raw).words;
                (ws[i].style == SegmentStyle::Added ==> ws[i - 1].style != SegmentStyle::Added)
                    && (ws[i].style != SegmentStyle::Added ==> ws[i].is_red && !ws[i - 1].is_red)
            },
{
    let evs = fragment_events(raw);
    let walked = walk_words_spec(evs);
    let content = content_of_events(evs);
    lemma_walk_words_flags_unset(evs);
    lemma_attach_preserves_words(walked, Seq::empty(), note_scan_spec(evs));
    assert forall|k: int| 0 <= k < content.0.len() implies !(#[trigger] content.0[k]).is_first_in_group by {
        assert(word_core_eq(content.0[k], walked[k]));
    }
    lemma_group_boundaries(content.0);
    assert(verse_of_entry(key, raw).words == apply_groups_spec(content.0));
}

} // verus!
