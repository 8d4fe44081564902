//! Tests of the per-verse rendering pipeline: the walker, note attachment,
//! and group boundary marking.

use xbible::groups::apply_group_metadata;
use xbible::model::{SegmentStyle, Word};
use xbible::page::{parse_osis_content, parse_verse_entry, render_content_to_verses};

#[test]
fn red_letter_and_added_words() {
    let markup = "<q who=\"Jesus\">Peace <transChange type=\"added\">be</transChange> unto you</q>";
    let (mut words, notes) = parse_osis_content(markup);
    apply_group_metadata(&mut words);
    assert!(notes.is_empty());
    assert_eq!(words.len(), 4);
    assert_eq!(words[0].text, "Peace");
    assert_eq!(words[0].style, SegmentStyle::Plain);
    assert!(words[0].is_red);
    let be = &words[1];
    assert_eq!(be.text, "be");
    assert_eq!(be.style, SegmentStyle::Added);
    assert!(be.is_red);
    assert!(be.is_first_in_group);
    assert!(be.is_last_in_group);
    assert_eq!(words[2].text, "unto");
    assert_eq!(words[2].style, SegmentStyle::Plain);
    assert!(words[2].is_red);
    assert_eq!(words[3].text, "you");
    assert_eq!(words[3].style, SegmentStyle::Plain);
    assert!(words[3].is_red);
}

#[test]
fn no_note_text_in_word_stream() {
    let markup = "Before <note type=\"study\">hidden note words</note>after";
    let (words, notes) = parse_osis_content(markup);
    let texts: Vec<&str> = words.iter().map(|w| w.text.as_str()).collect();
    assert_eq!(texts, vec!["Before", "after"]);
    for w in &words {
        assert!(w.style != SegmentStyle::Note);
    }
    assert_eq!(notes, vec!["hidden note words".to_string()]);
}

#[test]
fn catchword_attaches_to_first_matching_word() {
    let markup = "In the Beginning beginnings <note type=\"study\">\
<catchWord>beginning</catchWord> as first made</note>end";
    let (words, notes) = parse_osis_content(markup);
    // Case-insensitive first match: "Beginning" at index 2, not "beginnings".
    assert!(notes.is_empty());
    assert_eq!(words[2].text, "Beginning");
    assert_eq!(
        words[2].note.as_deref(),
        Some("beginning  as first made")
    );
    assert!(words[3].note.is_none());
}

#[test]
fn catchword_without_match_falls_back_to_notes() {
    let markup = "some words <note type=\"study\"><catchWord>absent</catchWord> body</note>";
    let (words, notes) = parse_osis_content(markup);
    for w in &words {
        assert!(w.note.is_none());
    }
    assert_eq!(notes.len(), 1);
    assert_eq!(notes[0], "absent  body");
}

#[test]
fn cross_reference_never_attaches_to_words() {
    let markup = "In the beginning <note type=\"crossReference\" osisRef=\"John.1.1\">\
<catchWord>beginning</catchWord> see also</note>";
    let (words, notes) = parse_osis_content(markup);
    for w in &words {
        assert!(w.note.is_none());
    }
    assert_eq!(notes.len(), 1);
    assert_eq!(notes[0], "[Cross-Ref: John.1.1] beginning  see also");
}

#[test]
fn cross_reference_without_type_by_osis_ref() {
    let markup = "text <note osisRef=\"Gen.2.3\">linked note</note>";
    let (_words, notes) = parse_osis_content(markup);
    assert_eq!(notes, vec!["[Cross-Ref: Gen.2.3] linked note".to_string()]);
}

#[test]
fn strongs_and_morph_from_w_element() {
    let markup = "<w lemma=\"strong:G3056 lemma.TR:logos\" morph=\"robinson:N-DSM\">word</w>";
    let (words, _notes) = parse_osis_content(markup);
    assert_eq!(words.len(), 1);
    let lex = words[0].lex.as_ref().expect("lexical info");
    assert_eq!(lex.strongs, vec!["G3056".to_string()]);
    assert_eq!(lex.lemma.as_deref(), Some("logos"));
    assert_eq!(lex.morph.as_deref(), Some("Noun, Dative, Singular, Masculine"));
    assert!(lex.gloss.is_none());
}

#[test]
fn italic_flag_and_punctuation_hint() {
    let markup = "<hi type=\"italic\">slanted ,</hi>";
    let (words, _notes) = parse_osis_content(markup);
    assert_eq!(words.len(), 2);
    assert!(words[0].is_italic);
    assert!(!words[0].is_punctuation);
    assert_eq!(words[1].text, ",");
    assert!(words[1].is_punctuation);
}

#[test]
fn chapter_boundary_stops_rendering() {
    let entries = vec![
        ("Gen 1:1".to_string(), "In the beginning".to_string()),
        ("Gen 1:2".to_string(), "And the earth".to_string()),
        ("Gen 2:1".to_string(), "Thus the heavens".to_string()),
    ];
    let verses = render_content_to_verses("Gen 1:1", &entries);
    assert_eq!(verses.len(), 2);
    assert_eq!(verses[0].osis_id, "Gen 1:1");
    assert_eq!(verses[0].number, 1);
    assert!(verses[0].is_paragraph_start);
    assert_eq!(verses[1].osis_id, "Gen 1:2");
    assert_eq!(verses[1].number, 2);
    assert!(!verses[1].is_paragraph_start);
}

#[test]
fn paragraph_marker_in_markup_sets_hint() {
    let v = parse_verse_entry("Gen 1:4", "<milestone type=\"paragraph\"/>And God saw");
    assert!(v.is_paragraph_start);
    assert_eq!(v.number, 4);
    let plain = parse_verse_entry("Gen 1:5", "And God called");
    assert!(!plain.is_paragraph_start);
}

#[test]
fn red_letter_groups_span_plain_words() {
    let markup = "<q who=\"Jesus\">Verily verily I say</q> Amen";
    let (mut words, _notes) = parse_osis_content(markup);
    apply_group_metadata(&mut words);
    assert_eq!(words.len(), 5);
    assert!(words[0].is_first_in_group);
    assert!(!words[0].is_last_in_group);
    assert!(!words[1].is_first_in_group);
    assert!(!words[2].is_first_in_group);
    assert!(words[3].is_last_in_group);
    assert!(!words[4].is_red);
    assert!(!words[4].is_first_in_group);
    assert!(!words[4].is_last_in_group);
}

#[test]
fn default_word_is_empty_and_plain() {
    let w = Word::default();
    assert_eq!(w.text, "");
    assert_eq!(w.style, SegmentStyle::Plain);
    assert!(!w.is_red && !w.is_italic && !w.is_bold_text);
    assert!(w.lex.is_none() && w.note.is_none());
    assert!(!w.is_first_in_group && !w.is_last_in_group && !w.is_punctuation);
}

#[test]
fn empty_markup_renders_nothing() {
    let (words, notes) = parse_osis_content("");
    assert!(words.is_empty());
    assert!(notes.is_empty());
}

#[test]
fn unresolvable_reference_yields_no_verses() {
    let entries = vec![("Exod 2:1".to_string(), "text".to_string())];
    let verses = render_content_to_verses("Gen 1:1", &entries);
    assert!(verses.is_empty());
    let none = render_content_to_verses("Gen 1:1", &Vec::new());
    assert!(none.is_empty());
}

#[test]
fn nested_notes_both_collected_in_start_order() {
    let markup = "a <note type=\"study\">outer <note type=\"study\">inner</note> tail</note> b";
    let (words, notes) = parse_osis_content(markup);
    let texts: Vec<&str> = words.iter().map(|w| w.text.as_str()).collect();
    assert_eq!(texts, vec!["a", "b"]);
    assert_eq!(notes.len(), 2);
    assert_eq!(notes[0], "outer  inner  tail");
    assert_eq!(notes[1], "inner");
}
