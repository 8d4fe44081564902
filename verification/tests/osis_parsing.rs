//! Tests of whole-document OSIS parsing and the morphology decoder.

use xbible::model::SegmentStyle;
use xbible::morph::decode_morph;
use xbible::osis::OsisEngine;

#[test]
fn morph_code_decodes_positionally() {
    assert_eq!(decode_morph("N-DSM"), "Noun, Dative, Singular, Masculine");
}

#[test]
fn morph_code_after_namespace_prefix() {
    assert_eq!(decode_morph("robinson:N-GSF"), "Noun, Genitive, Singular, Feminine");
}

#[test]
fn morph_empty_code_unchanged() {
    assert_eq!(decode_morph(""), "");
    assert_eq!(decode_morph("robinson:"), "");
}

#[test]
fn morph_trailing_n_is_neuter_after_noun() {
    // With "Noun" recorded, every later `N` decodes as Neuter, never
    // Nominative; this positional ambiguity is preserved deliberately.
    assert_eq!(decode_morph("N-NSN"), "Noun, Neuter, Singular, Neuter");
    assert_eq!(decode_morph("V-NSN"), "Verb, Nominative, Singular, Nominative");
}

#[test]
fn morph_unknown_characters_skipped() {
    assert_eq!(decode_morph("V-PAI-3S"), "Verb, Plural, Accusative, Singular");
    assert_eq!(decode_morph("X-!!"), "");
}

#[test]
fn parse_strongs_single_strip() {
    let r = OsisEngine::parse_strongs(Some("strong:G2316 lemma.TR:theos strong:G11".to_string()));
    assert_eq!(r, vec!["G2316".to_string(), "G11".to_string()]);
    let none = OsisEngine::parse_strongs(None);
    assert!(none.is_empty());
}

#[test]
fn parse_strongs_suppresses_duplicates_within_one_word() {
    let r = OsisEngine::parse_strongs(Some("strong:G1 strong:G2 strong:G1".to_string()));
    assert_eq!(r, vec!["G1".to_string(), "G2".to_string()]);
}

#[test]
fn parse_morph_strips_one_prefix() {
    assert_eq!(
        OsisEngine::parse_morph(Some("strongMorph:TH8804".to_string())),
        Some("TH8804".to_string())
    );
    assert_eq!(OsisEngine::parse_morph(Some("robinson:V-PAI".to_string())), None);
    assert_eq!(OsisEngine::parse_morph(None), None);
}

#[test]
fn verse_number_from_osis_id() {
    assert_eq!(OsisEngine::verse_number_from_osis("Gen.1.3"), "3");
    assert_eq!(OsisEngine::verse_number_from_osis("Gen"), "Gen");
}

#[test]
fn targeted_chapter_extraction() {
    let xml = "<osis><div type=\"book\" osisID=\"Gen\">\
<chapter osisID=\"Gen.1\"><p/>\
<verse sID=\"Gen.1.1\" osisID=\"Gen.1.1\"/>In the beginning, God\
<verse eID=\"Gen.1.1\"/>\
<verse sID=\"Gen.1.2\" osisID=\"Gen.1.2\"/>And <w lemma=\"strong:H776\">the earth</w>\
<verse eID=\"Gen.1.2\"/>\
</chapter>\
<chapter osisID=\"Gen.2\">\
<verse sID=\"Gen.2.1\" osisID=\"Gen.2.1\"/>Thus the heavens<verse eID=\"Gen.2.1\"/>\
</chapter></div></osis>";
    let verses = OsisEngine::parse_verses(xml, "Gen.1");
    assert_eq!(verses.len(), 2);
    assert_eq!(verses[0].osis_id, "Gen.1.1");
    assert_eq!(verses[0].number, 1);
    assert!(verses[0].is_paragraph_start);
    // "beginning," splits into a stem and a peeled punctuation word.
    let texts: Vec<&str> = verses[0].words.iter().map(|w| w.text.as_str()).collect();
    assert_eq!(texts, vec!["In", "the", "beginning", ",", "God"]);
    assert!(verses[0].words[3].is_punctuation);
    assert_eq!(verses[1].osis_id, "Gen.1.2");
    assert_eq!(verses[1].number, 2);
    let lex = verses[1].words[1].lex.as_ref().expect("lexical info on 'the'");
    assert_eq!(lex.strongs, vec!["H776".to_string()]);
}

#[test]
fn red_letter_and_note_styles_in_extraction() {
    let xml = "<osis><chapter osisID=\"John.11\">\
<verse sID=\"John.11.35\" osisID=\"John.11.35\"/>\
<q who=\"Jesus\">Jesus wept</q><note>a note</note>\
<verse eID=\"John.11.35\"/>\
</chapter></osis>";
    let verses = OsisEngine::parse_verses(xml, "John.11");
    assert_eq!(verses.len(), 1);
    let v = &verses[0];
    assert_eq!(v.words.len(), 2);
    assert!(v.words[0].is_red);
    assert_eq!(v.words[0].style, SegmentStyle::RedLetter);
    assert_eq!(v.notes, vec!["a note".to_string()]);
    for w in &v.words {
        assert!(w.style != SegmentStyle::Note);
    }
}

#[test]
fn book_structure_scan_with_titles() {
    let xml = "<osis><div type=\"book\" osisID=\"Gen\"><title>Genesis</title>\
<chapter osisID=\"Gen.1\" n=\"1\">x</chapter>\
<chapter osisID=\"Gen.2\" n=\"2\">y</chapter>\
</div><div type=\"book\" osisID=\"Exod\"><title>Exodus</title>\
<chapter osisID=\"Exod.1\" n=\"1\">z</chapter>\
</div></osis>";
    let books = OsisEngine::parse_books(xml);
    assert_eq!(books.len(), 2);
    assert_eq!(books[0].osis_id, "Gen");
    assert_eq!(books[0].title, "Genesis");
    assert_eq!(books[0].chapters.len(), 2);
    assert_eq!(books[0].chapters[1].number, "2");
    assert_eq!(books[1].osis_id, "Exod");
    assert_eq!(books[1].title, "Exodus");
    assert_eq!(books[1].chapters.len(), 1);
}

#[test]
fn version_read_from_header() {
    let xml = "<osis><header>\
<work osisWork=\"Strongs\"><title>Lexicon</title><refSystem>Dict.Strongs</refSystem></work>\
<work osisWork=\"KJV\"><title>King James Version</title>\
<identifier>Bible.KJV</identifier><scope>Gen-Rev</scope>\
<refSystem>Bible.KJV</refSystem></work>\
</header></osis>";
    let version = OsisEngine::parse_version(xml).expect("a Bible work");
    assert_eq!(version.osis_id, "KJV");
    assert_eq!(version.title, "King James Version");
    assert_eq!(version.identifier, "Bible.KJV");
    assert_eq!(version.scope, "Gen-Rev");
    assert_eq!(version.ref_system, "Bible.KJV");
}

#[test]
fn version_absent_without_bible_work() {
    let xml = "<osis><header><work osisWork=\"Strongs\">\
<refSystem>Dict.Strongs</refSystem></work></header></osis>";
    assert!(OsisEngine::parse_version(xml).is_none());
}

#[test]
fn first_verse_is_a_paragraph_start() {
    let xml = "<osis><chapter osisID=\"Gen.1\">\
<verse sID=\"Gen.1.1\" osisID=\"Gen.1.1\"/>In the beginning<verse eID=\"Gen.1.1\"/>\
<verse sID=\"Gen.1.2\" osisID=\"Gen.1.2\"/>And the earth<verse eID=\"Gen.1.2\"/>\
</chapter></osis>";
    let verses = OsisEngine::parse_verses(xml, "Gen.1");
    assert_eq!(verses.len(), 2);
    assert_eq!(verses[0].number, 1);
    assert!(verses[0].is_paragraph_start);
    assert_eq!(verses[1].number, 2);
    assert!(!verses[1].is_paragraph_start);
}

#[test]
fn bare_trans_change_keeps_inherited_style() {
    let xml = "<osis><chapter osisID=\"Gen.1\">\
<verse sID=\"Gen.1.2\" osisID=\"Gen.1.2\"/>\
<transChange>kept</transChange> <transChange type=\"added\">supplied</transChange>\
<verse eID=\"Gen.1.2\"/>\
</chapter></osis>";
    let verses = OsisEngine::parse_verses(xml, "Gen.1");
    assert_eq!(verses.len(), 1);
    let words = &verses[0].words;
    assert_eq!(words[0].text, "kept");
    assert_eq!(words[0].style, SegmentStyle::Plain);
    assert_eq!(words[1].text, "supplied");
    assert_eq!(words[1].style, SegmentStyle::Added);
}

#[test]
fn plain_quote_inside_red_letter_stays_red() {
    let xml = "<osis><chapter osisID=\"John.1\">\
<verse sID=\"John.1.1\" osisID=\"John.1.1\"/>\
<q who=\"Jesus\">before <q>quoted</q> after</q>\
<verse eID=\"John.1.1\"/>\
</chapter></osis>";
    let verses = OsisEngine::parse_verses(xml, "John.1");
    assert_eq!(verses.len(), 1);
    let words = &verses[0].words;
    assert_eq!(words.len(), 3);
    for w in words.iter() {
        assert!(w.is_red);
        assert_eq!(w.style, SegmentStyle::RedLetter);
    }
}
