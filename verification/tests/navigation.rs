//! Tests of the module engine: catalog filters, the structural key scan,
//! the download service, and the shared text utilities.

use xbible::download::DownloadService;
use xbible::engine::{SwordEngine, SwordInner, SwordModule};
use xbible::model::HtmlEvent;
use xbible::net::network_error_message;
use xbible::page::extract_verse_number;
use xbible::text::{contains_str, int_to_string, parse_i32, split_whitespace, str_eq_ci, trim_str};

fn module(name: &str, category: &str) -> SwordModule {
    SwordModule {
        name: name.to_string(),
        description: String::new(),
        category: category.to_string(),
        language: "en".to_string(),
    }
}

fn sample_engine() -> SwordEngine {
    SwordEngine::new(
        SwordInner { mgr: 0, install_mgr: 0 },
        vec![
            module("KJV", "Biblical Texts"),
            module("StrongsGreek", "Lexicons"),
            module("MHC", "Commentaries"),
            module("WEB", "Bibles"),
            module("Maps1", "Maps"),
            module("Pilgrim", "Generic Books"),
        ],
    )
}

#[test]
fn category_filters_keep_catalog_order() {
    let engine = sample_engine();
    let bibles: Vec<String> = engine.get_bible_modules().into_iter().map(|m| m.name).collect();
    assert_eq!(bibles, vec!["KJV".to_string(), "WEB".to_string()]);
    assert_eq!(engine.get_commentary_modules().len(), 1);
    assert_eq!(engine.get_dictionary_modules()[0].name, "StrongsGreek");
    assert_eq!(engine.get_book_modules()[0].name, "Pilgrim");
    assert_eq!(engine.get_map_modules()[0].name, "Maps1");
    assert_eq!(engine.get_modules_by_category(vec!["Absent"]).len(), 0);
}

#[test]
fn structure_scan_flushes_final_book() {
    let keys = vec!["Rev 22:20".to_string(), "Rev 22:21".to_string()];
    let books = SwordEngine::get_bible_structure(&keys);
    assert_eq!(books.len(), 1);
    assert_eq!(books[0].name, "Rev");
    assert_eq!(books[0].chapters.len(), 1);
    assert_eq!(books[0].chapters[0].number, 22);
    assert_eq!(books[0].chapters[0].verse_count, 2);
}

#[test]
fn structure_scan_books_and_chapters() {
    let keys = vec![
        "Gen 1:1".to_string(),
        "Gen 1:2".to_string(),
        "Gen 2:1".to_string(),
        "1 John 1:1".to_string(),
        "short".to_string(),
    ];
    let books = SwordEngine::get_bible_structure(&keys);
    assert_eq!(books.len(), 2);
    assert_eq!(books[0].name, "Gen");
    assert_eq!(books[0].chapters.len(), 2);
    assert_eq!(books[0].chapters[0].verse_count, 2);
    assert_eq!(books[0].chapters[1].verse_count, 1);
    // A book name with a space keeps everything before the last token.
    assert_eq!(books[1].name, "1 John");
    assert_eq!(books[1].chapters.len(), 1);
}

#[test]
fn download_judges_result_codes() {
    let svc = DownloadService::new(sample_engine());
    assert!(svc.download(0).is_ok());
    let err = svc.download(5).unwrap_err();
    assert_eq!(err, "Download failed with SWORD error code: 5");
    let neg = svc.download(-3).unwrap_err();
    assert_eq!(neg, "Download failed with SWORD error code: -3");
    assert_eq!(svc.get_available_modules().len(), 6);
}

#[test]
fn network_error_messages_by_kind() {
    assert_eq!(
        network_error_message(true, false, false, false),
        "Connection Error. Please check your internet connection and try again"
    );
    assert_eq!(
        network_error_message(false, false, true, false),
        "The request timed out. The news server might be slow right now."
    );
    assert_eq!(
        network_error_message(false, false, false, true),
        "Received an unexpected response format from the server."
    );
    assert_eq!(
        network_error_message(false, false, false, false),
        "A network error occurred. Please try again later."
    );
}

#[test]
fn verse_numbers_from_keys() {
    assert_eq!(extract_verse_number("John 3:16"), 16);
    assert_eq!(extract_verse_number("Gen.1.1"), 1);
    assert_eq!(extract_verse_number("Preface"), 0);
}

#[test]
fn decimal_parse_matches_std() {
    assert_eq!(parse_i32("2147483647"), Some(2147483647));
    assert_eq!(parse_i32("2147483648"), None);
    assert_eq!(parse_i32("-2147483648"), Some(-2147483648));
    assert_eq!(parse_i32("+12"), Some(12));
    assert_eq!(parse_i32("007"), Some(7));
    assert_eq!(parse_i32(""), None);
    assert_eq!(parse_i32("12x"), None);
    assert_eq!(parse_i32("99999999999999999999999"), None);
}

#[test]
fn decimal_render() {
    assert_eq!(int_to_string(0), "0");
    assert_eq!(int_to_string(907), "907");
    assert_eq!(int_to_string(-2147483648), "-2147483648");
}

#[test]
fn text_utilities() {
    assert_eq!(split_whitespace("  a \t b "), vec!["a".to_string(), "b".to_string()]);
    assert_eq!(trim_str("  padded \n"), "padded");
    assert!(contains_str("The Beginning", "e Beg"));
    assert!(!contains_str("short", "longer than it"));
    assert!(str_eq_ci("CatchWord", "catchword"));
    assert!(!str_eq_ci("catchword", "catchwords"));
}

#[test]
fn html_event_values_carry_payloads() {
    let ev = HtmlEvent::Strong("G3056".to_string());
    match ev {
        HtmlEvent::Strong(s) => assert_eq!(s, "G3056"),
        _ => panic!("unexpected variant"),
    }
    let red = HtmlEvent::RedStart;
    assert!(matches!(red, HtmlEvent::RedStart));
}
