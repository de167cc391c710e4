use rnote_recognition::text::char_is_whitespace;
use parry2d_f64::bounding_volume::Aabb;
use parry2d_f64::math::Vector2;
use rnote_recognition::page::Page;
use rnote_recognition::page::Stroke;
use rnote_recognition::page::TextStroke;
use rnote_recognition::search::SearchResult;
use rnote_recognition::search::StoreEntry;
use rnote_recognition::search::StrokeStore;
use rnote_recognition::search_panel::search_panel_content;
use rnote_recognition::search_panel::SearchPanelContent;
use rnote_recognition::text::chars_of;
use rnote_recognition::text::contains_chars;
use rnote_recognition::text::is_blank_str;
use rnote_recognition::text::lowercase_chars;
use rnote_recognition::text::text_matches_lowered;
use rnote_recognition::text_line::TextLine;
use std::collections::HashMap;

fn aabb(x0: f64, y0: f64, x1: f64, y1: f64) -> Aabb {
    Aabb::new(Vector2::new(x0, y0), Vector2::new(x1, y1))
}

fn line(text: &str, keys: Vec<u64>, b: Aabb) -> TextLine {
    TextLine::new(text.to_string(), keys, b)
}

#[test]
fn contains_chars_finds_runs() {
    let hay = chars_of("hello world");
    assert!(contains_chars(&hay, &chars_of("lo w")));
    assert!(contains_chars(&hay, &chars_of("")));
    assert!(contains_chars(&hay, &chars_of("hello world")));
    assert!(!contains_chars(&hay, &chars_of("hello world!")));
    assert!(!contains_chars(&hay, &chars_of("wold")));
    assert!(!contains_chars(&chars_of(""), &chars_of("a")));
}

#[test]
fn lowercase_is_applied() {
    assert_eq!(lowercase_chars("HeLLo ÄÖÜ"), chars_of("hello äöü"));
    assert!(text_matches_lowered("Hello World", &lowercase_chars("WORLD")));
    assert!(!text_matches_lowered("Hello World", &lowercase_chars("planet")));
}

#[test]
fn blank_queries() {
    assert!(is_blank_str(""));
    assert!(is_blank_str("  \t\n"));
    assert!(is_blank_str("\u{2003}"));
    assert!(!is_blank_str(" a "));
}

#[test]
fn text_line_contains_stroke() {
    let l = line("abc", vec![3, 7, 9], aabb(0.0, 0.0, 1.0, 1.0));
    assert!(l.contains_stroke(&7));
    assert!(!l.contains_stroke(&8));
    assert_eq!(l.text, "abc");
    assert_eq!(l.stroke_keys, vec![3, 7, 9]);
}

#[test]
fn page_search_text_is_case_insensitive() {
    let b1 = aabb(0.0, 0.0, 10.0, 5.0);
    let b2 = aabb(0.0, 10.0, 10.0, 15.0);
    let b3 = aabb(0.0, 20.0, 10.0, 25.0);
    let page = Page {
        strokes: HashMap::new(),
        recognized_text: vec![
            line("Hello World", vec![1], b1),
            line("goodbye", vec![2], b2),
            line("WORLD peace", vec![3], b3),
        ],
    };
    assert_eq!(page.search_text("world"), vec![b1, b3]);
    assert_eq!(page.search_text("WoRlD"), vec![b1, b3]);
    assert_eq!(page.search_text("bye"), vec![b2]);
    assert_eq!(page.search_text("mars"), Vec::<Aabb>::new());
    assert_eq!(page.search_text(""), vec![b1, b2, b3]);
}

#[test]
fn page_add_recognized_line_merges_known_strokes() {
    let mut strokes = HashMap::new();
    strokes.insert(1u64, Stroke::Drawing(aabb(0.0, 0.0, 2.0, 2.0)));
    strokes.insert(2u64, Stroke::Drawing(aabb(5.0, 1.0, 6.0, 8.0)));
    let mut page = Page { strokes, recognized_text: Vec::new() };
    page.add_recognized_line("hi".to_string(), vec![2, 99, 1]);
    assert_eq!(page.recognized_text.len(), 1);
    let added = &page.recognized_text[0];
    assert_eq!(added.text, "hi");
    assert_eq!(added.stroke_keys, vec![2, 99, 1]);
    assert_eq!(added.bounds, aabb(0.0, 0.0, 6.0, 8.0));
    assert_eq!(page.search_text("HI"), vec![aabb(0.0, 0.0, 6.0, 8.0)]);
}

#[test]
fn page_add_recognized_line_without_known_strokes_adds_nothing() {
    let mut strokes = HashMap::new();
    strokes.insert(1u64, Stroke::Drawing(aabb(0.0, 0.0, 2.0, 2.0)));
    let mut page = Page { strokes, recognized_text: Vec::new() };
    page.add_recognized_line("lost".to_string(), vec![5, 6]);
    assert!(page.recognized_text.is_empty());
    page.add_recognized_line("none".to_string(), vec![]);
    assert!(page.recognized_text.is_empty());
}

#[test]
fn page_get_text_at_point_finds_first_line() {
    let page = Page {
        strokes: HashMap::new(),
        recognized_text: vec![
            line("first", vec![1], aabb(0.0, 0.0, 10.0, 10.0)),
            line("second", vec![2], aabb(5.0, 5.0, 20.0, 20.0)),
        ],
    };
    assert_eq!(page.get_text_at_point(Vector2::new(7.0, 7.0)).unwrap().text, "first");
    assert_eq!(page.get_text_at_point(Vector2::new(15.0, 15.0)).unwrap().text, "second");
    assert!(page.get_text_at_point(Vector2::new(30.0, 1.0)).is_none());
}

fn store() -> StrokeStore {
    StrokeStore {
        stroke_components: vec![
            StoreEntry {
                key: 10,
                stroke: Stroke::TextStroke(TextStroke {
                    text: "Shopping List".to_string(),
                    bounds: aabb(0.0, 0.0, 4.0, 1.0),
                }),
                trashed: None,
            },
            StoreEntry {
                key: 11,
                stroke: Stroke::TextStroke(TextStroke {
                    text: "old list".to_string(),
                    bounds: aabb(0.0, 2.0, 4.0, 3.0),
                }),
                trashed: Some(true),
            },
            StoreEntry { key: 12, stroke: Stroke::Drawing(aabb(0.0, 5.0, 1.0, 6.0)), trashed: None },
            StoreEntry {
                key: 13,
                stroke: Stroke::TextStroke(TextStroke {
                    text: "todo".to_string(),
                    bounds: aabb(0.0, 7.0, 4.0, 8.0),
                }),
                trashed: Some(false),
            },
        ],
        recognized_text: vec![
            line("buy milk from the list", vec![20, 21], aabb(0.0, 10.0, 9.0, 11.0)),
            line("call mom", vec![22], aabb(0.0, 12.0, 9.0, 13.0)),
        ],
    }
}

fn texts(results: &[SearchResult]) -> Vec<String> {
    results.iter().map(|r| r.text.clone()).collect()
}

#[test]
fn store_search_typed_then_handwritten() {
    let s = store();
    let results = s.search("LIST");
    assert_eq!(texts(&results), vec!["Shopping List".to_string(), "buy milk from the list".to_string()]);
    assert_eq!(results[0].stroke_keys, vec![10]);
    assert_eq!(results[0].bounds, aabb(0.0, 0.0, 4.0, 1.0));
    assert_eq!(results[1].stroke_keys, vec![20, 21]);
    assert_eq!(results[1].bounds, aabb(0.0, 10.0, 9.0, 11.0));
}

#[test]
fn store_search_skips_trashed_and_untrashed_flags() {
    let s = store();
    assert_eq!(texts(&s.search("old")), Vec::<String>::new());
    assert_eq!(texts(&s.search("TODO")), vec!["todo".to_string()]);
}

#[test]
fn store_search_blank_query_finds_nothing() {
    let s = store();
    assert!(s.search("").is_empty());
    assert!(s.search("   ").is_empty());
}

#[test]
fn search_panel_states() {
    let s = store();
    let results = s.search("list");
    match search_panel_content("list", Some(&results)) {
        SearchPanelContent::Results(titles) => {
            assert_eq!(titles, vec!["Shopping List".to_string(), "buy milk from the list".to_string()])
        }
        _ => panic!("expected results"),
    }
    let none = s.search("xyz");
    assert!(matches!(search_panel_content("xyz", Some(&none)), SearchPanelContent::NoResults));
    assert!(matches!(search_panel_content("  ", Some(&none)), SearchPanelContent::Prompt));
    assert!(matches!(search_panel_content("  ", None), SearchPanelContent::Prompt));
    assert!(matches!(search_panel_content("xyz", None), SearchPanelContent::Unchanged));
}

#[test]
fn page_and_store_agree_on_handwriting() {
    let lines = vec![
        line("Meeting notes", vec![1, 2], aabb(0.0, 0.0, 5.0, 1.0)),
        line("notes on meeting", vec![3], aabb(0.0, 2.0, 5.0, 3.0)),
        line("groceries", vec![4], aabb(0.0, 4.0, 5.0, 5.0)),
    ];
    let page = Page { strokes: HashMap::new(), recognized_text: lines.clone() };
    let store = StrokeStore { stroke_components: Vec::new(), recognized_text: lines };
    for q in ["NOTES", "meeting", "x"] {
        let from_store: Vec<Aabb> = store.search(q).iter().map(|r| r.bounds).collect();
        assert_eq!(from_store, page.search_text(q));
    }
}

#[test]
fn store_search_ascii_case_variants_agree() {
    let s = store();
    for q in ["list", "Shopping", "MOM", "to"] {
        let base = s.search(q);
        let upper = s.search(&q.to_ascii_uppercase());
        let lower = s.search(&q.to_ascii_lowercase());
        assert_eq!(texts(&base), texts(&upper));
        assert_eq!(texts(&base), texts(&lower));
        let keys = |rs: &Vec<SearchResult>| rs.iter().map(|r| r.stroke_keys.clone()).collect::<Vec<_>>();
        assert_eq!(keys(&base), keys(&upper));
    }
    // each hit keeps the case of its own text
    assert_eq!(texts(&s.search("SHOPPING")), vec!["Shopping List".to_string()]);
}

#[test]
fn white_space_set() {
    for c in ['\t', '\n', '\u{b}', '\u{c}', '\r', ' ', '\u{85}', '\u{a0}', '\u{1680}', '\u{2000}', '\u{200a}', '\u{2028}', '\u{2029}', '\u{202f}', '\u{205f}', '\u{3000}'] {
        assert!(char_is_whitespace(c), "{:?}", c);
        assert_eq!(char_is_whitespace(c), c.is_whitespace());
    }
    for c in ['a', '\u{8}', '\u{e}', '\u{200b}', '\u{feff}', '\u{1f}', '_'] {
        assert!(!char_is_whitespace(c), "{:?}", c);
        assert_eq!(char_is_whitespace(c), c.is_whitespace());
    }
}
