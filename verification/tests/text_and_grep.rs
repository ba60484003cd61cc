use longmemcode::cli::{_touch, flag};
use longmemcode::grep::{
    defined_names_in, file_symbol_ids, grep_finish, grep_start, ids_in_files, last_segment_of, regex_escape,
    trailing_ident, BareIndex, GrepStep,
};
use longmemcode::ids::{contains_id, count_common, distinct};
use longmemcode::protocol::Query;
use longmemcode::scan::{sum_counts, split_lines, trim_chars};
use longmemcode::text::{contains_text, framed, lex_less, lower_chars, replace_str, same_ignoring_ascii_case, str_eq};

fn strings(v: &[&str]) -> Vec<String> {
    v.iter().map(|s| s.to_string()).collect()
}

#[test]
fn flag_reads_both_forms() {
    let args = strings(&["--corpus", "a.bundle", "--out=r.json", "--count"]);
    assert_eq!(flag(&args, "--corpus"), Some("a.bundle".to_string()));
    assert_eq!(flag(&args, "--out"), Some("r.json".to_string()));
    assert_eq!(flag(&args, "--count"), None);
    assert_eq!(flag(&args, "--missing"), None);
    let first_wins = strings(&["--x=1", "--x", "2"]);
    assert_eq!(flag(&first_wins, "--x"), Some("1".to_string()));
}

#[test]
fn touch_accepts_a_path() {
    _touch(&std::path::PathBuf::from("x"));
}

#[test]
fn trailing_ident_strips_descriptor_marks() {
    assert_eq!(trailing_ident("scip-python pkg 1.0 mod/Foo#bar()."), "bar");
    assert_eq!(trailing_ident("rust-analyzer cargo x 0.1 lib/Widget#"), "Widget");
    assert_eq!(trailing_ident("a/b_c;"), "b_c");
    assert_eq!(trailing_ident("()."), "");
    assert_eq!(trailing_ident("résumé#"), "résumé");
}

#[test]
fn regex_escape_escapes_meta_only() {
    assert_eq!(regex_escape("a.b(c)"), "a\\.b\\(c\\)");
    assert_eq!(regex_escape("plain_name"), "plain_name");
    assert_eq!(regex_escape("^$|[]{}*+?\\"), "\\^\\$\\|\\[\\]\\{\\}\\*\\+\\?\\\\");
}

#[test]
fn last_segment_is_trailing_identifier_run() {
    let s: String = last_segment_of("pkg::mod::Name()").into_iter().collect();
    assert_eq!(s, "Name");
    let e: String = last_segment_of("::").into_iter().collect();
    assert_eq!(e, "");
}

#[test]
fn ids_helpers() {
    let v = strings(&["a", "b", "a", "c"]);
    assert!(contains_id(&v, &"c".to_string()));
    assert!(!contains_id(&v, &"d".to_string()));
    assert_eq!(distinct(&v), strings(&["a", "b", "c"]));
    assert_eq!(count_common(&strings(&["a", "b", "z"]), &v), 2);
}

#[test]
fn scanning_helpers() {
    let t: String = trim_chars(&[' ', 'a', ' ', 'b', '\t']).into_iter().collect();
    assert_eq!(t, "a b");
    let ls = split_lines(&"x\ny\r\n\nz".chars().collect::<Vec<char>>());
    let ls: Vec<String> = ls.into_iter().map(|l| l.into_iter().collect()).collect();
    assert_eq!(ls, strings(&["x", "y", "", "z"]));
    assert_eq!(sum_counts("src/a.rs:3\nsrc/b.rs: 4 \nnoise\nc:x\n"), Some(7));
    assert_eq!(sum_counts(""), Some(0));
}

#[test]
fn text_helpers() {
    assert!(str_eq("abc", "abc"));
    assert!(!str_eq("abc", "abd"));
    assert!(lex_less(&['a', 'b'], &['a', 'c']));
    assert!(lex_less(&['a'], &['a', 'a']));
    assert!(!lex_less(&['b'], &['a', 'z']));
    assert_eq!(replace_str("a.json.json", ".json", ".jsonl"), "a.jsonl.jsonl");
    assert!(contains_text(&['x', 'a', 'b', 'y'], "ab"));
    assert!(!contains_text(&['x', 'a', 'y'], "ab"));
    let low: String = lower_chars(&['A', 'b', 'Z', 'É']).into_iter().collect();
    assert_eq!(low, "abzÉ");
    assert_eq!(framed("<", &['x'], ">"), "<x>");
    assert!(same_ignoring_ascii_case("Struct", "sTRUCT"));
    assert!(!same_ignoring_ascii_case("Struct", "Structs"));
}

fn index() -> BareIndex {
    let pairs = vec![
        ("new".to_string(), "m/A#new().".to_string()),
        ("Widget".to_string(), "m/Widget#".to_string()),
        ("new".to_string(), "m/B#new().".to_string()),
        ("helper".to_string(), "m/helper().".to_string()),
    ];
    BareIndex::from_pairs(&pairs)
}

#[test]
fn bare_index_groups_ids_by_name() {
    let ix = index();
    assert_eq!(ix.get(&"new".to_string()), Some(&strings(&["m/A#new().", "m/B#new()."])));
    assert_eq!(ix.get(&"nope".to_string()), None);
    assert_eq!(ix.all_ids(), strings(&["m/A#new().", "m/B#new().", "m/Widget#", "m/helper()."]));
}

#[test]
fn ids_in_files_lists_every_indexed_id() {
    let ix = index();
    let got = ids_in_files(&ix, &strings(&["src/x.rs"]));
    assert_eq!(got, strings(&["m/A#new().", "m/B#new().", "m/Widget#", "m/helper()."]));
}

#[test]
fn file_symbols_from_definitions() {
    let text = "pub struct Widget {\n    fn new() {}\n  def helper(x):\nlet new = 1;\nimpl Widget {}\n";
    assert_eq!(defined_names_in(text), strings(&["Widget", "new", "helper", "Widget"]));
    let ix = index();
    assert_eq!(
        file_symbol_ids(&ix, text),
        strings(&["m/Widget#", "m/A#new().", "m/B#new().", "m/helper().", "m/Widget#"])
    );
}

#[test]
fn grep_bare_lookup_counts_then_answers() {
    let ix = index();
    let q = Query::Lookup { name: "new".to_string(), bare_name: true, kind: None };
    match grep_start(&q, &ix) {
        GrepStep::CountWord { pattern } => assert_eq!(pattern, "new"),
        _ => panic!("expected a word count"),
    }
    let found = grep_finish(&q, &ix, &Some("src/a.rs:2\n".to_string()));
    assert_eq!(found, strings(&["m/A#new().", "m/B#new()."]));
    let absent = grep_finish(&q, &ix, &Some(String::new()));
    assert!(absent.is_empty());
}

#[test]
fn grep_unknown_bare_name_answers_nothing() {
    let ix = index();
    let q = Query::Lookup { name: "QuantumTeleportManager".to_string(), bare_name: true, kind: None };
    assert!(grep_finish(&q, &ix, &Some("src/a.rs:9\n".to_string())).is_empty());
}

#[test]
fn grep_full_id_lookup_guesses_the_id() {
    let ix = index();
    let q = Query::Lookup { name: "m/Widget#".to_string(), bare_name: false, kind: None };
    match grep_start(&q, &ix) {
        GrepStep::CountWord { pattern } => assert_eq!(pattern, "Widget"),
        _ => panic!("expected a word count"),
    }
    assert_eq!(grep_finish(&q, &ix, &Some("src/w.rs:1\n".to_string())), strings(&["m/Widget#"]));
    let q2 = Query::Lookup { name: "::".to_string(), bare_name: false, kind: None };
    assert!(matches!(grep_start(&q2, &ix), GrepStep::Answer { results } if results.is_empty()));
}

#[test]
fn grep_callers_search_for_call_sites() {
    let ix = index();
    let q = Query::Callers { sym_stable_id: "m/A#new().".to_string() };
    match grep_start(&q, &ix) {
        GrepStep::FilesMatching { pattern } => assert_eq!(pattern, "\\bnew\\s*\\("),
        _ => panic!("expected a file search"),
    }
    let q2 = Query::Callees { sym_stable_id: "m/helper().".to_string() };
    match grep_start(&q2, &ix) {
        GrepStep::FilesMatching { pattern } => assert_eq!(pattern, "\\bhelper\\b"),
        _ => panic!("expected a file search"),
    }
    assert_eq!(grep_finish(&q, &ix, &Some("src/a.rs\n".to_string())).len(), 4);
}

#[test]
fn grep_cannot_answer_graph_queries() {
    let ix = index();
    for q in [
        Query::Implementors { sym_stable_id: "m/Widget#".to_string() },
        Query::Orphans { kind: None },
    ] {
        assert!(matches!(grep_start(&q, &ix), GrepStep::Answer { ref results } if results.is_empty()));
        assert!(grep_finish(&q, &ix, &Some("anything".to_string())).is_empty());
    }
}

#[test]
fn grep_file_symbols_reads_the_file() {
    let ix = index();
    let q = Query::FileSymbols { file_path: "src/w.rs".to_string() };
    match grep_start(&q, &ix) {
        GrepStep::ReadSource { file_path } => assert_eq!(file_path, "src/w.rs"),
        _ => panic!("expected a file read"),
    }
    assert_eq!(grep_finish(&q, &ix, &Some("struct Widget;\n".to_string())), strings(&["m/Widget#"]));
    assert!(grep_finish(&q, &ix, &None).is_empty());
}

#[test]
fn lexicographic_order_is_strict_and_total() {
    let words: Vec<Vec<char>> = ["", "a", "ab", "b", "ba"].iter().map(|w| w.chars().collect()).collect();
    for x in &words {
        assert!(!lex_less(x, x));
        for y in &words {
            if x != y {
                assert!(lex_less(x, y) != lex_less(y, x));
            }
            for z in &words {
                if lex_less(x, y) && lex_less(y, z) {
                    assert!(lex_less(x, z));
                }
            }
        }
    }
}

fn unescape(s: &str) -> String {
    let mut out = String::new();
    let mut it = s.chars();
    while let Some(c) = it.next() {
        if c == '\\' {
            if let Some(n) = it.next() {
                out.push(n);
                continue;
            }
        }
        out.push(c);
    }
    out
}

#[test]
fn regex_escape_works_piecewise_and_unescapes() {
    let a = "pkg.mod(";
    let b = "x|y\\z";
    assert_eq!(regex_escape(&format!("{a}{b}")), format!("{}{}", regex_escape(a), regex_escape(b)));
    for s in ["", "a.b", "\\\\", "f(x)[0]{1}^$|*+?", "plain"] {
        assert_eq!(unescape(&regex_escape(s)), s);
    }
}
