use ruyiseek::domain::{ItemKind, SearchItem};
use ruyiseek::matching::subsequence_density;
use ruyiseek::query::{relevance_of, score_string, Score, SearchEngine};

fn item(id: u64, name: &str, path: &str, kind: ItemKind) -> SearchItem {
    SearchItem {
        id,
        name: name.to_owned(),
        path: path.as_bytes().to_vec(),
        kind,
        hidden: false,
    }
}

fn chars(s: &str) -> Vec<char> {
    s.chars().collect()
}

fn tokens(words: &[&str]) -> Vec<Vec<char>> {
    words.iter().map(|w| chars(w)).collect()
}

#[test]
fn exact_name_beats_prefix_and_path() {
    let engine = SearchEngine::new(vec![
        item(1, "report", "/work/report", ItemKind::File),
        item(2, "report-final", "/work/report-final", ItemKind::File),
        item(3, "notes", "/work/report/notes", ItemKind::File),
    ]);

    let hits = engine.search("report", 10);
    assert_eq!(
        hits.iter().map(|hit| hit.item.id).collect::<Vec<_>>(),
        [1, 2, 3]
    );
}

#[test]
fn unicode_and_ascii_matching_are_supported() {
    let engine = SearchEngine::new(vec![
        item(1, "年度报告.md", "/工作/年度报告.md", ItemKind::File),
        item(2, "README.MD", "/repo/README.MD", ItemKind::File),
    ]);

    assert_eq!(engine.search("年度", 5)[0].item.id, 1);
    assert_eq!(engine.search("readme", 5)[0].item.id, 2);
}

#[test]
fn top_k_is_enforced() {
    let engine = SearchEngine::new(vec![
        item(1, "a", "/a", ItemKind::File),
        item(2, "aa", "/aa", ItemKind::File),
        item(3, "aaa", "/aaa", ItemKind::File),
    ]);

    assert_eq!(engine.search("a", 2).len(), 2);
    assert!(engine.search("a", 0).is_empty());
}

#[test]
fn subsequence_matches_without_edit_distance() {
    let engine = SearchEngine::new(vec![item(
        1,
        "ruyiseek-development-design.md",
        "/docs/ruyiseek-development-design.md",
        ItemKind::File,
    )]);

    assert_eq!(engine.search("rsdd", 5)[0].item.id, 1);
}

#[test]
fn multi_token_intersects() {
    let engine = SearchEngine::new(vec![
        item(1, "report", "/work/report", ItemKind::File),
        item(2, "report", "/archive/2024/report", ItemKind::File),
        item(3, "report", "/work/2024/notes", ItemKind::File),
    ]);

    let hits = engine.search("report 2024", 10);
    let ids: Vec<u64> = hits.iter().map(|hit| hit.item.id).collect();
    assert!(ids.contains(&2), "should match item with 2024 in path");
    assert!(ids.contains(&3), "should match item with 2024 in path");
    assert!(!ids.contains(&1), "should not match item without 2024");
}

#[test]
fn acronym_matches_path_initials() {
    let engine = SearchEngine::new(vec![
        item(1, "x.txt", "/ruyiseek/services/ui/x.txt", ItemKind::File),
        item(2, "y.txt", "/work/notes/y.txt", ItemKind::File),
    ]);

    let hits = engine.search("RSU", 10);
    assert_eq!(hits[0].item.id, 1);
    assert!(hits.iter().all(|hit| hit.item.id != 2));
}

#[test]
fn segment_prefix_beats_distant_path_substring() {
    let engine = SearchEngine::new(vec![
        item(1, "x.txt", "/long/path/reports/x.txt", ItemKind::File),
        item(
            2,
            "y.txt",
            "/report-something-entirely-different/y.txt",
            ItemKind::File,
        ),
    ]);

    let hits = engine.search("rep", 10);
    assert_eq!(hits[0].item.id, 1);
}

#[test]
fn scores_are_six_decimal_texts() {
    assert_eq!(score_string(Score { num: 74, scale: 1 }), "0.740000");
    assert_eq!(score_string(Score { num: 100, scale: 1 }), "1.000000");
    assert_eq!(score_string(Score { num: 0, scale: 1 }), "0.000000");
    // 0.48 + 0.18 * 3 / 7 = 0.557142857...
    assert_eq!(score_string(Score { num: 48 * 7 + 18 * 3, scale: 7 }), "0.557143");
}

#[test]
fn match_positions_give_exact_scores() {
    let engine = SearchEngine::new(vec![
        item(1, "report", "/work/report", ItemKind::File),
        item(2, "report-final", "/work/report-final", ItemKind::File),
        item(3, "my-report", "/work/my-report", ItemKind::File),
        item(4, "notes", "/work/reports/notes", ItemKind::File),
        item(5, "notes", "/work/old-reports/notes", ItemKind::File),
    ]);
    let hits = engine.search("report", 10);
    let scores: Vec<(u64, &str)> = hits.iter().map(|h| (h.item.id, h.score.as_str())).collect();
    assert_eq!(
        scores,
        vec![
            (1, "1.000000"),
            (2, "0.880000"),
            (3, "0.740000"),
            (4, "0.620000"),
            (5, "0.500000"),
        ]
    );
}

#[test]
fn directories_gain_and_hidden_items_lose() {
    let mut hidden = item(1, "notes", "/a/notes", ItemKind::File);
    hidden.hidden = true;
    let engine = SearchEngine::new(vec![
        hidden,
        item(2, "notes-dir", "/a/notes-dir", ItemKind::Directory),
        item(3, "notes", "/b/notes", ItemKind::Directory),
    ]);
    let hits = engine.search("notes", 10);
    let scores: Vec<(u64, &str)> = hits.iter().map(|h| (h.item.id, h.score.as_str())).collect();
    assert_eq!(
        scores,
        vec![(3, "1.000000"), (2, "0.900000"), (1, "0.880000")]
    );
}

#[test]
fn ties_order_by_name_length_then_path() {
    let engine = SearchEngine::new(vec![
        item(1, "abcd", "/z/abcd", ItemKind::File),
        item(2, "abc", "/y/abc", ItemKind::File),
        item(3, "abcd", "/a/abcd", ItemKind::File),
    ]);
    let hits = engine.search("ab", 10);
    assert_eq!(
        hits.iter().map(|hit| hit.item.id).collect::<Vec<_>>(),
        [2, 3, 1]
    );
}

#[test]
fn blank_queries_and_misses_return_nothing() {
    let engine = SearchEngine::new(vec![item(1, "report", "/work/report", ItemKind::File)]);
    assert!(engine.search("   ", 10).is_empty());
    assert!(engine.search("", 10).is_empty());
    assert!(engine.search("zzz", 10).is_empty());
    assert_eq!(engine.len(), 1);
    assert!(!engine.is_empty());
    assert!(SearchEngine::new(Vec::new()).is_empty());
}

#[test]
fn subsequence_density_counts_bytes_between_matches() {
    // "rsdd" in "ruyiseek-development-design.md": r at 0, s at 4, d at 9, d at 21.
    let found = subsequence_density(&chars("ruyiseek-development-design.md"), &chars("rsdd"));
    assert_eq!(found, Some((4, 22)));
    assert_eq!(subsequence_density(&chars("abc"), &chars("abd")), None);
    // Multi-byte characters widen the span: each of these takes three bytes.
    assert_eq!(subsequence_density(&chars("年度报告"), &chars("年告")), Some((2, 10)));
}

#[test]
fn relevance_of_single_and_multiple_tokens() {
    let name = chars("report");
    let path = chars("/archive/2024/report");
    let one = relevance_of(&name, &path, ItemKind::File, false, &tokens(&["report"]), false);
    assert_eq!(one, Some(Score { num: 100, scale: 1 }));
    // Both tokens match; the lowest (the path segment, 0.62) is the base.
    let two = relevance_of(&name, &path, ItemKind::File, false, &tokens(&["report", "2024"]), false);
    assert_eq!(two, Some(Score { num: 62, scale: 1 }));
    let missing = relevance_of(&name, &path, ItemKind::File, false, &tokens(&["report", "2023"]), false);
    assert_eq!(missing, None);
}

#[test]
fn uppercase_initials_rescue_a_lone_token() {
    let name = chars("x.txt");
    let path = chars("/ruyiseek/services/ui/x.txt");
    let rescued = relevance_of(&name, &path, ItemKind::File, false, &tokens(&["rsu"]), true);
    assert_eq!(rescued, Some(Score { num: 46, scale: 1 }));
    let lower = relevance_of(&name, &path, ItemKind::File, false, &tokens(&["rsu"]), false);
    assert_eq!(lower, None);
}
