use rustfilefinder::analysis::{
    after_read, after_stat, begin, FileOutcome, HandlingClass, MatchResult, Step,
};
use rustfilefinder::candidate::CandidateFile;
use rustfilefinder::order::path_less;
use rustfilefinder::query::Query;
use rustfilefinder::results::{collect_matches, finish_run, sort_by_path, sorting_order};
use rustfilefinder::stats::Counters;

fn hit(path: &str, snippet: &str) -> MatchResult {
    MatchResult {
        path: path.to_string(),
        matched_name: false,
        matched_content: true,
        snippet: Some(snippet.to_string()),
    }
}

fn outcome(class: Option<HandlingClass>, result: Option<MatchResult>) -> FileOutcome {
    FileOutcome { class, result }
}

fn paths(results: &[MatchResult]) -> Vec<String> {
    results.iter().map(|m| m.path.clone()).collect()
}

#[test]
fn path_less_is_the_order_of_strings() {
    assert!(path_less("a", "b"));
    assert!(!path_less("b", "a"));
    assert!(!path_less("a", "a"));
    assert!(path_less("", "a"));
    assert!(!path_less("a", ""));
    assert!(!path_less("", ""));
    assert!(path_less("a", "ab"));
    assert!(!path_less("ab", "a"));
    assert!(path_less("B", "a"));
    assert!(path_less("a/b", "a0"));
    assert!(path_less("z", "é"));
}

#[test]
fn path_less_agrees_with_std() {
    let samples = ["", "a", "A", "ab", "abc", "b", "a/b", "a.b", "é", "日本", "z", "~", "\u{10000}"];
    for a in samples {
        for b in samples {
            assert_eq!(path_less(a, b), a < b, "for {a:?} and {b:?}");
        }
    }
}

#[test]
fn sorting_order_lists_positions_by_path() {
    let items = vec![hit("c", "0"), hit("a", "1"), hit("b", "2")];
    assert_eq!(sorting_order(&items), vec![1, 2, 0]);
    assert_eq!(sorting_order(&Vec::new()), Vec::<usize>::new());
    assert_eq!(sorting_order(&vec![hit("x", "0")]), vec![0]);
}

#[test]
fn sorting_order_keeps_equal_paths_in_place() {
    let items = vec![hit("b", "0"), hit("a", "1"), hit("b", "2"), hit("a", "3"), hit("b", "4")];
    assert_eq!(sorting_order(&items), vec![1, 3, 0, 2, 4]);
}

#[test]
fn sort_by_path_ascends() {
    let sorted = sort_by_path(vec![hit("c", "0"), hit("a", "1"), hit("b", "2")]);
    assert_eq!(sorted, vec![hit("a", "1"), hit("b", "2"), hit("c", "0")]);
}

#[test]
fn sort_by_path_is_stable() {
    let sorted = sort_by_path(vec![
        hit("b", "first b"),
        hit("a", "first a"),
        hit("b", "second b"),
        hit("a", "second a"),
    ]);
    assert_eq!(
        sorted,
        vec![hit("a", "first a"), hit("a", "second a"), hit("b", "first b"), hit("b", "second b")]
    );
}

#[test]
fn sort_by_path_agrees_with_std_on_many_items() {
    let mut items = Vec::new();
    let mut seed: u32 = 12345;
    for i in 0..200 {
        seed = seed.wrapping_mul(1664525).wrapping_add(1013904223);
        let path = format!("dir{}/file{}", (seed >> 8) % 7, (seed >> 16) % 13);
        items.push(hit(&path, &format!("{i}")));
    }
    let mut expected = items.clone();
    expected.sort_by(|a, b| a.path.cmp(&b.path));
    assert_eq!(sort_by_path(items), expected);
}

#[test]
fn collect_matches_keeps_the_order_of_the_outcomes() {
    let outcomes = vec![
        outcome(Some(HandlingClass::ScannedText), Some(hit("b", "0"))),
        outcome(Some(HandlingClass::SkippedNonText), None),
        outcome(None, Some(hit("a", "1"))),
        outcome(Some(HandlingClass::ScannedPdf), None),
    ];
    assert_eq!(collect_matches(outcomes), vec![hit("b", "0"), hit("a", "1")]);
    assert_eq!(collect_matches(Vec::new()), Vec::<MatchResult>::new());
}

#[test]
fn counters_start_at_zero_and_count_up() {
    let mut c = Counters::new();
    assert_eq!(
        c,
        Counters {
            scanned_text: 0,
            scanned_pdf: 0,
            skipped_non_text: 0,
            skipped_too_large: 0,
            skipped_non_utf8: 0,
            skipped_unreadable_text: 0,
            skipped_unreadable_pdf: 0,
        }
    );
    c.record(HandlingClass::ScannedText);
    c.record(HandlingClass::ScannedText);
    c.record(HandlingClass::ScannedPdf);
    c.record(HandlingClass::SkippedNonText);
    c.record(HandlingClass::SkippedTooLarge);
    c.record(HandlingClass::SkippedNonUtf8);
    c.record(HandlingClass::SkippedUnreadableText);
    c.record(HandlingClass::SkippedUnreadablePdf);
    c.record(HandlingClass::SkippedUnreadablePdf);
    c.record(HandlingClass::SkippedUnreadablePdf);
    assert_eq!(
        c,
        Counters {
            scanned_text: 2,
            scanned_pdf: 1,
            skipped_non_text: 1,
            skipped_too_large: 1,
            skipped_non_utf8: 1,
            skipped_unreadable_text: 1,
            skipped_unreadable_pdf: 3,
        }
    );
}

#[test]
fn tally_counts_each_class() {
    let outcomes = vec![
        outcome(Some(HandlingClass::ScannedText), None),
        outcome(Some(HandlingClass::SkippedNonText), None),
        outcome(None, None),
        outcome(Some(HandlingClass::ScannedText), Some(hit("a", "x"))),
        outcome(Some(HandlingClass::SkippedNonUtf8), None),
    ];
    let c = Counters::tally(&outcomes);
    assert_eq!(c.scanned_text, 2);
    assert_eq!(c.scanned_pdf, 0);
    assert_eq!(c.skipped_non_text, 1);
    assert_eq!(c.skipped_too_large, 0);
    assert_eq!(c.skipped_non_utf8, 1);
    assert_eq!(c.skipped_unreadable_text, 0);
    assert_eq!(c.skipped_unreadable_pdf, 0);
}

#[test]
fn finish_run_of_nothing_is_empty() {
    let report = finish_run(Vec::new(), None, 0);
    assert_eq!(report.stats.files_discovered, 0);
    assert_eq!(report.stats.matches_total, 0);
    assert_eq!(report.stats.matches_printed, 0);
    assert!(report.results.is_empty());
}

#[test]
fn finish_run_counts_every_file_once_under_a_content_query() {
    let outcomes = vec![
        outcome(Some(HandlingClass::ScannedText), Some(hit("a.txt", "x"))),
        outcome(Some(HandlingClass::ScannedPdf), None),
        outcome(Some(HandlingClass::SkippedNonText), None),
        outcome(Some(HandlingClass::SkippedTooLarge), None),
        outcome(Some(HandlingClass::SkippedNonUtf8), None),
        outcome(Some(HandlingClass::SkippedUnreadableText), None),
        outcome(Some(HandlingClass::SkippedUnreadablePdf), None),
        outcome(Some(HandlingClass::ScannedText), None),
    ];
    let s = finish_run(outcomes, None, 12).stats;
    assert_eq!(s.files_discovered, 8);
    assert_eq!(s.files_scanned_text, 2);
    assert_eq!(s.files_scanned_pdf, 1);
    assert_eq!(s.files_skipped_non_text, 1);
    assert_eq!(s.files_skipped_too_large, 1);
    assert_eq!(s.files_skipped_non_utf8, 1);
    assert_eq!(s.files_skipped_unreadable_text, 1);
    assert_eq!(s.files_skipped_unreadable_pdf, 1);
    assert_eq!(
        s.files_discovered,
        s.files_scanned_text
            + s.files_scanned_pdf
            + s.files_skipped_non_text
            + s.files_skipped_too_large
            + s.files_skipped_non_utf8
            + s.files_skipped_unreadable_text
            + s.files_skipped_unreadable_pdf
    );
    assert_eq!(s.elapsed_ms, 12);
}

#[test]
fn finish_run_of_a_name_only_run_touches_no_class() {
    let outcomes = vec![
        outcome(None, Some(hit("b", "x"))),
        outcome(None, None),
        outcome(None, Some(hit("a", "y"))),
    ];
    let report = finish_run(outcomes, None, 5);
    assert_eq!(report.stats.files_discovered, 3);
    assert_eq!(report.stats.files_scanned_text, 0);
    assert_eq!(report.stats.files_skipped_non_text, 0);
    assert_eq!(report.stats.matches_total, 2);
    assert_eq!(paths(&report.results), vec!["a", "b"]);
}

#[test]
fn limit_one_of_two_prints_the_smaller_path() {
    let outcomes = vec![
        outcome(Some(HandlingClass::ScannedText), Some(hit("dir/b.txt", "x"))),
        outcome(Some(HandlingClass::ScannedText), Some(hit("dir/a.txt", "y"))),
    ];
    let report = finish_run(outcomes, Some(1), 0);
    assert_eq!(report.stats.matches_total, 2);
    assert_eq!(report.stats.matches_printed, 1);
    assert_eq!(report.results, vec![hit("dir/a.txt", "y")]);
}

#[test]
fn printed_is_the_smaller_of_total_and_limit() {
    let make = || {
        vec![
            outcome(None, Some(hit("c", "0"))),
            outcome(None, Some(hit("a", "1"))),
            outcome(None, Some(hit("b", "2"))),
        ]
    };
    for (limit, printed) in
        [(Some(0), 0), (Some(1), 1), (Some(2), 2), (Some(3), 3), (Some(4), 3), (Some(usize::MAX), 3), (None, 3)]
    {
        let report = finish_run(make(), limit, 0);
        assert_eq!(report.stats.matches_total, 3);
        assert_eq!(report.stats.matches_printed, printed);
        assert_eq!(report.results.len(), printed);
        let all = ["a", "b", "c"];
        assert_eq!(paths(&report.results), all[..printed].to_vec());
    }
}

#[test]
fn results_ascend_without_repeats() {
    let names = ["m.txt", "a.txt", "z.txt", "b/c.txt", "b.txt", "B.txt"];
    let outcomes: Vec<FileOutcome> = names
        .iter()
        .map(|n| outcome(Some(HandlingClass::ScannedText), Some(hit(n, "x"))))
        .collect();
    let report = finish_run(outcomes, None, 0);
    let got = paths(&report.results);
    assert_eq!(got, vec!["B.txt", "a.txt", "b.txt", "b/c.txt", "m.txt", "z.txt"]);
    for pair in got.windows(2) {
        assert!(pair[0] < pair[1]);
    }
}

fn analyse(name: &str, content: Option<&[u8]>, q: &Query) -> FileOutcome {
    let f = CandidateFile::new(name.to_string(), name.to_string());
    match begin(&f, q) {
        Step::Done(o) => o,
        Step::Stat => {
            let length = content.map(|c| c.len() as u64);
            match after_stat(&f, q, length) {
                Step::Done(o) => o,
                Step::Read { limit } => {
                    let bytes = content.map(|c| c[..c.len().min(limit as usize)].to_vec());
                    after_read(&f, q, bytes)
                }
                other => panic!("unexpected step {other:?}"),
            }
        }
        other => panic!("unexpected step {other:?}"),
    }
}

#[test]
fn a_text_file_matches_and_a_pdf_is_skipped_when_pdfs_are_off() {
    let q = match Query::new(".", None, Some("hello"), false, 2_000_000, None, None, false) {
        Ok(q) => q,
        Err(e) => panic!("{}", e.message),
    };
    let outcomes = vec![
        analyse("a.txt", Some(b"hello world"), &q),
        analyse("b.pdf", Some(b"%PDF-garbage"), &q),
    ];
    let report = finish_run(outcomes, q.limit, 3);
    assert_eq!(report.results.len(), 1);
    let m = &report.results[0];
    assert_eq!(m.path, "a.txt");
    assert!(m.matched_content);
    assert!(!m.matched_name);
    assert_eq!(m.snippet, Some("hello world".to_string()));
    assert_eq!(report.stats.files_discovered, 2);
    assert_eq!(report.stats.files_scanned_text, 1);
    assert_eq!(report.stats.files_skipped_non_text, 1);
    assert_eq!(report.stats.files_scanned_pdf, 0);
    assert_eq!(report.stats.files_skipped_unreadable_pdf, 0);
    assert_eq!(report.stats.matches_total, 1);
    assert_eq!(report.stats.matches_printed, 1);
}

#[test]
fn an_allow_listed_pdf_is_skipped_when_pdfs_are_off() {
    let q = match Query::new(".", None, Some("hello"), false, 2_000_000, Some("pdf"), None, false) {
        Ok(q) => q,
        Err(e) => panic!("{}", e.message),
    };
    let f = CandidateFile::new("doc.pdf".to_string(), "doc.pdf".to_string());
    assert!(f.ext_allowed(q.allowed_ext.as_ref()));
    let outcomes = vec![analyse("doc.pdf", Some(b"hello"), &q)];
    let report = finish_run(outcomes, q.limit, 0);
    assert!(report.results.is_empty());
    assert_eq!(report.stats.matches_total, 0);
    assert_eq!(report.stats.files_discovered, 1);
    assert_eq!(report.stats.files_skipped_non_text, 1);
    assert_eq!(report.stats.files_scanned_pdf, 0);
}

#[test]
fn a_file_over_the_cap_gives_no_content_match() {
    let q = match Query::new(".", None, Some("hello"), false, 5, None, None, false) {
        Ok(q) => q,
        Err(e) => panic!("{}", e.message),
    };
    let at_cap = analyse("a.txt", Some(b"hello"), &q);
    assert_eq!(at_cap.class, Some(HandlingClass::ScannedText));
    assert_eq!(at_cap.result.map(|m| m.matched_content), Some(true));
    let over = analyse("b.txt", Some(b"hello!"), &q);
    assert_eq!(over, outcome(Some(HandlingClass::SkippedTooLarge), None));
}
