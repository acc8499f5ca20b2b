use rustfilefinder::snippet::{clamp_to_char_boundary, snippet_around_match};

#[test]
fn clamp_goes_down_to_a_boundary() {
    // h: byte 0, é: bytes 1 and 2, l: 3, l: 4, o: 5
    let s = "héllo";
    let clamped: Vec<usize> = (0..9).map(|i| clamp_to_char_boundary(s, i)).collect();
    assert_eq!(clamped, vec![0, 1, 1, 3, 4, 5, 6, 6, 6]);
}

#[test]
fn clamp_brings_a_large_offset_to_the_length() {
    assert_eq!(clamp_to_char_boundary("abc", usize::MAX), 3);
    assert_eq!(clamp_to_char_boundary("", 5), 0);
    assert_eq!(clamp_to_char_boundary("日本", 1000), 6);
}

#[test]
fn clamp_agrees_with_std_boundaries() {
    let s = "a日b本語é";
    for i in 0..=s.len() {
        let r = clamp_to_char_boundary(s, i);
        assert!(s.is_char_boundary(r));
        assert!(r <= i);
        for j in (r + 1)..=i {
            assert!(!s.is_char_boundary(j));
        }
    }
}

#[test]
fn snippet_of_a_short_text_is_the_text() {
    assert_eq!(snippet_around_match("hello world", 0, 5, 40, 120), "hello world");
    assert_eq!(snippet_around_match("hello", 10, 20, 40, 120), "hello");
}

#[test]
fn snippet_puts_the_window_on_one_line() {
    let text = "line one\nline two has the needle in it\nline three";
    assert_eq!(
        snippet_around_match(text, 26, 32, 40, 120),
        "line one line two has the needle in it line three"
    );
    assert_eq!(snippet_around_match("a\r\nb\n\nc", 0, 1, 40, 120), "a\r b  c");
}

#[test]
fn snippet_reaches_forty_bytes_to_either_side() {
    let text = format!("{}MATCH{}", "x".repeat(100), "y".repeat(100));
    let expected = format!("{}MATCH{}", "x".repeat(40), "y".repeat(40));
    assert_eq!(snippet_around_match(&text, 100, 105, 40, 120), expected);
}

#[test]
fn snippet_respects_the_context_given() {
    assert_eq!(snippet_around_match("abc", 1, 2, 1, 120), "abc");
    assert_eq!(snippet_around_match("abc", 1, 2, 0, 120), "b");
    assert_eq!(snippet_around_match("hello", 3, 3, 1, 120), "ll");
}

#[test]
fn snippet_is_cut_to_the_largest_length() {
    let text = "ab".repeat(200);
    let s = snippet_around_match(&text, 100, 300, 40, 120);
    assert_eq!(s, "ab".repeat(60));
    assert_eq!(s.chars().count(), 120);
    assert_eq!(snippet_around_match("a\nb\nc", 0, 5, 40, 3), "a b");
    assert_eq!(snippet_around_match("abc", 0, 3, 40, 0), "");
}

#[test]
fn snippet_counts_its_length_in_characters() {
    let text = format!("{}needle{}", "é".repeat(30), "é".repeat(30));
    let s = snippet_around_match(&text, 60, 66, 41, 10);
    assert_eq!(s, "é".repeat(10));
    assert_eq!(s.chars().count(), 10);
    assert_eq!(s.len(), 20);
}

#[test]
fn snippet_never_splits_a_character() {
    // every é takes two bytes; 60 - 41 = 19 and 66 + 41 = 107 fall inside one
    let text = format!("{}needle{}", "é".repeat(30), "é".repeat(30));
    let expected = format!("{}needle{}", "é".repeat(21), "é".repeat(20));
    assert_eq!(snippet_around_match(&text, 60, 66, 41, 120), expected);
    let even = format!("{}needle{}", "é".repeat(20), "é".repeat(20));
    assert_eq!(snippet_around_match(&text, 60, 66, 40, 120), even);
}

#[test]
fn snippet_takes_offsets_inside_a_character() {
    let text = "日本語".repeat(50);
    let s = snippet_around_match(&text, 62, 64, 40, 120);
    assert_eq!(s, "本語日本語日本語日本語日本語日本語日本語日本語日本語日");
    assert_eq!(s.chars().count(), 27);
    let t = snippet_around_match(&text, 60, 63, 40, 120);
    assert_eq!(t, "日本語日本語日本語日本語日本語日本語日本語日本語日本語日");
}

#[test]
fn snippet_holds_at_most_120_characters_of_any_text() {
    let text = "日本語\n".repeat(200);
    for start in [0usize, 1, 2, 3, 100, 401, 799] {
        for len in [0usize, 1, 5, 300] {
            let s = snippet_around_match(&text, start, start + len, 40, 120);
            assert!(s.chars().count() <= 120);
            assert!(!s.contains('\n'));
        }
    }
}
