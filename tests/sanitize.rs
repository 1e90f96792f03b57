use page_cache::sanitize::{find_first, find_last, sanitize};

#[test]
fn sanitize_strips_preamble_and_postamble() {
    let out = sanitize("noise<!DOCTYPE html>...body...</html>trailing junk");
    assert_eq!(out, Some("<!DOCTYPE html>...body...</html>".to_string()));
}

#[test]
fn sanitize_without_markers_keeps_input() {
    let input = "just some text, no document here";
    assert_eq!(sanitize(input), Some(input.to_string()));
}

#[test]
fn sanitize_without_end_marker_runs_to_end() {
    let out = sanitize("preamble <!DOCTYPE html><body>unfinished");
    assert_eq!(out, Some("<!DOCTYPE html><body>unfinished".to_string()));
}

#[test]
fn sanitize_without_start_marker_starts_at_zero() {
    let out = sanitize("<html><p>x</p></html> and more");
    assert_eq!(out, Some("<html><p>x</p></html>".to_string()));
}

#[test]
fn sanitize_uses_first_start_and_last_end() {
    let input = "a<!DOCTYPE html>1</html>b<!DOCTYPE html>2</html>c";
    assert_eq!(sanitize(input), Some("<!DOCTYPE html>1</html>b<!DOCTYPE html>2</html>".to_string()));
}

#[test]
fn sanitize_empty_input() {
    assert_eq!(sanitize(""), Some(String::new()));
}

#[test]
fn sanitize_end_before_start_has_no_document() {
    assert_eq!(sanitize("</html> then <!DOCTYPE html>"), None);
}

#[test]
fn sanitize_end_right_before_start_is_empty() {
    assert_eq!(sanitize("</html><!DOCTYPE html>"), Some(String::new()));
}

#[test]
fn sanitize_keeps_multibyte_text() {
    let input = "é<!DOCTYPE html>ünïcode ✓</html>ß";
    assert_eq!(sanitize(input), Some("<!DOCTYPE html>ünïcode ✓</html>".to_string()));
}

#[test]
fn find_first_and_last_positions() {
    let s = b"abcabcab";
    assert_eq!(find_first(s, b"ab"), Some(0));
    assert_eq!(find_last(s, b"ab"), Some(6));
    assert_eq!(find_first(s, b"ca"), Some(2));
    assert_eq!(find_last(s, b"ca"), Some(5));
    assert_eq!(find_first(s, b"x"), None);
    assert_eq!(find_last(s, b"abcabcabc"), None);
    assert_eq!(find_first(s, b""), Some(0));
    assert_eq!(find_last(s, b""), Some(8));
}
