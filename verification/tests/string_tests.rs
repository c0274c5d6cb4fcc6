use phpify::string::{explode, implode, lcfirst, stripos, strlen, strpos, substr, ucfirst};

#[test]
fn explode_test() {
    assert_eq!(
        explode("|", "one|two|three", 3),
        Some(vec!["one".to_string(), "two".to_string(), "three".to_string()])
    );
    assert_eq!(explode("|", "one|two|three", 1), Some(vec!["one|two|three".to_string()]));
    assert_eq!(
        explode("|", "one|two|three", 2),
        Some(vec!["one".to_string(), "two|three".to_string()])
    );
    assert_eq!(
        explode("|", "one|two|three", -1),
        Some(vec!["one".to_string(), "two".to_string()])
    );
    assert_eq!(explode("|", "one|two|three", -3), Some(vec![]));
    assert_eq!(explode(",", "one|two|three", 1), Some(vec!["one|two|three".to_string()]));
    assert_eq!(explode("", "one|two|three", 3), None);
}

#[test]
fn explode_unlimited_test() {
    assert_eq!(
        explode(" ", "piece1 piece2 piece3", isize::MAX),
        Some(vec!["piece1".to_string(), "piece2".to_string(), "piece3".to_string()])
    );
    assert_eq!(explode(",", ",", isize::MAX), Some(vec!["".to_string(), "".to_string()]));
    assert_eq!(explode(",", "hello", 0), Some(vec!["hello".to_string()]));
}

#[test]
fn implode_test() {
    assert_eq!(
        implode("|", &vec!["one".to_string(), "two".to_string(), "three".to_string()]),
        "one|two|three".to_string()
    );
    assert_eq!(
        implode("", &vec!["one".to_string(), "two".to_string(), "three".to_string()]),
        "onetwothree".to_string()
    );
    assert_eq!(implode("", &vec![]), "".to_string());
}

#[test]
fn implode_comma_test() {
    let fields = vec!["lastname".to_string(), "email".to_string(), "phone".to_string()];
    assert_eq!(implode(",", &fields), "lastname,email,phone".to_string());
}

#[test]
fn strlen_test() {
    assert_eq!(strlen("Hello World"), 11);
    assert_eq!(strlen(""), 0);
}

#[test]
fn strlen_counts_bytes() {
    assert_eq!(strlen("äbc"), 4);
}

#[test]
fn strpos_test() {
    let haystack = "Hello World";
    let needle = "World";

    assert_eq!(strpos(haystack, needle, 0), Some(6));
    assert_eq!(strpos(haystack, needle, 6), Some(6));
    assert_eq!(strpos(haystack, needle, -5), Some(6));
    assert_eq!(strpos(haystack, needle, -11), Some(6));
    assert_eq!(strpos(haystack, needle, 7), None);
    assert_eq!(strpos(haystack, needle, 11), None);
    assert_eq!(strpos(haystack, needle, -12), None);
}

#[test]
fn stripos_test() {
    assert_eq!(stripos("HELLO WORLD", "world", 0), Some(6));
}

#[test]
fn stripos_offset_test() {
    assert_eq!(stripos("Abc aBc abC", "abc", 1), Some(4));
    assert_eq!(stripos("Hello World", "world", -5), Some(6));
    assert_eq!(stripos("Hello World", "earth", 0), None);
}

#[test]
fn substr_test() {
    let string = "Hello World";

    assert_eq!(substr(string, 0, 5), Some("Hello".to_string()));
    assert_eq!(substr(string, 6, 5), Some("World".to_string()));
    assert_eq!(substr(string, 0, 20), Some("Hello World".to_string()));
    assert_eq!(substr(string, 0, -6), Some("Hello".to_string()));
    assert_eq!(substr(string, 3, -3), Some("lo Wo".to_string()));
    assert_eq!(substr(string, -11, 11), Some("Hello World".to_string()));
    assert_eq!(substr(string, -20, 11), Some("Hello World".to_string()));
    assert_eq!(substr(string, 0, 0), None);
    assert_eq!(substr(string, 11, 1), None);
    assert_eq!(substr(string, 7, -5), None);
}

#[test]
fn substr_negative_bounds_test() {
    assert_eq!(substr("abcdef", 4, -4), None);
    assert_eq!(substr("abcdef", -3, -1), Some("de".to_string()));
    assert_eq!(substr("abcdef", -1, 1), Some("f".to_string()));
    assert_eq!(substr("abcdef", 1, 3), Some("bcd".to_string()));
}

#[test]
fn substr_at_truncation_boundary_test() {
    // A start exactly at the truncation boundary is absent, not empty text.
    assert_eq!(substr("ab", 1, -1), None);
    assert_eq!(substr("abcdef", 5, -1), None);
    assert_eq!(substr("abcdef", 4, -1), Some("e".to_string()));
}

#[test]
fn substr_empty_input_test() {
    // A non-negative start at or past the end is absent, even on empty text.
    assert_eq!(substr("", 0, 1), None);
    assert_eq!(substr("", 0, -1), None);
}

#[test]
fn ucfirst_test() {
    assert_eq!(ucfirst("abc"), "Abc");
    assert_eq!(ucfirst("äbc"), "Äbc");
    assert_eq!(ucfirst("δξπ"), "Δξπ");
}

#[test]
fn ucfirst_empty_test() {
    assert_eq!(ucfirst(""), "");
    assert_eq!(lcfirst(""), "");
}

#[test]
fn lcfirst_test() {
    assert_eq!(lcfirst("ABC"), "aBC");
    assert_eq!(lcfirst("ÄBC"), "äBC");
    assert_eq!(lcfirst("ΔΞΠ"), "δΞΠ");
}
