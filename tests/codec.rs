use desktop_entry::codec::{split_value_str, unescape_value};

fn split(s: &str) -> Vec<String> {
    split_value_str(s).into_vec()
}

fn strings(v: &[&str]) -> Vec<String> {
    v.iter().map(|s| s.to_string()).collect()
}

#[test]
fn split_value_str_test() {
    assert_eq!(split_value_str("").next(), None);
    assert_eq!(split(";"), strings(&[""]));
    assert_eq!(split("a;b;c;d"), strings(&["a", "b", "c", "d"]));
    assert_eq!(split("a;b;"), strings(&["a", "b"]));
    assert_eq!(split("a;;"), strings(&["a", ""]));
    assert_eq!(split("a\\;b"), strings(&["a;b"]));
    assert_eq!(split("a\\;;b\\;"), strings(&["a;", "b;"]));
    assert_eq!(split("a\\b"), strings(&["a\\b"]));
}

#[test]
fn split_value_str_escape_test() {
    assert_eq!(split("\\s\\n\\t\\r\\\\\\a\\;"), strings(&[" \n\t\r\\\\a;"]));
    assert_eq!(split("a\\\\;b\\"), strings(&["a\\", "b\\"]));
}

#[test]
fn unescape_value_test() {
    assert_eq!(unescape_value("\\s\\n\\t\\r\\\\\\a\\;"), " \n\t\r\\\\a\\;".to_string());
    assert_eq!(unescape_value("a\\"), "a\\".to_string());
}

#[test]
fn split_plain_value_with_final_separator() {
    assert_eq!(split("Utility;"), strings(&["Utility"]));
    assert_eq!(split("hello world;"), strings(&["hello world"]));
}

#[test]
fn split_empty_and_lone_separator() {
    assert_eq!(split(""), Vec::<String>::new());
    assert_eq!(split(";"), strings(&[""]));
}

#[test]
fn split_values_one_at_a_time() {
    let mut v = split_value_str("a;b");
    assert_eq!(v.next(), Some("a".to_string()));
    assert_eq!(v.next(), Some("b".to_string()));
    assert_eq!(v.next(), None);
    assert_eq!(v.next(), None);
}

#[test]
fn unescape_plain_is_unchanged_and_idempotent() {
    let s = "plain text; nothing here";
    assert_eq!(unescape_value(s), s.to_string());
    assert_eq!(unescape_value(&unescape_value(s)), unescape_value(s));
    assert_eq!(unescape_value("\\\\"), "\\".to_string());
}

#[test]
fn unescape_each_escape() {
    assert_eq!(unescape_value("a\\sb"), "a b".to_string());
    assert_eq!(unescape_value("\\n"), "\n".to_string());
    assert_eq!(unescape_value("\\t\\r"), "\t\r".to_string());
    assert_eq!(unescape_value("\\x"), "\\x".to_string());
    assert_eq!(unescape_value(""), "".to_string());
}
