use desktop_entry::model::{DesktopEntry, Group};
use desktop_entry::parser::{parse, ParseError};

fn pairs(v: &[(&str, &str)]) -> Vec<(String, String)> {
    v.iter().map(|(k, x)| (k.to_string(), x.to_string())).collect()
}

/// The raw value of `key` in the only group of a one-line entry.
fn value_of(line: &[u8]) -> Result<String, ParseError> {
    let mut input = b"[G]\nk=".to_vec();
    input.extend_from_slice(line);
    let doc = parse(&input)?;
    Ok(doc.group("G").unwrap().get_raw("k").unwrap().to_string())
}

/// The stored key of the only entry of a one-line group.
fn key_of(key: &[u8]) -> String {
    let mut input = b"[G]\n".to_vec();
    input.extend_from_slice(key);
    input.extend_from_slice(b"=v");
    let doc = parse(&input).unwrap();
    let g = doc.group("G").unwrap();
    assert_eq!(g.values().len(), 1);
    g.values()[0].0.clone()
}

#[test]
fn entry_value_test_empty() {
    assert_eq!(value_of(&[][..]), Ok("".to_string()));
}

#[test]
fn entry_value_test_basic() {
    assert_eq!(value_of(&b"A simple value"[..]), Ok("A simple value".to_string()));
    assert_eq!(value_of(&b"A simple value\n"[..]), Ok("A simple value".to_string()));
}

#[test]
fn entry_value_test_escapes() {
    assert_eq!(
        value_of(&b"\\s\\n\\t\\r\\\\\\a"[..]),
        Ok("\\s\\n\\t\\r\\\\\\a".to_string())
    );
    assert_eq!(
        value_of(&b"Content with trailing slash \\"[..]),
        Ok("Content with trailing slash \\".to_string())
    );
}

#[test]
fn entry_value_test_invalid_utf8() {
    assert!(value_of(&[0xc0, 0xc1]).is_err());
    assert!(value_of(&[0x80, 0xc1]).is_err());
    assert_eq!(value_of(&[0x80, 0xc1]), Err(ParseError::NonUtf8));
}

#[test]
fn entry_key_test_locales() {
    assert_eq!(key_of(&b"Name[en_US.UTF-8@shaw]"[..]), "name[en_us.utf-8@shaw]".to_string());
    assert_eq!(key_of(&b"Name[en_US.UTF-8]"[..]), "name[en_us.utf-8]".to_string());
    assert_eq!(key_of(&b"Name[en_US@shaw]"[..]), "name[en_us@shaw]".to_string());
    assert_eq!(key_of(&b"Name[en.UTF-8@shaw]"[..]), "name[en.utf-8@shaw]".to_string());
    assert_eq!(key_of(&b"Name[en_US]"[..]), "name[en_us]".to_string());
    assert_eq!(key_of(&b"Name[en.UTF-8]"[..]), "name[en.utf-8]".to_string());
    assert_eq!(key_of(&b"Name[en@shaw]"[..]), "name[en@shaw]".to_string());
}

#[test]
fn entry_test() {
    let bytes = &b"\
[Desktop Entry]
# A Comment
Value1=Some value
# Boolean values
Value2=true
Value3=false

# Floating point
Value4=5.6"[..];

    let expected = DesktopEntry::new(vec![Group::new(
        "Desktop Entry".into(),
        pairs(&[
            ("value1", "Some value"),
            ("value2", "true"),
            ("value3", "false"),
            ("value4", "5.6"),
        ]),
    )]);

    assert_eq!(parse(bytes), Ok(expected));
}

#[test]
fn parse_test() {
    let input = "\
[Desktop Entry]
#A comment
Exe=env A=a B=b sample-prog --foo --bar
Directory = /etc/foo
# A boolean value
Enabled=true

[Sample]
Comment=Stuff
Comment[en]=Stuff
Comment[de]=Zeug";

    let expected = DesktopEntry::new(vec![
        Group::new(
            "Desktop Entry".into(),
            pairs(&[
                ("exe", "env A=a B=b sample-prog --foo --bar"),
                ("directory", "/etc/foo"),
                ("enabled", "true"),
            ]),
        ),
        Group::new(
            "Sample".into(),
            pairs(&[("comment", "Stuff"), ("comment[en]", "Stuff"), ("comment[de]", "Zeug")]),
        ),
    ]);
    assert_eq!(parse(input.as_bytes()).unwrap(), expected);
}

#[test]
fn empty_input_has_no_groups() {
    assert_eq!(parse(b""), Ok(DesktopEntry::new(vec![])));
    assert_eq!(parse(b"\n# only a comment\n  \n"), Ok(DesktopEntry::new(vec![])));
}

#[test]
fn trailing_garbage_is_a_syntax_error() {
    assert_eq!(parse(b"[A]\nk=v\nnot a key line\n"), Err(ParseError::Syntax));
    assert_eq!(parse(b"garbage"), Err(ParseError::Syntax));
    assert_eq!(parse(b"[A]"), Err(ParseError::Syntax));
    assert_eq!(parse(b"[A\n"), Err(ParseError::Syntax));
}

#[test]
fn later_duplicate_key_wins() {
    let doc = parse(b"[A]\nKey=1\nkey=2\n").unwrap();
    let g = doc.group("A").unwrap();
    assert_eq!(g.values().len(), 1);
    assert_eq!(g.get_raw("KEY"), Some("2"));
}

#[test]
fn group_names_keep_case_and_keys_fold() {
    let doc = parse(b"[My Group]\nMixedCase = x y \n").unwrap();
    assert!(doc.group("my group").is_none());
    let g = doc.group("My Group").unwrap();
    assert_eq!(g.name(), "My Group");
    assert_eq!(g.get_raw("mixedcase"), Some("x y "));
}

#[test]
fn reparsing_a_group_span_gives_the_same_group() {
    let input = b"[A]\nk=v\n\n[B]\nx=1\n";
    let whole = parse(input).unwrap();
    let first = parse(&input[..9]).unwrap();
    let second = parse(&input[9..]).unwrap();
    assert_eq!(whole.groups()[0], first.groups()[0]);
    assert_eq!(whole.groups()[1], second.groups()[0]);
}

#[test]
fn non_ascii_values_are_decoded() {
    assert_eq!(value_of("Grüße".as_bytes()), Ok("Grüße".to_string()));
    assert_eq!(value_of(&[0xc3, 0xa9]), Ok("\u{e9}".to_string()));
}
