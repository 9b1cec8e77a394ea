use desktop_entry::execute::{expand_field_codes, parse_command, split_command, CommandExecutor, Error, ExecContext};
use desktop_entry::entries::{Categories, Category, Name};
use desktop_entry::parser::parse;

fn strings(v: &[&str]) -> Vec<String> {
    v.iter().map(|s| s.to_string()).collect()
}

#[test]
fn split_command_words() {
    assert_eq!(split_command("a b c"), Ok(strings(&["a", "b", "c"])));
    assert_eq!(split_command("\"a b\" c"), Ok(strings(&["a b", "c"])));
    assert_eq!(split_command("a\\"), Ok(strings(&["a\\"])));
    assert_eq!(split_command("\"a"), Err(Error::IncompleteQuote));
}

#[test]
fn split_command_escapes_in_quotes() {
    assert_eq!(split_command("\"a\\\\b\""), Ok(strings(&["a\\b"])));
    assert_eq!(split_command("\"a\\\"b\""), Ok(strings(&["a\"b"])));
    assert_eq!(split_command("\"a\\"), Err(Error::IncompleteEscape));
}

#[test]
fn split_command_doubled_space_gives_empty_word() {
    assert_eq!(split_command("a  b"), Ok(strings(&["a", "", "b"])));
    assert_eq!(split_command("a "), Ok(strings(&["a"])));
    assert_eq!(split_command(""), Ok(vec![]));
}

#[test]
fn field_codes_expand() {
    assert_eq!(expand_field_codes("%f", "F", "I", "C", "K"), "F".to_string());
    assert_eq!(expand_field_codes("--icon=%i", "F", "I", "C", "K"), "--icon=I".to_string());
    assert_eq!(expand_field_codes("%c:%k", "F", "I", "C", "K"), "C:K".to_string());
    assert_eq!(expand_field_codes("100%%", "F", "I", "C", "K"), "100%".to_string());
    assert_eq!(expand_field_codes("%x%", "F", "I", "C", "K"), "%x%".to_string());
}

#[test]
fn firefox_substitution() {
    let doc = parse(b"[Desktop Entry]\nName=Firefox\nIcon=firefox\nExec=firefox %u %i --name %c\n")
        .unwrap();
    let args = strings(&["https://example.com"]);
    let exec = CommandExecutor::new(&doc, &args, None).ok().unwrap();
    let cmd = exec.resolved();
    assert_eq!(cmd.program, "firefox".to_string());
    assert_eq!(cmd.arguments, strings(&["https://example.com", "firefox", "--name", "Firefox"]));
}

#[test]
fn file_list_twice_is_an_error() {
    let doc = parse(b"[Desktop Entry]\nExec=prog %F %U\n").unwrap();
    let args = strings(&["a"]);
    assert_eq!(CommandExecutor::new(&doc, &args, None).err(), Some(Error::MultipleFileArgs));
    let ctx = ExecContext { source: &doc, source_path: None, args: &args };
    assert_eq!(parse_command("p %F x %F", &ctx), Err(Error::MultipleFileArgs));
}

#[test]
fn file_list_splices_all_files() {
    let doc = parse(b"[Desktop Entry]\nName=N\n").unwrap();
    let args = strings(&["a", "b"]);
    let ctx = ExecContext { source: &doc, source_path: Some("/p.desktop".to_string()), args: &args };
    let cmd = parse_command("p -x %F %k", &ctx).ok().unwrap();
    assert_eq!(cmd.program, "p".to_string());
    assert_eq!(cmd.arguments, strings(&["-x", "a", "b", "/p.desktop"]));
}

#[test]
fn missing_command_errors() {
    let doc = parse(b"[Desktop Entry]\nName=N\n").unwrap();
    let args: Vec<String> = vec![];
    assert_eq!(CommandExecutor::new(&doc, &args, None).err(), Some(Error::NoCommand));
    let ctx = ExecContext { source: &doc, source_path: None, args: &args };
    assert_eq!(parse_command("", &ctx), Err(Error::NoCommand));
    assert_eq!(parse_command("\"p", &ctx), Err(Error::IncompleteQuote));
    assert_eq!(parse_command("p \"a\\", &ctx), Err(Error::IncompleteEscape));
}

#[test]
fn end_to_end_sample() {
    let doc = parse(
        b"[Desktop Entry]\nName=Sample\nExec=sample %f\nCategories=Utility;Development;\n",
    )
    .unwrap();
    assert_eq!(doc.get::<Name>(), Some(Name("Sample".to_string())));
    assert_eq!(
        doc.get::<Categories>(),
        Some(Categories(vec![Category::Utility, Category::Development]))
    );
    let args = strings(&["/tmp/x"]);
    let exec = CommandExecutor::new(&doc, &args, None).ok().unwrap();
    assert_eq!(exec.resolved().program, "sample".to_string());
    assert_eq!(exec.resolved().arguments, strings(&["/tmp/x"]));
}
