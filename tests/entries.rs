use desktop_entry::entries::{
    parse_bool, parse_category, Categories, Category, Entry, Exec, Hidden, Keywords, Name, Type,
};

#[test]
fn bool_fields_accept_only_true_and_false() {
    assert_eq!(parse_bool("true"), Some(true));
    assert_eq!(parse_bool("false"), Some(false));
    assert_eq!(parse_bool("True"), None);
    assert_eq!(parse_bool(""), None);
    assert_eq!(Hidden::deserialize("true"), Some(Hidden(true)));
    assert_eq!(Hidden::deserialize("yes"), None);
}

#[test]
fn string_fields_are_unescaped() {
    assert_eq!(Name::deserialize("A\\sB"), Some(Name("A B".to_string())));
    assert_eq!(Exec::deserialize("x\\\\y"), Some(Exec("x\\y".to_string())));
}

#[test]
fn list_fields_are_split() {
    assert_eq!(
        Keywords::deserialize("a;b\\;c;"),
        Some(Keywords(vec!["a".to_string(), "b;c".to_string()]))
    );
}

#[test]
fn type_field_falls_back_to_unknown() {
    assert_eq!(Type::deserialize("Application"), Some(Type::Application));
    assert_eq!(Type::deserialize("Link"), Some(Type::Link));
    assert_eq!(Type::deserialize("Directory"), Some(Type::Directory));
    assert_eq!(Type::deserialize("Service"), Some(Type::Unknown("Service".to_string())));
}

#[test]
fn categories_decode_each_element() {
    assert_eq!(parse_category("Game"), Category::Game);
    assert_eq!(parse_category("Toys"), Category::Custom("Toys".to_string()));
    assert_eq!(
        Categories::deserialize("Utility;Development;X;"),
        Some(Categories(vec![
            Category::Utility,
            Category::Development,
            Category::Custom("X".to_string())
        ]))
    );
}

#[test]
fn field_names() {
    assert_eq!(Name::name(), "Name");
    assert_eq!(Categories::name(), "Categories");
    assert_eq!(Type::name(), "Type");
}
