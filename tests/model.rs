use desktop_entry::entries::{Comment, Name, Terminal};
use desktop_entry::model::{DesktopEntry, Group};

fn pairs(v: &[(&str, &str)]) -> Vec<(String, String)> {
    v.iter().map(|(k, x)| (k.to_string(), x.to_string())).collect()
}

fn sample() -> DesktopEntry {
    DesktopEntry::new(vec![
        Group::new(
            "Desktop Entry".to_string(),
            pairs(&[("name", "App"), ("comment[de]", "Zeug"), ("terminal", "maybe")]),
        ),
        Group::new("Desktop Action new".to_string(), pairs(&[("name", "New")])),
        Group::new("Desktop Entry".to_string(), pairs(&[("name", "Second")])),
    ])
}

#[test]
fn group_lookup_takes_the_first_match() {
    let doc = sample();
    assert_eq!(doc.groups().len(), 3);
    assert_eq!(doc.main_group().unwrap().get_raw("Name"), Some("App"));
    assert_eq!(doc.action_group("new").unwrap().get_raw("NAME"), Some("New"));
    assert!(doc.action_group("old").is_none());
    assert!(doc.group("desktop entry").is_none());
}

#[test]
fn typed_lookup() {
    let doc = sample();
    assert_eq!(doc.get::<Name>(), Some(Name("App".to_string())));
    assert_eq!(doc.get::<Terminal>(), None);
    assert_eq!(doc.get::<Comment>(), None);
    let g = doc.main_group().unwrap();
    assert_eq!(g.get_localized::<Comment>("de"), Some(Comment("Zeug".to_string())));
    assert_eq!(g.get_localized::<Comment>("fr"), None);
}

#[test]
fn new_group_keeps_last_write() {
    let g = Group::new("G".to_string(), pairs(&[("a", "1"), ("b", "2"), ("a", "3")]));
    assert_eq!(g.values(), &pairs(&[("a", "3"), ("b", "2")]));
    assert_eq!(g.get_raw("A"), Some("3"));
}
