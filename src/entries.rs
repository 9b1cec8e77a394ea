//! Typed fields of a desktop entry. Each field type knows the key it is
//! stored under and how its raw value decodes.
use vstd::prelude::*;
use crate::codec::{split_value_str, split_values, unescape_value, unescaped};
use crate::text::same_text;

verus! {

/// A field of a desktop entry: the key it is stored under and the rule that
/// decodes its raw value.
pub trait Entry: Sized {
    /// The key of the field, as it is written in files.
    spec fn key() -> Seq<char>;

    /// Whether `r` is what the raw value `raw` decodes to.
    spec fn decodes(raw: Seq<char>, r: Option<Self>) -> bool;

    /// The name of the field
    fn name() -> (r: &'static str)
        ensures
            r@ == Self::key(),
    ;

    /// Deserialize an entry value from a string.
    fn deserialize(v: &str) -> (r: Option<Self>)
        ensures
            Self::decodes(v@, r),
    ;
}

/// The boolean a raw value stands for: exactly `true` or `false`.
pub open spec fn bool_of(raw: Seq<char>) -> Option<bool> {
    if raw == "true"@ {
        Some(true)
    } else if raw == "false"@ {
        Some(false)
    } else {
        None
    }
}

/// Parse a boolean value; anything but `true` and `false` is refused.
pub fn parse_bool(v: &str) -> (r: Option<bool>)
    ensures
        r == bool_of(v@),
{
    if same_text(v, "true") {
        Some(true)
    } else if same_text(v, "false") {
        Some(false)
    } else {
        None
    }
}

/// Decode a list value into its elements.
pub fn split_list(v: &str) -> (r: Vec<String>)
    ensures
        r.deep_view() == split_values(v@),
{
    split_value_str(v).into_vec()
}

/// The type of the desktop entry.
#[derive(Debug, Clone, PartialEq, Eq)]
pub enum Type {
    Application,
    Link,
    Directory,
    Unknown(String),
}

/// The text a `Type` is written as.
pub open spec fn type_text(t: Type) -> Seq<char> {
    match t {
        Type::Application => "Application"@,
        Type::Link => "Link"@,
        Type::Directory => "Directory"@,
        Type::Unknown(s) => s@,
    }
}

/// Whether a raw value names one of the known types.
pub open spec fn is_known_type(raw: Seq<char>) -> bool {
    raw == "Application"@ || raw == "Link"@ || raw == "Directory"@
}

impl Entry for Type {
    open spec fn key() -> Seq<char> {
        "Type"@
    }

    open spec fn decodes(raw: Seq<char>, r: Option<Self>) -> bool {
        &&& r is Some
        &&& type_text(r->0) == raw
        &&& (r->0 is Unknown <==> !is_known_type(raw))
    }

    fn name() -> (r: &'static str) {
        "Type"
    }

    fn deserialize(v: &str) -> (r: Option<Self>) {
        let t = if same_text(v, "Application") {
            Type::Application
        } else if same_text(v, "Link") {
            Type::Link
        } else if same_text(v, "Directory") {
            Type::Directory
        } else {
            Type::Unknown(v.to_owned())
        };
        Some(t)
    }
}

/// A main category of an application.
#[derive(Debug, Clone, PartialEq, Eq)]
pub enum Category {
    AudioVideo,
    Audio,
    Video,
    Development,
    Education,
    Game,
    Graphics,
    Network,
    Office,
    Science,
    Settings,
    System,
    Utility,
    Custom(String),
}

/// The text a `Category` is written as.
pub open spec fn category_text(c: Category) -> Seq<char> {
    match c {
        Category::AudioVideo => "AudioVideo"@,
        Category::Audio => "Audio"@,
        Category::Video => "Video"@,
        Category::Development => "Development"@,
        Category::Education => "Education"@,
        Category::Game => "Game"@,
        Category::Graphics => "Graphics"@,
        Category::Network => "Network"@,
        Category::Office => "Office"@,
        Category::Science => "Science"@,
        Category::Settings => "Settings"@,
        Category::System => "System"@,
        Category::Utility => "Utility"@,
        Category::Custom(s) => s@,
    }
}

/// Whether a raw value names one of the known categories.
pub open spec fn is_known_category(raw: Seq<char>) -> bool {
    raw == "AudioVideo"@
    || raw == "Audio"@
    || raw == "Video"@
    || raw == "Development"@
    || raw == "Education"@
    || raw == "Game"@
    || raw == "Graphics"@
    || raw == "Network"@
    || raw == "Office"@
    || raw == "Science"@
    || raw == "Settings"@
    || raw == "System"@
    || raw == "Utility"@
}

/// Whether `c` is what the list element `raw` decodes to.
pub open spec fn category_decodes(raw: Seq<char>, c: Category) -> bool {
    category_text(c) == raw && (c is Custom <==> !is_known_category(raw))
}

/// Decode one category; unknown names become `Custom`.
pub fn parse_category(v: &str) -> (r: Category)
    ensures
        category_decodes(v@, r),
{
    if same_text(v, "AudioVideo") {
        Category::AudioVideo
    } else if same_text(v, "Audio") {
        Category::Audio
    } else if same_text(v, "Video") {
        Category::Video
    } else if same_text(v, "Development") {
        Category::Development
    } else if same_text(v, "Education") {
        Category::Education
    } else if same_text(v, "Game") {
        Category::Game
    } else if same_text(v, "Graphics") {
        Category::Graphics
    } else if same_text(v, "Network") {
        Category::Network
    } else if same_text(v, "Office") {
        Category::Office
    } else if same_text(v, "Science") {
        Category::Science
    } else if same_text(v, "Settings") {
        Category::Settings
    } else if same_text(v, "System") {
        Category::System
    } else if same_text(v, "Utility") {
        Category::Utility
    } else {
        Category::Custom(v.to_owned())
    }
}

/// The categories an application is listed under.
#[derive(Debug, Clone, PartialEq, Eq)]
pub struct Categories(pub Vec<Category>);

impl Entry for Categories {
    open spec fn key() -> Seq<char> {
        "Categories"@
    }

    open spec fn decodes(raw: Seq<char>, r: Option<Self>) -> bool {
        &&& r is Some
        &&& (r->0).0@.len() == split_values(raw).len()
        &&& forall|i: int|
            0 <= i < split_values(raw).len() ==> category_decodes(
                #[trigger] split_values(raw)[i],
                (r->0).0@[i],
            )
    }

    fn name() -> (r: &'static str) {
        "Categories"
    }

    fn deserialize(v: &str) -> (r: Option<Self>) {
        let items = split_list(v);
        let mut cats: Vec<Category> = Vec::new();
        let mut i: usize = 0;
        while i < items.len()
            invariant
                items.deep_view() == split_values(v@),
                i <= items@.len(),
                cats@.len() == i,
                forall|j: int| 0 <= j < i ==> category_decodes(split_values(v@)[j], cats@[j]),
            decreases items@.len() - i,
        {
            let c = parse_category(items[i].as_str());
            assert(items.deep_view()[i as int] == items@[i as int]@);
            cats.push(c);
            i = i + 1;
        }
        Some(Categories(cats))
    }
}

/// The `Version` field, a string.
#[derive(Debug, Clone, PartialEq, Eq)]
pub struct Version(pub String);

impl Entry for Version {
    open spec fn key() -> Seq<char> {
        "Version"@
    }

    open spec fn decodes(raw: Seq<char>, r: Option<Self>) -> bool {
        r is Some && (r->0).0@ == unescaped(raw)
    }

    fn name() -> (r: &'static str) {
        "Version"
    }

    fn deserialize(v: &str) -> (r: Option<Self>) {
        Some(Version(unescape_value(v)))
    }
}

/// The `Name` field, a string.
#[derive(Debug, Clone, PartialEq, Eq)]
pub struct Name(pub String);

impl Entry for Name {
    open spec fn key() -> Seq<char> {
        "Name"@
    }

    open spec fn decodes(raw: Seq<char>, r: Option<Self>) -> bool {
        r is Some && (r->0).0@ == unescaped(raw)
    }

    fn name() -> (r: &'static str) {
        "Name"
    }

    fn deserialize(v: &str) -> (r: Option<Self>) {
        Some(Name(unescape_value(v)))
    }
}

/// The `GenericName` field, a string.
#[derive(Debug, Clone, PartialEq, Eq)]
pub struct GenericName(pub String);

impl Entry for GenericName {
    open spec fn key() -> Seq<char> {
        "GenericName"@
    }

    open spec fn decodes(raw: Seq<char>, r: Option<Self>) -> bool {
        r is Some && (r->0).0@ == unescaped(raw)
    }

    fn name() -> (r: &'static str) {
        "GenericName"
    }

    fn deserialize(v: &str) -> (r: Option<Self>) {
        Some(GenericName(unescape_value(v)))
    }
}

/// The `NoDisplay` field, a boolean.
#[derive(Debug, Clone, Copy, PartialEq, Eq)]
pub struct NoDisplay(pub bool);

impl Entry for NoDisplay {
    open spec fn key() -> Seq<char> {
        "NoDisplay"@
    }

    open spec fn decodes(raw: Seq<char>, r: Option<Self>) -> bool {
        r == match bool_of(raw) {
            Some(b) => Some(NoDisplay(b)),
            None => None,
        }
    }

    fn name() -> (r: &'static str) {
        "NoDisplay"
    }

    fn deserialize(v: &str) -> (r: Option<Self>) {
        match parse_bool(v) {
            Some(b) => Some(NoDisplay(b)),
            None => None,
        }
    }
}

/// The `Comment` field, a string.
#[derive(Debug, Clone, PartialEq, Eq)]
pub struct Comment(pub String);

impl Entry for Comment {
    open spec fn key() -> Seq<char> {
        "Comment"@
    }

    open spec fn decodes(raw: Seq<char>, r: Option<Self>) -> bool {
        r is Some && (r->0).0@ == unescaped(raw)
    }

    fn name() -> (r: &'static str) {
        "Comment"
    }

    fn deserialize(v: &str) -> (r: Option<Self>) {
        Some(Comment(unescape_value(v)))
    }
}

/// The `Icon` field, a string.
#[derive(Debug, Clone, PartialEq, Eq)]
pub struct Icon(pub String);

impl Entry for Icon {
    open spec fn key() -> Seq<char> {
        "Icon"@
    }

    open spec fn decodes(raw: Seq<char>, r: Option<Self>) -> bool {
        r is Some && (r->0).0@ == unescaped(raw)
    }

    fn name() -> (r: &'static str) {
        "Icon"
    }

    fn deserialize(v: &str) -> (r: Option<Self>) {
        Some(Icon(unescape_value(v)))
    }
}

/// The `Hidden` field, a boolean.
#[derive(Debug, Clone, Copy, PartialEq, Eq)]
pub struct Hidden(pub bool);

impl Entry for Hidden {
    open spec fn key() -> Seq<char> {
        "Hidden"@
    }

    open spec fn decodes(raw: Seq<char>, r: Option<Self>) -> bool {
        r == match bool_of(raw) {
            Some(b) => Some(Hidden(b)),
            None => None,
        }
    }

    fn name() -> (r: &'static str) {
        "Hidden"
    }

    fn deserialize(v: &str) -> (r: Option<Self>) {
        match parse_bool(v) {
            Some(b) => Some(Hidden(b)),
            None => None,
        }
    }
}

/// The `OnlyShowIn` field, a list of strings.
#[derive(Debug, Clone, PartialEq, Eq)]
pub struct OnlyShowIn(pub Vec<String>);

impl Entry for OnlyShowIn {
    open spec fn key() -> Seq<char> {
        "OnlyShowIn"@
    }

    open spec fn decodes(raw: Seq<char>, r: Option<Self>) -> bool {
        r is Some && (r->0).0.deep_view() == split_values(raw)
    }

    fn name() -> (r: &'static str) {
        "OnlyShowIn"
    }

    fn deserialize(v: &str) -> (r: Option<Self>) {
        Some(OnlyShowIn(split_list(v)))
    }
}

/// The `NotShowIn` field, a list of strings.
#[derive(Debug, Clone, PartialEq, Eq)]
pub struct NotShowIn(pub Vec<String>);

impl Entry for NotShowIn {
    open spec fn key() -> Seq<char> {
        "NotShowIn"@
    }

    open spec fn decodes(raw: Seq<char>, r: Option<Self>) -> bool {
        r is Some && (r->0).0.deep_view() == split_values(raw)
    }

    fn name() -> (r: &'static str) {
        "NotShowIn"
    }

    fn deserialize(v: &str) -> (r: Option<Self>) {
        Some(NotShowIn(split_list(v)))
    }
}

/// The `DBusActivatable` field, a boolean.
#[derive(Debug, Clone, Copy, PartialEq, Eq)]
pub struct DBusActivatable(pub bool);

impl Entry for DBusActivatable {
    open spec fn key() -> Seq<char> {
        "DBusActivatable"@
    }

    open spec fn decodes(raw: Seq<char>, r: Option<Self>) -> bool {
        r == match bool_of(raw) {
            Some(b) => Some(DBusActivatable(b)),
            None => None,
        }
    }

    fn name() -> (r: &'static str) {
        "DBusActivatable"
    }

    fn deserialize(v: &str) -> (r: Option<Self>) {
        match parse_bool(v) {
            Some(b) => Some(DBusActivatable(b)),
            None => None,
        }
    }
}

/// The `TryExec` field, a string.
#[derive(Debug, Clone, PartialEq, Eq)]
pub struct TryExec(pub String);

impl Entry for TryExec {
    open spec fn key() -> Seq<char> {
        "TryExec"@
    }

    open spec fn decodes(raw: Seq<char>, r: Option<Self>) -> bool {
        r is Some && (r->0).0@ == unescaped(raw)
    }

    fn name() -> (r: &'static str) {
        "TryExec"
    }

    fn deserialize(v: &str) -> (r: Option<Self>) {
        Some(TryExec(unescape_value(v)))
    }
}

/// The `Exec` field, a string.
#[derive(Debug, Clone, PartialEq, Eq)]
pub struct Exec(pub String);

impl Entry for Exec {
    open spec fn key() -> Seq<char> {
        "Exec"@
    }

    open spec fn decodes(raw: Seq<char>, r: Option<Self>) -> bool {
        r is Some && (r->0).0@ == unescaped(raw)
    }

    fn name() -> (r: &'static str) {
        "Exec"
    }

    fn deserialize(v: &str) -> (r: Option<Self>) {
        Some(Exec(unescape_value(v)))
    }
}

/// The `Path` field, a string.
#[derive(Debug, Clone, PartialEq, Eq)]
pub struct Path(pub String);

impl Entry for Path {
    open spec fn key() -> Seq<char> {
        "Path"@
    }

    open spec fn decodes(raw: Seq<char>, r: Option<Self>) -> bool {
        r is Some && (r->0).0@ == unescaped(raw)
    }

    fn name() -> (r: &'static str) {
        "Path"
    }

    fn deserialize(v: &str) -> (r: Option<Self>) {
        Some(Path(unescape_value(v)))
    }
}

/// The `Terminal` field, a boolean.
#[derive(Debug, Clone, Copy, PartialEq, Eq)]
pub struct Terminal(pub bool);

impl Entry for Terminal {
    open spec fn key() -> Seq<char> {
        "Terminal"@
    }

    open spec fn decodes(raw: Seq<char>, r: Option<Self>) -> bool {
        r == match bool_of(raw) {
            Some(b) => Some(Terminal(b)),
            None => None,
        }
    }

    fn name() -> (r: &'static str) {
        "Terminal"
    }

    fn deserialize(v: &str) -> (r: Option<Self>) {
        match parse_bool(v) {
            Some(b) => Some(Terminal(b)),
            None => None,
        }
    }
}

/// The `Actions` field, a list of strings.
#[derive(Debug, Clone, PartialEq, Eq)]
pub struct Actions(pub Vec<String>);

impl Entry for Actions {
    open spec fn key() -> Seq<char> {
        "Actions"@
    }

    open spec fn decodes(raw: Seq<char>, r: Option<Self>) -> bool {
        r is Some && (r->0).0.deep_view() == split_values(raw)
    }

    fn name() -> (r: &'static str) {
        "Actions"
    }

    fn deserialize(v: &str) -> (r: Option<Self>) {
        Some(Actions(split_list(v)))
    }
}

/// The `MimeType` field, a list of strings.
#[derive(Debug, Clone, PartialEq, Eq)]
pub struct MimeType(pub Vec<String>);

impl Entry for MimeType {
    open spec fn key() -> Seq<char> {
        "MimeType"@
    }

    open spec fn decodes(raw: Seq<char>, r: Option<Self>) -> bool {
        r is Some && (r->0).0.deep_view() == split_values(raw)
    }

    fn name() -> (r: &'static str) {
        "MimeType"
    }

    fn deserialize(v: &str) -> (r: Option<Self>) {
        Some(MimeType(split_list(v)))
    }
}

/// The `Implements` field, a list of strings.
#[derive(Debug, Clone, PartialEq, Eq)]
pub struct Implements(pub Vec<String>);

impl Entry for Implements {
    open spec fn key() -> Seq<char> {
        "Implements"@
    }

    open spec fn decodes(raw: Seq<char>, r: Option<Self>) -> bool {
        r is Some && (r->0).0.deep_view() == split_values(raw)
    }

    fn name() -> (r: &'static str) {
        "Implements"
    }

    fn deserialize(v: &str) -> (r: Option<Self>) {
        Some(Implements(split_list(v)))
    }
}

/// The `Keywords` field, a list of strings.
#[derive(Debug, Clone, PartialEq, Eq)]
pub struct Keywords(pub Vec<String>);

impl Entry for Keywords {
    open spec fn key() -> Seq<char> {
        "Keywords"@
    }

    open spec fn decodes(raw: Seq<char>, r: Option<Self>) -> bool {
        r is Some && (r->0).0.deep_view() == split_values(raw)
    }

    fn name() -> (r: &'static str) {
        "Keywords"
    }

    fn deserialize(v: &str) -> (r: Option<Self>) {
        Some(Keywords(split_list(v)))
    }
}

/// The `StartupNotify` field, a boolean.
#[derive(Debug, Clone, Copy, PartialEq, Eq)]
pub struct StartupNotify(pub bool);

impl Entry for StartupNotify {
    open spec fn key() -> Seq<char> {
        "StartupNotify"@
    }

    open spec fn decodes(raw: Seq<char>, r: Option<Self>) -> bool {
        r == match bool_of(raw) {
            Some(b) => Some(StartupNotify(b)),
            None => None,
        }
    }

    fn name() -> (r: &'static str) {
        "StartupNotify"
    }

    fn deserialize(v: &str) -> (r: Option<Self>) {
        match parse_bool(v) {
            Some(b) => Some(StartupNotify(b)),
            None => None,
        }
    }
}

/// The `StartupWMClass` field, a string.
#[derive(Debug, Clone, PartialEq, Eq)]
pub struct StartupWMClass(pub String);

impl Entry for StartupWMClass {
    open spec fn key() -> Seq<char> {
        "StartupWMClass"@
    }

    open spec fn decodes(raw: Seq<char>, r: Option<Self>) -> bool {
        r is Some && (r->0).0@ == unescaped(raw)
    }

    fn name() -> (r: &'static str) {
        "StartupWMClass"
    }

    fn deserialize(v: &str) -> (r: Option<Self>) {
        Some(StartupWMClass(unescape_value(v)))
    }
}

/// The `URL` field, a string.
#[derive(Debug, Clone, PartialEq, Eq)]
pub struct URL(pub String);

impl Entry for URL {
    open spec fn key() -> Seq<char> {
        "URL"@
    }

    open spec fn decodes(raw: Seq<char>, r: Option<Self>) -> bool {
        r is Some && (r->0).0@ == unescaped(raw)
    }

    fn name() -> (r: &'static str) {
        "URL"
    }

    fn deserialize(v: &str) -> (r: Option<Self>) {
        Some(URL(unescape_value(v)))
    }
}

} // verus!
