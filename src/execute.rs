//! The `Exec` interpreter: splitting a command line into words and
//! substituting field codes, giving a program name and its arguments.
use vstd::prelude::*;
use vstd::string::StringExecFns;
use crate::codec::unescaped;
use crate::entries::{Exec, Icon, Name};
use crate::model::{first_group, lookup, DesktopEntry, DESKTOP_ENTRY_NAME};
use crate::text::{ascii_lower, chars_of};

verus! {

/// Why a command could not be built or run.
#[derive(Debug, Clone, Copy, PartialEq, Eq)]
pub enum Error {
    NoCommand,
    IncompleteEscape,
    IncompleteQuote,
    MultipleFileArgs,
    ExecuteFailed,
}

/// `p` put in front of a word that was read, or the error unchanged.
pub open spec fn prefix_word(p: Seq<char>, r: Result<Seq<char>, Error>) -> Result<Seq<char>, Error> {
    match r {
        Ok(w) => Ok(p + w),
        Err(e) => Err(e),
    }
}

/// Reads one word from the start of `s`, given whether an escape and a
/// quote are open. Gives the word (or the error at the end of the input)
/// and the input after the space that ended it.
pub open spec fn next_word(s: Seq<char>, escaping: bool, in_quotes: bool) -> (
    Result<Seq<char>, Error>,
    Seq<char>,
)
    decreases s.len(),
{
    if s.len() == 0 {
        if escaping {
            (Err(Error::IncompleteEscape), s)
        } else if in_quotes {
            (Err(Error::IncompleteQuote), s)
        } else {
            (Ok(seq![]), s)
        }
    } else {
        let c = s[0];
        let t = s.skip(1);
        if c == '"' && !escaping {
            next_word(t, escaping, !in_quotes)
        } else if c == '\\' && in_quotes {
            let (r, rest) = next_word(t, !escaping, in_quotes);
            if escaping {
                (prefix_word(seq!['\\'], r), rest)
            } else {
                (r, rest)
            }
        } else if c == ' ' && !in_quotes {
            (Ok(seq![]), t)
        } else {
            let (r, rest) = next_word(t, false, in_quotes);
            (prefix_word(seq![c], r), rest)
        }
    }
}

/// What follows a word is a proper suffix of the input.
pub proof fn lemma_next_word_rest(s: Seq<char>, escaping: bool, in_quotes: bool)
    ensures
        next_word(s, escaping, in_quotes).1.len() <= s.len(),
        s.len() > 0 ==> next_word(s, escaping, in_quotes).1.len() < s.len(),
        next_word(s, escaping, in_quotes).1 == s.skip(
            s.len() - next_word(s, escaping, in_quotes).1.len(),
        ),
        next_word(s, escaping, in_quotes).0 is Err ==> next_word(s, escaping, in_quotes).1.len()
            == 0,
    decreases s.len(),
{
    if s.len() == 0 {
        assert(s.skip(0) =~= s);
    } else {
        let t = s.skip(1);
        lemma_next_word_rest(t, false, in_quotes);
        lemma_next_word_rest(t, !escaping, in_quotes);
        lemma_next_word_rest(t, escaping, !in_quotes);
        let r1 = next_word(t, false, in_quotes).1;
        let r2 = next_word(t, !escaping, in_quotes).1;
        let r3 = next_word(t, escaping, !in_quotes).1;
        assert(t.skip(t.len() - r1.len()) =~= s.skip(s.len() - r1.len()));
        assert(t.skip(t.len() - r2.len()) =~= s.skip(s.len() - r2.len()));
        assert(t.skip(t.len() - r3.len()) =~= s.skip(s.len() - r3.len()));
        assert(t =~= s.skip(s.len() - t.len()));
    }
}

/// The words of a command line, in order, and the error that ended the
/// last one if it could not be completed.
pub open spec fn split_words(s: Seq<char>) -> (Seq<Seq<char>>, Option<Error>)
    decreases s.len(),
{
    if s.len() == 0 {
        (seq![], None)
    } else {
        let (r, rest) = next_word(s, false, false);
        match r {
            Err(e) => (seq![], Some(e)),
            Ok(w) => if rest.len() < s.len() {
                let (ws, e) = split_words(rest);
                (seq![w] + ws, e)
            } else {
                (seq![w], None)
            },
        }
    }
}

proof fn lemma_prefix_word_assoc(a: Seq<char>, b: Seq<char>, r: Result<Seq<char>, Error>)
    ensures
        prefix_word(a + b, r) == prefix_word(a, prefix_word(b, r)),
{
    if r is Ok {
        assert(a + b + r->Ok_0 =~= a + (b + r->Ok_0));
    }
}

/// Reads the word that starts at `start`.
fn read_word(cs: &Vec<char>, start: usize) -> (r: (Result<String, Error>, usize))
    requires
        start < cs@.len(),
    ensures
        start < r.1 <= cs@.len(),
        next_word(cs@.skip(start as int), false, false).1 == cs@.skip(r.1 as int),
        next_word(cs@.skip(start as int), false, false).0 == match r.0 {
            Ok(w) => Ok(w@),
            Err(e) => Err::<Seq<char>, Error>(e),
        },
{
    let n = cs.len();
    let mut result = String::new();
    let mut escaping = false;
    let mut in_quotes = false;
    let mut i: usize = start;
    let ghost whole = next_word(cs@.skip(start as int), false, false);
    while i < n
        invariant
            n == cs@.len(),
            start <= i <= n,
            whole == next_word(cs@.skip(start as int), false, false),
            whole.0 == prefix_word(result@, next_word(cs@.skip(i as int), escaping, in_quotes).0),
            whole.1 == next_word(cs@.skip(i as int), escaping, in_quotes).1,
        decreases n - i,
    {
        let ghost t = cs@.skip(i as int);
        let ghost before = result@;
        assert(t.skip(1) =~= cs@.skip(i + 1));
        let c = cs[i];
        if c == '"' && !escaping {
            assert(next_word(t, escaping, in_quotes) == next_word(t.skip(1), escaping, !in_quotes));
            in_quotes = !in_quotes;
        } else if c == '\\' && in_quotes {
            let ghost r1 = next_word(t.skip(1), !escaping, in_quotes);
            if escaping {
                assert(next_word(t, escaping, in_quotes) == (prefix_word(seq!['\\'], r1.0), r1.1));
                result.push('\\');
                assert(result@ =~= before + seq!['\\']);
                proof {
                    lemma_prefix_word_assoc(before, seq!['\\'], r1.0);
                }
            } else {
                assert(next_word(t, escaping, in_quotes) == r1);
            }
            escaping = !escaping;
        } else if c == ' ' && !in_quotes {
            assert(whole.0 == Ok::<Seq<char>, Error>(result@ + seq![]));
            assert(result@ + Seq::<char>::empty() =~= result@);
            return (Ok(result), i + 1);
        } else {
            let ghost r1 = next_word(t.skip(1), false, in_quotes);
            assert(next_word(t, escaping, in_quotes) == (prefix_word(seq![c], r1.0), r1.1));
            result.push(c);
            assert(result@ =~= before + seq![c]);
            escaping = false;
            proof {
                lemma_prefix_word_assoc(before, seq![c], next_word(t.skip(1), false, in_quotes).0);
            }
        }
        i = i + 1;
    }
    assert(cs@.skip(n as int) =~= Seq::<char>::empty());
    if escaping {
        (Err(Error::IncompleteEscape), n)
    } else if in_quotes {
        (Err(Error::IncompleteQuote), n)
    } else {
        assert(result@ + Seq::<char>::empty() =~= result@);
        (Ok(result), n)
    }
}

/// The words of a command line and the error that ended the last one, if
/// any.
fn command_words(command: &str) -> (r: (Vec<String>, Option<Error>))
    ensures
        split_words(command@) == (r.0.deep_view(), r.1),
{
    let cs = chars_of(command);
    let n = cs.len();
    let mut words: Vec<String> = Vec::new();
    let mut i: usize = 0;
    assert(cs@.skip(0) =~= cs@);
    while i < n
        invariant
            n == cs@.len(),
            cs@ == command@,
            i <= n,
            split_words(command@).0 == words.deep_view() + split_words(cs@.skip(i as int)).0,
            split_words(command@).1 == split_words(cs@.skip(i as int)).1,
        decreases n - i,
    {
        let ghost t = cs@.skip(i as int);
        proof {
            lemma_next_word_rest(t, false, false);
        }
        let (r, j) = read_word(&cs, i);
        match r {
            Ok(w) => {
                let ghost old_words = words.deep_view();
                words.push(w);
                assert(words.deep_view() =~= old_words.push(w@));
                assert(split_words(t).0 == seq![w@] + split_words(cs@.skip(j as int)).0);
                assert(words.deep_view() + split_words(cs@.skip(j as int)).0 =~= old_words
                    + split_words(t).0);
                i = j;
            },
            Err(e) => {
                assert(split_words(t) == (Seq::<Seq<char>>::empty(), Some(e)));
                assert(words.deep_view() + Seq::<Seq<char>>::empty() =~= words.deep_view());
                return (words, Some(e));
            },
        }
    }
    assert(cs@.skip(n as int) =~= Seq::<char>::empty());
    assert(words.deep_view() + Seq::<Seq<char>>::empty() =~= words.deep_view());
    (words, None)
}

/// Split a command line into words. Inside double quotes spaces do not
/// split and a backslash escapes the next character; every space outside
/// quotes ends a word, so two spaces in a row give an empty word.
pub fn split_command(command: &str) -> (r: Result<Vec<String>, Error>)
    ensures
        match split_words(command@).1 {
            None => r is Ok && r->Ok_0.deep_view() == split_words(command@).0,
            Some(e) => r == Err::<Vec<String>, Error>(e),
        },
{
    let (words, err) = command_words(command);
    match err {
        None => Ok(words),
        Some(e) => Err(e),
    }
}

/// What the field code `%x` expands to, given the first file argument, the
/// icon, the name and the path of the file. `%%` is a percent sign; an
/// unknown code stays as it is written.
pub open spec fn code_value(
    x: char,
    file: Seq<char>,
    icon: Seq<char>,
    name: Seq<char>,
    path: Seq<char>,
) -> Seq<char> {
    if x == 'f' || x == 'u' {
        file
    } else if x == 'i' {
        icon
    } else if x == 'c' {
        name
    } else if x == 'k' {
        path
    } else if x == '%' {
        seq!['%']
    } else {
        seq!['%', x]
    }
}

/// A word with each `%` and the character after it replaced by the code's
/// expansion, scanning left to right.
pub open spec fn substituted(
    s: Seq<char>,
    file: Seq<char>,
    icon: Seq<char>,
    name: Seq<char>,
    path: Seq<char>,
) -> Seq<char>
    decreases s.len(),
{
    if s.len() == 0 {
        seq![]
    } else if s[0] == '%' && s.len() >= 2 {
        code_value(s[1], file, icon, name, path) + substituted(s.skip(2), file, icon, name, path)
    } else {
        seq![s[0]] + substituted(s.skip(1), file, icon, name, path)
    }
}

/// Expand the field codes of one word of a command line.
pub fn expand_field_codes(word: &str, file: &str, icon: &str, name: &str, path: &str) -> (r:
    String)
    ensures
        r@ == substituted(word@, file@, icon@, name@, path@),
{
    let cs = chars_of(word);
    let n = cs.len();
    let mut out = String::new();
    let mut i: usize = 0;
    assert(word@.skip(0) =~= word@);
    while i < n
        invariant
            n == cs@.len(),
            cs@ == word@,
            i <= n,
            out@ + substituted(word@.skip(i as int), file@, icon@, name@, path@) == substituted(
                word@,
                file@,
                icon@,
                name@,
                path@,
            ),
        decreases n - i,
    {
        let ghost t = word@.skip(i as int);
        let ghost before = out@;
        if cs[i] == '%' && i + 1 < n {
            let x = cs[i + 1];
            if x == 'f' || x == 'u' {
                out.append(file);
            } else if x == 'i' {
                out.append(icon);
            } else if x == 'c' {
                out.append(name);
            } else if x == 'k' {
                out.append(path);
            } else if x == '%' {
                out.push('%');
            } else {
                out.push('%');
                out.push(x);
            }
            assert(t.skip(2) =~= word@.skip(i + 2));
            assert(out@ =~= before + code_value(x, file@, icon@, name@, path@));
            i = i + 2;
        } else {
            out.push(cs[i]);
            assert(t.skip(1) =~= word@.skip(i + 1));
            assert(out@ =~= before + seq![t[0]]);
            i = i + 1;
        }
        assert(out@ + substituted(word@.skip(i as int), file@, icon@, name@, path@) =~= substituted(
            word@,
            file@,
            icon@,
            name@,
            path@,
        ));
    }
    assert(word@.skip(n as int) =~= Seq::<char>::empty());
    assert(out@ + Seq::<char>::empty() =~= out@);
    out
}

/// Whether a word is the `%F` or `%U` code, which stands for all the file
/// arguments.
pub open spec fn is_file_list_code(w: Seq<char>) -> bool {
    w == seq!['%', 'F'] || w == seq!['%', 'U']
}

/// `p` put in front of an argument list, or the error unchanged.
pub open spec fn prefix_args(p: Seq<Seq<char>>, r: Result<Seq<Seq<char>>, Error>) -> Result<
    Seq<Seq<char>>,
    Error,
> {
    match r {
        Ok(a) => Ok(p + a),
        Err(e) => Err(e),
    }
}

/// The arguments built from the words after the program: `%F` or `%U`
/// stands for all of `files`, at most once; any other word has its field
/// codes expanded.
pub open spec fn assemble(
    ws: Seq<Seq<char>>,
    had_files: bool,
    files: Seq<Seq<char>>,
    file: Seq<char>,
    icon: Seq<char>,
    name: Seq<char>,
    path: Seq<char>,
) -> Result<Seq<Seq<char>>, Error>
    decreases ws.len(),
{
    if ws.len() == 0 {
        Ok(seq![])
    } else if is_file_list_code(ws[0]) {
        if had_files {
            Err(Error::MultipleFileArgs)
        } else {
            prefix_args(files, assemble(ws.skip(1), true, files, file, icon, name, path))
        }
    } else {
        prefix_args(
            seq![substituted(ws[0], file, icon, name, path)],
            assemble(ws.skip(1), had_files, files, file, icon, name, path),
        )
    }
}

/// The program and arguments a command line resolves to, or the first
/// error met reading it from left to right.
pub open spec fn resolve(
    command: Seq<char>,
    files: Seq<Seq<char>>,
    icon: Seq<char>,
    name: Seq<char>,
    path: Seq<char>,
) -> Result<(Seq<char>, Seq<Seq<char>>), Error> {
    let (ws, err) = split_words(command);
    let file = if files.len() > 0 {
        files[0]
    } else {
        seq![]
    };
    if ws.len() == 0 {
        match err {
            Some(e) => Err(e),
            None => Err(Error::NoCommand),
        }
    } else {
        match assemble(ws.skip(1), false, files, file, icon, name, path) {
            Err(e) => Err(e),
            Ok(args) => match err {
                Some(e) => Err(e),
                None => Ok((ws[0], args)),
            },
        }
    }
}

proof fn lemma_prefix_args_assoc(
    a: Seq<Seq<char>>,
    b: Seq<Seq<char>>,
    r: Result<Seq<Seq<char>>, Error>,
)
    ensures
        prefix_args(a + b, r) == prefix_args(a, prefix_args(b, r)),
{
    if r is Ok {
        assert(a + b + r->Ok_0 =~= a + (b + r->Ok_0));
    }
}

/// The value of a string field of the main group, decoded; empty when the
/// group or the key is missing.
pub open spec fn main_string_field(e: Seq<crate::model::GroupView>, key: Seq<char>) -> Seq<char> {
    match first_group(e, DESKTOP_ENTRY_NAME@) {
        None => seq![],
        Some(g) => match lookup(g.entries, ascii_lower(key)) {
            None => seq![],
            Some(raw) => unescaped(raw),
        },
    }
}

/// A program name and the arguments to start it with.
#[derive(Debug, Clone, PartialEq, Eq)]
pub struct ResolvedCommand {
    pub program: String,
    pub arguments: Vec<String>,
}

impl View for ResolvedCommand {
    type V = (Seq<char>, Seq<Seq<char>>);

    open spec fn view(&self) -> (Seq<char>, Seq<Seq<char>>) {
        (self.program@, self.arguments.deep_view())
    }
}

/// What a command line is resolved against: the entry it comes from, the
/// path of its file if known, and the files or URLs to open.
#[derive(Clone)]
pub struct ExecContext<'a> {
    /// The Desktop Entry that is being executed
    pub source: &'a DesktopEntry,
    /// The path (or uri) to the desktop file
    pub source_path: Option<String>,
    /// A list of files (or uris) to pass to the command
    pub args: &'a [String],
}

/// A string option as characters, empty when absent.
pub open spec fn text_or_empty(o: Option<String>) -> Seq<char> {
    match o {
        Some(s) => s@,
        None => seq![],
    }
}

/// Resolve a command line against a context: the first word is the
/// program, and the other words become its arguments.
pub fn parse_command(command: &str, context: &ExecContext) -> (r: Result<ResolvedCommand, Error>)
    ensures
        match resolve(
            command@,
            context.args@.map_values(|a: String| a@),
            main_string_field(context.source@, "Icon"@),
            main_string_field(context.source@, "Name"@),
            text_or_empty(context.source_path),
        ) {
            Ok(v) => r is Ok && r->Ok_0@ == v,
            Err(e) => r == Err::<ResolvedCommand, Error>(e),
        },
{
    let ghost files = context.args@.map_values(|a: String| a@);
    proof {
        reveal_strlit("");
    }
    let file = if context.args.len() > 0 {
        context.args[0].as_str()
    } else {
        ""
    };
    assert(files.len() > 0 ==> files[0] == context.args@[0]@);
    assert(file@ == (if files.len() > 0 { files[0] } else { Seq::<char>::empty() }));
    let icon_field = context.source.get::<Icon>();
    let icon = match &icon_field {
        Some(x) => x.0.as_str(),
        None => "",
    };
    assert(icon@ == main_string_field(context.source@, "Icon"@));
    let name_field = context.source.get::<Name>();
    let name = match &name_field {
        Some(x) => x.0.as_str(),
        None => "",
    };
    assert(name@ == main_string_field(context.source@, "Name"@));
    let path = match &context.source_path {
        Some(p) => p.as_str(),
        None => "",
    };
    let (words, err) = command_words(command);
    if words.len() == 0 {
        return match err {
            Some(e) => Err(e),
            None => Err(Error::NoCommand),
        };
    }
    let ghost ws = words.deep_view();
    let ghost whole = assemble(ws.skip(1), false, files, file@, icon@, name@, path@);
    let mut arguments: Vec<String> = Vec::new();
    let mut had_files = false;
    let mut j: usize = 1;
    while j < words.len()
        invariant
            ws == words.deep_view(),
            split_words(command@) == (ws, err),
            file@ == (if files.len() > 0 { files[0] } else { Seq::<char>::empty() }),
            icon@ == main_string_field(context.source@, "Icon"@),
            name@ == main_string_field(context.source@, "Name"@),
            path@ == text_or_empty(context.source_path),
            1 <= j <= ws.len(),
            files == context.args@.map_values(|a: String| a@),
            whole == assemble(ws.skip(1), false, files, file@, icon@, name@, path@),
            whole == prefix_args(
                arguments.deep_view(),
                assemble(ws.skip(j as int), had_files, files, file@, icon@, name@, path@),
            ),
        decreases ws.len() - j,
    {
        let ghost t = ws.skip(j as int);
        let ghost before = arguments.deep_view();
        assert(t.skip(1) =~= ws.skip(j + 1));
        assert(t[0] == words@[j as int]@);
        let w = words[j].as_str();
        let wc = chars_of(w);
        let is_files = wc.len() == 2 && wc[0] == '%' && (wc[1] == 'F' || wc[1] == 'U');
        assert(is_files == is_file_list_code(t[0])) by {
            if wc@.len() == 2 {
                assert(seq!['%', 'F'].len() == 2);
                assert(is_files ==> (t[0] =~= seq!['%', 'F'] || t[0] =~= seq!['%', 'U']));
            }
        }
        if is_files {
            if had_files {
                return Err(Error::MultipleFileArgs);
            }
            let mut k: usize = 0;
            while k < context.args.len()
                invariant
                    k <= context.args@.len(),
                    files == context.args@.map_values(|a: String| a@),
                    arguments.deep_view() == before + files.take(k as int),
                decreases context.args@.len() - k,
            {
                let ghost b2 = arguments.deep_view();
                arguments.push(context.args[k].clone());
                assert(arguments.deep_view() =~= b2.push(files[k as int]));
                assert(files.take(k + 1) =~= files.take(k as int).push(files[k as int]));
                k = k + 1;
            }
            assert(files.take(files.len() as int) =~= files);
            proof {
                lemma_prefix_args_assoc(
                    before,
                    files,
                    assemble(ws.skip(j + 1), true, files, file@, icon@, name@, path@),
                );
            }
            had_files = true;
        } else {
            let a = expand_field_codes(w, file, icon, name, path);
            let ghost av = a@;
            arguments.push(a);
            assert(arguments.deep_view() =~= before + seq![av]);
            proof {
                lemma_prefix_args_assoc(
                    before,
                    seq![av],
                    assemble(ws.skip(j + 1), had_files, files, file@, icon@, name@, path@),
                );
            }
        }
        j = j + 1;
    }
    assert(assemble(ws.skip(j as int), had_files, files, file@, icon@, name@, path@) == Ok::<
        Seq<Seq<char>>,
        Error,
    >(seq![]));
    assert(arguments.deep_view() + Seq::<Seq<char>>::empty() =~= arguments.deep_view());
    match err {
        Some(e) => Err(e),
        None => {
            assert(ws[0] == words@[0]@);
            Ok(ResolvedCommand { program: words[0].clone(), arguments })
        },
    }
}

proof fn lemma_assemble_second_file_list(
    ws: Seq<Seq<char>>,
    had_files: bool,
    files: Seq<Seq<char>>,
    file: Seq<char>,
    icon: Seq<char>,
    name: Seq<char>,
    path: Seq<char>,
    a: int,
    b: int,
)
    requires
        0 <= a < b < ws.len() || (had_files && 0 <= b < ws.len()),
        a < b ==> is_file_list_code(ws[a]),
        is_file_list_code(ws[b]),
    ensures
        assemble(ws, had_files, files, file, icon, name, path) == Err::<Seq<Seq<char>>, Error>(
            Error::MultipleFileArgs,
        ),
    decreases ws.len(),
{
    let t = ws.skip(1);
    if is_file_list_code(ws[0]) {
        if !had_files {
            if a == 0 && a < b {
                lemma_assemble_second_file_list(t, true, files, file, icon, name, path, b - 1, b - 1);
            } else if a < b {
                lemma_assemble_second_file_list(t, true, files, file, icon, name, path, a - 1, b - 1);
            } else {
                lemma_assemble_second_file_list(t, true, files, file, icon, name, path, b - 1, b - 1);
            }
        }
    } else {
        if 0 <= a < b {
            lemma_assemble_second_file_list(t, had_files, files, file, icon, name, path, a - 1, b - 1);
        } else {
            lemma_assemble_second_file_list(t, had_files, files, file, icon, name, path, b - 1, b - 1);
        }
    }
}

/// A command line that names `%F` or `%U` twice among the arguments
/// resolves to `MultipleFileArgs`, whatever the files, icon, name and path.
pub proof fn lemma_multiple_file_lists(
    command: Seq<char>,
    files: Seq<Seq<char>>,
    icon: Seq<char>,
    name: Seq<char>,
    path: Seq<char>,
    a: int,
    b: int,
)
    requires
        1 <= a < b < split_words(command).0.len(),
        is_file_list_code(split_words(command).0[a]),
        is_file_list_code(split_words(command).0[b]),
    ensures
        resolve(command, files, icon, name, path) == Err::<(Seq<char>, Seq<Seq<char>>), Error>(
            Error::MultipleFileArgs,
        ),
{
    let ws = split_words(command).0;
    let file = if files.len() > 0 {
        files[0]
    } else {
        seq![]
    };
    lemma_assemble_second_file_list(ws.skip(1), false, files, file, icon, name, path, a - 1, b - 1);
}

/// The raw value stored under `key` in the main group, if any.
pub open spec fn main_raw_field(e: Seq<crate::model::GroupView>, key: Seq<char>) -> Option<Seq<char>> {
    match first_group(e, DESKTOP_ENTRY_NAME@) {
        None => None,
        Some(g) => lookup(g.entries, ascii_lower(key)),
    }
}

/// The command an entry is launched with, resolved and ready to start.
pub struct CommandExecutor {
    command: ResolvedCommand,
}

impl CommandExecutor {
    /// Resolve the `Exec` field of `entry` with the given files and path.
    /// An entry without `Exec` gives `NoCommand`.
    pub fn new(entry: &DesktopEntry, args: &[String], path: Option<String>) -> (r: Result<
        CommandExecutor,
        Error,
    >)
        ensures
            match main_raw_field(entry@, "Exec"@) {
                None => r == Err::<CommandExecutor, Error>(Error::NoCommand),
                Some(raw) => match resolve(
                    unescaped(raw),
                    args@.map_values(|a: String| a@),
                    main_string_field(entry@, "Icon"@),
                    main_string_field(entry@, "Name"@),
                    text_or_empty(path),
                ) {
                    Ok(v) => r is Ok && r->Ok_0.command()@ == v,
                    Err(e) => r is Err && r->Err_0 == e,
                },
            },
    {
        let exec_str = match entry.get::<Exec>() {
            Some(x) => x.0,
            None => {
                return Err(Error::NoCommand);
            },
        };
        let context = ExecContext { source: entry, source_path: path, args };
        match parse_command(exec_str.as_str(), &context) {
            Ok(command) => Ok(CommandExecutor { command }),
            Err(e) => Err(e),
        }
    }

    /// The resolved command.
    pub closed spec fn command(&self) -> ResolvedCommand {
        self.command
    }

    /// The resolved command.
    pub fn resolved(&self) -> (r: &ResolvedCommand)
        ensures
            *r == self.command(),
    {
        &self.command
    }
}

} // verus!
