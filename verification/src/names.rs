//! Names of files: what comes before and after the dot, and the texts that users type for paths.

use vstd::prelude::*;

use crate::text::{
    begins_with,
    chars_of,
    cut_ends,
    cut_start,
    ascii_lowered,
    pieces,
    replace,
    replaced,
    same_ignoring_case,
    same_text,
    split,
    string_of,
    strip_prefix,
    texts,
    trim,
    trim_of,
    trim_start_of,
    trimmed,
    CharClass,
};
use crate::xml::text_of;

verus! {

/// The place of the last dot of a file name that something stands before, where there is one.
pub open spec fn dot_place(name: Seq<char>) -> Option<int>
    decreases name.len(),
{
    if name.len() <= 1 {
        None
    } else if name.last() == '.' {
        Some(name.len() - 1)
    } else {
        dot_place(name.drop_last())
    }
}

/// What a file name says before its last dot. A name without a dot, or with one at its start
/// alone, is all stem.
pub open spec fn stem_of(name: Seq<char>) -> Seq<char> {
    match dot_place(name) {
        Some(i) if name != ".."@ => name.take(i),
        _ => name,
    }
}

/// What a file name says behind its last dot, where it has a stem before it.
pub open spec fn extension_of(name: Seq<char>) -> Option<Seq<char>> {
    match dot_place(name) {
        Some(i) if name != ".."@ => Some(name.skip(i + 1)),
        _ => None,
    }
}

pub proof fn lemma_dot_place(name: Seq<char>)
    ensures
        dot_place(name) matches Some(i) ==> 0 < i < name.len() && name[i] == '.',
        forall|k: int|
            0 < k < name.len() && #[trigger] name[k] == '.' ==> (dot_place(name) matches Some(i)
                && k <= i),
    decreases name.len(),
{
    if name.len() > 1 && name.last() != '.' {
        lemma_dot_place(name.drop_last());
        assert forall|k: int| 0 < k < name.len() && #[trigger] name[k] == '.' implies (dot_place(
            name,
        ) matches Some(i) && k <= i) by {
            assert(name.drop_last()[k] == '.');
        }
    }
}

fn find_dot(name: &str, chars: &Vec<char>) -> (r: Option<usize>)
    requires
        chars@ == name@,
    ensures
        r matches Some(i) ==> name@ != ".."@ && dot_place(name@) == Some(i as int) && 0 < i
            < name@.len(),
        r is None ==> name@ == ".."@ || dot_place(name@) is None,
{
    if same_text(name, "..") {
        return None;
    }
    let mut n: usize = chars.len();
    assert(chars@.take(n as int) == chars@);
    while n > 1
        invariant
            n <= chars@.len(),
            dot_place(chars@) == dot_place(chars@.take(n as int)),
            chars@ == name@,
            name@ != ".."@,
        decreases n,
    {
        assert(chars@.take(n as int).drop_last() == chars@.take(n - 1));
        if chars[n - 1] == '.' {
            return Some(n - 1);
        }
        n = n - 1;
    }
    None
}

/// The stem of a file name.
pub fn file_stem(name: &str) -> (r: String)
    ensures
        r@ == stem_of(name@),
{
    let chars = chars_of(name);
    match find_dot(name, &chars) {
        Some(i) => {
            assert(chars@.subrange(0, i as int) == name@.take(i as int));
            string_of(&chars, 0, i)
        },
        None => name.to_owned(),
    }
}

/// The extension of a file name.
pub fn file_extension(name: &str) -> (r: Option<String>)
    ensures
        text_of(r) == extension_of(name@),
{
    let chars = chars_of(name);
    match find_dot(name, &chars) {
        Some(i) => {
            let n: usize = chars.len();
            assert(chars@.subrange(i + 1, n as int) == name@.skip(i + 1));
            Some(string_of(&chars, i + 1, n))
        },
        None => None,
    }
}

/// The last name among the names of a path, where the path ends in one: empty names and single
/// dots say nothing, and two dots lead elsewhere.
pub open spec fn last_name(parts: Seq<Seq<char>>) -> Option<Seq<char>>
    decreases parts.len(),
{
    if parts.len() == 0 {
        None
    } else if parts.last().len() == 0 || parts.last() == "."@ {
        last_name(parts.drop_last())
    } else if parts.last() == ".."@ {
        None
    } else {
        Some(parts.last())
    }
}

/// A path without the drive that it begins with, where paths can begin with one: a letter and a
/// colon.
pub open spec fn without_drive(path: Seq<char>, drives: bool) -> Seq<char> {
    if drives && path.len() >= 2 && is_letter(path[0]) && path[1] == ':' {
        path.skip(2)
    } else {
        path
    }
}

/// Whether `c` is a letter of ASCII.
pub open spec fn is_letter(c: char) -> bool {
    'a' <= c <= 'z' || 'A' <= c <= 'Z'
}

/// The extension of the file that a path leads to. Its names are parted by `/` alone, and it may
/// begin with a drive where paths can.
pub open spec fn path_extension(path: Seq<char>, drives: bool) -> Option<Seq<char>> {
    match last_name(pieces(without_drive(path, drives), '/')) {
        Some(name) => extension_of(name),
        None => None,
    }
}

fn cut_drive(path: &str, drives: bool) -> (r: String)
    ensures
        r@ == without_drive(path@, drives),
{
    let chars = chars_of(path);
    let n: usize = chars.len();
    if drives && n >= 2 && (('a' <= chars[0] && chars[0] <= 'z') || ('A' <= chars[0] && chars[0]
        <= 'Z')) && chars[1] == ':' {
        assert(chars@.subrange(2, n as int) == path@.skip(2));
        string_of(&chars, 2, n)
    } else {
        path.to_owned()
    }
}

/// The extension of the file that a path leads to.
pub fn extension_in(path: &str, drives: bool) -> (r: Option<String>)
    ensures
        text_of(r) == path_extension(path@, drives),
{
    let bare = cut_drive(path, drives);
    let parts = split(bare.as_str(), '/');
    let ghost names = pieces(bare@, '/');
    let mut n: usize = parts.len();
    assert(names.take(n as int) == names);
    while n > 0
        invariant
            n <= parts@.len(),
            texts(parts@) == names,
            names == pieces(without_drive(path@, drives), '/'),
            last_name(names) == last_name(names.take(n as int)),
        decreases n,
    {
        assert(names.take(n as int).drop_last() == names.take(n - 1));
        assert(names.take(n as int).last() == parts@[n - 1]@);
        let part = parts[n - 1].as_str();
        if part.is_empty() || same_text(part, ".") {
            n = n - 1;
        } else if same_text(part, "..") {
            return None;
        } else {
            return file_extension(part);
        }
    }
    None
}

/// Whether a file name has the extension `docx`, in capital or small letters.
pub open spec fn docx_name(name: Option<Seq<char>>) -> bool {
    name matches Some(n) && extension_of(n) matches Some(e) && ascii_lowered(e) == ascii_lowered(
        "docx"@,
    )
}

/// Whether a file name has the extension `docx`.
pub fn is_docx_name(name: &str) -> (r: bool)
    ensures
        r == docx_name(Some(name@)),
{
    match file_extension(name) {
        Some(extension) => same_ignoring_case(extension.as_str(), "docx"),
        None => false,
    }
}

/// What the operating system knows of a path: the directory that holds what it leads to, and its
/// last name.
#[derive(Clone, Debug)]
pub struct FilePath {
    pub parent: Option<String>,
    pub file_name: Option<String>,
}

/// What is known of a path.
pub struct PathView {
    pub parent: Option<Seq<char>>,
    pub file_name: Option<Seq<char>>,
}

impl View for FilePath {
    type V = PathView;

    open spec fn view(&self) -> PathView {
        PathView { parent: text_of(self.parent), file_name: text_of(self.file_name) }
    }
}

/// Whether a path leads to a DOCX file, by its name.
pub fn is_docx_path(path: &FilePath) -> (r: bool)
    ensures
        r == docx_name(path@.file_name),
{
    match &path.file_name {
        Some(name) => is_docx_name(name.as_str()),
        None => false,
    }
}

/// The name of the archive entry that a relationship of the document leads to.
pub open spec fn word_target(target: Seq<char>) -> Seq<char> {
    let t = replaced(target, '\\', '/');
    if begins_with(t, "word/"@) {
        t
    } else if begins_with(t, seq!['/']) {
        cut_start(t, CharClass::Slash)
    } else {
        "word/"@ + t
    }
}

/// The archive entry that the target of a relationship stands for.
pub fn normalize_word_target(target: &str) -> (r: String)
    ensures
        r@ == word_target(target@),
{
    let t = replace(target, '\\', '/');
    if strip_prefix(t.as_str(), "word/").is_some() {
        return t;
    }
    proof {
        reveal_strlit("/");
        assert("/"@ == seq!['/']);
    }
    if strip_prefix(t.as_str(), "/").is_some() {
        trim_start_of(t.as_str(), CharClass::Slash)
    } else {
        let mut r = "word/".to_owned();
        r.append(t.as_str());
        r
    }
}

/// Whether a character would break a field of a tab-separated file.
pub open spec fn breaks_field(c: char) -> bool {
    c == '\r' || c == '\n' || c == '\t'
}

/// A text without the characters that would break a field.
pub open spec fn without_breaks(s: Seq<char>) -> Seq<char>
    decreases s.len(),
{
    if s.len() == 0 {
        seq![]
    } else if breaks_field(s.last()) {
        without_breaks(s.drop_last())
    } else {
        without_breaks(s.drop_last()).push(s.last())
    }
}

/// A text made fit for a field of a tab-separated file.
pub open spec fn field_text(s: Seq<char>) -> Seq<char> {
    trimmed(without_breaks(s))
}

/// Makes a text fit for a field of a tab-separated file.
pub fn sanitize_field(value: &str) -> (r: String)
    ensures
        r@ == field_text(value@),
{
    let chars = chars_of(value);
    let mut kept = String::new();
    let mut i: usize = 0;
    while i < chars.len()
        invariant
            i <= chars@.len(),
            kept@ == without_breaks(chars@.take(i as int)),
        decreases chars.len() - i,
    {
        let c = chars[i];
        i = i + 1;
        assert(chars@.take(i as int).drop_last() == chars@.take(i - 1));
        if c != '\r' && c != '\n' && c != '\t' {
            kept.push(c);
        }
    }
    assert(chars@.take(i as int) == chars@);
    trim(kept.as_str())
}

/// A typed path without white space and then without quotes around it.
pub open spec fn typed_path(s: Seq<char>) -> Seq<char> {
    cut_ends(trimmed(s), CharClass::Quote)
}

/// Takes white space and quotes off a typed path.
pub fn sanitize_path_input(value: &str) -> (r: String)
    ensures
        r@ == typed_path(value@),
{
    trim_of(trim(value).as_str(), CharClass::Quote)
}

} // verus!
