//! The options of a conversion, and what is kept of a session.

use vstd::prelude::*;

use crate::errors::{
    io_error,
    map_io_error,
    outcome,
    AppResult,
    ErrorView,
    IoFailure,
    IoFailureView,
};
use crate::names::{field_text, sanitize_field};
use crate::text::{
    before,
    chars_of,
    lemma_before_is,
    line_texts,
    lines,
    same_text,
    string_of,
    texts,
    trim,
    trimmed,
};
use crate::text_map::TextMap;

verus! {

/// How documents are converted and where the results go.
#[derive(Clone, Copy, Debug, PartialEq, Eq, Structural)]
pub struct ConvertOptions {
    /// Existing files are written over.
    pub overwrite: bool,
    /// Directories below the input directory are searched too.
    pub recursive: bool,
    /// The results stand in directories like those of the documents.
    pub keep_structure: bool,
}

impl ConvertOptions {
    /// The options that hold unless others are chosen.
    pub open spec fn initial() -> ConvertOptions {
        ConvertOptions { overwrite: false, recursive: false, keep_structure: true }
    }
}

impl Default for ConvertOptions {
    fn default() -> (r: ConvertOptions)
        ensures
            r == ConvertOptions::initial(),
    {
        ConvertOptions { overwrite: false, recursive: false, keep_structure: true }
    }
}

/// "On" or "off", in short.
pub open spec fn switch_word(v: bool) -> Seq<char> {
    if v {
        "开"@
    } else {
        "关"@
    }
}

/// "On" or "off", in short.
pub fn bool_zh(v: bool) -> (r: &'static str)
    ensures
        r@ == switch_word(v),
{
    if v {
        "开"
    } else {
        "关"
    }
}

/// A choice as it stands in a file.
pub open spec fn switch_mark(v: bool) -> Seq<char> {
    if v {
        "1"@
    } else {
        "0"@
    }
}

pub fn switch_text(v: bool) -> (r: &'static str)
    ensures
        r@ == switch_mark(v),
{
    if v {
        "1"
    } else {
        "0"
    }
}

/// What is kept of a session.
#[derive(Clone, Debug)]
pub struct AppConfig {
    pub last_input: String,
    pub last_output_dir: String,
    pub options: ConvertOptions,
}

/// What is kept of a session.
#[verifier::ext_equal]
pub struct ConfigView {
    pub last_input: Seq<char>,
    pub last_output_dir: Seq<char>,
    pub options: ConvertOptions,
}

impl View for AppConfig {
    type V = ConfigView;

    open spec fn view(&self) -> ConfigView {
        ConfigView {
            last_input: self.last_input@,
            last_output_dir: self.last_output_dir@,
            options: self.options,
        }
    }
}

impl ConfigView {
    /// What holds before any session.
    pub open spec fn initial() -> ConfigView {
        ConfigView {
            last_input: seq![],
            last_output_dir: seq![],
            options: ConvertOptions::initial(),
        }
    }

    /// The session with its texts as a file can hold them.
    pub open spec fn fit(self) -> ConfigView {
        ConfigView {
            last_input: field_text(self.last_input),
            last_output_dir: field_text(self.last_output_dir),
            options: self.options,
        }
    }
}

impl Default for AppConfig {
    fn default() -> (r: AppConfig)
        ensures
            r@ == ConfigView::initial(),
    {
        AppConfig {
            last_input: String::new(),
            last_output_dir: String::new(),
            options: ConvertOptions::default(),
        }
    }
}

/// What came of reading a file of text.
#[derive(Debug)]
pub enum TextSource {
    /// There is no such file.
    Missing,
    /// The file cannot be read.
    Failed(IoFailure),
    /// What the file holds.
    Text(String),
}

/// What came of reading a file of text.
pub enum TextSourceView {
    Missing,
    Failed(IoFailureView),
    Text(Seq<char>),
}

impl View for TextSource {
    type V = TextSourceView;

    open spec fn view(&self) -> TextSourceView {
        match self {
            TextSource::Missing => TextSourceView::Missing,
            TextSource::Failed(e) => TextSourceView::Failed(e@),
            TextSource::Text(s) => TextSourceView::Text(s@),
        }
    }
}

/// What a line says before its first tab, without white space around it.
pub open spec fn line_key(line: Seq<char>) -> Seq<char> {
    trimmed(line.take(before(line, '\t')))
}

/// What a line says behind its first tab, without white space around it.
pub open spec fn line_value(line: Seq<char>) -> Seq<char> {
    if before(line, '\t') < line.len() {
        trimmed(line.skip(before(line, '\t') + 1))
    } else {
        seq![]
    }
}

/// What lines of keys and values say; a later line holds over an earlier one with the same key,
/// and a line without a key says nothing.
pub open spec fn settings(lines: Seq<Seq<char>>) -> Map<Seq<char>, Seq<char>>
    decreases lines.len(),
{
    if lines.len() == 0 {
        Map::empty()
    } else {
        let earlier = settings(lines.drop_last());
        if line_key(lines.last()).len() > 0 {
            earlier.insert(line_key(lines.last()), line_value(lines.last()))
        } else {
            earlier
        }
    }
}

/// The text at a key, or nothing.
pub open spec fn text_at(m: Map<Seq<char>, Seq<char>>, key: Seq<char>) -> Seq<char> {
    if m.dom().contains(key) {
        m[key]
    } else {
        seq![]
    }
}

/// The choice at a key, or the one that holds without it.
pub open spec fn switch_at(m: Map<Seq<char>, Seq<char>>, key: Seq<char>, otherwise: bool) -> bool {
    if m.dom().contains(key) {
        m[key] == "1"@
    } else {
        otherwise
    }
}

/// The session that the text of a file describes.
pub open spec fn config_in(content: Seq<char>) -> ConfigView {
    let m = settings(line_texts(content));
    ConfigView {
        last_input: text_at(m, "last_input"@),
        last_output_dir: text_at(m, "last_output_dir"@),
        options: ConvertOptions {
            overwrite: switch_at(m, "overwrite"@, false),
            recursive: switch_at(m, "recursive"@, false),
            keep_structure: switch_at(m, "keep_structure"@, true),
        },
    }
}

fn split_line(line: &str) -> (r: (String, String))
    ensures
        r.0@ == line_key(line@),
        r.1@ == line_value(line@),
{
    let chars = chars_of(line);
    let n: usize = chars.len();
    let mut i: usize = 0;
    while i < n && chars[i] != '\t'
        invariant
            i <= n == chars@.len(),
            forall|j: int| 0 <= j < i ==> chars@[j] != '\t',
        decreases n - i,
    {
        i = i + 1;
    }
    proof {
        lemma_before_is(line@, '\t', i as int);
        assert(chars@.subrange(0, i as int) == line@.take(i as int));
    }
    let key = trim(string_of(&chars, 0, i).as_str());
    let value = if i < n {
        assert(chars@.subrange(i + 1, n as int) == line@.skip(i + 1));
        trim(string_of(&chars, i + 1, n).as_str())
    } else {
        String::new()
    };
    (key, value)
}

fn get_text(map: &TextMap, key: &str) -> (r: String)
    ensures
        r@ == text_at(map@, key@),
{
    match map.get(key) {
        Some(v) => v,
        None => String::new(),
    }
}

fn get_switch(map: &TextMap, key: &str, otherwise: bool) -> (r: bool)
    ensures
        r == switch_at(map@, key@, otherwise),
{
    match map.get(key) {
        Some(v) => same_text(v.as_str(), "1"),
        None => otherwise,
    }
}

/// The session that the text of a file describes.
pub fn parse_config(content: &str) -> (r: AppConfig)
    ensures
        r@ == config_in(content@),
{
    let all = lines(content);
    let ghost every = line_texts(content@);
    let mut map = TextMap::new();
    let mut i: usize = 0;
    assert(every.take(0) == Seq::<Seq<char>>::empty());
    while i < all.len()
        invariant
            i <= all@.len(),
            texts(all@) == every,
            map@ == settings(every.take(i as int)),
        decreases all.len() - i,
    {
        let (key, value) = split_line(all[i].as_str());
        i = i + 1;
        assert(every.take(i as int).drop_last() == every.take(i - 1));
        assert(every.take(i as int).last() == all@[i - 1]@);
        if !key.as_str().is_empty() {
            map.insert(key, value);
        }
    }
    assert(every.take(i as int) == every);
    AppConfig {
        last_input: get_text(&map, "last_input"),
        last_output_dir: get_text(&map, "last_output_dir"),
        options: ConvertOptions {
            overwrite: get_switch(&map, "overwrite", false),
            recursive: get_switch(&map, "recursive", false),
            keep_structure: get_switch(&map, "keep_structure", true),
        },
    }
}

/// The session that a file keeps: the initial one where there is no file.
pub open spec fn config_from(path: Seq<char>, source: TextSourceView) -> Result<
    ConfigView,
    ErrorView,
> {
    match source {
        TextSourceView::Missing => Ok(ConfigView::initial()),
        TextSourceView::Failed(e) => Err(io_error(e, "读取配置文件失败: "@ + path)),
        TextSourceView::Text(content) => Ok(config_in(content)),
    }
}

/// The session that a file keeps, from what came of reading it. The path is for messages.
pub fn load_config(path: &str, source: &TextSource) -> (r: AppResult<AppConfig>)
    ensures
        outcome(r) == config_from(path@, source@),
{
    match source {
        TextSource::Missing => Ok(AppConfig::default()),
        TextSource::Failed(e) => {
            let mut context = "读取配置文件失败: ".to_owned();
            context.append(path);
            Err(map_io_error(e, context.as_str()))
        },
        TextSource::Text(content) => Ok(parse_config(content.as_str())),
    }
}

/// A line with a key and a value.
pub open spec fn setting_line(key: Seq<char>, value: Seq<char>) -> Seq<char> {
    key + "\t"@ + value + "\n"@
}

/// The text of the file that keeps a session.
pub open spec fn config_text(c: ConfigView) -> Seq<char> {
    setting_line("last_input"@, field_text(c.last_input)) + setting_line(
        "last_output_dir"@,
        field_text(c.last_output_dir),
    ) + setting_line("overwrite"@, switch_mark(c.options.overwrite)) + setting_line(
        "recursive"@,
        switch_mark(c.options.recursive),
    ) + setting_line("keep_structure"@, switch_mark(c.options.keep_structure))
}

fn show_setting(key: &str, value: &str) -> (r: String)
    ensures
        r@ == setting_line(key@, value@),
{
    let mut r = key.to_owned();
    r.append("\t");
    r.append(value);
    r.append("\n");
    r
}

/// The text of the file that keeps a session.
pub fn show_config(config: &AppConfig) -> (r: String)
    ensures
        r@ == config_text(config@),
{
    let mut r = show_setting("last_input", sanitize_field(config.last_input.as_str()).as_str());
    r.append(
        show_setting(
            "last_output_dir",
            sanitize_field(config.last_output_dir.as_str()).as_str(),
        ).as_str(),
    );
    r.append(show_setting("overwrite", switch_text(config.options.overwrite)).as_str());
    r.append(show_setting("recursive", switch_text(config.options.recursive)).as_str());
    r.append(show_setting("keep_structure", switch_text(config.options.keep_structure)).as_str());
    r
}

} // verus!
