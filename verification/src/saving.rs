//! Where a session and the history are kept, and what came of keeping them.

use vstd::prelude::*;

use crate::errors::{io_error, map_io_error, AppResult, ErrorView, IoFailure, IoFailureView};
use crate::text::{concat, texts};

verus! {

/// Where the history is kept: in a directory of its own below the directory for the data of
/// programs, or else in the current directory.
pub open spec fn history_names(in_appdata: bool) -> Seq<Seq<char>> {
    if in_appdata {
        seq!["docx2md_tui"@, "history.tsv"@]
    } else {
        seq!["docx2md_tui_history.tsv"@]
    }
}

/// The names that lead to the history, below the directory for the data of programs or the
/// current one.
pub fn default_history_file(in_appdata: bool) -> (r: Vec<String>)
    ensures
        texts(r@) == history_names(in_appdata),
{
    let mut names: Vec<String> = Vec::new();
    if in_appdata {
        names.push("docx2md_tui".to_owned());
        names.push("history.tsv".to_owned());
    } else {
        names.push("docx2md_tui_history.tsv".to_owned());
    }
    assert(texts(names@) == history_names(in_appdata));
    names
}

/// Where the session is kept: beside the history.
pub open spec fn config_names(in_appdata: bool) -> Seq<Seq<char>> {
    if in_appdata {
        seq!["docx2md_tui"@, "config.tsv"@]
    } else {
        seq!["docx2md_tui_config.tsv"@]
    }
}

/// The names that lead to the session, below the directory for the data of programs or the
/// current one.
pub fn default_config_file(in_appdata: bool) -> (r: Vec<String>)
    ensures
        texts(r@) == config_names(in_appdata),
{
    let mut names: Vec<String> = Vec::new();
    if in_appdata {
        names.push("docx2md_tui".to_owned());
        names.push("config.tsv".to_owned());
    } else {
        names.push("docx2md_tui_config.tsv".to_owned());
    }
    assert(texts(names@) == config_names(in_appdata));
    names
}

/// What came of writing a file below a directory that may have to be made.
#[derive(Debug)]
pub enum SaveReport {
    /// The file is written.
    Saved,
    /// The directory at the path cannot be made.
    NoDirectory(String, IoFailure),
    /// The file at the path cannot be written.
    Unwritten(String, IoFailure),
}

/// What came of writing a file.
pub enum SaveReportView {
    Saved,
    NoDirectory(Seq<char>, IoFailureView),
    Unwritten(Seq<char>, IoFailureView),
}

impl View for SaveReport {
    type V = SaveReportView;

    open spec fn view(&self) -> SaveReportView {
        match self {
            SaveReport::Saved => SaveReportView::Saved,
            SaveReport::NoDirectory(path, e) => SaveReportView::NoDirectory(path@, e@),
            SaveReport::Unwritten(path, e) => SaveReportView::Unwritten(path@, e@),
        }
    }
}

/// What a result without a value holds.
pub open spec fn saved_outcome(r: AppResult<()>) -> Result<(), ErrorView> {
    match r {
        Ok(()) => Ok(()),
        Err(e) => Err(e@),
    }
}

/// What came of keeping a session.
pub open spec fn config_saved(report: SaveReportView) -> Result<(), ErrorView> {
    match report {
        SaveReportView::Saved => Ok(()),
        SaveReportView::NoDirectory(path, e) => Err(io_error(e, "创建配置目录失败: "@ + path)),
        SaveReportView::Unwritten(path, e) => Err(io_error(e, "写入配置文件失败: "@ + path)),
    }
}

/// What came of keeping a session.
pub fn save_config(report: &SaveReport) -> (r: AppResult<()>)
    ensures
        saved_outcome(r) == config_saved(report@),
{
    match report {
        SaveReport::Saved => Ok(()),
        SaveReport::NoDirectory(path, e) => Err(
            map_io_error(e, concat("创建配置目录失败: ", path.as_str()).as_str()),
        ),
        SaveReport::Unwritten(path, e) => Err(
            map_io_error(e, concat("写入配置文件失败: ", path.as_str()).as_str()),
        ),
    }
}

/// What came of keeping the history.
pub open spec fn history_saved(report: SaveReportView) -> Result<(), ErrorView> {
    match report {
        SaveReportView::Saved => Ok(()),
        SaveReportView::NoDirectory(path, e) => Err(io_error(e, "创建历史目录失败: "@ + path)),
        SaveReportView::Unwritten(path, e) => Err(io_error(e, "写入历史失败: "@ + path)),
    }
}

/// What came of keeping the history.
pub fn save_history(report: &SaveReport) -> (r: AppResult<()>)
    ensures
        saved_outcome(r) == history_saved(report@),
{
    match report {
        SaveReport::Saved => Ok(()),
        SaveReport::NoDirectory(path, e) => Err(
            map_io_error(e, concat("创建历史目录失败: ", path.as_str()).as_str()),
        ),
        SaveReport::Unwritten(path, e) => Err(
            map_io_error(e, concat("写入历史失败: ", path.as_str()).as_str()),
        ),
    }
}

} // verus!
