//! The errors of the program.

use vstd::prelude::*;

verus! {

/// What went wrong.
#[derive(Clone, Copy, Debug, PartialEq, Eq, Structural)]
pub enum ErrorKind {
    FileNotFound,
    InvalidDocx,
    PermissionDenied,
    ParseFailed,
    IoFailure,
    InvalidInput,
}

/// An error, with a message for the user.
#[derive(Clone, Debug)]
pub struct AppError {
    pub kind: ErrorKind,
    pub message: String,
}

/// What an error holds.
pub struct ErrorView {
    pub kind: ErrorKind,
    pub message: Seq<char>,
}

impl View for AppError {
    type V = ErrorView;

    open spec fn view(&self) -> ErrorView {
        ErrorView { kind: self.kind, message: self.message@ }
    }
}

pub type AppResult<T> = Result<T, AppError>;

/// What a result holds.
pub open spec fn outcome<T: View>(r: AppResult<T>) -> Result<T::V, ErrorView> {
    match r {
        Ok(value) => Ok(value@),
        Err(e) => Err(e@),
    }
}

/// What an operation of the operating system failed for.
#[derive(Clone, Copy, Debug, PartialEq, Eq, Structural)]
pub enum IoFailureKind {
    NotFound,
    PermissionDenied,
    Other,
}

/// A failed operation of the operating system, with its description.
#[derive(Clone, Debug)]
pub struct IoFailure {
    pub kind: IoFailureKind,
    pub message: String,
}

/// What a failed operation holds.
pub struct IoFailureView {
    pub kind: IoFailureKind,
    pub message: Seq<char>,
}

impl View for IoFailure {
    type V = IoFailureView;

    open spec fn view(&self) -> IoFailureView {
        IoFailureView { kind: self.kind, message: self.message@ }
    }
}

impl AppError {
    pub fn new(kind: ErrorKind, message: String) -> (r: AppError)
        ensures
            r.kind == kind,
            r.message == message,
    {
        AppError { kind, message }
    }
}

/// The error for a failed operation, under what was being done.
pub open spec fn io_error(failure: IoFailureView, context: Seq<char>) -> ErrorView {
    ErrorView {
        kind: match failure.kind {
            IoFailureKind::NotFound => ErrorKind::FileNotFound,
            IoFailureKind::PermissionDenied => ErrorKind::PermissionDenied,
            IoFailureKind::Other => ErrorKind::IoFailure,
        },
        message: context + ": "@ + failure.message,
    }
}

/// Turns a failed operation into an error, under what was being done.
pub fn map_io_error(err: &IoFailure, context: &str) -> (r: AppError)
    ensures
        r@ == io_error(err@, context@),
{
    let kind = match err.kind {
        IoFailureKind::NotFound => ErrorKind::FileNotFound,
        IoFailureKind::PermissionDenied => ErrorKind::PermissionDenied,
        IoFailureKind::Other => ErrorKind::IoFailure,
    };
    let mut message = context.to_owned();
    message.append(": ");
    message.append(err.message.as_str());
    AppError::new(kind, message)
}

/// The words that stand before the message of an error.
pub open spec fn kind_words(kind: ErrorKind) -> Seq<char> {
    match kind {
        ErrorKind::FileNotFound => "文件不存在"@,
        ErrorKind::InvalidDocx => "无效 DOCX"@,
        ErrorKind::PermissionDenied => "权限不足"@,
        ErrorKind::ParseFailed => "解析失败"@,
        ErrorKind::IoFailure => "I/O 失败"@,
        ErrorKind::InvalidInput => "输入无效"@,
    }
}

/// An error as it is shown.
pub open spec fn shown_error(e: ErrorView) -> Seq<char> {
    kind_words(e.kind) + ": "@ + e.message
}

/// The text that shows an error.
pub fn format_app_error(err: &AppError) -> (r: String)
    ensures
        r@ == shown_error(err@),
{
    let prefix = match err.kind {
        ErrorKind::FileNotFound => "文件不存在",
        ErrorKind::InvalidDocx => "无效 DOCX",
        ErrorKind::PermissionDenied => "权限不足",
        ErrorKind::ParseFailed => "解析失败",
        ErrorKind::IoFailure => "I/O 失败",
        ErrorKind::InvalidInput => "输入无效",
    };
    let mut r = prefix.to_owned();
    r.append(": ");
    r.append(err.message.as_str());
    r
}

} // verus!
