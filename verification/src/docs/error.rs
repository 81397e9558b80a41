//! The error type shared by all document operations.

use vstd::prelude::*;
use crate::docs::strings::{push_chars, push_str, string_from_chars};

verus! {

/// Errors reported by the document operations. Each variant carries the detail that its
/// message shows (a path, a format name or a reason).
#[derive(Debug)]
pub enum DocsError {
    PathNotFound(String),
    PermissionDenied(String),
    UnsupportedFormat(String),
    ParseError(String),
    EmbeddingNotExtractable(String),
    InvalidArgument(String),
    IoError(String),
    Other(String),
}

/// The variant of a [`DocsError`], without its detail.
#[derive(PartialEq, Eq, Structural, Clone, Copy, Debug)]
pub enum ErrorKind {
    PathNotFound,
    PermissionDenied,
    UnsupportedFormat,
    ParseError,
    EmbeddingNotExtractable,
    InvalidArgument,
    IoError,
    Other,
}

impl DocsError {
    pub open spec fn kind(&self) -> ErrorKind {
        match self {
            DocsError::PathNotFound(_) => ErrorKind::PathNotFound,
            DocsError::PermissionDenied(_) => ErrorKind::PermissionDenied,
            DocsError::UnsupportedFormat(_) => ErrorKind::UnsupportedFormat,
            DocsError::ParseError(_) => ErrorKind::ParseError,
            DocsError::EmbeddingNotExtractable(_) => ErrorKind::EmbeddingNotExtractable,
            DocsError::InvalidArgument(_) => ErrorKind::InvalidArgument,
            DocsError::IoError(_) => ErrorKind::IoError,
            DocsError::Other(_) => ErrorKind::Other,
        }
    }

    pub open spec fn detail(&self) -> Seq<char> {
        match self {
            DocsError::PathNotFound(s) => s@,
            DocsError::PermissionDenied(s) => s@,
            DocsError::UnsupportedFormat(s) => s@,
            DocsError::ParseError(s) => s@,
            DocsError::EmbeddingNotExtractable(s) => s@,
            DocsError::InvalidArgument(s) => s@,
            DocsError::IoError(s) => s@,
            DocsError::Other(s) => s@,
        }
    }

    /// The text that the message of each variant puts before the detail.
    pub open spec fn label(&self) -> Seq<char> {
        match self {
            DocsError::PathNotFound(_) => "路径不存在: "@,
            DocsError::PermissionDenied(_) => "权限不足: "@,
            DocsError::UnsupportedFormat(_) => "不支持的格式: "@,
            DocsError::ParseError(_) => "解析失败: "@,
            DocsError::EmbeddingNotExtractable(_) => "内嵌对象无法抽取: "@,
            DocsError::InvalidArgument(_) => "参数无效: "@,
            DocsError::IoError(_) => "IO 错误: "@,
            DocsError::Other(_) => Seq::<char>::empty(),
        }
    }

    /// The message shown to users: the variant's label followed by its detail.
    pub open spec fn message(&self) -> Seq<char> {
        self.label() + self.detail()
    }

    /// The user-facing message of this error (its display text).
    pub fn to_public_message(&self) -> (m: String)
        ensures
            m@ == self.message(),
    {
        let mut out: Vec<char> = Vec::new();
        match self {
            DocsError::PathNotFound(s) => {
                push_str(&mut out, "路径不存在: ");
                push_str(&mut out, s.as_str());
            },
            DocsError::PermissionDenied(s) => {
                push_str(&mut out, "权限不足: ");
                push_str(&mut out, s.as_str());
            },
            DocsError::UnsupportedFormat(s) => {
                push_str(&mut out, "不支持的格式: ");
                push_str(&mut out, s.as_str());
            },
            DocsError::ParseError(s) => {
                push_str(&mut out, "解析失败: ");
                push_str(&mut out, s.as_str());
            },
            DocsError::EmbeddingNotExtractable(s) => {
                push_str(&mut out, "内嵌对象无法抽取: ");
                push_str(&mut out, s.as_str());
            },
            DocsError::InvalidArgument(s) => {
                push_str(&mut out, "参数无效: ");
                push_str(&mut out, s.as_str());
            },
            DocsError::IoError(s) => {
                push_str(&mut out, "IO 错误: ");
                push_str(&mut out, s.as_str());
            },
            DocsError::Other(s) => {
                push_str(&mut out, s.as_str());
            },
        }
        string_from_chars(&out)
    }
}

/// `r` is an error of kind `kind` whose detail is `detail`.
pub open spec fn fails_with<T>(r: Result<T, DocsError>, kind: ErrorKind, detail: Seq<char>) -> bool {
    match r {
        Err(e) => e.kind() == kind && e.detail() == detail,
        Ok(_) => false,
    }
}

/// A result with its error reduced to kind and detail, and its value to its view.
pub open spec fn outcome<T: View>(r: Result<T, DocsError>) -> Result<T::V, (ErrorKind, Seq<char>)> {
    match r {
        Ok(v) => Ok(v@),
        Err(e) => Err((e.kind(), e.detail())),
    }
}

/// The failure with the given kind and detail.
pub open spec fn failure<V>(kind: ErrorKind, detail: Seq<char>) -> Result<V, (ErrorKind, Seq<char>)> {
    Err((kind, detail))
}

/// Builds an error of the given kind from its detail characters.
pub fn make_error(kind: ErrorKind, detail: &[char]) -> (e: DocsError)
    ensures
        e.kind() == kind,
        e.detail() == detail@,
{
    let s = string_from_chars(detail);
    match kind {
        ErrorKind::PathNotFound => DocsError::PathNotFound(s),
        ErrorKind::PermissionDenied => DocsError::PermissionDenied(s),
        ErrorKind::UnsupportedFormat => DocsError::UnsupportedFormat(s),
        ErrorKind::ParseError => DocsError::ParseError(s),
        ErrorKind::EmbeddingNotExtractable => DocsError::EmbeddingNotExtractable(s),
        ErrorKind::InvalidArgument => DocsError::InvalidArgument(s),
        ErrorKind::IoError => DocsError::IoError(s),
        ErrorKind::Other => DocsError::Other(s),
    }
}

/// Builds an error whose detail is `prefix` followed by `rest`.
pub fn error_with(kind: ErrorKind, prefix: &str, rest: &[char]) -> (e: DocsError)
    ensures
        e.kind() == kind,
        e.detail() == prefix@ + rest@,
{
    let mut d: Vec<char> = Vec::new();
    push_str(&mut d, prefix);
    push_chars(&mut d, rest);
    make_error(kind, &d)
}

} // verus!
