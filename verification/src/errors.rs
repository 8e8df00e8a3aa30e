//! Structured errors: a kind, an optional stable localization code with the
//! values its template interpolates, the English message and recovery hint,
//! a one-click fix the frontend can offer, and an optional source span.

use vstd::prelude::*;

use crate::chars::push_str;
use crate::gcode::ToolOffset;
use crate::params::{insert_param, params_sorted, params_view, set_param};

verus! {

/// Stable identifiers of the errors a frontend localizes.
#[derive(Debug, Clone, Copy, PartialEq, Eq, Structural)]
pub enum ErrorCode {
    /// The requested post-processor is not one we ship.
    UnknownPostProcessor,
    /// An op references a tool absent from the library.
    MissingTool,
    /// The op kind has no driver yet.
    UnimplementedOpKind,
    /// Text or font rendering failed.
    TextRenderFailed,
    /// The pipeline panicked.
    InternalPanic,
    /// A two-sided job's front op cuts through the stock before the flip.
    TwoSidedThrough,
}

#[derive(Debug, Clone, Copy, PartialEq, Eq, Structural)]
pub enum ErrorKind {
    BadInput,
    Misconfigured,
    Limit,
    Unsupported,
    Io,
    Internal,
}

/// A fix the frontend can apply for the user.
#[derive(Debug, Clone, Copy, PartialEq, Eq, Structural)]
pub enum AutoFix {
    AssignTool { op_id: u32, suggested_tool_id: u32 },
    DisableOp { op_id: u32 },
    ChangeProfileOffset { op_id: u32, suggested: ToolOffset },
}

/// A position in a source file.
#[derive(Debug, Clone)]
pub struct SourceSpan {
    pub file: String,
    pub line: u32,
    pub column: u32,
}

/// A structured error.
#[derive(Debug)]
pub struct Error {
    pub kind: ErrorKind,
    /// Localization key; `None` falls back to the English text.
    pub code: Option<ErrorCode>,
    /// Values the localized template interpolates, in key order.
    pub params: Vec<(String, String)>,
    pub message: String,
    pub recovery_hint: Option<String>,
    pub auto_fix: Option<AutoFix>,
    pub span: Option<Box<SourceSpan>>,
}

/// The displayed text: the message, then ` (hint: <hint>)` when there is a
/// hint.
pub open spec fn display_text(message: Seq<char>, hint: Option<Seq<char>>) -> Seq<char> {
    match hint {
        Some(h) => message + " (hint: "@ + h + ")"@,
        None => message,
    }
}

pub open spec fn opt_view(o: Option<String>) -> Option<Seq<char>> {
    match o {
        Some(s) => Some(s@),
        None => None,
    }
}

impl Error {
    /// The parameters are in key order with no key twice.
    pub open spec fn wf(&self) -> bool {
        params_sorted(params_view(self.params@))
    }

    /// An error of `kind` with `message` and nothing else.
    pub fn new(kind: ErrorKind, message: String) -> (e: Self)
        ensures
            e.wf(),
            e.kind == kind,
            e.code is None,
            e.params@.len() == 0,
            e.message@ == message@,
            e.recovery_hint is None,
            e.auto_fix is None,
            e.span is None,
    {
        Error {
            kind,
            code: None,
            params: Vec::new(),
            message,
            recovery_hint: None,
            auto_fix: None,
            span: None,
        }
    }

    pub fn bad_input(msg: String) -> (e: Self)
        ensures
            e.wf(),
            e.kind == ErrorKind::BadInput,
            e.code is None,
            e.params@.len() == 0,
            e.message@ == msg@,
            e.recovery_hint is None,
            e.auto_fix is None,
            e.span is None,
    {
        Self::new(ErrorKind::BadInput, msg)
    }

    pub fn misconfigured(msg: String) -> (e: Self)
        ensures
            e.wf(),
            e.kind == ErrorKind::Misconfigured,
            e.code is None,
            e.params@.len() == 0,
            e.message@ == msg@,
            e.recovery_hint is None,
            e.auto_fix is None,
            e.span is None,
    {
        Self::new(ErrorKind::Misconfigured, msg)
    }

    pub fn limit(msg: String) -> (e: Self)
        ensures
            e.wf(),
            e.kind == ErrorKind::Limit,
            e.code is None,
            e.params@.len() == 0,
            e.message@ == msg@,
            e.recovery_hint is None,
            e.auto_fix is None,
            e.span is None,
    {
        Self::new(ErrorKind::Limit, msg)
    }

    pub fn unsupported(msg: String) -> (e: Self)
        ensures
            e.wf(),
            e.kind == ErrorKind::Unsupported,
            e.code is None,
            e.params@.len() == 0,
            e.message@ == msg@,
            e.recovery_hint is None,
            e.auto_fix is None,
            e.span is None,
    {
        Self::new(ErrorKind::Unsupported, msg)
    }

    pub fn io(msg: String) -> (e: Self)
        ensures
            e.wf(),
            e.kind == ErrorKind::Io,
            e.code is None,
            e.params@.len() == 0,
            e.message@ == msg@,
            e.recovery_hint is None,
            e.auto_fix is None,
            e.span is None,
    {
        Self::new(ErrorKind::Io, msg)
    }

    pub fn internal(msg: String) -> (e: Self)
        ensures
            e.wf(),
            e.kind == ErrorKind::Internal,
            e.code is None,
            e.params@.len() == 0,
            e.message@ == msg@,
            e.recovery_hint is None,
            e.auto_fix is None,
            e.span is None,
    {
        Self::new(ErrorKind::Internal, msg)
    }

    /// Attach the localization code.
    pub fn with_code(self, code: ErrorCode) -> (e: Self)
        ensures
            e.kind == self.kind,
            e.code == Some(code),
            e.params == self.params,
            e.message == self.message,
            e.recovery_hint == self.recovery_hint,
            e.auto_fix == self.auto_fix,
            e.span == self.span,
    {
        let mut e = self;
        e.code = Some(code);
        e
    }

    /// Set the template value of `key` (replacing an earlier value).
    pub fn with_param(self, key: String, value: String) -> (e: Self)
        requires
            self.wf(),
        ensures
            e.wf(),
            e.kind == self.kind,
            e.code == self.code,
            params_view(e.params@) == insert_param(params_view(self.params@), key@, value@),
            e.message == self.message,
            e.recovery_hint == self.recovery_hint,
            e.auto_fix == self.auto_fix,
            e.span == self.span,
    {
        let mut e = self;
        set_param(&mut e.params, key, value);
        e
    }

    /// Attach a recovery hint.
    pub fn with_hint(self, hint: String) -> (e: Self)
        ensures
            e.kind == self.kind,
            e.code == self.code,
            e.params == self.params,
            e.message == self.message,
            e.recovery_hint == Some(hint),
            e.auto_fix == self.auto_fix,
            e.span == self.span,
    {
        let mut e = self;
        e.recovery_hint = Some(hint);
        e
    }

    /// Attach the fix the frontend can offer.
    pub fn with_auto_fix(self, fix: AutoFix) -> (e: Self)
        ensures
            e.kind == self.kind,
            e.code == self.code,
            e.params == self.params,
            e.message == self.message,
            e.recovery_hint == self.recovery_hint,
            e.auto_fix == Some(fix),
            e.span == self.span,
    {
        let mut e = self;
        e.auto_fix = Some(fix);
        e
    }

    /// Attach the source span the error points at.
    pub fn with_span(self, span: SourceSpan) -> (e: Self)
        ensures
            e.kind == self.kind,
            e.code == self.code,
            e.params == self.params,
            e.message == self.message,
            e.recovery_hint == self.recovery_hint,
            e.auto_fix == self.auto_fix,
            e.span == Some(Box::new(span)),
    {
        let mut e = self;
        e.span = Some(Box::new(span));
        e
    }

    /// The text the error displays as (see [`display_text`]).
    pub fn display_string(&self) -> (s: String)
        ensures
            s@ == display_text(self.message@, opt_view(self.recovery_hint)),
    {
        let mut s = self.message.clone();
        match &self.recovery_hint {
            Some(h) => {
                push_str(&mut s, " (hint: ");
                push_str(&mut s, h.as_str());
                push_str(&mut s, ")");
            },
            None => {},
        }
        s
    }
}

} // verus!
