//! What the `edit_overwrite` tool reports for each outcome of a write: the
//! text returned, whether it is an error and of which kind, the metadata of
//! the error, and the failure counter reset that a successful write makes.

use vstd::prelude::*;
use crate::edit_replace::{size_after_remove, FailureCounts, IoErrorDetail, StaleContextGuard};
use crate::text::{decimal, push_decimal, push_str, string_of};

verus! {

/// How a write went.
#[derive(Clone, Debug)]
pub enum OverwriteOutcome {
    /// `bytes_written` bytes were written to the canonical path `path`.
    Written { path: String, bytes_written: usize },
    /// The `working_dir` given is not an existing directory.
    InvalidWorkingDir,
    /// The resolved path is a directory (checked before writing).
    DirectoryTarget,
    /// The writer found the path to be no regular file.
    NotAFile,
    /// Writing the file failed with an I/O error, with the error's kind (as
    /// `Debug` shows it) and its text.
    Io { kind: String, source: String },
    /// Any other failure, with its message.
    Other { message: String },
}

/// What is reported of a write.
#[derive(Clone, Debug)]
pub struct OverwriteReport {
    /// The text returned to the caller.
    pub text: String,
    /// Whether the result is an error.
    pub is_error: bool,
    /// Whether the error is internal (otherwise invalid params).
    pub internal: bool,
    /// Whether a metric event is recorded for the call.
    pub records_metric: bool,
    /// The metric error type, for a recorded failure.
    pub error_type: Option<&'static str>,
    /// The error category of the response metadata, if any.
    pub category: Option<&'static str>,
    /// The suggested action of the response metadata, if any.
    pub suggested_action: Option<&'static str>,
    /// The detail of an I/O failure, for the response metadata.
    pub io_detail: Option<IoErrorDetail>,
}

/// The text a successful write returns.
pub open spec fn written_text(bytes_written: nat, path: Seq<char>) -> Seq<char> {
    "Wrote "@ + decimal(bytes_written) + " bytes to "@ + path
}

/// The report of a failure: its text, whether it is internal, whether a
/// metric is recorded, and the error type, category and suggested action.
pub open spec fn failure_report(o: OverwriteOutcome) -> (
    Seq<char>,
    bool,
    bool,
    Option<Seq<char>>,
    Option<Seq<char>>,
    Option<Seq<char>>,
) {
    match o {
        OverwriteOutcome::InvalidWorkingDir => (
            "working_dir is not valid; provide an existing directory path"@,
            false,
            false,
            None,
            None,
            None,
        ),
        OverwriteOutcome::DirectoryTarget => (
            "path is a directory; cannot write to a directory"@,
            false,
            true,
            Some("invalid_params"@),
            Some("validation"@),
            Some("provide a file path, not a directory"@),
        ),
        OverwriteOutcome::NotAFile => (
            "path is a directory"@,
            false,
            true,
            Some("invalid_params"@),
            Some("validation"@),
            Some("provide a file path, not a directory"@),
        ),
        OverwriteOutcome::Io { .. } => (
            "I/O error writing file; check file path and permissions"@,
            true,
            true,
            Some("internal_error"@),
            Some("resource"@),
            Some("check file path and permissions"@),
        ),
        OverwriteOutcome::Other { message } => (
            message@,
            true,
            true,
            Some("internal_error"@),
            Some("resource"@),
            Some("check file path and permissions"@),
        ),
        OverwriteOutcome::Written { .. } => (seq![], false, false, None, None, None),
    }
}

/// The view of an optional static string.
pub open spec fn opt_str(o: Option<&'static str>) -> Option<Seq<char>> {
    match o {
        Some(s) => Some(s@),
        None => None,
    }
}

/// Reports a write of the file given as `param_path`. A successful write
/// returns `Wrote N bytes to P`, records a metric and forgets the failures
/// counted on `P` for the session, so a later `edit_replace` on it starts
/// from zero; a failure leaves the counter as it is. An I/O failure reports
/// `param_path`, the error's kind and its text.
pub fn edit_overwrite_report(
    outcome: &OverwriteOutcome,
    param_path: &str,
    guard: &mut StaleContextGuard,
    counts: &mut FailureCounts,
) -> (r: OverwriteReport)
    requires
        old(counts).wf(),
    ensures
        *final(guard) == *old(guard),
        final(counts).wf(),
        match outcome {
            OverwriteOutcome::Io { kind, source } => r.io_detail matches Some(d) && d.path@
                == param_path@ && d.kind@ == kind@ && d.source@ == source@,
            _ => r.io_detail is None,
        },
        match outcome {
            OverwriteOutcome::Written { path, bytes_written } => {
                &&& r.text@ == written_text(*bytes_written as nat, path@)
                &&& !r.is_error && !r.internal && r.records_metric
                &&& r.error_type is None && r.category is None && r.suggested_action is None
                &&& final(counts).counts() == old(counts).counts().remove(
                    (old(guard).session(), path@),
                )
                &&& final(counts).size() == size_after_remove(
                    old(counts).counts(),
                    old(counts).size(),
                    (old(guard).session(), path@),
                )
            },
            _ => {
                let f = failure_report(*outcome);
                &&& r.text@ == f.0
                &&& r.is_error && r.internal == f.1 && r.records_metric == f.2
                &&& opt_str(r.error_type) == f.3
                &&& opt_str(r.category) == f.4
                &&& opt_str(r.suggested_action) == f.5
                &&& final(counts).counts() == old(counts).counts()
                &&& final(counts).size() == old(counts).size()
            },
        },
{
    match outcome {
        OverwriteOutcome::Written { path, bytes_written } => {
            let mut v: Vec<char> = Vec::new();
            push_str(&mut v, "Wrote ");
            push_decimal(&mut v, *bytes_written as u64);
            push_str(&mut v, " bytes to ");
            push_str(&mut v, path.as_str());
            guard.reset(counts, path.as_str());
            OverwriteReport {
                text: string_of(v.as_slice()),
                is_error: false,
                internal: false,
                records_metric: true,
                error_type: None,
                category: None,
                suggested_action: None,
                io_detail: None,
            }
        },
        OverwriteOutcome::InvalidWorkingDir => OverwriteReport {
            text: "working_dir is not valid; provide an existing directory path".to_owned(),
            is_error: true,
            internal: false,
            records_metric: false,
            error_type: None,
            category: None,
            suggested_action: None,
            io_detail: None,
        },
        OverwriteOutcome::DirectoryTarget => OverwriteReport {
            text: "path is a directory; cannot write to a directory".to_owned(),
            is_error: true,
            internal: false,
            records_metric: true,
            error_type: Some("invalid_params"),
            category: Some("validation"),
            suggested_action: Some("provide a file path, not a directory"),
            io_detail: None,
        },
        OverwriteOutcome::NotAFile => OverwriteReport {
            text: "path is a directory".to_owned(),
            is_error: true,
            internal: false,
            records_metric: true,
            error_type: Some("invalid_params"),
            category: Some("validation"),
            suggested_action: Some("provide a file path, not a directory"),
            io_detail: None,
        },
        OverwriteOutcome::Io { kind, source } => OverwriteReport {
            text: "I/O error writing file; check file path and permissions".to_owned(),
            is_error: true,
            internal: true,
            records_metric: true,
            error_type: Some("internal_error"),
            category: Some("resource"),
            suggested_action: Some("check file path and permissions"),
            io_detail: Some(
                IoErrorDetail {
                    path: param_path.to_owned(),
                    kind: kind.clone(),
                    source: source.clone(),
                },
            ),
        },
        OverwriteOutcome::Other { message } => OverwriteReport {
            text: message.clone(),
            is_error: true,
            internal: true,
            records_metric: true,
            error_type: Some("internal_error"),
            category: Some("resource"),
            suggested_action: Some("check file path and permissions"),
            io_detail: None,
        },
    }
}

} // verus!
