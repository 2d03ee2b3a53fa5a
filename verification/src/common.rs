//! Checks and small decisions shared by the tool handlers: parameter
//! conflicts, cursor normalization, `analyze_symbol` argument checks, the
//! tools a client profile turns off, and session ids.

use vstd::prelude::*;
use crate::metrics::{extension_of, file_name_of};
use crate::text::{chars_eq, chars_of, decimal, push_decimal, push_str, string_of};

verus! {

/// Is `summary=true` given together with a cursor? Summary output and
/// pagination exclude each other.
pub fn summary_cursor_conflict(summary: Option<bool>, cursor: Option<&str>) -> (r: bool)
    ensures
        r == (summary == Some(true) && cursor is Some),
{
    match summary {
        Some(true) => cursor.is_some(),
        _ => false,
    }
}

/// An empty cursor is the same as no cursor (the first page); any other
/// cursor passes through.
pub fn normalize_cursor(cursor: Option<&str>) -> (r: Option<&str>)
    ensures
        match cursor {
            Some(c) => if c@.len() == 0 {
                r is None
            } else {
                r == Some(c)
            },
            None => r is None,
        },
{
    match cursor {
        Some(c) => {
            if c.is_empty() {
                None
            } else {
                Some(c)
            }
        },
        None => None,
    }
}

/// The refusal of `import_lookup=true` without a module path.
pub open spec fn import_lookup_message() -> Seq<char> {
    "import_lookup=true requires symbol to contain the module path to search for"@
}

/// `import_lookup=true` needs a non-empty symbol (the module path).
pub fn validate_import_lookup(import_lookup: Option<bool>, symbol: &str) -> (r: Result<(), String>)
    ensures
        (import_lookup == Some(true) && symbol@.len() == 0) ==> (r matches Err(m) && m@
            == import_lookup_message()),
        !(import_lookup == Some(true) && symbol@.len() == 0) ==> r is Ok,
{
    if import_lookup == Some(true) && symbol.is_empty() {
        return Err(
            "import_lookup=true requires symbol to contain the module path to search for".to_owned(),
        );
    }
    Ok(())
}

/// An entry of a directory walk as plain values.
#[derive(Clone, Debug)]
pub struct WalkEntry {
    pub path: String,
    pub is_dir: bool,
}

/// Is the entry a file whose extension is exactly `rs`?
pub open spec fn is_rust_file(e: WalkEntry) -> bool {
    !e.is_dir && match file_name_of(e.path@) {
        Some(n) => extension_of(n) == Some("rs"@),
        None => false,
    }
}

/// The refusal of `impl_only=true` where no Rust file is found.
pub open spec fn impl_only_message() -> Seq<char> {
    "impl_only=true requires Rust source files. No .rs files found in the given path. Use analyze_symbol without impl_only for cross-language analysis."@
}

fn rust_file(e: &WalkEntry) -> (r: bool)
    ensures
        r == is_rust_file(*e),
{
    if e.is_dir {
        return false;
    }
    let p = chars_of(e.path.as_str());
    let segs = crate::text::split_chars(p.as_slice(), '/');
    let ghost sv = crate::text::views(segs@);
    let mut i = segs.len();
    assert(sv.subrange(0, i as int) =~= sv);
    while i > 0 && !(segs[i - 1].len() > 0 && !chars_eq(segs[i - 1].as_slice(), "."))
        invariant
            i <= segs@.len(),
            sv == crate::text::views(segs@),
            crate::metrics::last_component(sv.subrange(0, i as int))
                == crate::metrics::last_component(sv),
        decreases i,
    {
        let ghost cur = sv.subrange(0, i as int);
        assert(cur.drop_last() =~= sv.subrange(0, i - 1));
        assert(cur.last() == segs@[i - 1]@);
        i = i - 1;
    }
    if i == 0 {
        assert(sv.subrange(0, 0).len() == 0);
        return false;
    }
    let name = &segs[i - 1];
    proof {
        let cur = sv.subrange(0, i as int);
        assert(cur.last() == name@);
    }
    if chars_eq(name.as_slice(), "..") {
        return false;
    }
    let mut k = name.len();
    while k > 0 && name[k - 1] != '.'
        invariant
            k <= name@.len(),
            crate::metrics::last_dot(name@, k as int) == crate::metrics::last_dot(
                name@,
                name@.len() as int,
            ),
        decreases k,
    {
        k = k - 1;
    }
    if k <= 1 {
        return false;
    }
    let ext = crate::text::slice_chars(name.as_slice(), k, name.len());
    chars_eq(ext.as_slice(), "rs")
}

/// `impl_only=true` needs at least one Rust source file among the entries.
pub fn validate_impl_only(entries: &[WalkEntry]) -> (r: Result<(), String>)
    ensures
        (exists|i: int| 0 <= i < entries@.len() && is_rust_file(#[trigger] entries@[i])) ==> r is Ok,
        !(exists|i: int| 0 <= i < entries@.len() && is_rust_file(#[trigger] entries@[i])) ==> (
        r matches Err(m) && m@ == impl_only_message()),
{
    let mut i: usize = 0;
    while i < entries.len()
        invariant
            i <= entries@.len(),
            forall|k: int| 0 <= k < i ==> !is_rust_file(#[trigger] entries@[k]),
        decreases entries@.len() - i,
    {
        if rust_file(&entries[i]) {
            return Ok(());
        }
        i = i + 1;
    }
    Err(
        "impl_only=true requires Rust source files. No .rs files found in the given path. Use analyze_symbol without impl_only for cross-language analysis.".to_owned(),
    )
}

/// The tools a client profile turns off: the analysis tools for `edit`,
/// the editing tools for `analyze` (both keep `exec_command`), none
/// otherwise.
pub open spec fn disabled_tools(profile: Option<Seq<char>>) -> Seq<Seq<char>> {
    match profile {
        Some(p) => if p == "edit"@ {
            seq!["analyze_directory"@, "analyze_file"@, "analyze_module"@, "analyze_symbol"@]
        } else if p == "analyze"@ {
            seq!["edit_replace"@, "edit_overwrite"@]
        } else {
            seq![]
        },
        None => seq![],
    }
}

/// The tools to turn off for the session's profile.
pub fn profile_disabled_tools(profile: Option<&str>) -> (r: Vec<&'static str>)
    ensures
        r@.map_values(|t: &'static str| t@) == disabled_tools(
            match profile {
                Some(p) => Some(p@),
                None => None,
            },
        ),
{
    match profile {
        Some(p) => {
            let pv = chars_of(p);
            if chars_eq(pv.as_slice(), "edit") {
                let r = vec!["analyze_directory", "analyze_file", "analyze_module", "analyze_symbol"];
                assert(r@.map_values(|t: &'static str| t@) =~= disabled_tools(Some(p@)));
                r
            } else if chars_eq(pv.as_slice(), "analyze") {
                let r = vec!["edit_replace", "edit_overwrite"];
                assert(r@.map_values(|t: &'static str| t@) =~= disabled_tools(Some(p@)));
                r
            } else {
                let r: Vec<&'static str> = Vec::new();
                assert(r@.map_values(|t: &'static str| t@) =~= disabled_tools(Some(p@)));
                r
            }
        },
        None => {
            let r: Vec<&'static str> = Vec::new();
            assert(r@.map_values(|t: &'static str| t@) =~= disabled_tools(None));
            r
        },
    }
}

/// A session id `MILLIS-N` from the creation time and a process-wide counter.
pub fn session_id_text(millis: u64, counter: u64) -> (r: String)
    ensures
        r@ == decimal(millis as nat) + seq!['-'] + decimal(counter as nat),
{
    let mut v: Vec<char> = Vec::new();
    push_decimal(&mut v, millis);
    v.push('-');
    push_decimal(&mut v, counter);
    string_of(v.as_slice())
}

/// The logging levels a client can ask for.
#[derive(Clone, Copy, Debug, PartialEq, Eq, Structural)]
pub enum LoggingLevel {
    Debug,
    Info,
    Notice,
    Warning,
    Error,
    Critical,
    Alert,
    Emergency,
}

/// The levels the server's log filter distinguishes.
#[derive(Clone, Copy, Debug, PartialEq, Eq, Structural)]
pub enum LevelFilter {
    Debug,
    Info,
    Warn,
    Error,
}

/// The filter level for a requested logging level: notices count as
/// information, and every level above a warning as an error.
pub open spec fn level_filter_of(level: LoggingLevel) -> LevelFilter {
    match level {
        LoggingLevel::Debug => LevelFilter::Debug,
        LoggingLevel::Info | LoggingLevel::Notice => LevelFilter::Info,
        LoggingLevel::Warning => LevelFilter::Warn,
        _ => LevelFilter::Error,
    }
}

/// The log filter level to use for a `logging/setLevel` request.
pub fn level_filter_for(level: LoggingLevel) -> (r: LevelFilter)
    ensures
        r == level_filter_of(level),
{
    match level {
        LoggingLevel::Debug => LevelFilter::Debug,
        LoggingLevel::Info | LoggingLevel::Notice => LevelFilter::Info,
        LoggingLevel::Warning => LevelFilter::Warn,
        LoggingLevel::Error | LoggingLevel::Critical | LoggingLevel::Alert | LoggingLevel::Emergency => {
            LevelFilter::Error
        },
    }
}

/// Most completion values returned at once.
pub const MAX_COMPLETIONS: usize = 100;

/// A completion answer: at most `MAX_COMPLETIONS` values (the first ones),
/// the total number found (capped at `u32::MAX`), and whether more were
/// found than returned.
pub fn cap_completions(values: Vec<String>) -> (r: (Vec<String>, u32, bool))
    ensures
        r.1 == (if values@.len() > u32::MAX {
            u32::MAX as int
        } else {
            values@.len() as int
        }),
        r.2 == (values@.len() > MAX_COMPLETIONS),
        r.0@ == (if values@.len() > MAX_COMPLETIONS {
            values@.subrange(0, MAX_COMPLETIONS as int)
        } else {
            values@
        }),
{
    let n = values.len();
    let total: u32 = if n > u32::MAX as usize {
        u32::MAX
    } else {
        n as u32
    };
    if n > MAX_COMPLETIONS {
        let mut v = values;
        v.truncate(MAX_COMPLETIONS);
        (v, total, true)
    } else {
        (values, total, false)
    }
}

/// How a file analysis is returned: as a summary, in full, or refused as
/// too large (with the message to show).
#[derive(Clone, Debug, PartialEq, Eq)]
pub enum OutputMode {
    Summary,
    Full,
    TooLarge { message: String },
}

/// The refusal of a formatted analysis of `len` characters.
pub open spec fn output_too_large_text(len: nat) -> Seq<char> {
    "Output exceeds 50K chars ("@ + decimal(len) + " chars, ~"@ + decimal(len / 4)
        + " tokens). Use one of:\n- Use summary=true for a compact overview\n- Use fields to limit output to specific sections (functions, classes, or imports)"@
}

/// The output mode for a formatted analysis of `formatted_len` characters:
/// a summary when asked for, or when not declined and the text exceeds
/// `SIZE_LIMIT`; otherwise the full text, unless it exceeds `SIZE_LIMIT`,
/// which is refused.
pub fn file_output_mode(summary: Option<bool>, formatted_len: usize) -> (r: OutputMode)
    ensures
        (r is Summary) <==> (summary == Some(true) || (summary is None && formatted_len
            > crate::SIZE_LIMIT)),
        (r is Full) <==> (summary != Some(true) && formatted_len <= crate::SIZE_LIMIT),
        r is TooLarge ==> r->message@ == output_too_large_text(formatted_len as nat),
{
    let use_summary = match summary {
        Some(b) => b,
        None => formatted_len > crate::SIZE_LIMIT,
    };
    if use_summary {
        OutputMode::Summary
    } else if formatted_len > crate::SIZE_LIMIT {
        let mut v: Vec<char> = Vec::new();
        push_str(&mut v, "Output exceeds 50K chars (");
        push_decimal(&mut v, formatted_len as u64);
        push_str(&mut v, " chars, ~");
        push_decimal(&mut v, (formatted_len / 4) as u64);
        push_str(
            &mut v,
            " tokens). Use one of:\n- Use summary=true for a compact overview\n- Use fields to limit output to specific sections (functions, classes, or imports)",
        );
        OutputMode::TooLarge { message: string_of(v.as_slice()) }
    } else {
        OutputMode::Full
    }
}

} // verus!
