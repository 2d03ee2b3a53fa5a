//! Command-line handling of the server: the requested action (stdio, HTTP
//! on a port, version, help) and the bearer-token check of the HTTP
//! transport.

use vstd::prelude::*;
use vstd::string::StringSliceAdditionalSpecFns;
use vstd::utf8::encode_utf8;
use crate::text::{
    chars_eq, chars_of, has_prefix, parse_unsigned, parse_unsigned_decimal, push_str, slice_chars,
    string_of, starts_with,
};

verus! {

/// What `format!("{s:?}")` writes for the string `s`: the string quoted,
/// with its special characters escaped.
pub uninterp spec fn debug_quoted(s: Seq<char>) -> Seq<char>;

/// `format!("{s:?}")`.
///
/// Trusted (std): the text is `debug_quoted(s)`, a function of `s` alone.
#[verifier::external_body]
fn debug_text(s: &str) -> (r: String)
    ensures
        r@ == debug_quoted(s@),
{
    format!("{s:?}")
}

/// What `parse_port` makes of a port text: a non-zero `u16`, or the reason
/// it is not one.
pub open spec fn port_outcome(s: Seq<char>) -> Result<u16, Seq<char>> {
    match parse_unsigned(s, 65535) {
        Some(p) => if p == 0 {
            Err("must be a non-zero u16 value"@)
        } else {
            Ok(p as u16)
        },
        None => Err(debug_quoted(s) + " is not a valid u16 value"@),
    }
}

/// Parses a port: a decimal `u16` other than zero.
pub fn parse_port(s: &str) -> (r: Result<u16, String>)
    ensures
        match port_outcome(s@) {
            Ok(p) => r == Ok::<u16, String>(p),
            Err(m) => r matches Err(rm) && rm@ == m,
        },
{
    let v = chars_of(s);
    match parse_unsigned_decimal(v.as_slice(), 65535) {
        Some(0) => Err("must be a non-zero u16 value".to_owned()),
        Some(p) => Ok(p as u16),
        None => {
            let mut out = chars_of(debug_text(s).as_str());
            push_str(&mut out, " is not a valid u16 value");
            Err(string_of(out.as_slice()))
        },
    }
}

/// The action requested on the command line.
#[derive(Clone, Copy, Debug, PartialEq, Eq, Structural)]
pub enum CliAction {
    /// Serve over stdio (the default).
    Stdio,
    /// Serve over streamable HTTP on the given port.
    Http(u16),
    /// Print the package version and exit.
    PrintVersion,
    /// Print the usage text and exit.
    PrintHelp,
}

/// The usage text printed for `--help`.
pub open spec fn usage() -> Seq<char> {
    "Usage: aptu-coder [OPTIONS]\n\nFlags:\n  --port <PORT>  Serve over streamable HTTP on 127.0.0.1:<PORT> (non-zero u16)\n  --version      Print the package version and exit\n  --help         Print this help and exit\n\nTransports:\n  stdio (default when --port is omitted) or streamable HTTP when --port is set.\nThe APTU_CODER_PORT environment variable is used when --port is not passed."@
}

/// The usage text printed for `--help`.
pub fn usage_text() -> (r: String)
    ensures
        r@ == usage(),
{
    "Usage: aptu-coder [OPTIONS]\n\nFlags:\n  --port <PORT>  Serve over streamable HTTP on 127.0.0.1:<PORT> (non-zero u16)\n  --version      Print the package version and exit\n  --help         Print this help and exit\n\nTransports:\n  stdio (default when --port is omitted) or streamable HTTP when --port is set.\nThe APTU_CODER_PORT environment variable is used when --port is not passed.".to_owned()
}

/// The arguments from position `i` on, read with the port given so far:
/// the first `--version` or `--help` ends the reading; `--port` takes the
/// next argument as a port; anything else is refused. At the end the
/// environment port applies when no `--port` was given.
pub open spec fn cli_outcome(args: Seq<Seq<char>>, env_port: Option<Seq<char>>, i: int, port: Option<u16>) -> Result<
    CliAction,
    Seq<char>,
>
    decreases args.len() - i,
{
    if i < 0 || i >= args.len() {
        let p = if port is None && env_port is Some {
            match port_outcome(env_port.unwrap()) {
                Ok(p) => Ok(Some(p)),
                Err(m) => Err("APTU_CODER_PORT "@ + m),
            }
        } else {
            Ok(port)
        };
        match p {
            Err(m) => Err(m),
            Ok(Some(p)) => Ok(CliAction::Http(p)),
            Ok(None) => Ok(CliAction::Stdio),
        }
    } else if args[i] == "--version"@ {
        Ok(CliAction::PrintVersion)
    } else if args[i] == "--help"@ {
        Ok(CliAction::PrintHelp)
    } else if args[i] == "--port"@ {
        if i + 1 >= args.len() {
            Err("--port requires a value"@)
        } else {
            match port_outcome(args[i + 1]) {
                Ok(p) => cli_outcome(args, env_port, i + 2, Some(p)),
                Err(m) => Err("--port "@ + m),
            }
        }
    } else {
        Err("unknown flag: "@ + args[i])
    }
}

/// The views of the arguments.
pub open spec fn args_view(args: Seq<String>) -> Seq<Seq<char>> {
    args.map_values(|a: String| a@)
}

/// The optional environment port as characters.
pub open spec fn env_view(env_port: Option<String>) -> Option<Seq<char>> {
    match env_port {
        Some(s) => Some(s@),
        None => None,
    }
}

/// Resolves the requested action from the command-line arguments (without
/// the program name) and the `APTU_CODER_PORT` value, used when `--port`
/// is not given.
pub fn parse_cli_args_with_env(args: Vec<String>, env_port: Option<String>) -> (r: Result<
    CliAction,
    String,
>)
    ensures
        match cli_outcome(args_view(args@), env_view(env_port), 0, None) {
            Ok(a) => r == Ok::<CliAction, String>(a),
            Err(m) => r matches Err(rm) && rm@ == m,
        },
{
    let ghost av = args_view(args@);
    let mut port: Option<u16> = None;
    let mut i: usize = 0;
    while i < args.len()
        invariant
            i <= args@.len(),
            av == args_view(args@),
            cli_outcome(av, env_view(env_port), i as int, port) == cli_outcome(
                av,
                env_view(env_port),
                0,
                None,
            ),
        decreases args@.len() - i,
    {
        let arg = args[i].as_str();
        assert(av[i as int] == arg@);
        if chars_eq(chars_of(arg).as_slice(), "--version") {
            return Ok(CliAction::PrintVersion);
        }
        if chars_eq(chars_of(arg).as_slice(), "--help") {
            return Ok(CliAction::PrintHelp);
        }
        if chars_eq(chars_of(arg).as_slice(), "--port") {
            if i + 1 >= args.len() {
                return Err("--port requires a value".to_owned());
            }
            assert(av[i + 1] == args@[i + 1]@);
            match parse_port(args[i + 1].as_str()) {
                Ok(p) => {
                    port = Some(p);
                },
                Err(msg) => {
                    let mut out = chars_of("--port ");
                    push_str(&mut out, msg.as_str());
                    return Err(string_of(out.as_slice()));
                },
            }
            i = i + 2;
        } else {
            let mut out = chars_of("unknown flag: ");
            push_str(&mut out, arg);
            return Err(string_of(out.as_slice()));
        }
    }
    if port.is_none() {
        match &env_port {
            Some(val) => match parse_port(val.as_str()) {
                Ok(p) => {
                    port = Some(p);
                },
                Err(msg) => {
                    let mut out = chars_of("APTU_CODER_PORT ");
                    push_str(&mut out, msg.as_str());
                    return Err(string_of(out.as_slice()));
                },
            },
            None => {},
        }
    }
    match port {
        Some(p) => Ok(CliAction::Http(p)),
        None => Ok(CliAction::Stdio),
    }
}

// ---------------------------------------------------------------------------
// Bearer tokens
// ---------------------------------------------------------------------------

/// The BLAKE3 digest `blake3::hash` computes of `data`.
pub uninterp spec fn blake3_digest(data: Seq<u8>) -> Seq<u8>;

/// `blake3::hash(data)`, as its 32 bytes.
///
/// Trusted: the bytes are `blake3_digest(data)`.
#[verifier::external_body]
fn blake3_hash(data: &[u8]) -> (r: [u8; 32])
    ensures
        r@ == blake3_digest(data@),
{
    *blake3::hash(data).as_bytes()
}

/// Equality of two digests through `blake3::Hash`, whose comparison takes
/// the same time whatever the bytes.
///
/// Trusted: the answer is whether the bytes are equal.
#[verifier::external_body]
fn digests_equal(a: &[u8; 32], b: &[u8; 32]) -> (r: bool)
    ensures
        r == (a@ == b@),
{
    blake3::Hash::from_bytes(*a) == blake3::Hash::from_bytes(*b)
}

/// The digest of the configured bearer token, computed once at startup.
pub fn bearer_token_digest(token: &str) -> (r: [u8; 32])
    ensures
        r@ == blake3_digest(token.spec_bytes()),
{
    blake3_hash(token.as_bytes())
}

/// Is an `Authorization` header value accepted: `Bearer <token>` where the
/// token's digest equals the expected one?
pub open spec fn bearer_accepted(header: Option<Seq<char>>, expected: Seq<u8>) -> bool {
    match header {
        None => false,
        Some(h) => has_prefix(h, "Bearer "@) && blake3_digest(
            encode_utf8(h.subrange(7, h.len() as int)),
        ) == expected,
    }
}

/// Checks an `Authorization` header value against the expected token
/// digest; a missing header or one without the `Bearer ` scheme is refused.
pub fn authorize_bearer(header: Option<&str>, expected: &[u8; 32]) -> (r: bool)
    ensures
        r == bearer_accepted(
            match header {
                Some(h) => Some(h@),
                None => None,
            },
            expected@,
        ),
{
    match header {
        None => false,
        Some(h) => {
            let v = chars_of(h);
            if !starts_with(v.as_slice(), "Bearer ") {
                return false;
            }
            proof {
                reveal_strlit("Bearer ");
            }
            let token = string_of(slice_chars(v.as_slice(), 7, v.len()).as_slice());
            let digest = blake3_hash(token.as_str().as_bytes());
            digests_equal(&digest, expected)
        },
    }
}

} // verus!
