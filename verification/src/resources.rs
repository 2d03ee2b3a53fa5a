//! Resource URIs of the structural knowledge graph:
//! `aptu-coder://graph/{repo_hash}/{query_type}/{arg}?cursor=..&depth=..&max_nodes=..&format=..`,
//! the opaque cursor tokens that page through a graph query, and the paging
//! of a query's nodes and edges.

use vstd::prelude::*;
use vstd::string::StringSliceAdditionalSpecFns;
use vstd::utf8::{decode_utf8, encode_utf8, valid_utf8};
use crate::text::{
    chars_eq, chars_of, decimal, find_char, find_char_from, has_prefix, join_chars, join_with,
    nonempty_trimmed, parse_unsigned, parse_unsigned_decimal, push_decimal, push_str,
    slice_chars, split_chars, split_on, starts_with, string_of, string_views,
    trimmed_nonempty_strings, views, lemma_find_char_is, lemma_split_last_piece, lemma_split_piece,
    lemma_split_shift, lemma_split_from_nonempty, lemma_join_split,
};
use base64::Engine;
use base64::engine::general_purpose::URL_SAFE_NO_PAD;

verus! {

/// Nodes per page of a JSON graph read.
pub const PAGE_SIZE: usize = 50;

/// Largest blast-radius depth a URI may ask for.
pub const MAX_GRAPH_DEPTH: usize = 5;

/// Depth used when a URI gives none.
pub const DEFAULT_GRAPH_DEPTH: usize = 3;

/// Node cap of a bidirectional traversal when a URI gives none.
pub const DEFAULT_MAX_NODES: usize = 50;

/// Output format of a graph read.
#[derive(Clone, Copy, Debug, PartialEq, Eq, Structural)]
pub enum OutputFormat {
    Json,
    Text,
}

/// A graph query named by a resource URI.
#[derive(Clone, Debug, PartialEq)]
pub enum GraphQuery {
    BlastRadius { repo_hash: String, symbol: String, depth: usize, cursor_offset: usize },
    Subgraph { repo_hash: String, symbol: String, cursor_offset: usize },
    BidirectionalBlastRadius {
        repo_hash: String,
        symbols: Vec<String>,
        max_nodes: usize,
        depth: usize,
        cursor_offset: usize,
    },
}

/// A graph query with its strings taken as character sequences.
pub enum GraphQueryView {
    BlastRadius { repo_hash: Seq<char>, symbol: Seq<char>, depth: nat, cursor_offset: nat },
    Subgraph { repo_hash: Seq<char>, symbol: Seq<char>, cursor_offset: nat },
    BidirectionalBlastRadius {
        repo_hash: Seq<char>,
        symbols: Seq<Seq<char>>,
        max_nodes: nat,
        depth: nat,
        cursor_offset: nat,
    },
}

impl View for GraphQuery {
    type V = GraphQueryView;

    open spec fn view(&self) -> GraphQueryView {
        match self {
            GraphQuery::BlastRadius { repo_hash, symbol, depth, cursor_offset } => {
                GraphQueryView::BlastRadius {
                    repo_hash: repo_hash@,
                    symbol: symbol@,
                    depth: *depth as nat,
                    cursor_offset: *cursor_offset as nat,
                }
            },
            GraphQuery::Subgraph { repo_hash, symbol, cursor_offset } => GraphQueryView::Subgraph {
                repo_hash: repo_hash@,
                symbol: symbol@,
                cursor_offset: *cursor_offset as nat,
            },
            GraphQuery::BidirectionalBlastRadius {
                repo_hash,
                symbols,
                max_nodes,
                depth,
                cursor_offset,
            } => GraphQueryView::BidirectionalBlastRadius {
                repo_hash: repo_hash@,
                symbols: string_views(symbols@),
                max_nodes: *max_nodes as nat,
                depth: *depth as nat,
                cursor_offset: *cursor_offset as nat,
            },
        }
    }
}

/// The repository hash of a query view.
pub open spec fn query_repo_hash(q: GraphQueryView) -> Seq<char> {
    match q {
        GraphQueryView::BlastRadius { repo_hash, .. } => repo_hash,
        GraphQueryView::Subgraph { repo_hash, .. } => repo_hash,
        GraphQueryView::BidirectionalBlastRadius { repo_hash, .. } => repo_hash,
    }
}

/// The cursor offset of a query view.
pub open spec fn query_cursor_offset(q: GraphQueryView) -> nat {
    match q {
        GraphQueryView::BlastRadius { cursor_offset, .. } => cursor_offset,
        GraphQueryView::Subgraph { cursor_offset, .. } => cursor_offset,
        GraphQueryView::BidirectionalBlastRadius { cursor_offset, .. } => cursor_offset,
    }
}

impl GraphQuery {
    /// The repository hash the query reads the graph of.
    pub fn repo_hash(&self) -> (s: &str)
        ensures
            s@ == query_repo_hash(self@),
    {
        match self {
            GraphQuery::BlastRadius { repo_hash, .. } => repo_hash.as_str(),
            GraphQuery::Subgraph { repo_hash, .. } => repo_hash.as_str(),
            GraphQuery::BidirectionalBlastRadius { repo_hash, .. } => repo_hash.as_str(),
        }
    }

    /// The node offset the query's page starts at.
    pub fn cursor_offset(&self) -> (n: usize)
        ensures
            n as nat == query_cursor_offset(self@),
    {
        match self {
            GraphQuery::BlastRadius { cursor_offset, .. } => *cursor_offset,
            GraphQuery::Subgraph { cursor_offset, .. } => *cursor_offset,
            GraphQuery::BidirectionalBlastRadius { cursor_offset, .. } => *cursor_offset,
        }
    }
}

/// Why a graph resource URI was refused.
#[derive(Clone, Debug, PartialEq)]
pub enum GraphUriError {
    InvalidScheme { uri: String },
    InvalidCursor { token: String },
    InvalidDepth { value: String },
    InvalidMaxNodes { value: String },
    InvalidFormat { value: String },
    InvalidPath { uri: String },
    DepthExceedsMax { depth: usize },
    EmptySymbols,
    DepthBelowOne,
    MaxNodesBelowOne,
    UnknownQueryType { query_type: String },
}

/// A refusal with its strings taken as character sequences.
pub enum GraphUriErrorView {
    InvalidScheme { uri: Seq<char> },
    InvalidCursor { token: Seq<char> },
    InvalidDepth { value: Seq<char> },
    InvalidMaxNodes { value: Seq<char> },
    InvalidFormat { value: Seq<char> },
    InvalidPath { uri: Seq<char> },
    DepthExceedsMax { depth: nat },
    EmptySymbols,
    DepthBelowOne,
    MaxNodesBelowOne,
    UnknownQueryType { query_type: Seq<char> },
}

impl View for GraphUriError {
    type V = GraphUriErrorView;

    open spec fn view(&self) -> GraphUriErrorView {
        match self {
            GraphUriError::InvalidScheme { uri } => GraphUriErrorView::InvalidScheme { uri: uri@ },
            GraphUriError::InvalidCursor { token } => GraphUriErrorView::InvalidCursor {
                token: token@,
            },
            GraphUriError::InvalidDepth { value } => GraphUriErrorView::InvalidDepth {
                value: value@,
            },
            GraphUriError::InvalidMaxNodes { value } => GraphUriErrorView::InvalidMaxNodes {
                value: value@,
            },
            GraphUriError::InvalidFormat { value } => GraphUriErrorView::InvalidFormat {
                value: value@,
            },
            GraphUriError::InvalidPath { uri } => GraphUriErrorView::InvalidPath { uri: uri@ },
            GraphUriError::DepthExceedsMax { depth } => GraphUriErrorView::DepthExceedsMax {
                depth: *depth as nat,
            },
            GraphUriError::EmptySymbols => GraphUriErrorView::EmptySymbols,
            GraphUriError::DepthBelowOne => GraphUriErrorView::DepthBelowOne,
            GraphUriError::MaxNodesBelowOne => GraphUriErrorView::MaxNodesBelowOne,
            GraphUriError::UnknownQueryType { query_type } => GraphUriErrorView::UnknownQueryType {
                query_type: query_type@,
            },
        }
    }
}

/// The message shown for each refusal.
pub open spec fn graph_uri_error_message(e: GraphUriErrorView) -> Seq<char> {
    match e {
        GraphUriErrorView::InvalidScheme { uri } => "invalid URI scheme: expected aptu-coder://, got "@
            + uri,
        GraphUriErrorView::InvalidCursor { token } => "invalid graph cursor token: "@ + token,
        GraphUriErrorView::InvalidDepth { value } => "invalid depth parameter: "@ + value,
        GraphUriErrorView::InvalidMaxNodes { value } => "invalid max_nodes parameter: "@ + value,
        GraphUriErrorView::InvalidFormat { value } =>
            "invalid format parameter: expected text or json, got "@ + value,
        GraphUriErrorView::InvalidPath { uri } =>
            "invalid URI path: expected graph/{repo_hash}/{query_type}/{arg}, got "@ + uri,
        GraphUriErrorView::DepthExceedsMax { depth } => "depth parameter exceeds maximum ("@
            + decimal(MAX_GRAPH_DEPTH as nat) + "): got "@ + decimal(depth),
        GraphUriErrorView::EmptySymbols =>
            "blast-radius-bidirectional requires at least one non-empty symbol name"@,
        GraphUriErrorView::DepthBelowOne => "depth parameter must be at least 1"@,
        GraphUriErrorView::MaxNodesBelowOne => "max_nodes parameter must be at least 1"@,
        GraphUriErrorView::UnknownQueryType { query_type } => "unknown query type '"@ + query_type
            + "': expected blast-radius, subgraph, or blast-radius-bidirectional"@,
    }
}

impl GraphUriError {
    /// The message shown for this refusal.
    pub fn message(&self) -> (s: String)
        ensures
            s@ == graph_uri_error_message(self@),
    {
        let mut v: Vec<char> = Vec::new();
        match self {
            GraphUriError::InvalidScheme { uri } => {
                push_str(&mut v, "invalid URI scheme: expected aptu-coder://, got ");
                push_str(&mut v, uri.as_str());
            },
            GraphUriError::InvalidCursor { token } => {
                push_str(&mut v, "invalid graph cursor token: ");
                push_str(&mut v, token.as_str());
            },
            GraphUriError::InvalidDepth { value } => {
                push_str(&mut v, "invalid depth parameter: ");
                push_str(&mut v, value.as_str());
            },
            GraphUriError::InvalidMaxNodes { value } => {
                push_str(&mut v, "invalid max_nodes parameter: ");
                push_str(&mut v, value.as_str());
            },
            GraphUriError::InvalidFormat { value } => {
                push_str(&mut v, "invalid format parameter: expected text or json, got ");
                push_str(&mut v, value.as_str());
            },
            GraphUriError::InvalidPath { uri } => {
                push_str(&mut v, "invalid URI path: expected graph/{repo_hash}/{query_type}/{arg}, got ");
                push_str(&mut v, uri.as_str());
            },
            GraphUriError::DepthExceedsMax { depth } => {
                push_str(&mut v, "depth parameter exceeds maximum (");
                push_decimal(&mut v, MAX_GRAPH_DEPTH as u64);
                push_str(&mut v, "): got ");
                push_decimal(&mut v, *depth as u64);
            },
            GraphUriError::EmptySymbols => {
                push_str(&mut v, "blast-radius-bidirectional requires at least one non-empty symbol name");
            },
            GraphUriError::DepthBelowOne => {
                push_str(&mut v, "depth parameter must be at least 1");
            },
            GraphUriError::MaxNodesBelowOne => {
                push_str(&mut v, "max_nodes parameter must be at least 1");
            },
            GraphUriError::UnknownQueryType { query_type } => {
                push_str(&mut v, "unknown query type '");
                push_str(&mut v, query_type.as_str());
                push_str(&mut v, "': expected blast-radius, subgraph, or blast-radius-bidirectional");
            },
        }
        string_of(v.as_slice())
    }
}

// ---------------------------------------------------------------------------
// Cursor tokens
// ---------------------------------------------------------------------------

/// The text `base64`'s `URL_SAFE_NO_PAD` engine encodes the bytes `b` as.
pub uninterp spec fn base64_url_encoding(b: Seq<u8>) -> Seq<char>;

/// What `URL_SAFE_NO_PAD` decoding makes of the bytes `t`: the decoded
/// bytes, or `None` when `t` is not valid unpadded URL-safe base64.
pub uninterp spec fn base64_url_decoding(t: Seq<u8>) -> Option<Seq<u8>>;

/// The unsigned integer that `serde_json` finds under `key` when it parses
/// `text` as a JSON value: `None` when `text` is not JSON, is not an object
/// with that member, or the member is not an integer in `u64`'s range.
pub uninterp spec fn json_u64_member(text: Seq<char>, key: Seq<char>) -> Option<u64>;

/// The JSON text of an object with the single member `key` set to `n`.
pub open spec fn single_member_json(key: Seq<char>, n: nat) -> Seq<char> {
    "{\""@ + key + "\":"@ + decimal(n) + "}"@
}

/// Is every character of `k` an ASCII letter (so that it needs no escaping
/// inside a JSON string)?
pub open spec fn is_ascii_letters(k: Seq<char>) -> bool {
    forall|i: int|
        0 <= i < k.len() ==> (65 <= #[trigger] k[i] as int <= 90 || 97 <= k[i] as int <= 122)
}

/// Is `c` in the URL-safe base64 alphabet: `A`-`Z`, `a`-`z`, `0`-`9`, `-`
/// or `_`?
pub open spec fn is_base64url_char(c: char) -> bool {
    let u = c as u32;
    ||| 65 <= u <= 90
    ||| 97 <= u <= 122
    ||| 48 <= u <= 57
    ||| u == 45
    ||| u == 95
}

/// Is every character of `t` in the URL-safe base64 alphabet?
pub open spec fn is_base64url_text(t: Seq<char>) -> bool {
    forall|i: int| 0 <= i < t.len() ==> is_base64url_char(#[trigger] t[i])
}

/// `URL_SAFE_NO_PAD.encode(b)`.
///
/// Trusted: the text returned is the engine's encoding of `b`, and it is
/// written in the URL-safe alphabet with no `=` padding. The engine panics
/// only when the encoded length overflows `usize`, which no slice in memory
/// (at most `isize::MAX` bytes) can reach.
#[verifier::external_body]
fn base64_url_encode(b: &[u8]) -> (r: String)
    ensures
        r@ == base64_url_encoding(b@),
        is_base64url_text(r@),
{
    URL_SAFE_NO_PAD.encode(b)
}

/// `URL_SAFE_NO_PAD.decode(t)`, with the error dropped.
///
/// Trusted: the result is the engine's decoding of `t`, and decoding the
/// engine's own encoding of some bytes gives those bytes back.
#[verifier::external_body]
fn base64_url_decode(t: &[u8]) -> (r: Option<Vec<u8>>)
    ensures
        r is Some <==> base64_url_decoding(t@) is Some,
        r is Some ==> base64_url_decoding(t@) == Some(r.unwrap()@),
        forall|x: Seq<u8>|
            encode_utf8(#[trigger] base64_url_encoding(x)) == t@ ==> r is Some && r.unwrap()@ == x,
{
    URL_SAFE_NO_PAD.decode(t).ok()
}

/// `String::from_utf8(v)`, with the error dropped.
///
/// Trusted (std): the bytes become a string exactly when they are valid
/// UTF-8, and that string's bytes are `v`.
#[verifier::external_body]
fn utf8_string(v: Vec<u8>) -> (r: Option<String>)
    ensures
        r is Some <==> valid_utf8(v@),
        r is Some ==> encode_utf8(r.unwrap()@) == v@,
{
    String::from_utf8(v).ok()
}

/// `serde_json::from_str::<Value>(text)`, then `get(key)`, then `as_u64()`.
///
/// Trusted: the result is `json_u64_member(text, key)`, and for a key of
/// ASCII letters the text `{"key":n}` yields `n`.
#[verifier::external_body]
fn json_u64_field(text: &str, key: &str) -> (r: Option<u64>)
    ensures
        r == json_u64_member(text@, key@),
        forall|n: u64|
            is_ascii_letters(key@) && #[trigger] single_member_json(key@, n as nat) == text@ ==> r
                == Some(n),
{
    match serde_json::from_str::<serde_json::Value>(text) {
        Ok(v) => match v.get(key) {
            Some(m) => m.as_u64(),
            None => None,
        },
        Err(_) => None,
    }
}

/// The JSON text a graph cursor for `offset` carries: `{"g":offset}`.
pub open spec fn graph_cursor_json(offset: nat) -> Seq<char> {
    single_member_json("g"@, offset)
}

/// The cursor token for `offset`.
pub open spec fn graph_cursor_token(offset: nat) -> Seq<char> {
    base64_url_encoding(encode_utf8(graph_cursor_json(offset)))
}

/// The offset a cursor token stands for, if it is a valid graph cursor.
pub open spec fn graph_cursor_value(token: Seq<char>) -> Option<usize> {
    match base64_url_decoding(encode_utf8(token)) {
        None => None,
        Some(bytes) => if valid_utf8(bytes) {
            match json_u64_member(decode_utf8(bytes), "g"@) {
                Some(n) => Some(n as usize),
                None => None,
            }
        } else {
            None
        },
    }
}

/// The base64url (unpadded) encoding of `{"g":offset}`, a cursor token
/// that fits in a URI query string and cannot be taken for a list cursor.
pub fn encode_graph_cursor(offset: usize) -> (r: String)
    ensures
        r@ == graph_cursor_token(offset as nat),
        is_base64url_text(r@),
{
    let mut v: Vec<char> = Vec::new();
    push_str(&mut v, "{\"");
    push_str(&mut v, "g");
    push_str(&mut v, "\":");
    push_decimal(&mut v, offset as u64);
    push_str(&mut v, "}");
    let text = string_of(v.as_slice());
    base64_url_encode(text.as_str().as_bytes())
}

/// The offset a graph cursor token stands for: `None` for a token that is
/// not base64url, not UTF-8, not JSON, or has no unsigned `"g"` member.
/// Every token `encode_graph_cursor(n)` made decodes to `n`.
pub fn decode_graph_cursor(s: &str) -> (r: Option<usize>)
    ensures
        r == graph_cursor_value(s@),
        forall|n: usize| #[trigger] graph_cursor_token(n as nat) == s@ ==> r == Some(n),
{
    let decoded = base64_url_decode(s.as_bytes());
    let r = match decoded {
        None => None,
        Some(bytes) => {
            let ghost b = bytes@;
            match utf8_string(bytes) {
                None => None,
                Some(text) => {
                    proof {
                        vstd::utf8::encode_utf8_decode_utf8(text@);
                    }
                    assert(text@ == decode_utf8(b));
                    match json_u64_field(text.as_str(), "g") {
                        Some(n) => Some(n as usize),
                        None => None,
                    }
                },
            }
        },
    };
    proof {
        assert forall|n: usize| #[trigger] graph_cursor_token(n as nat) == s@ implies r == Some(
            n,
        ) by {
            let x = encode_utf8(graph_cursor_json(n as nat));
            assert(encode_utf8(base64_url_encoding(x)) == s.spec_bytes());
            vstd::utf8::encode_utf8_valid_utf8(graph_cursor_json(n as nat));
            vstd::utf8::encode_utf8_decode_utf8(graph_cursor_json(n as nat));
            lemma_g_key_letters();
            assert(single_member_json("g"@, (n as u64) as nat) == graph_cursor_json(n as nat));
        }
    }
    r
}

proof fn lemma_g_key_letters()
    ensures
        is_ascii_letters("g"@),
{
    reveal_strlit("g");
}

// ---------------------------------------------------------------------------
// URI parsing
// ---------------------------------------------------------------------------

/// Query-string settings: cursor offset, depth, node cap and format.
pub type ParamsView = (nat, nat, nat, OutputFormat);

/// The settings before any query parameter is read.
pub open spec fn default_params() -> ParamsView {
    (0, DEFAULT_GRAPH_DEPTH as nat, DEFAULT_MAX_NODES as nat, OutputFormat::Json)
}

/// The part of `kv` after the prefix `p`.
pub open spec fn after_prefix(kv: Seq<char>, p: Seq<char>) -> Seq<char> {
    kv.subrange(p.len() as int, kv.len() as int)
}

/// One `key=value` query parameter applied to the settings. Unknown keys
/// are ignored; a bad cursor, number or format is refused.
pub open spec fn apply_param(kv: Seq<char>, st: ParamsView) -> Result<ParamsView, GraphUriErrorView> {
    if has_prefix(kv, "cursor="@) {
        let token = after_prefix(kv, "cursor="@);
        match graph_cursor_value(token) {
            Some(n) => Ok((n as nat, st.1, st.2, st.3)),
            None => Err(GraphUriErrorView::InvalidCursor { token }),
        }
    } else if has_prefix(kv, "depth="@) {
        let d = after_prefix(kv, "depth="@);
        match parse_unsigned(d, usize::MAX as nat) {
            Some(n) => Ok((st.0, n, st.2, st.3)),
            None => Err(GraphUriErrorView::InvalidDepth { value: d }),
        }
    } else if has_prefix(kv, "max_nodes="@) {
        let m = after_prefix(kv, "max_nodes="@);
        match parse_unsigned(m, usize::MAX as nat) {
            Some(n) => Ok((st.0, st.1, n, st.3)),
            None => Err(GraphUriErrorView::InvalidMaxNodes { value: m }),
        }
    } else if has_prefix(kv, "format="@) {
        let f = after_prefix(kv, "format="@);
        if f == "text"@ {
            Ok((st.0, st.1, st.2, OutputFormat::Text))
        } else if f == "json"@ {
            Ok((st.0, st.1, st.2, OutputFormat::Json))
        } else {
            Err(GraphUriErrorView::InvalidFormat { value: f })
        }
    } else {
        Ok(st)
    }
}

/// The query parameters applied in order; the first refusal wins.
pub open spec fn apply_params(kvs: Seq<Seq<char>>, st: ParamsView) -> Result<
    ParamsView,
    GraphUriErrorView,
>
    decreases kvs.len(),
{
    if kvs.len() == 0 {
        Ok(st)
    } else {
        match apply_param(kvs[0], st) {
            Err(e) => Err(e),
            Ok(next) => apply_params(kvs.drop_first(), next),
        }
    }
}

/// The settings a URI's query string (after the first `?`) gives.
pub open spec fn uri_params(rest: Seq<char>) -> Result<ParamsView, GraphUriErrorView> {
    let q = find_char(rest, '?', 0);
    if q < rest.len() {
        apply_params(split_on(rest.subrange(q + 1, rest.len() as int), '&'), default_params())
    } else {
        Ok(default_params())
    }
}

/// The query a well-formed path `graph/{repo_hash}/{query_type}/{arg..}`
/// names under the given settings.
pub open spec fn path_query(segs: Seq<Seq<char>>, p: ParamsView) -> Result<
    (GraphQueryView, OutputFormat),
    GraphUriErrorView,
> {
    let repo_hash = segs[1];
    let query_type = segs[2];
    let arg = join_with(segs.subrange(3, segs.len() as int), '/');
    let (cursor, depth, max_nodes, format) = p;
    if query_type == "blast-radius"@ {
        if depth > MAX_GRAPH_DEPTH {
            Err(GraphUriErrorView::DepthExceedsMax { depth })
        } else {
            Ok(
                (
                    GraphQueryView::BlastRadius {
                        repo_hash,
                        symbol: arg,
                        depth,
                        cursor_offset: cursor,
                    },
                    format,
                ),
            )
        }
    } else if query_type == "subgraph"@ {
        Ok((GraphQueryView::Subgraph { repo_hash, symbol: arg, cursor_offset: cursor }, format))
    } else if query_type == "blast-radius-bidirectional"@ {
        let symbols = nonempty_trimmed(split_on(arg, ','));
        if symbols.len() == 0 {
            Err(GraphUriErrorView::EmptySymbols)
        } else if depth < 1 {
            Err(GraphUriErrorView::DepthBelowOne)
        } else if depth > MAX_GRAPH_DEPTH {
            Err(GraphUriErrorView::DepthExceedsMax { depth })
        } else if max_nodes < 1 {
            Err(GraphUriErrorView::MaxNodesBelowOne)
        } else {
            Ok(
                (
                    GraphQueryView::BidirectionalBlastRadius {
                        repo_hash,
                        symbols,
                        max_nodes,
                        depth,
                        cursor_offset: cursor,
                    },
                    format,
                ),
            )
        }
    } else {
        Err(GraphUriErrorView::UnknownQueryType { query_type })
    }
}

/// What a graph resource URI names: the scheme is checked first, then the
/// query string, then the path and the query type.
pub open spec fn graph_uri_meaning(uri: Seq<char>) -> Result<
    (GraphQueryView, OutputFormat),
    GraphUriErrorView,
> {
    if !has_prefix(uri, "aptu-coder://"@) {
        Err(GraphUriErrorView::InvalidScheme { uri })
    } else {
        let rest = after_prefix(uri, "aptu-coder://"@);
        match uri_params(rest) {
            Err(e) => Err(e),
            Ok(p) => {
                let segs = split_on(rest.subrange(0, find_char(rest, '?', 0)), '/');
                if segs.len() < 4 || segs[0] != "graph"@ {
                    Err(GraphUriErrorView::InvalidPath { uri })
                } else {
                    path_query(segs, p)
                }
            },
        }
    }
}

/// The settings as mathematical values.
pub open spec fn params_view(st: (usize, usize, usize, OutputFormat)) -> ParamsView {
    (st.0 as nat, st.1 as nat, st.2 as nat, st.3)
}

/// Applies one `key=value` query parameter to the settings.
fn apply_query_param(kv: &[char], st: (usize, usize, usize, OutputFormat)) -> (r: Result<
    (usize, usize, usize, OutputFormat),
    GraphUriError,
>)
    ensures
        match r {
            Ok(next) => apply_param(kv@, params_view(st)) == Ok::<ParamsView, GraphUriErrorView>(
                params_view(next),
            ),
            Err(e) => apply_param(kv@, params_view(st)) == Err::<ParamsView, GraphUriErrorView>(e@),
        },
{
    let (cursor, depth, max_nodes, format) = st;
    if starts_with(kv, "cursor=") {
        let n = chars_of("cursor=").len();
        let token = string_of(slice_chars(kv, n, kv.len()).as_slice());
        return match decode_graph_cursor(token.as_str()) {
            Some(c) => Ok((c, depth, max_nodes, format)),
            None => Err(GraphUriError::InvalidCursor { token }),
        };
    }
    if starts_with(kv, "depth=") {
        let n = chars_of("depth=").len();
        let d = slice_chars(kv, n, kv.len());
        return match parse_unsigned_decimal(d.as_slice(), usize::MAX as u64) {
            Some(v) => Ok((cursor, v as usize, max_nodes, format)),
            None => Err(GraphUriError::InvalidDepth { value: string_of(d.as_slice()) }),
        };
    }
    if starts_with(kv, "max_nodes=") {
        let n = chars_of("max_nodes=").len();
        let m = slice_chars(kv, n, kv.len());
        return match parse_unsigned_decimal(m.as_slice(), usize::MAX as u64) {
            Some(v) => Ok((cursor, depth, v as usize, format)),
            None => Err(GraphUriError::InvalidMaxNodes { value: string_of(m.as_slice()) }),
        };
    }
    if starts_with(kv, "format=") {
        let n = chars_of("format=").len();
        let f = slice_chars(kv, n, kv.len());
        if chars_eq(f.as_slice(), "text") {
            return Ok((cursor, depth, max_nodes, OutputFormat::Text));
        }
        if chars_eq(f.as_slice(), "json") {
            return Ok((cursor, depth, max_nodes, OutputFormat::Json));
        }
        return Err(GraphUriError::InvalidFormat { value: string_of(f.as_slice()) });
    }
    Ok(st)
}

/// Parses a graph resource URI
/// `aptu-coder://graph/{repo_hash}/{query_type}/{arg}?cursor=..&depth=N&max_nodes=M&format=..`.
///
/// The query type is `blast-radius` (depth at most `MAX_GRAPH_DEPTH`),
/// `subgraph`, or `blast-radius-bidirectional` (comma-separated symbols,
/// trimmed, at least one non-empty; depth between 1 and `MAX_GRAPH_DEPTH`;
/// node cap at least 1). Depth defaults to 3, the node cap to 50, the
/// format to JSON and the cursor offset to 0.
pub fn parse_graph_uri(uri: &str) -> (r: Result<(GraphQuery, OutputFormat), GraphUriError>)
    ensures
        match r {
            Ok((q, f)) => graph_uri_meaning(uri@) == Ok::<
                (GraphQueryView, OutputFormat),
                GraphUriErrorView,
            >((q@, f)),
            Err(e) => graph_uri_meaning(uri@) == Err::<
                (GraphQueryView, OutputFormat),
                GraphUriErrorView,
            >(e@),
        },
{
    let u = chars_of(uri);
    if !starts_with(u.as_slice(), "aptu-coder://") {
        return Err(GraphUriError::InvalidScheme { uri: uri.to_owned() });
    }
    let plen = chars_of("aptu-coder://").len();
    let rest = slice_chars(u.as_slice(), plen, u.len());
    let ghost restv = rest@;
    assert(restv == after_prefix(uri@, "aptu-coder://"@));
    let q = find_char_from(rest.as_slice(), '?', 0);
    let mut st: (usize, usize, usize, OutputFormat) = (
        0,
        DEFAULT_GRAPH_DEPTH,
        DEFAULT_MAX_NODES,
        OutputFormat::Json,
    );
    if q < rest.len() {
        let qs = slice_chars(rest.as_slice(), q + 1, rest.len());
        let kvs = split_chars(qs.as_slice(), '&');
        let ghost all = views(kvs@);
        let mut i: usize = 0;
        assert(all.subrange(0, all.len() as int) =~= all);
        while i < kvs.len()
            invariant
                i <= kvs@.len(),
                all == views(kvs@),
                all == split_on(restv.subrange(q + 1, restv.len() as int), '&'),
                q < restv.len(),
                q == find_char(restv, '?', 0),
                restv == after_prefix(uri@, "aptu-coder://"@),
                has_prefix(uri@, "aptu-coder://"@),
                apply_params(all.subrange(i as int, all.len() as int), params_view(st))
                    == apply_params(all, default_params()),
            decreases kvs@.len() - i,
        {
            let ghost tail = all.subrange(i as int, all.len() as int);
            assert(tail[0] == kvs@[i as int]@);
            assert(tail.drop_first() =~= all.subrange(i + 1, all.len() as int));
            match apply_query_param(kvs[i].as_slice(), st) {
                Err(e) => {
                    assert(all.subrange(0, all.len() as int) =~= all);
                    return Err(e);
                },
                Ok(next) => {
                    st = next;
                },
            }
            i = i + 1;
        }
        assert(all.subrange(i as int, all.len() as int) =~= Seq::<Seq<char>>::empty());
    }
    assert(uri_params(restv) == Ok::<ParamsView, GraphUriErrorView>(params_view(st)));
    let path = slice_chars(rest.as_slice(), 0, q);
    let segs = split_chars(path.as_slice(), '/');
    let ghost sv = views(segs@);
    if segs.len() < 4 {
        return Err(GraphUriError::InvalidPath { uri: uri.to_owned() });
    }
    assert(sv[0] == segs@[0]@);
    if !chars_eq(segs[0].as_slice(), "graph") {
        return Err(GraphUriError::InvalidPath { uri: uri.to_owned() });
    }
    assert(sv[1] == segs@[1]@);
    assert(sv[2] == segs@[2]@);
    let repo_hash = string_of(segs[1].as_slice());
    let query_type = segs[2].as_slice();
    let arg = join_chars(&segs, 3, '/');
    let (cursor, depth, max_nodes, format) = st;
    if chars_eq(query_type, "blast-radius") {
        if depth > MAX_GRAPH_DEPTH {
            return Err(GraphUriError::DepthExceedsMax { depth });
        }
        return Ok(
            (
                GraphQuery::BlastRadius {
                    repo_hash,
                    symbol: string_of(arg.as_slice()),
                    depth,
                    cursor_offset: cursor,
                },
                format,
            ),
        );
    }
    if chars_eq(query_type, "subgraph") {
        return Ok(
            (
                GraphQuery::Subgraph {
                    repo_hash,
                    symbol: string_of(arg.as_slice()),
                    cursor_offset: cursor,
                },
                format,
            ),
        );
    }
    if chars_eq(query_type, "blast-radius-bidirectional") {
        let pieces = split_chars(arg.as_slice(), ',');
        let symbols = trimmed_nonempty_strings(&pieces);
        if symbols.len() == 0 {
            return Err(GraphUriError::EmptySymbols);
        }
        if depth < 1 {
            return Err(GraphUriError::DepthBelowOne);
        }
        if depth > MAX_GRAPH_DEPTH {
            return Err(GraphUriError::DepthExceedsMax { depth });
        }
        if max_nodes < 1 {
            return Err(GraphUriError::MaxNodesBelowOne);
        }
        return Ok(
            (
                GraphQuery::BidirectionalBlastRadius {
                    repo_hash,
                    symbols,
                    max_nodes,
                    depth,
                    cursor_offset: cursor,
                },
                format,
            ),
        );
    }
    Err(GraphUriError::UnknownQueryType { query_type: string_of(query_type) })
}

// ---------------------------------------------------------------------------
// Paging a graph read
// ---------------------------------------------------------------------------

/// End (exclusive) of the page of `total` nodes that starts at `offset`:
/// at most `PAGE_SIZE` nodes, none when the offset is past the end.
pub open spec fn graph_page_end_of(total: nat, offset: nat) -> nat {
    if offset >= total {
        offset
    } else if offset + PAGE_SIZE <= total {
        offset + (PAGE_SIZE as nat)
    } else {
        total
    }
}

/// End (exclusive) of the page of `total` nodes that starts at `offset`.
pub fn graph_page_end(total: usize, offset: usize) -> (r: usize)
    ensures
        r as nat == graph_page_end_of(total as nat, offset as nat),
{
    if offset >= total {
        offset
    } else if total - offset >= PAGE_SIZE {
        offset + PAGE_SIZE
    } else {
        total
    }
}

/// Does the edge `src -> tgt` lie inside the page `[offset, end)`?
pub open spec fn edge_in_page(src: nat, tgt: nat, offset: nat, end: nat) -> bool {
    offset <= src < end && offset <= tgt < end
}

/// The edges of a page, in order: for each edge of `edges` (by position)
/// whose both ends lie in `[offset, end)`, its position and its ends
/// relative to `offset`.
pub open spec fn page_edges_of(edges: Seq<(usize, usize)>, offset: nat, end: nat) -> Seq<
    (nat, nat, nat),
>
    decreases edges.len(),
{
    if edges.len() == 0 {
        seq![]
    } else {
        let rest = page_edges_of(edges.drop_last(), offset, end);
        let (src, tgt) = edges.last();
        if edge_in_page(src as nat, tgt as nat, offset, end) {
            rest.push(((edges.len() - 1) as nat, (src - offset) as nat, (tgt - offset) as nat))
        } else {
            rest
        }
    }
}

/// The edge triples as mathematical values.
pub open spec fn triples_view(v: Seq<(usize, usize, usize)>) -> Seq<(nat, nat, nat)> {
    v.map_values(|t: (usize, usize, usize)| (t.0 as nat, t.1 as nat, t.2 as nat))
}

/// The edges of the page `[offset, end)`: each kept edge's index in
/// `edges` and its ends re-expressed relative to `offset`.
pub fn page_edges(edges: &[(usize, usize)], offset: usize, end: usize) -> (r: Vec<
    (usize, usize, usize),
>)
    ensures
        triples_view(r@) == page_edges_of(edges@, offset as nat, end as nat),
{
    let mut out: Vec<(usize, usize, usize)> = Vec::new();
    let mut i: usize = 0;
    while i < edges.len()
        invariant
            i <= edges@.len(),
            triples_view(out@) == page_edges_of(edges@.subrange(0, i as int), offset as nat, end as nat),
        decreases edges@.len() - i,
    {
        let (src, tgt) = edges[i];
        let ghost before = triples_view(out@);
        proof {
            let cur = edges@.subrange(0, i + 1);
            assert(cur.drop_last() =~= edges@.subrange(0, i as int));
            assert(cur.last() == edges@[i as int]);
        }
        if src >= offset && src < end && tgt >= offset && tgt < end {
            out.push((i, src - offset, tgt - offset));
            assert(triples_view(out@) =~= before.push((i as nat, (src - offset) as nat, (tgt - offset) as nat)));
        }
        i = i + 1;
    }
    assert(edges@.subrange(0, edges@.len() as int) =~= edges@);
    out
}

/// The cursor of the page after the one ending at `end`: present exactly
/// when nodes remain after `end`.
pub fn next_graph_cursor(total: usize, end: usize) -> (r: Option<String>)
    ensures
        r is Some <==> end < total,
        r is Some ==> r.unwrap()@ == graph_cursor_token(end as nat),
{
    if end < total {
        Some(encode_graph_cursor(end))
    } else {
        None
    }
}

/// The URI of a blast-radius query on `symbol` in the graph of
/// `repo_hash`, with the cursor token `token`.
pub open spec fn blast_radius_uri(repo_hash: Seq<char>, symbol: Seq<char>, token: Seq<char>) -> Seq<
    char,
> {
    "aptu-coder://graph/"@ + repo_hash + "/blast-radius/"@ + symbol + "?cursor="@ + token
}

/// The path of a blast-radius URI.
pub open spec fn blast_radius_path(repo_hash: Seq<char>, symbol: Seq<char>) -> Seq<char> {
    "graph/"@ + repo_hash + "/blast-radius/"@ + symbol
}

proof fn lemma_blast_radius_segments(h: Seq<char>, s: Seq<char>)
    requires
        forall|i: int| 0 <= i < h.len() ==> #[trigger] h[i] != '/',
    ensures
        split_on(blast_radius_path(h, s), '/') == seq!["graph"@, h, "blast-radius"@] + split_on(
            s,
            '/',
        ),
{
    reveal_strlit("graph/");
    reveal_strlit("/blast-radius/");
    reveal_strlit("graph");
    reveal_strlit("blast-radius");
    let p = blast_radius_path(h, s);
    let hl = h.len() as int;
    let k2 = 7 + hl;
    let k3 = 20 + hl;
    assert(p.len() == k3 + s.len());
    assert(p[5] == '/');
    assert(p[6 + hl] == '/');
    assert(p[k2 + 12] == '/');
    assert forall|m: int| 0 <= m < 5 implies p[m] != '/' by {
        assert(p[m] == "graph/"@[m]);
    }
    assert forall|m: int| 6 <= m < 6 + hl implies p[m] != '/' by {
        assert(p[m] == h[m - 6]);
    }
    assert forall|m: int| k2 <= m < k2 + 12 implies p[m] != '/' by {
        assert(p[m] == "/blast-radius/"@[m - 6 - hl]);
    }
    lemma_split_piece(p, '/', 0, 5);
    lemma_split_piece(p, '/', 6, 6 + hl);
    lemma_split_piece(p, '/', k2, k2 + 12);
    let pre = p.subrange(0, k3);
    assert(p =~= pre + s);
    lemma_split_shift(pre, s, '/', 0);
    assert(p.subrange(0, 5) =~= "graph"@);
    assert(p.subrange(6, 6 + hl) =~= h);
    assert(p.subrange(k2, k2 + 12) =~= "blast-radius"@);
    assert(split_on(p, '/') =~= seq!["graph"@, h, "blast-radius"@] + split_on(s, '/'));
}

proof fn lemma_cursor_query(t: Seq<char>, n: usize)
    requires
        is_base64url_text(t),
        graph_cursor_value(t) == Some(n),
    ensures
        apply_params(split_on("cursor="@ + t, '&'), default_params()) == Ok::<
            ParamsView,
            GraphUriErrorView,
        >((n as nat, DEFAULT_GRAPH_DEPTH as nat, DEFAULT_MAX_NODES as nat, OutputFormat::Json)),
{
    reveal_strlit("cursor=");
    let query = "cursor="@ + t;
    assert forall|m: int| 0 <= m < query.len() implies query[m] != '&' by {
        if m >= 7 {
            assert(query[m] == t[m - 7]);
            assert(is_base64url_char(t[m - 7]));
        }
    }
    lemma_split_last_piece(query, '&', 0);
    assert(query.subrange(0, query.len() as int) =~= query);
    let kvs = split_on(query, '&');
    assert(kvs =~= seq![query]);
    assert(query.subrange(0, 7) =~= "cursor="@);
    assert(after_prefix(query, "cursor="@) =~= t);
    let st = (n as nat, DEFAULT_GRAPH_DEPTH as nat, DEFAULT_MAX_NODES as nat, OutputFormat::Json);
    assert(apply_param(query, default_params()) == Ok::<ParamsView, GraphUriErrorView>(st));
    assert(kvs.drop_first() =~= Seq::<Seq<char>>::empty());
    assert(apply_params(kvs, default_params()) == apply_params(kvs.drop_first(), st));
}

proof fn lemma_blast_radius_rest(h: Seq<char>, s: Seq<char>, t: Seq<char>)
    requires
        forall|i: int| 0 <= i < h.len() ==> #[trigger] h[i] != '?',
        forall|i: int| 0 <= i < s.len() ==> #[trigger] s[i] != '?',
    ensures
        ({
            let p = blast_radius_path(h, s);
            let rest = p + ("?cursor="@ + t);
            &&& find_char(rest, '?', 0) == p.len()
            &&& rest.subrange(0, p.len() as int) == p
            &&& rest.subrange(p.len() as int + 1, rest.len() as int) == "cursor="@ + t
        }),
{
    reveal_strlit("graph/");
    reveal_strlit("/blast-radius/");
    reveal_strlit("?cursor=");
    reveal_strlit("cursor=");
    let p = blast_radius_path(h, s);
    let rest = p + ("?cursor="@ + t);
    let hl = h.len() as int;
    let k3 = 20 + hl;
    assert(p.len() == k3 + s.len());
    assert forall|m: int| 0 <= m < p.len() implies rest[m] != '?' by {
        assert(rest[m] == p[m]);
        if m < 6 {
            assert(p[m] == "graph/"@[m]);
        } else if m < 6 + hl {
            assert(p[m] == h[m - 6]);
        } else if m < k3 {
            assert(p[m] == "/blast-radius/"@[m - 6 - hl]);
        } else {
            assert(p[m] == s[m - k3]);
        }
    }
    assert(rest[p.len() as int] == '?');
    lemma_find_char_is(rest, '?', 0, p.len() as int);
    assert(rest.subrange(0, p.len() as int) =~= p);
    assert(rest.subrange(p.len() as int + 1, rest.len() as int) =~= "cursor="@ + t);
}

/// A cursor token placed in a blast-radius URI is read back: for a
/// repository hash without `/` or `?`, a symbol without `?`, and a token in
/// the URL-safe base64 alphabet that stands for the offset `n` (as every
/// token `encode_graph_cursor(n)` returns does), the URI names the
/// blast-radius query on that symbol at the default depth, starting at `n`,
/// in JSON.
pub proof fn law_cursor_uri_round_trip(
    repo_hash: Seq<char>,
    symbol: Seq<char>,
    token: Seq<char>,
    n: usize,
)
    requires
        forall|i: int| 0 <= i < repo_hash.len() ==> #[trigger] repo_hash[i] != '/' && repo_hash[i] != '?',
        forall|i: int| 0 <= i < symbol.len() ==> #[trigger] symbol[i] != '?',
        is_base64url_text(token),
        graph_cursor_value(token) == Some(n),
    ensures
        graph_uri_meaning(blast_radius_uri(repo_hash, symbol, token)) == Ok::<
            (GraphQueryView, OutputFormat),
            GraphUriErrorView,
        >(
            (
                GraphQueryView::BlastRadius {
                    repo_hash,
                    symbol,
                    depth: DEFAULT_GRAPH_DEPTH as nat,
                    cursor_offset: n as nat,
                },
                OutputFormat::Json,
            ),
        ),
{
    reveal_strlit("aptu-coder://graph/");
    reveal_strlit("aptu-coder://");
    reveal_strlit("?cursor=");
    reveal_strlit("graph/");
    reveal_strlit("graph");
    reveal_strlit("blast-radius");
    let h = repo_hash;
    let s = symbol;
    let t = token;
    let uri = blast_radius_uri(h, s, t);
    let p = blast_radius_path(h, s);
    let rest = p + ("?cursor="@ + t);
    assert(uri =~= "aptu-coder://"@ + rest);
    assert(uri.subrange(0, 13) =~= "aptu-coder://"@);
    assert(after_prefix(uri, "aptu-coder://"@) =~= rest);
    lemma_blast_radius_rest(h, s, t);
    lemma_cursor_query(t, n);
    let st = (n as nat, DEFAULT_GRAPH_DEPTH as nat, DEFAULT_MAX_NODES as nat, OutputFormat::Json);
    let qs = rest.subrange(p.len() as int + 1, rest.len() as int);
    assert(qs == "cursor="@ + t);
    assert(apply_params(split_on(qs, '&'), default_params()) == Ok::<ParamsView, GraphUriErrorView>(
        st,
    ));
    assert(find_char(rest, '?', 0) < rest.len());
    assert(uri_params(rest) == Ok::<ParamsView, GraphUriErrorView>(st));
    lemma_blast_radius_segments(h, s);
    let segs = split_on(p, '/');
    lemma_split_from_nonempty(s, '/', 0);
    assert(segs.subrange(3, segs.len() as int) =~= split_on(s, '/'));
    lemma_join_split(s, '/');
    assert(path_query(segs, st) == Ok::<(GraphQueryView, OutputFormat), GraphUriErrorView>(
        (
            GraphQueryView::BlastRadius {
                repo_hash: h,
                symbol: s,
                depth: DEFAULT_GRAPH_DEPTH as nat,
                cursor_offset: n as nat,
            },
            OutputFormat::Json,
        ),
    ));
}

/// The path `graph/{repo_hash}/{query_type}/{arg}` of a graph URI.
pub open spec fn graph_path(repo_hash: Seq<char>, query_type: Seq<char>, arg: Seq<char>) -> Seq<
    char,
> {
    "graph/"@ + repo_hash + "/"@ + query_type + "/"@ + arg
}

/// The URI of the `query_type` query on `arg` in the graph of `repo_hash`,
/// with the cursor token `token`.
pub open spec fn graph_cursor_uri(
    repo_hash: Seq<char>,
    query_type: Seq<char>,
    arg: Seq<char>,
    token: Seq<char>,
) -> Seq<char> {
    "aptu-coder://"@ + (graph_path(repo_hash, query_type, arg) + ("?cursor="@ + token))
}

proof fn lemma_graph_path_segments(h: Seq<char>, qt: Seq<char>, s: Seq<char>)
    requires
        forall|i: int| 0 <= i < h.len() ==> #[trigger] h[i] != '/',
        forall|i: int| 0 <= i < qt.len() ==> #[trigger] qt[i] != '/',
    ensures
        split_on(graph_path(h, qt, s), '/') == seq!["graph"@, h, qt] + split_on(s, '/'),
{
    reveal_strlit("graph/");
    reveal_strlit("/");
    reveal_strlit("graph");
    let p = graph_path(h, qt, s);
    let hl = h.len() as int;
    let ql = qt.len() as int;
    let k2 = 7 + hl;
    let k3 = k2 + ql + 1;
    assert(p.len() == k3 + s.len());
    assert(p[5] == '/');
    assert(p[6 + hl] == '/');
    assert(p[k2 + ql] == '/');
    assert forall|m: int| 0 <= m < 5 implies p[m] != '/' by {
        assert(p[m] == "graph/"@[m]);
    }
    assert forall|m: int| 6 <= m < 6 + hl implies p[m] != '/' by {
        assert(p[m] == h[m - 6]);
    }
    assert forall|m: int| k2 <= m < k2 + ql implies p[m] != '/' by {
        assert(p[m] == qt[m - k2]);
    }
    lemma_split_piece(p, '/', 0, 5);
    lemma_split_piece(p, '/', 6, 6 + hl);
    lemma_split_piece(p, '/', k2, k2 + ql);
    let pre = p.subrange(0, k3);
    assert(p =~= pre + s);
    lemma_split_shift(pre, s, '/', 0);
    assert(p.subrange(0, 5) =~= "graph"@);
    assert(p.subrange(6, 6 + hl) =~= h);
    assert(p.subrange(k2, k2 + ql) =~= qt);
    assert(split_on(p, '/') =~= seq!["graph"@, h, qt] + split_on(s, '/'));
}

proof fn lemma_graph_path_rest(h: Seq<char>, qt: Seq<char>, s: Seq<char>, t: Seq<char>)
    requires
        forall|i: int| 0 <= i < h.len() ==> #[trigger] h[i] != '?',
        forall|i: int| 0 <= i < qt.len() ==> #[trigger] qt[i] != '?',
        forall|i: int| 0 <= i < s.len() ==> #[trigger] s[i] != '?',
    ensures
        ({
            let p = graph_path(h, qt, s);
            let rest = p + ("?cursor="@ + t);
            &&& find_char(rest, '?', 0) == p.len()
            &&& rest.subrange(0, p.len() as int) == p
            &&& rest.subrange(p.len() as int + 1, rest.len() as int) == "cursor="@ + t
        }),
{
    reveal_strlit("graph/");
    reveal_strlit("/");
    reveal_strlit("?cursor=");
    reveal_strlit("cursor=");
    let p = graph_path(h, qt, s);
    let rest = p + ("?cursor="@ + t);
    let hl = h.len() as int;
    let ql = qt.len() as int;
    let k2 = 7 + hl;
    let k3 = k2 + ql + 1;
    assert(p.len() == k3 + s.len());
    assert forall|m: int| 0 <= m < p.len() implies rest[m] != '?' by {
        assert(rest[m] == p[m]);
        if m < 6 {
            assert(p[m] == "graph/"@[m]);
        } else if m < 6 + hl {
            assert(p[m] == h[m - 6]);
        } else if m < k2 {
            assert(p[m] == '/');
        } else if m < k2 + ql {
            assert(p[m] == qt[m - k2]);
        } else if m < k3 {
            assert(p[m] == '/');
        } else {
            assert(p[m] == s[m - k3]);
        }
    }
    assert(rest[p.len() as int] == '?');
    lemma_find_char_is(rest, '?', 0, p.len() as int);
    assert(rest.subrange(0, p.len() as int) =~= p);
    assert(rest.subrange(p.len() as int + 1, rest.len() as int) =~= "cursor="@ + t);
}

/// A cursor token is read back whatever the query type: in a URI
/// `aptu-coder://graph/{h}/{query_type}/{arg}?cursor={token}` (no `/` or `?`
/// in the hash and the query type, no `?` in the argument), a token in the
/// URL-safe base64 alphabet that stands for the offset `n` makes every query
/// the URI names start at `n`. A subgraph URI names the subgraph query on
/// its argument, starting at `n`, in JSON.
pub proof fn law_cursor_uri_offset_any_query(
    repo_hash: Seq<char>,
    query_type: Seq<char>,
    arg: Seq<char>,
    token: Seq<char>,
    n: usize,
)
    requires
        forall|i: int| 0 <= i < repo_hash.len() ==> #[trigger] repo_hash[i] != '/' && repo_hash[i] != '?',
        forall|i: int| 0 <= i < query_type.len() ==> #[trigger] query_type[i] != '/' && query_type[i] != '?',
        forall|i: int| 0 <= i < arg.len() ==> #[trigger] arg[i] != '?',
        is_base64url_text(token),
        graph_cursor_value(token) == Some(n),
    ensures
        graph_uri_meaning(graph_cursor_uri(repo_hash, query_type, arg, token)) matches Ok((q, f))
            ==> query_cursor_offset(q) == n,
        query_type == "subgraph"@ ==> graph_uri_meaning(
            graph_cursor_uri(repo_hash, query_type, arg, token),
        ) == Ok::<(GraphQueryView, OutputFormat), GraphUriErrorView>(
            (
                GraphQueryView::Subgraph { repo_hash, symbol: arg, cursor_offset: n as nat },
                OutputFormat::Json,
            ),
        ),
{
    reveal_strlit("aptu-coder://");
    reveal_strlit("?cursor=");
    reveal_strlit("graph");
    let h = repo_hash;
    let qt = query_type;
    let s = arg;
    let t = token;
    let uri = graph_cursor_uri(h, qt, s, t);
    let p = graph_path(h, qt, s);
    let rest = p + ("?cursor="@ + t);
    assert(uri.subrange(0, 13) =~= "aptu-coder://"@);
    assert(after_prefix(uri, "aptu-coder://"@) =~= rest);
    lemma_graph_path_rest(h, qt, s, t);
    lemma_cursor_query(t, n);
    let st = (n as nat, DEFAULT_GRAPH_DEPTH as nat, DEFAULT_MAX_NODES as nat, OutputFormat::Json);
    let qs = rest.subrange(p.len() as int + 1, rest.len() as int);
    assert(qs == "cursor="@ + t);
    assert(find_char(rest, '?', 0) < rest.len());
    assert(uri_params(rest) == Ok::<ParamsView, GraphUriErrorView>(st));
    lemma_graph_path_segments(h, qt, s);
    let segs = split_on(p, '/');
    lemma_split_from_nonempty(s, '/', 0);
    assert(segs.subrange(3, segs.len() as int) =~= split_on(s, '/'));
    lemma_join_split(s, '/');
    assert(segs[0] == "graph"@ && segs[1] == h && segs[2] == qt);
    assert(graph_uri_meaning(uri) == path_query(segs, st));
    if qt == "subgraph"@ {
        reveal_strlit("subgraph");
        reveal_strlit("blast-radius");
        assert("subgraph"@[0] != "blast-radius"@[0]);
        assert(qt != "blast-radius"@);
    }
}

} // verus!
