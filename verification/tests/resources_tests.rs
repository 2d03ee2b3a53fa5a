use aptu_coder::resources::{
    decode_graph_cursor, encode_graph_cursor, graph_page_end, next_graph_cursor, page_edges,
    parse_graph_uri, GraphQuery, GraphUriError, OutputFormat, PAGE_SIZE,
};

#[test]
fn test_parse_graph_uri_blast_radius_happy_path() {
    let uri = "aptu-coder://graph/abc123/blast-radius/my_func";
    let (query, format) = parse_graph_uri(uri).unwrap();
    assert_eq!(
        query,
        GraphQuery::BlastRadius {
            repo_hash: "abc123".to_string(),
            symbol: "my_func".to_string(),
            depth: 3,
            cursor_offset: 0,
        }
    );
    assert_eq!(format, OutputFormat::Json);
    assert_eq!(query.repo_hash(), "abc123");
    assert_eq!(query.cursor_offset(), 0);
}

#[test]
fn test_parse_graph_uri_invalid_scheme() {
    let result = parse_graph_uri("file:///path/to/file");
    assert!(result.unwrap_err().message().contains("invalid URI scheme"));
}

#[test]
fn test_parse_graph_uri_unknown_query_type() {
    let result = parse_graph_uri("aptu-coder://graph/abc123/unknown/foo");
    assert!(result.unwrap_err().message().contains("unknown query type"));
}

#[test]
fn test_encode_decode_graph_cursor_roundtrip() {
    for offset in [0usize, 42, 9999] {
        let token = encode_graph_cursor(offset);
        assert_eq!(decode_graph_cursor(&token), Some(offset));
    }
}

#[test]
fn graph_cursor_token_is_base64url_of_json() {
    // {"g":50} in unpadded base64url.
    assert_eq!(encode_graph_cursor(50), "eyJnIjo1MH0");
    assert_eq!(decode_graph_cursor("eyJnIjo1MH0"), Some(50));
}

#[test]
fn test_parse_graph_uri_with_cursor() {
    let token = encode_graph_cursor(50);
    let uri = format!("aptu-coder://graph/abc123/blast-radius/my_func?cursor={token}");
    let (query, _format) = parse_graph_uri(&uri).unwrap();
    assert_eq!(
        query,
        GraphQuery::BlastRadius {
            repo_hash: "abc123".to_string(),
            symbol: "my_func".to_string(),
            depth: 3,
            cursor_offset: 50,
        }
    );
}

#[test]
fn test_decode_graph_cursor_rejects_garbage() {
    assert_eq!(decode_graph_cursor("not-valid-base64"), None);
    assert_eq!(decode_graph_cursor(""), None);
}

#[test]
fn test_parse_graph_uri_depth_at_max_accepted() {
    let uri = "aptu-coder://graph/abc123/blast-radius/my_func?depth=5";
    let (query, _format) = parse_graph_uri(uri).unwrap();
    assert_eq!(
        query,
        GraphQuery::BlastRadius {
            repo_hash: "abc123".to_string(),
            symbol: "my_func".to_string(),
            depth: 5,
            cursor_offset: 0,
        }
    );
}

#[test]
fn test_parse_graph_uri_depth_exceeds_max_rejected() {
    let uri = "aptu-coder://graph/abc123/blast-radius/my_func?depth=6";
    let err = parse_graph_uri(uri).unwrap_err();
    assert!(
        err.message().contains("exceeds maximum"),
        "unexpected error message: {}",
        err.message()
    );
    assert_eq!(err, GraphUriError::DepthExceedsMax { depth: 6 });
}

#[test]
fn test_parse_graph_uri_bidirectional_happy_path() {
    let uri = "aptu-coder://graph/abc123/blast-radius-bidirectional/foo,bar?max_nodes=10&depth=2";
    let (query, format) = parse_graph_uri(uri).unwrap();
    assert_eq!(
        query,
        GraphQuery::BidirectionalBlastRadius {
            repo_hash: "abc123".to_string(),
            symbols: vec!["foo".to_string(), "bar".to_string()],
            max_nodes: 10,
            depth: 2,
            cursor_offset: 0,
        }
    );
    assert_eq!(format, OutputFormat::Json);
}

#[test]
fn test_parse_graph_uri_bidirectional_empty_symbols_rejected() {
    let uri = "aptu-coder://graph/abc123/blast-radius-bidirectional/?depth=3";
    let err = parse_graph_uri(uri).unwrap_err();
    assert!(err.message().contains("at least one"));
}

#[test]
fn test_parse_graph_uri_format_text() {
    let uri = "aptu-coder://graph/abc123/blast-radius/my_func?format=text";
    let (_query, format) = parse_graph_uri(uri).unwrap();
    assert_eq!(format, OutputFormat::Text);
}

#[test]
fn test_parse_graph_uri_format_invalid_rejected() {
    let uri = "aptu-coder://graph/abc123/blast-radius/my_func?format=xml";
    let err = parse_graph_uri(uri).unwrap_err();
    assert!(err.message().contains("invalid format parameter"));
}

#[test]
fn parse_graph_uri_other_refusals() {
    let err =
        parse_graph_uri("aptu-coder://graph/abc123/blast-radius-bidirectional/f?depth=0").unwrap_err();
    assert_eq!(err, GraphUriError::DepthBelowOne);
    let (q, _) = parse_graph_uri("aptu-coder://graph/abc123/blast-radius/f?depth=0").unwrap();
    assert_eq!(q.cursor_offset(), 0);
    let err = parse_graph_uri("aptu-coder://graph/abc123/blast-radius/f?depth=x").unwrap_err();
    assert_eq!(err.message(), "invalid depth parameter: x");
    let err = parse_graph_uri("aptu-coder://graph/abc123/blast-radius/f?cursor=zz!").unwrap_err();
    assert!(err.message().starts_with("invalid graph cursor token"));
    let err = parse_graph_uri("aptu-coder://other/abc123").unwrap_err();
    assert!(err.message().starts_with("invalid URI path"));
    let err = parse_graph_uri(
        "aptu-coder://graph/abc123/blast-radius-bidirectional/a?max_nodes=0",
    )
    .unwrap_err();
    assert_eq!(err, GraphUriError::MaxNodesBelowOne);
}

#[test]
fn parse_graph_uri_subgraph() {
    let (query, format) = parse_graph_uri("aptu-coder://graph/h/subgraph/sym?format=json").unwrap();
    assert_eq!(
        query,
        GraphQuery::Subgraph {
            repo_hash: "h".to_string(),
            symbol: "sym".to_string(),
            cursor_offset: 0,
        }
    );
    assert_eq!(format, OutputFormat::Json);
}

#[test]
fn graph_pages() {
    assert_eq!(graph_page_end(120, 0), PAGE_SIZE);
    assert_eq!(graph_page_end(120, 100), 120);
    assert_eq!(graph_page_end(10, 20), 20);
    assert_eq!(next_graph_cursor(120, 50), Some(encode_graph_cursor(50)));
    assert_eq!(next_graph_cursor(120, 120), None);
    let edges = [(0usize, 1usize), (1, 60), (55, 52), (51, 50)];
    assert_eq!(page_edges(&edges, 50, 100), vec![(2, 5, 2), (3, 1, 0)]);
    assert_eq!(page_edges(&edges, 0, 50), vec![(0, 0, 1)]);
}

#[test]
fn cursor_token_in_a_uri_is_read_back() {
    for n in [0usize, 1, 50, 123_456, usize::MAX] {
        let token = encode_graph_cursor(n);
        assert!(token.chars().all(|c| c.is_ascii_alphanumeric() || c == '-' || c == '_'));
        let uri = format!("aptu-coder://graph/abc123/blast-radius/src/lib.rs::f?cursor={token}");
        let (q, f) = parse_graph_uri(&uri).expect("uri should parse");
        assert_eq!(
            q,
            GraphQuery::BlastRadius {
                repo_hash: "abc123".to_string(),
                symbol: "src/lib.rs::f".to_string(),
                depth: 3,
                cursor_offset: n,
            }
        );
        assert_eq!(f, OutputFormat::Json);
    }
}
