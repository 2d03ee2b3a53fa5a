use aptu_coder::cli::{
    authorize_bearer, bearer_token_digest, parse_cli_args_with_env, parse_port, usage_text,
    CliAction,
};

#[test]
fn test_parse_cli_args_version() {
    assert_eq!(
        parse_cli_args_with_env(vec!["--version".to_string()], None),
        Ok(CliAction::PrintVersion)
    );
}

#[test]
fn test_parse_cli_args_help() {
    assert_eq!(
        parse_cli_args_with_env(vec!["--help".to_string()], None),
        Ok(CliAction::PrintHelp)
    );
}

#[test]
fn test_parse_cli_args_unknown_flag() {
    let err = parse_cli_args_with_env(vec!["--bogus".to_string()], None).unwrap_err();
    assert!(err.contains("--bogus"), "error must name the flag: {err}");
}

#[test]
fn test_parse_cli_args_port() {
    assert_eq!(
        parse_cli_args_with_env(vec!["--port".to_string(), "8080".to_string()], None),
        Ok(CliAction::Http(8080))
    );
}

#[test]
fn test_parse_cli_args_no_args() {
    assert_eq!(parse_cli_args_with_env(Vec::new(), None), Ok(CliAction::Stdio));
}

#[test]
fn test_parse_cli_args_env_port_fallback() {
    assert_eq!(
        parse_cli_args_with_env(Vec::new(), Some("9000".to_string())),
        Ok(CliAction::Http(9000))
    );
}

#[test]
fn cli_port_refusals() {
    assert_eq!(
        parse_cli_args_with_env(vec!["--port".to_string()], None),
        Err("--port requires a value".to_string())
    );
    assert_eq!(
        parse_cli_args_with_env(vec!["--port".to_string(), "0".to_string()], None),
        Err("--port must be a non-zero u16 value".to_string())
    );
    assert_eq!(
        parse_cli_args_with_env(vec!["--port".to_string(), "70000".to_string()], None),
        Err("--port \"70000\" is not a valid u16 value".to_string())
    );
    assert_eq!(
        parse_cli_args_with_env(Vec::new(), Some("abc".to_string())),
        Err("APTU_CODER_PORT \"abc\" is not a valid u16 value".to_string())
    );
    // An explicit --port wins over the environment.
    assert_eq!(
        parse_cli_args_with_env(
            vec!["--port".to_string(), "8080".to_string()],
            Some("abc".to_string())
        ),
        Ok(CliAction::Http(8080))
    );
    // --version ends the reading.
    assert_eq!(
        parse_cli_args_with_env(vec!["--version".to_string(), "--bogus".to_string()], None),
        Ok(CliAction::PrintVersion)
    );
}

#[test]
fn port_parsing() {
    assert_eq!(parse_port("65535"), Ok(65535));
    assert_eq!(parse_port("1"), Ok(1));
    assert!(parse_port("").is_err());
    assert!(parse_port("-1").is_err());
    assert_eq!(parse_port("a\"b"), Err("\"a\\\"b\" is not a valid u16 value".to_string()));
}

#[test]
fn usage_mentions_flags() {
    let u = usage_text();
    assert!(u.starts_with("Usage: aptu-coder [OPTIONS]"));
    assert!(u.contains("--port <PORT>"));
    assert!(u.contains("APTU_CODER_PORT"));
}

#[test]
fn bearer_digest_is_blake3() {
    let d = bearer_token_digest("secret");
    assert_eq!(&d, blake3::hash(b"secret").as_bytes());
    assert_ne!(d, bearer_token_digest("other"));
}

#[test]
fn bearer_authorization() {
    let expected = bearer_token_digest("secret");
    assert!(authorize_bearer(Some("Bearer secret"), &expected));
    assert!(!authorize_bearer(Some("Bearer wrong"), &expected));
    assert!(!authorize_bearer(Some("Basic secret"), &expected));
    assert!(!authorize_bearer(Some("bearer secret"), &expected));
    assert!(!authorize_bearer(None, &expected));
}
