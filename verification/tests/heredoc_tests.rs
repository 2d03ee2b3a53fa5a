use aptu_coder::heredoc_validation::{validate_heredocs, HeredocError};

#[test]
fn validate_heredocs_simple_heredoc_ok() {
    let cmd = "cat <<EOF\nhello\nEOF\n";
    assert!(validate_heredocs(cmd, false).is_ok());
}

#[test]
fn validate_heredocs_file_write_pattern_returns_error() {
    let cmd = "tee output.txt <<EOF\ncontent\nEOF\n";
    let err = validate_heredocs(cmd, false);
    assert!(err.is_err());
    let msg = err.unwrap_err().message();
    assert!(msg.contains("heredoc file-write pattern"));
}

#[test]
fn validate_heredocs_stdin_flag_returns_error() {
    let cmd = "curl --data - <<EOF\ncontent\nEOF\n";
    let err = validate_heredocs(cmd, false);
    assert!(err.is_err());
    let msg = err.unwrap_err().message();
    assert!(msg.contains("stdin-consuming flag"));
}

#[test]
fn validate_heredocs_stdin_param_returns_error() {
    let cmd = "cat <<EOF\ncontent\nEOF\n";
    let err = validate_heredocs(cmd, true);
    assert!(err.is_err());
    let msg = err.unwrap_err().message();
    assert!(msg.contains("stdin parameter and heredoc"));
}

#[test]
fn validate_heredocs_empty_command_ok() {
    assert!(validate_heredocs("", false).is_ok());
}

#[test]
fn validate_heredocs_no_heredoc_ok() {
    assert!(validate_heredocs("echo hello", false).is_ok());
    assert!(validate_heredocs("ls -la", false).is_ok());
}

#[test]
fn heredoc_missing_closer_is_refused() {
    assert_eq!(validate_heredocs("cat <<EOF\nhello\n", false), Err(HeredocError::MissingCloser));
    assert_eq!(validate_heredocs("cat <<'EOF\nhello\nEOF\n", false), Err(HeredocError::MissingCloser));
    assert_eq!(validate_heredocs("cat <<", false), Err(HeredocError::MissingCloser));
}

#[test]
fn heredoc_strip_tabs_and_quoted_delimiters() {
    assert_eq!(validate_heredocs("cat <<-EOF\n\thello\n\tEOF\n", false), Ok(()));
    assert_eq!(validate_heredocs("cat <<'END'\nx\nEND", false), Ok(()));
    assert_eq!(validate_heredocs("cat <<\"END\"\nx\nEND\n", false), Ok(()));
    assert_eq!(validate_heredocs("cat <<\\END\nx\nEND\n", false), Ok(()));
    // without `-`, a tab-indented closer does not close
    assert_eq!(validate_heredocs("cat <<EOF\n\thello\n\tEOF\n", false), Err(HeredocError::MissingCloser));
}

#[test]
fn heredoc_quoted_operator_is_ignored() {
    assert_eq!(validate_heredocs("echo '<<EOF'", false), Ok(()));
    assert_eq!(validate_heredocs("echo \"a << b\" > out.txt", true), Ok(()));
    assert_eq!(validate_heredocs("echo \\'<<x", true), Err(HeredocError::StdinParam));
}

#[test]
fn heredoc_file_write_variants_are_refused() {
    for cmd in [
        "cat > f <<EOF\nx\nEOF\n",
        "cat >> f <<EOF\nx\nEOF\n",
        "> f <<EOF\nx\nEOF\n",
        "tee -a f <<EOF\nx\nEOF\n",
        "dd of=f <<EOF\nx\nEOF\n",
        "printf '%s' x > f <<EOF\nx\nEOF\n",
        "(cat > f <<EOF\nx\nEOF\n)",
        "cat > >(wc) <<EOF\nx\nEOF\n",
        "$CMD > f <<EOF\nx\nEOF\n",
        "echo x;cat > f <<EOF\nx\nEOF\n",
        "cat - <<EOF\nx\nEOF\n",
    ] {
        assert_eq!(validate_heredocs(cmd, false), Err(HeredocError::FileWrite), "command: {cmd}");
    }
}

#[test]
fn heredoc_stdin_flag_variants_are_refused() {
    for cmd in [
        "curl --data-binary - <<EOF\nx\nEOF\n",
        "gh api --body-file - <<EOF\nx\nEOF\n",
        "cmd --stdin <<EOF\nx\nEOF\n",
        "curl -d - <<EOF\nx\nEOF\n",
    ] {
        assert_eq!(validate_heredocs(cmd, false), Err(HeredocError::StdinFlag), "command: {cmd}");
    }
}

#[test]
fn heredoc_error_hints() {
    assert_eq!(HeredocError::FileWrite.hint(), "use edit_overwrite to write files");
    assert_eq!(HeredocError::StdinParam.hint(), "use the stdin parameter instead of a heredoc");
    assert!(HeredocError::MissingCloser.message().starts_with("heredoc closing delimiter not found"));
}
