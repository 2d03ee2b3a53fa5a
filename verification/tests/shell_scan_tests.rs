use aptu_coder::shell_scan::{scan_backward_for_file_write, scan_backward_for_stdin_flag};

#[test]
fn scan_backward_empty_input_not_file_write() {
    assert!(!scan_backward_for_file_write(b"", 0));
}

#[test]
fn scan_backward_only_whitespace_before_heredoc_not_file_write() {
    let cmd = b"   <<";
    assert!(!scan_backward_for_file_write(cmd, 3));
}

#[test]
fn scan_backward_leading_whitespace_file_token_then_redirect() {
    let cmd = b"  cat > file <<";
    assert!(scan_backward_for_file_write(cmd, 13));
}

#[test]
fn scan_backward_file_token_only_no_redirect_no_tee_not_file_write() {
    let cmd = b"somecmd file <<";
    assert!(!scan_backward_for_file_write(cmd, 13));
}

#[test]
fn scan_backward_redirect_after_separator_stops() {
    // `echo x; > f <<` : the redirect is bare once `;` is reached
    assert!(!scan_backward_for_file_write(b"ls | grep x > f <<", 16));
    assert!(scan_backward_for_file_write(b">> f <<", 5));
    assert!(scan_backward_for_file_write(b"cat > $(mktemp) <<", 16));
}

#[test]
fn scan_backward_stdin_flags() {
    assert!(scan_backward_for_stdin_flag(b"curl --data - <<", 14));
    assert!(scan_backward_for_stdin_flag(b"tool --stdin <<", 13));
    assert!(!scan_backward_for_stdin_flag(b"tool --verbose <<", 15));
    assert!(!scan_backward_for_stdin_flag(b"   <<", 3));
    assert!(!scan_backward_for_stdin_flag(b"- <<", 2));
}

#[test]
fn scan_backward_tokens_stop_at_separators() {
    assert!(scan_backward_for_file_write(b"(cat > f <<", 9));
    assert!(scan_backward_for_file_write(b"echo x;cat > f <<", 15));
    assert!(scan_backward_for_file_write(b"true&&tee f <<", 12));
    assert!(!scan_backward_for_file_write(b"echo x;<<", 7));
    assert!(scan_backward_for_stdin_flag(b"cat - <<", 6));
}
