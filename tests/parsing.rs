use minishell::redirect::{parse_command_and_redirections, parse_input_line, RedirectionSpec, RedirectionTarget};
use minishell::text::{is_surrounded_by_quotes, join_with_space, remove_surrounding_quotes};
use minishell::tokenizer::parse_parameters;

fn strs(v: &[&str]) -> Vec<String> {
    v.iter().map(|s| s.to_string()).collect()
}

fn target(path: &str, append: bool) -> Option<RedirectionTarget> {
    Some(RedirectionTarget { path: path.to_string(), append })
}

#[test]
fn tokenize_quoted_runs() {
    let toks = parse_parameters("echo 'a b' \"c d\" e");
    assert_eq!(toks, strs(&["echo", "a b", "c d", "e"]));
    assert_eq!(toks[1..].to_vec(), strs(&["a b", "c d", "e"]));
}

#[test]
fn tokenize_escaped_space() {
    assert_eq!(parse_parameters("echo a\\ b"), strs(&["echo", "a b"]));
}

#[test]
fn tokenize_double_quote_backslash() {
    assert_eq!(parse_parameters("echo \"say \\\"hi\\\"\""), strs(&["echo", "say \"hi\""]));
}

#[test]
fn tokenize_adjacent_runs_merge() {
    assert_eq!(parse_parameters("echo foo'bar'"), strs(&["echo", "foobar"]));
    assert_eq!(parse_parameters("a\"b\"c"), strs(&["abc"]));
}

#[test]
fn tokenize_blank_input() {
    assert!(parse_parameters("").is_empty());
    assert!(parse_parameters("  \t ").is_empty());
}

#[test]
fn tokenize_unterminated_quote_closes_at_end() {
    assert_eq!(parse_parameters("echo 'abc def"), strs(&["echo", "abc def"]));
    assert_eq!(parse_parameters("\"x y"), strs(&["x y"]));
}

#[test]
fn tokenize_backslash_rules() {
    // Inside single quotes a backslash is literal.
    assert_eq!(parse_parameters("'a\\b'"), strs(&["a\\b"]));
    // Inside double quotes it escapes only \ $ " and newline.
    assert_eq!(parse_parameters("\"a\\nb\""), strs(&["a\\nb"]));
    assert_eq!(parse_parameters("\"a\\$b\\\\c\""), strs(&["a$b\\c"]));
    // Outside quotes it takes the next character literally.
    assert_eq!(parse_parameters("a\\'b"), strs(&["a'b"]));
    // A trailing backslash is kept.
    assert_eq!(parse_parameters("a\\"), strs(&["a\\"]));
}

#[test]
fn tokenize_empty_quotes_give_no_token() {
    assert_eq!(parse_parameters("a '' b"), strs(&["a", "b"]));
}

#[test]
fn split_stdout_truncate() {
    let (cmd, spec) = parse_command_and_redirections("echo hi > out.txt");
    assert_eq!(cmd, "echo hi");
    assert_eq!(spec.stdout, target("out.txt", false));
    assert_eq!(spec.stderr, None);
}

#[test]
fn split_stderr_append() {
    let (cmd, spec) = parse_command_and_redirections("cmd 2>> err.log");
    assert_eq!(cmd, "cmd");
    assert_eq!(spec.stderr, target("err.log", true));
    assert_eq!(spec.stdout, None);
}

#[test]
fn split_all_operators() {
    let (_, spec) = parse_command_and_redirections("c 1> a 2> b");
    assert_eq!(spec, RedirectionSpec { stdout: target("a", false), stderr: target("b", false) });
    let (_, spec) = parse_command_and_redirections("c >> a");
    assert_eq!(spec.stdout, target("a", true));
    let (_, spec) = parse_command_and_redirections("c 1>> a");
    assert_eq!(spec.stdout, target("a", true));
}

#[test]
fn split_last_operator_wins() {
    let (cmd, spec) = parse_command_and_redirections("ls > a x >> b");
    assert_eq!(cmd, "ls x");
    assert_eq!(spec.stdout, target("b", true));
    assert_eq!(spec.stderr, None);
}

#[test]
fn split_dangling_operator_ends_scan() {
    let (cmd, spec) = parse_command_and_redirections("ls a >");
    assert_eq!(cmd, "ls a");
    assert_eq!(spec, RedirectionSpec::none());
    let (cmd, spec) = parse_command_and_redirections("ls 2>");
    assert_eq!(cmd, "ls");
    assert!(!spec.is_active());
}

#[test]
fn split_joins_words_with_single_spaces() {
    let (cmd, spec) = parse_command_and_redirections("  echo   a\tb  ");
    assert_eq!(cmd, "echo a b");
    assert!(!spec.is_active());
    let (cmd, _) = parse_command_and_redirections("");
    assert_eq!(cmd, "");
}

#[test]
fn input_line_blank_is_skipped() {
    assert!(parse_input_line("").is_none());
    assert!(parse_input_line("  \t").is_none());
    assert!(parse_input_line("\u{a0}").is_none());
}

#[test]
fn input_line_without_redirection_is_kept_whole() {
    let (cmd, spec) = parse_input_line("echo 'a   b'").unwrap();
    assert_eq!(cmd, "echo 'a   b'");
    assert!(!spec.is_active());
    let (cmd, _) = parse_input_line("echo\u{a0}hi").unwrap();
    assert_eq!(cmd, "echo hi");
}

#[test]
fn input_line_with_redirection_is_split() {
    let (cmd, spec) = parse_input_line("echo hi\u{a0}>\u{a0}f").unwrap();
    assert_eq!(cmd, "echo hi");
    assert_eq!(spec.stdout, target("f", false));
}

#[test]
fn quotes_removed_from_both_ends() {
    assert_eq!(remove_surrounding_quotes("'\"abc\"'"), "abc");
    assert_eq!(remove_surrounding_quotes("'a'b'"), "a'b");
    assert_eq!(remove_surrounding_quotes("''"), "");
    assert_eq!(remove_surrounding_quotes("plain"), "plain");
    assert_eq!(remove_surrounding_quotes(""), "");
}

#[test]
fn surrounded_by_quotes() {
    assert!(is_surrounded_by_quotes("'abc'"));
    assert!(is_surrounded_by_quotes("\"abc\""));
    assert!(is_surrounded_by_quotes("'"));
    assert!(!is_surrounded_by_quotes("'abc\""));
    assert!(!is_surrounded_by_quotes("abc"));
    assert!(!is_surrounded_by_quotes(""));
}

#[test]
fn join_words_with_spaces() {
    assert_eq!(join_with_space(&strs(&["a", "b c", "d"])), "a b c d");
    assert_eq!(join_with_space(&strs(&[])), "");
    assert_eq!(join_with_space(&strs(&["x"])), "x");
}

#[test]
fn unicode_whitespace_separates_tokens() {
    assert_eq!(parse_parameters("a\u{2003}b"), strs(&["a", "b"]));
    assert!(parse_parameters("\u{2003}").is_empty());
    assert!(parse_parameters("\u{3000}\u{85}\u{2028}").is_empty());
    assert_eq!(parse_parameters("'a\u{2003}b'"), strs(&["a\u{2003}b"]));
}

#[test]
fn unicode_whitespace_in_redirection_split() {
    let (cmd, spec) = parse_command_and_redirections("a\u{2003}b");
    assert_eq!(cmd, "a b");
    assert!(!spec.is_active());
    let (cmd, spec) = parse_command_and_redirections("echo\u{2003}hi\u{2003}>\u{2003}f");
    assert_eq!(cmd, "echo hi");
    assert_eq!(spec.stdout, target("f", false));
}

#[test]
fn unicode_whitespace_input_line() {
    assert!(parse_input_line("\u{2003}").is_none());
    assert!(parse_input_line(" \u{2003}\u{3000} ").is_none());
    let (cmd, spec) = parse_input_line("a\u{2003}b").unwrap();
    assert_eq!(cmd, "a\u{2003}b");
    assert!(!spec.is_active());
}
