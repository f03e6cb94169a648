use minishell::completion::{
    candidate_names, complete, longest_common_prefix, CompletionCandidate, CompletionState,
};

fn strs(v: &[&str]) -> Vec<String> {
    v.iter().map(|s| s.to_string()).collect()
}

fn partial(t: &str) -> CompletionCandidate {
    CompletionCandidate { text: t.to_string(), complete: false }
}

#[test]
fn lcp_of_lists() {
    assert_eq!(longest_common_prefix(&strs(&[])), "");
    assert_eq!(longest_common_prefix(&strs(&["flower", "flow", "flight"])), "fl");
    assert_eq!(longest_common_prefix(&strs(&["abc"])), "abc");
    assert_eq!(longest_common_prefix(&strs(&["abc", "xyz"])), "");
    assert_eq!(longest_common_prefix(&strs(&["git", "grep"])), "g");
}

#[test]
fn candidates_sorted_and_deduplicated() {
    let ex = strs(&["grep", "git", "gzip", "git", "ls"]);
    assert_eq!(candidate_names("g", &ex), strs(&["git", "grep", "gzip"]));
    assert_eq!(candidate_names("e", &strs(&["env"])), strs(&["echo", "env", "exit"]));
    // An exact builtin name is not its own completion, but an executable is.
    assert_eq!(candidate_names("echo", &strs(&[])), strs(&[]));
    assert_eq!(candidate_names("echo", &strs(&["echo"])), strs(&["echo"]));
}

#[test]
fn ambiguous_two_presses() {
    let mut st = CompletionState::new();
    let ex = strs(&["git", "grep"]);
    assert_eq!(complete(&mut st, "g", &ex), vec![]);
    assert_eq!(complete(&mut st, "g", &ex), vec![partial("git"), partial("grep")]);
    assert_eq!(st.press_count, 0);
    // The count started again, so the next press is silent once more.
    assert_eq!(complete(&mut st, "g", &ex), vec![]);
}

#[test]
fn changed_line_resets_count() {
    let mut st = CompletionState::new();
    let ex = strs(&["git", "grep", "gzip"]);
    assert_eq!(complete(&mut st, "g", &ex), vec![]);
    assert_eq!(complete(&mut st, "gi", &ex).len(), 1);
    assert_eq!(complete(&mut st, "g", &ex), vec![]);
    assert_eq!(st.press_count, 1);
    assert_eq!(st.last_line, Some("g".to_string()));
}

#[test]
fn single_candidate_completes_with_space() {
    let mut st = CompletionState::new();
    let got = complete(&mut st, "ec", &strs(&[]));
    assert_eq!(got, vec![CompletionCandidate { text: "echo ".to_string(), complete: true }]);
    let got = complete(&mut st, "gi", &strs(&["git", "ls"]));
    assert_eq!(got, vec![CompletionCandidate { text: "git ".to_string(), complete: true }]);
}

#[test]
fn common_prefix_extends_line() {
    let mut st = CompletionState::new();
    let got = complete(&mut st, "x", &strs(&["xargs_one", "xargs_two"]));
    assert_eq!(got, vec![partial("xargs_")]);
}

#[test]
fn no_candidates_gives_nothing() {
    let mut st = CompletionState::new();
    assert_eq!(complete(&mut st, "zz", &strs(&["ls"])), vec![]);
    assert_eq!(st.press_count, 1);
}

#[test]
fn line_with_blank_is_not_completed() {
    let mut st = CompletionState::new();
    assert_eq!(complete(&mut st, "echo h", &strs(&["hello"])), vec![]);
    assert_eq!(st.last_line, None);
    assert_eq!(st.press_count, 0);
}

#[test]
fn line_with_unicode_whitespace_is_not_completed() {
    let mut st = CompletionState::new();
    assert_eq!(complete(&mut st, "a\u{2003}b", &strs(&["a\u{2003}bc"])), vec![]);
    assert_eq!(st.last_line, None);
    assert_eq!(st.press_count, 0);
}
