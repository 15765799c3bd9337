use gitbottle::candidates::{sort_and_dedup, str_lex_le};
use gitbottle::config::default_config;
use gitbottle::error::Error;
use gitbottle::git::{commit_outcome, process_log_lines};
use gitbottle::prompt::{is_other_choice, multi_text_step, options_with_other, remove_other};
use gitbottle::run::{add_trailer, add_trailers, assemble, choose_candidate_prompt, CandidatePrompt};
use gitbottle::structure::{Trailer, Values};

fn strings(items: &[&str]) -> Vec<String> {
    items.iter().map(|s| s.to_string()).collect()
}

#[test]
fn test_assemble_without_trailers_is_message_and_blank_line() {
    let out = assemble("First commit".to_string(), &Vec::new());
    assert_eq!(out, "First commit\n".to_string());
}

#[test]
fn test_assemble_joins_groups_with_newlines() {
    let groups = strings(&["Issue: #42", "Co-authored-by: A <a@x>\nCo-authored-by: B <b@x>"]);
    let out = assemble("Msg".to_string(), &groups);
    assert_eq!(
        out,
        "Msg\n\nIssue: #42\nCo-authored-by: A <a@x>\nCo-authored-by: B <b@x>".to_string()
    );
}

#[test]
fn test_sort_and_dedup_sorts_and_removes_duplicates() {
    let out = sort_and_dedup(strings(&["pear", "apple", "pear", "banana", "apple"]));
    assert_eq!(out, strings(&["apple", "banana", "pear"]));
}

#[test]
fn test_sort_and_dedup_is_idempotent() {
    let raw = strings(&["b", "a", "c", "b", "a"]);
    let once = sort_and_dedup(raw);
    let twice = sort_and_dedup(once.clone());
    assert_eq!(once, twice);
    assert_eq!(once, strings(&["a", "b", "c"]));
}

#[test]
fn test_str_lex_le_orders_by_code_points() {
    assert!(str_lex_le("", "a"));
    assert!(str_lex_le("a", "ab"));
    assert!(str_lex_le("abc", "abd"));
    assert!(!str_lex_le("b", "ab"));
    assert!(str_lex_le("same", "same"));
}

#[test]
fn test_add_trailer_skips_empty_values() {
    let mut lines: Vec<String> = Vec::new();
    add_trailer(&mut lines, "Issue:", "");
    assert!(lines.is_empty());
    add_trailer(&mut lines, "Issue:", "#42");
    assert_eq!(lines, strings(&["Issue: #42"]));
}

#[test]
fn test_add_trailers_builds_one_group_per_call() {
    let mut lines: Vec<String> = Vec::new();
    add_trailers(&mut lines, "Co-authored-by:", &strings(&[]));
    assert!(lines.is_empty());
    add_trailers(&mut lines, "Co-authored-by:", &strings(&["A <a@x>", "B <b@x>"]));
    assert_eq!(lines, strings(&["Co-authored-by: A <a@x>\nCo-authored-by: B <b@x>"]));
}

#[test]
fn test_commit_outcome_success_returns_stdout() {
    let out = commit_outcome(true, "committed".to_string(), "noise".to_string());
    assert_eq!(out.unwrap(), "committed".to_string());
}

#[test]
fn test_commit_outcome_failure_combines_streams() {
    let out = commit_outcome(false, "partial".to_string(), "boom".to_string());
    assert!(matches!(out, Err(Error::Commit(m)) if m == "partial\nboom"));
}

#[test]
fn test_process_log_lines_trims_drops_blanks_and_normalizes() {
    let raw = strings(&["  b ", "", "a", "b", " \t ", "c  "]);
    let out = process_log_lines(raw);
    assert_eq!(out, strings(&["a", "b", "c"]));
}

#[test]
fn test_options_with_other_appends_sentinel() {
    let out = options_with_other(strings(&["#1", "#2"]));
    assert_eq!(out, strings(&["#1", "#2", "<other>"]));
}

#[test]
fn test_is_other_choice_matches_only_the_sentinel() {
    assert!(is_other_choice(&"<other>".to_string()));
    assert!(!is_other_choice(&"other".to_string()));
    assert!(!is_other_choice(&"".to_string()));
}

#[test]
fn test_remove_other_keeps_real_selections_in_order() {
    let (kept, had) = remove_other(strings(&["a", "<other>", "b"]));
    assert_eq!(kept, strings(&["a", "b"]));
    assert!(had);
    let (kept, had) = remove_other(strings(&["a", "b"]));
    assert_eq!(kept, strings(&["a", "b"]));
    assert!(!had);
}

#[test]
fn test_default_config_is_coauthor_multi_select_from_history() {
    let config = default_config();
    assert_eq!(config.trailers.len(), 1);
    match &config.trailers[0] {
        Trailer::MultiSelect(m) => {
            assert_eq!(m.name, "Co-authored-by".to_string());
            match &m.values {
                Values::FromGitLog(v) => {
                    assert_eq!(v.depth, None);
                    assert_eq!(
                        v.format_strings,
                        strings(&[
                            "%an <%ae>",
                            "%(trailers:key=Co-authored-by,valueonly=true)",
                        ])
                    );
                }
                _ => panic!("expected history-sourced values"),
            }
        }
        _ => panic!("expected a multi-select trailer"),
    }
}

#[test]
fn test_multi_text_step_stops_on_empty_and_collects_the_rest() {
    let mut values: Vec<String> = Vec::new();
    assert!(!multi_text_step(&mut values, "one".to_string()));
    assert!(!multi_text_step(&mut values, "two".to_string()));
    assert!(multi_text_step(&mut values, "".to_string()));
    assert_eq!(values, strings(&["one", "two"]));
}

#[test]
fn test_choose_candidate_prompt_falls_back_only_when_empty() {
    assert!(matches!(choose_candidate_prompt(Vec::new()), CandidatePrompt::FreeText));
    match choose_candidate_prompt(strings(&["#1", "#2"])) {
        CandidatePrompt::Choice(c) => assert_eq!(c, strings(&["#1", "#2"])),
        CandidatePrompt::FreeText => panic!("expected a choice prompt"),
    }
}

#[test]
fn test_error_message_carries_the_text() {
    assert_eq!(Error::Config("bad file".to_string()).message(), "bad file");
    assert_eq!(Error::Interaction("closed".to_string()).message(), "closed");
}
