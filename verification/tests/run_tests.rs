use std::cell::RefCell;

use gitbottle::error::Error;
use gitbottle::git::Git;
use gitbottle::prompt::Prompt;
use gitbottle::run::run;
use gitbottle::structure::{
    CommitStructure, MultiSelectTrailer, SelectTrailer, TextTrailer, Trailer, Values,
    ValuesFromGitLog, ValuesFromOptions,
};

/// A deterministic interaction surface: each queue holds the expected
/// arguments of one call together with the canned answer, in call order.
struct FakePrompt {
    texts: RefCell<Vec<(String, String)>>,
    multi_texts: RefCell<Vec<(String, Vec<String>)>>,
    selects: RefCell<Vec<(String, Vec<String>, bool, String)>>,
    multi_selects: RefCell<Vec<(String, Vec<String>, bool, Vec<String>)>>,
}

impl FakePrompt {
    fn new() -> FakePrompt {
        FakePrompt {
            texts: RefCell::new(Vec::new()),
            multi_texts: RefCell::new(Vec::new()),
            selects: RefCell::new(Vec::new()),
            multi_selects: RefCell::new(Vec::new()),
        }
    }

    fn expect_text(&self, key: &str, answer: &str) {
        self.texts.borrow_mut().push((key.to_string(), answer.to_string()));
    }

    fn expect_multi_text(&self, key: &str, answers: Vec<String>) {
        self.multi_texts.borrow_mut().push((key.to_string(), answers));
    }

    fn expect_select(&self, key: &str, options: Vec<String>, allow_other: bool, answer: &str) {
        self.selects.borrow_mut().push((
            key.to_string(),
            options,
            allow_other,
            answer.to_string(),
        ));
    }

    fn expect_multi_select(
        &self,
        key: &str,
        options: Vec<String>,
        allow_other: bool,
        answers: Vec<String>,
    ) {
        self.multi_selects.borrow_mut().push((key.to_string(), options, allow_other, answers));
    }
}

impl Prompt for FakePrompt {
    fn text(&self, key: &str) -> Result<String, Error> {
        let mut queue = self.texts.borrow_mut();
        if queue.is_empty() {
            panic!("unexpected text prompt: {}", key);
        }
        let (expected_key, answer) = queue.remove(0);
        assert_eq!(expected_key, key);
        Ok(answer)
    }

    fn multi_text(&self, key: &str) -> Result<Vec<String>, Error> {
        let mut queue = self.multi_texts.borrow_mut();
        if queue.is_empty() {
            panic!("unexpected multi_text prompt: {}", key);
        }
        let (expected_key, answers) = queue.remove(0);
        assert_eq!(expected_key, key);
        Ok(answers)
    }

    fn select(&self, key: &str, options: Vec<String>, allow_other: bool) -> Result<String, Error> {
        let mut queue = self.selects.borrow_mut();
        if queue.is_empty() {
            panic!("unexpected select prompt: {}", key);
        }
        let (expected_key, expected_options, expected_allow_other, answer) = queue.remove(0);
        assert_eq!(expected_key, key);
        assert_eq!(expected_options, options);
        assert_eq!(expected_allow_other, allow_other);
        Ok(answer)
    }

    fn multi_select(
        &self,
        key: &str,
        options: Vec<String>,
        allow_other: bool,
    ) -> Result<Vec<String>, Error> {
        let mut queue = self.multi_selects.borrow_mut();
        if queue.is_empty() {
            panic!("unexpected multi_select prompt: {}", key);
        }
        let (expected_key, expected_options, expected_allow_other, answers) = queue.remove(0);
        assert_eq!(expected_key, key);
        assert_eq!(expected_options, options);
        assert_eq!(expected_allow_other, allow_other);
        Ok(answers)
    }
}

/// A deterministic history reader: a queue of expected log queries with
/// canned result lines.
struct FakeGit {
    logs: RefCell<Vec<(String, Option<i32>, Result<Vec<String>, Error>)>>,
}

impl FakeGit {
    fn new() -> FakeGit {
        FakeGit { logs: RefCell::new(Vec::new()) }
    }

    fn expect_log(&self, format_string: &str, max_count: Option<i32>, lines: Vec<String>) {
        self.logs.borrow_mut().push((format_string.to_string(), max_count, Ok(lines)));
    }

    fn expect_log_failure(&self, format_string: &str, max_count: Option<i32>, message: &str) {
        self.logs.borrow_mut().push((
            format_string.to_string(),
            max_count,
            Err(Error::Io(message.to_string())),
        ));
    }
}

impl Git for FakeGit {
    fn commit(&self, message: &str) -> Result<String, Error> {
        panic!("unexpected commit call: {}", message);
    }

    fn log(&self, format_string: &str, max_count: &Option<i32>) -> Result<Vec<String>, Error> {
        let mut queue = self.logs.borrow_mut();
        if queue.is_empty() {
            panic!("unexpected log query: {}", format_string);
        }
        let (expected_format, expected_max_count, result) = queue.remove(0);
        assert_eq!(expected_format, format_string);
        assert_eq!(expected_max_count, *max_count);
        result
    }
}

#[test]
fn test_text() {
    let commit_structure = CommitStructure {
        trailers: vec![Trailer::Text(TextTrailer { name: "Issue".to_string() })],
    };

    let prompt = FakePrompt::new();
    let git = FakeGit::new();

    prompt.expect_text("Message:", "First commit");
    prompt.expect_text("Issue:", "#42");

    let commit_message = run(&prompt, &git, commit_structure).unwrap();

    assert_eq!(commit_message, "First commit\n\nIssue: #42".to_string())
}

#[test]
fn test_select_from_options() {
    let commit_structure = CommitStructure {
        trailers: vec![Trailer::Select(SelectTrailer {
            name: "Issue".to_string(),
            values: Values::FromOptions(ValuesFromOptions {
                options: vec!["#1".to_string(), "#2".to_string()],
            }),
        })],
    };

    let prompt = FakePrompt::new();
    let git = FakeGit::new();

    prompt.expect_text("Message:", "First commit");
    prompt.expect_select("Issue:", vec!["#1".to_string(), "#2".to_string()], false, "#2");

    let commit_message = run(&prompt, &git, commit_structure).unwrap();

    assert_eq!(commit_message, "First commit\n\nIssue: #2".to_string())
}

#[test]
fn test_select_from_git_log() {
    let commit_structure = CommitStructure {
        trailers: vec![Trailer::Select(SelectTrailer {
            name: "Issue".to_string(),
            values: Values::FromGitLog(ValuesFromGitLog {
                depth: None,
                format_strings: vec!["%(trailers:key=Issue,valueonly=true)".to_string()],
            }),
        })],
    };

    let prompt = FakePrompt::new();
    let git = FakeGit::new();

    prompt.expect_text("Message:", "First commit");
    git.expect_log(
        "%(trailers:key=Issue,valueonly=true)",
        None,
        vec!["#1".to_string(), "#2".to_string()],
    );
    prompt.expect_select("Issue:", vec!["#1".to_string(), "#2".to_string()], true, "#2");

    let commit_message = run(&prompt, &git, commit_structure).unwrap();

    assert_eq!(commit_message, "First commit\n\nIssue: #2".to_string())
}

#[test]
fn test_select_from_git_log_when_it_is_empty() {
    let commit_structure = CommitStructure {
        trailers: vec![Trailer::Select(SelectTrailer {
            name: "Issue".to_string(),
            values: Values::FromGitLog(ValuesFromGitLog {
                depth: None,
                format_strings: vec!["%(trailers:key=Issue,valueonly=true)".to_string()],
            }),
        })],
    };

    let prompt = FakePrompt::new();
    let git = FakeGit::new();

    prompt.expect_text("Message:", "First commit");
    git.expect_log("%(trailers:key=Issue,valueonly=true)", None, vec![]);
    prompt.expect_text("Issue:", "#42");

    let commit_message = run(&prompt, &git, commit_structure).unwrap();

    assert_eq!(commit_message, "First commit\n\nIssue: #42".to_string())
}

#[test]
fn test_multi_select_from_options() {
    let commit_structure = CommitStructure {
        trailers: vec![Trailer::MultiSelect(MultiSelectTrailer {
            name: "Co-authored-by".to_string(),
            values: Values::FromOptions(ValuesFromOptions {
                options: vec![
                    "NAME <NAME@EXAMPLE.COM>".to_string(),
                    "ANOTHER-NAME <ANOTHER-NAME@EXAMPLE.COM>".to_string(),
                ],
            }),
        })],
    };

    let prompt = FakePrompt::new();
    let git = FakeGit::new();

    prompt.expect_text("Message:", "First commit");
    prompt.expect_multi_select(
        "Co-authored-by:",
        vec![
            "NAME <NAME@EXAMPLE.COM>".to_string(),
            "ANOTHER-NAME <ANOTHER-NAME@EXAMPLE.COM>".to_string(),
        ],
        false,
        vec!["NAME <NAME@EXAMPLE.COM>".to_string()],
    );

    let commit_message = run(&prompt, &git, commit_structure).unwrap();

    assert_eq!(
        commit_message,
        "First commit\n\nCo-authored-by: NAME <NAME@EXAMPLE.COM>".to_string()
    )
}

#[test]
fn test_multi_select_from_git_log() {
    let commit_structure = CommitStructure {
        trailers: vec![Trailer::MultiSelect(MultiSelectTrailer {
            name: "Co-authored-by".to_string(),
            values: Values::FromGitLog(ValuesFromGitLog {
                depth: None,
                format_strings: vec!["%(trailers:key=Co-authored-by,valueonly=true)".to_string()],
            }),
        })],
    };

    let prompt = FakePrompt::new();
    let git = FakeGit::new();

    prompt.expect_text("Message:", "First commit");
    git.expect_log(
        "%(trailers:key=Co-authored-by,valueonly=true)",
        None,
        vec![
            "James Smith <james.smith@example.org>".to_string(),
            "Jane Doe <jane.doe@example.org>".to_string(),
            "Joe Shmoe <joe.shmoe@example.org>".to_string(),
        ],
    );
    prompt.expect_multi_select(
        "Co-authored-by:",
        vec![
            "James Smith <james.smith@example.org>".to_string(),
            "Jane Doe <jane.doe@example.org>".to_string(),
            "Joe Shmoe <joe.shmoe@example.org>".to_string(),
        ],
        true,
        vec!["Jane Doe <jane.doe@example.org>".to_string()],
    );

    let commit_message = run(&prompt, &git, commit_structure).unwrap();

    assert_eq!(
        commit_message,
        "First commit\n\nCo-authored-by: Jane Doe <jane.doe@example.org>".to_string()
    )
}

#[test]
fn test_multi_select_from_git_log_when_it_is_empty() {
    let commit_structure = CommitStructure {
        trailers: vec![Trailer::MultiSelect(MultiSelectTrailer {
            name: "Co-authored-by".to_string(),
            values: Values::FromGitLog(ValuesFromGitLog {
                depth: None,
                format_strings: vec!["%(trailers:key=Co-authored-by,valueonly=true)".to_string()],
            }),
        })],
    };

    let prompt = FakePrompt::new();
    let git = FakeGit::new();

    prompt.expect_text("Message:", "First commit");
    git.expect_log("%(trailers:key=Co-authored-by,valueonly=true)", None, vec![]);
    prompt.expect_multi_text(
        "Co-authored-by:",
        vec!["Jane Doe <jane.doe@example.org>".to_string()],
    );

    let commit_message = run(&prompt, &git, commit_structure).unwrap();

    assert_eq!(
        commit_message,
        "First commit\n\nCo-authored-by: Jane Doe <jane.doe@example.org>".to_string()
    )
}

#[test]
fn test_merges_and_sorts_candidates_across_format_strings() {
    let commit_structure = CommitStructure {
        trailers: vec![Trailer::MultiSelect(MultiSelectTrailer {
            name: "Co-authored-by".to_string(),
            values: Values::FromGitLog(ValuesFromGitLog {
                depth: Some(5),
                format_strings: vec!["%an <%ae>".to_string(), "%cn <%ce>".to_string()],
            }),
        })],
    };

    let prompt = FakePrompt::new();
    let git = FakeGit::new();

    prompt.expect_text("Message:", "First commit");
    git.expect_log(
        "%an <%ae>",
        Some(5),
        vec!["Zoe <z@x>".to_string(), "Amy <a@x>".to_string()],
    );
    git.expect_log(
        "%cn <%ce>",
        Some(5),
        vec!["Amy <a@x>".to_string(), "Bob <b@x>".to_string()],
    );
    // The merged candidate list is sorted ascending and deduplicated.
    prompt.expect_multi_select(
        "Co-authored-by:",
        vec!["Amy <a@x>".to_string(), "Bob <b@x>".to_string(), "Zoe <z@x>".to_string()],
        true,
        vec!["Bob <b@x>".to_string()],
    );

    let commit_message = run(&prompt, &git, commit_structure).unwrap();

    assert_eq!(commit_message, "First commit\n\nCo-authored-by: Bob <b@x>".to_string())
}

#[test]
fn test_empty_text_answer_yields_no_trailer_line() {
    let commit_structure = CommitStructure {
        trailers: vec![Trailer::Text(TextTrailer { name: "Issue".to_string() })],
    };

    let prompt = FakePrompt::new();
    let git = FakeGit::new();

    prompt.expect_text("Message:", "First commit");
    prompt.expect_text("Issue:", "");

    let commit_message = run(&prompt, &git, commit_structure).unwrap();

    assert_eq!(commit_message, "First commit\n".to_string())
}

#[test]
fn test_find_in_git_log_with_no_format_strings_queries_nothing() {
    let git = FakeGit::new();
    let result = gitbottle::run::find_in_git_log(&git, &[], &None).unwrap();
    assert!(result.is_empty());
}

#[test]
fn test_log_failure_aborts_resolution() {
    let commit_structure = CommitStructure {
        trailers: vec![Trailer::Select(SelectTrailer {
            name: "Issue".to_string(),
            values: Values::FromGitLog(ValuesFromGitLog {
                depth: None,
                format_strings: vec!["%an".to_string()],
            }),
        })],
    };

    let prompt = FakePrompt::new();
    let git = FakeGit::new();

    prompt.expect_text("Message:", "First commit");
    git.expect_log_failure("%an", None, "history query failed");

    let result = run(&prompt, &git, commit_structure);

    assert!(matches!(result, Err(Error::Io(m)) if m == "history query failed"));
}
