//! Command-line options as plain data; argument parsing itself lives with the binary.

use vstd::prelude::*;

verus! {

/// Options of the default search invocation.
pub struct Args {
    pub pattern: Option<String>,
    pub paths: Vec<String>,
    pub files_only: bool,
    pub ignore: Vec<String>,
    pub exclude_filenames: bool,
    pub reranker: String,
    pub frequency_search: bool,
    pub exact: bool,
    pub max_results: Option<usize>,
    pub max_bytes: Option<usize>,
    pub max_tokens: Option<usize>,
    pub allow_tests: bool,
    pub no_gitignore: bool,
    pub no_merge: bool,
    pub merge_threshold: Option<usize>,
    pub dry_run: bool,
    pub format: String,
    pub session: Option<String>,
    pub timeout: u64,
    pub question: Option<String>,
    pub verbose: bool,
    pub command: Option<Commands>,
}

/// The subcommands.
pub enum Commands {
    Search {
        pattern: String,
        paths: Vec<String>,
        files_only: bool,
        ignore: Vec<String>,
        exclude_filenames: bool,
        reranker: String,
        frequency_search: bool,
        exact: bool,
        strict_elastic_syntax: bool,
        language: Option<String>,
        max_results: Option<usize>,
        max_bytes: Option<usize>,
        max_tokens: Option<usize>,
        allow_tests: bool,
        no_gitignore: bool,
        no_merge: bool,
        merge_threshold: Option<usize>,
        dry_run: bool,
        format: String,
        session: Option<String>,
        timeout: u64,
        question: Option<String>,
        verbose: bool,
    },
    Extract {
        files: Vec<String>,
        ignore: Vec<String>,
        no_gitignore: bool,
        context_lines: usize,
        format: String,
        from_clipboard: bool,
        input_file: Option<String>,
        to_clipboard: bool,
        dry_run: bool,
        diff: bool,
        allow_tests: bool,
        keep_input: bool,
        prompt: Option<String>,
        instructions: Option<String>,
    },
    Query {
        pattern: String,
        path: String,
        language: Option<String>,
        ignore: Vec<String>,
        allow_tests: bool,
        no_gitignore: bool,
        max_results: Option<usize>,
        format: String,
    },
    Benchmark {
        bench: Option<String>,
        sample_size: Option<usize>,
        format: String,
        output: Option<String>,
        compare: bool,
        baseline: Option<String>,
        fast: bool,
    },
    Grep {
        pattern: String,
        paths: Vec<String>,
        ignore_case: bool,
        line_number: bool,
        count: bool,
        files_with_matches: bool,
        files_without_match: bool,
        invert_match: bool,
        before_context: Option<usize>,
        after_context: Option<usize>,
        context: Option<usize>,
        ignore: Vec<String>,
        no_gitignore: bool,
        color: String,
        max_count: Option<usize>,
    },
    Outline {
        file: String,
        format: String,
        allow_tests: bool,
        no_gitignore: bool,
    },
}

/// Options of the extract command.
pub struct ExtractOptions {
    pub files: Vec<String>,
    pub custom_ignores: Vec<String>,
    pub context_lines: usize,
    pub format: String,
    pub from_clipboard: bool,
    pub input_file: Option<String>,
    pub to_clipboard: bool,
    pub dry_run: bool,
    pub diff: bool,
    pub allow_tests: bool,
    pub keep_input: bool,
    pub prompt: Option<String>,
    pub instructions: Option<String>,
    pub no_gitignore: bool,
}

} // verus!
