use ptags::cmd_git::{CmdGit, Error, Invocation, Invoker, Opt, Stage};

/// Hands out prepared outcomes in turn and records each command line it was asked to run.
struct Canned {
    outcomes: Vec<Invocation>,
    calls: Vec<Vec<String>>,
}

impl Invoker for Canned {
    fn run(&mut self, _opt: &Opt, args: &Vec<String>) -> Invocation {
        self.calls.push(args.clone());
        self.outcomes.remove(0)
    }
}

fn canned(outcomes: Vec<Invocation>) -> Canned {
    Canned { outcomes, calls: Vec::new() }
}

fn opt() -> Opt {
    Opt {
        dir: String::from("."),
        bin_git: String::from("git"),
        include_untracked: false,
        include_submodule: false,
        exclude_lfs: false,
        opt_git: Vec::new(),
        opt_git_lfs: Vec::new(),
        verbose: false,
    }
}

fn ok(out: &str) -> Invocation {
    Invocation::Exited { success: true, stdout: out.as_bytes().to_vec(), stderr: Vec::new() }
}

fn failed(err: &str) -> Invocation {
    Invocation::Exited { success: false, stdout: Vec::new(), stderr: err.as_bytes().to_vec() }
}

fn chars(s: &str) -> Vec<char> {
    s.chars().collect()
}

fn strings(v: &[&str]) -> Vec<String> {
    v.iter().map(|s| s.to_string()).collect()
}

fn from_chars(v: &Vec<Vec<char>>) -> Vec<String> {
    v.iter().map(|p| p.iter().collect()).collect()
}

const REPO_FILES: &str = "src/main.rs\nREADME.md\n.gitignore\nsrc/cmd_git.rs\nCargo.toml\n\
.cargo/config\nLICENSE\n.travis.yml\nMakefile\nsrc/cmd_ctags.rs\nCargo.lock\n";

fn repo_files_sorted() -> Vec<String> {
    strings(&[
        ".cargo/config",
        ".gitignore",
        ".travis.yml",
        "Cargo.lock",
        "Cargo.toml",
        "LICENSE",
        "Makefile",
        "README.md",
        "src/cmd_ctags.rs",
        "src/cmd_git.rs",
        "src/main.rs",
    ])
}

#[test]
fn test_ls_files() {
    let o = opt();
    let mut inv = canned(vec![ok(REPO_FILES)]);
    let files = CmdGit::get_files(&o, &mut inv).unwrap();
    assert_eq!(files, repo_files_sorted());
    assert_eq!(inv.calls, vec![strings(&["ls-files", "--cached", "--exclude-standard"])]);
}

#[test]
fn test_lfs_ls_files() {
    let mut o = opt();
    o.exclude_lfs = true;
    let mut inv = canned(vec![ok(REPO_FILES), ok(""), ok("\n"), ok("\n")]);
    let files = CmdGit::get_files(&o, &mut inv).unwrap();
    assert_eq!(files, repo_files_sorted());
    assert_eq!(
        inv.calls,
        vec![
            strings(&["ls-files", "--cached", "--exclude-standard"]),
            strings(&["lfs", "ls-files"]),
            strings(&["rev-parse", "--show-cdup"]),
            strings(&["rev-parse", "--show-prefix"]),
        ]
    );
}

#[test]
fn test_command_fail() {
    let mut o = opt();
    o.bin_git = String::from("aaa");
    let mut inv = canned(vec![Invocation::LaunchFailed {
        os_error: String::from("No such file or directory (os error 2)"),
    }]);
    match CmdGit::get_files(&o, &mut inv) {
        Err(Error::CommandFailed { path, err }) => {
            assert_eq!(path, "aaa");
            assert_eq!(err, "No such file or directory (os error 2)");
        }
        other => panic!("unexpected {:?}", other),
    }
}

#[test]
fn test_git_fail() {
    let mut o = opt();
    o.opt_git = strings(&["-aaa"]);
    let mut inv = canned(vec![failed("error: unknown switch `a'\nusage: git ls-files [<options>] [<file>...]\n")]);
    match CmdGit::get_files(&o, &mut inv) {
        Err(Error::GitFailed { cmd, err }) => {
            assert_eq!(cmd, "git ls-files --cached --exclude-standard -aaa");
            assert!(err.starts_with("error: unknown switch `a'\nus"));
        }
        other => panic!("unexpected {:?}", other),
    }
}

#[test]
fn listing_is_sorted_output_without_lfs() {
    let o = opt();
    let mut inv = canned(vec![ok("b\nB\na\nab\n")]);
    let files = CmdGit::get_files(&o, &mut inv).unwrap();
    assert_eq!(files, strings(&["B", "a", "ab", "b"]));
}

#[test]
fn listing_keeps_duplicates_and_strips_carriage_returns() {
    let o = opt();
    let mut inv = canned(vec![ok("z\r\nx\nz")]);
    let files = CmdGit::get_files(&o, &mut inv).unwrap();
    assert_eq!(files, strings(&["x", "z", "z"]));
}

#[test]
fn lfs_files_are_excluded_and_nothing_added() {
    let mut o = opt();
    o.exclude_lfs = true;
    let lfs = "0123abcd * sub/big.bin\n4567ef01 - other/huge.dat\n";
    let mut inv = canned(vec![
        ok("a.rs\nbig.bin\nc.rs\n../other/huge.dat\n"),
        ok(lfs),
        ok("../\n"),
        ok("sub/\n"),
    ]);
    let files = CmdGit::get_files(&o, &mut inv).unwrap();
    assert_eq!(files, strings(&["a.rs", "c.rs"]));
}

#[test]
fn repeated_resolution_gives_same_result() {
    let o = opt();
    let mut first = canned(vec![ok("c\na\nb\n")]);
    let mut second = canned(vec![ok("b\nc\na\n")]);
    let r1 = CmdGit::get_files(&o, &mut first).unwrap();
    let r2 = CmdGit::get_files(&o, &mut second).unwrap();
    assert_eq!(r1, r2);
    assert_eq!(r1, strings(&["a", "b", "c"]));
}

#[test]
fn normalize_strips_prefix_or_prepends_cdup() {
    let cdup = chars("../");
    let prefix = chars("sub/");
    assert_eq!(CmdGit::normalize(chars("sub/file.bin"), &cdup, &prefix), chars("file.bin"));
    assert_eq!(CmdGit::normalize(chars("other/file.bin"), &cdup, &prefix), chars("../other/file.bin"));
    assert_eq!(CmdGit::normalize(chars("sub/x/sub/f"), &cdup, &prefix), chars("x/sub/f"));
    assert_eq!(CmdGit::normalize(chars("a/b"), &chars(""), &chars("")), chars("a/b"));
}

#[test]
fn launch_failure_is_command_failed() {
    let mut o = opt();
    o.bin_git = String::from("/nonexistent/git");
    let mut inv = canned(vec![Invocation::LaunchFailed { os_error: String::from("not found") }]);
    match CmdGit::get_files(&o, &mut inv) {
        Err(Error::CommandFailed { path, .. }) => assert_eq!(path, "/nonexistent/git"),
        other => panic!("unexpected {:?}", other),
    }
}

#[test]
fn subcommand_failure_names_flag_and_stderr() {
    let mut o = opt();
    o.exclude_lfs = true;
    o.opt_git_lfs = strings(&["--bogus"]);
    let mut inv = canned(vec![ok("a\n"), failed("unknown flag: --bogus\n")]);
    match CmdGit::get_files(&o, &mut inv) {
        Err(Error::GitFailed { cmd, err }) => {
            assert_eq!(cmd, "git lfs ls-files --bogus");
            assert_eq!(err, "unknown flag: --bogus\n");
        }
        other => panic!("unexpected {:?}", other),
    }
}

#[test]
fn empty_repository_gives_empty_list() {
    let o = opt();
    let mut inv = canned(vec![ok("")]);
    assert_eq!(CmdGit::get_files(&o, &mut inv).unwrap(), Vec::<String>::new());
    let mut o2 = opt();
    o2.exclude_lfs = true;
    let mut inv2 = canned(vec![ok(""), ok(""), ok(""), ok("")]);
    assert_eq!(CmdGit::get_files(&o2, &mut inv2).unwrap(), Vec::<String>::new());
}

#[test]
fn invalid_stdout_is_invalid_encoding() {
    let o = opt();
    let mut inv = canned(vec![Invocation::Exited { success: true, stdout: vec![0x61, 0xff], stderr: Vec::new() }]);
    assert!(matches!(CmdGit::get_files(&o, &mut inv), Err(Error::InvalidEncoding)));
}

#[test]
fn invalid_stderr_is_invalid_encoding() {
    let o = opt();
    let mut inv = canned(vec![Invocation::Exited { success: false, stdout: Vec::new(), stderr: vec![0xc3] }]);
    assert!(matches!(CmdGit::get_files(&o, &mut inv), Err(Error::InvalidEncoding)));
}

#[test]
fn invalid_lfs_output_is_reported_after_the_path_queries() {
    let mut o = opt();
    o.exclude_lfs = true;
    let bad = Invocation::Exited { success: true, stdout: vec![0xfe], stderr: Vec::new() };
    let mut inv = canned(vec![ok("a\n"), bad, ok("\n"), ok("\n")]);
    assert!(matches!(CmdGit::get_files(&o, &mut inv), Err(Error::InvalidEncoding)));
    assert_eq!(inv.calls.len(), 4);
}

#[test]
fn submodules_win_over_untracked() {
    let mut o = opt();
    o.include_submodule = true;
    o.include_untracked = true;
    o.opt_git = strings(&["-x", "y"]);
    assert_eq!(
        CmdGit::ls_files_args(&o),
        strings(&["ls-files", "--cached", "--exclude-standard", "--recurse-submodules", "-x", "y"])
    );
    o.include_submodule = false;
    assert_eq!(
        CmdGit::ls_files_args(&o),
        strings(&["ls-files", "--cached", "--exclude-standard", "--other", "-x", "y"])
    );
}

#[test]
fn command_line_joins_arguments_with_spaces() {
    let o = opt();
    assert_eq!(CmdGit::get_cmd(&o, &strings(&["rev-parse", "--show-cdup"])), "git rev-parse --show-cdup");
    assert_eq!(CmdGit::get_cmd(&o, &Vec::new()), "git");
}

#[test]
fn lfs_lines_with_few_fields_give_empty_paths() {
    let text = chars("abc -\nx  y z\n");
    let r = CmdGit::lfs_ls_files(&text, &chars("../"), &chars(""));
    assert_eq!(from_chars(&r), strings(&["", "y"]));
}

#[test]
fn decoding_keeps_non_ascii_text() {
    let r = CmdGit::decode_text("é/ü.rs".as_bytes().to_vec()).unwrap();
    assert_eq!(r, chars("é/ü.rs"));
    let files = CmdGit::to_strings(vec![chars("é/ü.rs"), chars("a")]);
    assert_eq!(files, strings(&["é/ü.rs", "a"]));
}

#[test]
fn exclude_is_exact_match_filter() {
    let base = vec![chars("a"), chars("b"), chars("ab"), chars("b")];
    let lfs = vec![chars("b"), chars("zz")];
    assert_eq!(from_chars(&CmdGit::exclude(base, &lfs)), strings(&["a", "ab"]));
}

#[test]
fn stages_advance_in_order() {
    let mut o = opt();
    o.exclude_lfs = true;
    let s = CmdGit::advance(&o, Stage::ListFiles, ok("a\n"));
    assert!(matches!(s, Stage::ListLfs { .. }));
    let s = CmdGit::advance(&o, s, ok(""));
    assert!(matches!(s, Stage::ShowCdup { .. }));
    assert_eq!(CmdGit::next_call(&o, &s), Some(strings(&["rev-parse", "--show-cdup"])));
    let s = CmdGit::advance(&o, s, ok("\n"));
    let s = CmdGit::advance(&o, s, ok("\n"));
    assert!(CmdGit::next_call(&o, &s).is_none());
    match s {
        Stage::Done { result: Ok(files) } => assert_eq!(files, strings(&["a"])),
        _ => panic!("the resolution did not finish with files"),
    }
}
