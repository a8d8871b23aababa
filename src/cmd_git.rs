//! Resolving the files that git tracks: the command lines to run, how each
//! outcome of a run is classified, and how the listings are combined.
use vstd::prelude::*;
use vstd::string::StringExecFns;
use vstd::relations::{sorted_by, total_ordering};
use vstd::utf8::{decode_utf8, valid_utf8};
use crate::text::{
    chars_of, contains_path, first_line, lemma_path_order_total, sub_chars, first_line_of, lines_of, path_order, seqs_of, sort_paths, split_lines,
    string_of, third_field, third_field_of,
};

verus! {

/// What a resolution is asked to do.
pub struct Opt {
    /// The directory that git runs in.
    pub dir: String,
    /// The git executable.
    pub bin_git: String,
    /// List untracked files too.
    pub include_untracked: bool,
    /// List the files of submodules too; this wins over `include_untracked`.
    pub include_submodule: bool,
    /// Leave out the files that git-lfs tracks.
    pub exclude_lfs: bool,
    /// Further arguments for `git ls-files`.
    pub opt_git: Vec<String>,
    /// Further arguments for `git lfs ls-files`.
    pub opt_git_lfs: Vec<String>,
    /// Echo each command line and the number of files found.
    pub verbose: bool,
}

/// How one run of the git executable ended.
#[derive(Debug)]
pub enum Invocation {
    /// The process ran and exited, successfully or not, with what it wrote.
    Exited { success: bool, stdout: Vec<u8>, stderr: Vec<u8> },
    /// The process could not be started; the operating system's description.
    LaunchFailed { os_error: String },
}

/// Why a resolution failed.
#[derive(Debug)]
pub enum Error {
    /// git ran and exited unsuccessfully: the command line and what it wrote to stderr.
    GitFailed { cmd: String, err: String },
    /// The executable at `path` could not be started.
    CommandFailed { path: String, err: String },
    /// Output of git was not UTF-8.
    InvalidEncoding,
}

/// The mathematical content of an [`Error`].
pub enum Failure {
    GitFailed { cmd: Seq<char>, err: Seq<char> },
    CommandFailed { path: Seq<char>, err: Seq<char> },
    InvalidEncoding,
}

impl View for Error {
    type V = Failure;

    open spec fn view(&self) -> Failure {
        match self {
            Error::GitFailed { cmd, err } => Failure::GitFailed { cmd: cmd@, err: err@ },
            Error::CommandFailed { path, err } => Failure::CommandFailed { path: path@, err: err@ },
            Error::InvalidEncoding => Failure::InvalidEncoding,
        }
    }
}

/// The character sequences of a sequence of strings.
pub open spec fn strs(v: Seq<String>) -> Seq<Seq<char>> {
    Seq::new(v.len(), |i: int| v[i]@)
}

/// The command line as it is shown: the executable, then each argument after a space.
pub open spec fn command_text(bin: Seq<char>, args: Seq<Seq<char>>) -> Seq<char>
    decreases args.len(),
{
    if args.len() == 0 {
        bin
    } else {
        command_text(bin, args.drop_last()) + seq![' '] + args.last()
    }
}

/// Arguments of the listing of tracked files.
pub open spec fn ls_files_args_of(opt: Opt) -> Seq<Seq<char>> {
    seq!["ls-files"@, "--cached"@, "--exclude-standard"@] + (if opt.include_submodule {
        seq!["--recurse-submodules"@]
    } else if opt.include_untracked {
        seq!["--other"@]
    } else {
        seq![]
    }) + strs(opt.opt_git@)
}

/// Arguments of the listing of the files that git-lfs tracks.
pub open spec fn lfs_ls_files_args_of(opt: Opt) -> Seq<Seq<char>> {
    seq!["lfs"@, "ls-files"@] + strs(opt.opt_git_lfs@)
}

/// Arguments of the query for the way up to the top of the work tree.
pub open spec fn show_cdup_args_of() -> Seq<Seq<char>> {
    seq!["rev-parse"@, "--show-cdup"@]
}

/// Arguments of the query for the directory's place below the top of the work tree.
pub open spec fn show_prefix_args_of() -> Seq<Seq<char>> {
    seq!["rev-parse"@, "--show-prefix"@]
}

/// What a run of `bin` with `args` yields: its standard output on success.
pub open spec fn call_outcome(bin: Seq<char>, args: Seq<Seq<char>>, inv: Invocation) -> Result<
    Seq<u8>,
    Failure,
> {
    match inv {
        Invocation::LaunchFailed { os_error } => Err(
            Failure::CommandFailed { path: bin, err: os_error@ },
        ),
        Invocation::Exited { success, stdout, stderr } => {
            if success {
                Ok(stdout@)
            } else if valid_utf8(stderr@) {
                Err(Failure::GitFailed { cmd: command_text(bin, args), err: decode_utf8(stderr@) })
            } else {
                Err(Failure::InvalidEncoding)
            }
        },
    }
}

/// The tracked files, in the order of paths.
pub open spec fn ls_list(text: Seq<char>) -> Seq<Seq<char>> {
    lines_of(text).sort_by(path_order())
}

/// A path that git-lfs reports from the top of the work tree, made relative to
/// the directory: the directory's prefix is taken off where it stands in front,
/// and otherwise the way up is put in front.
pub open spec fn normalized(path: Seq<char>, cdup: Seq<char>, prefix: Seq<char>) -> Seq<char> {
    if prefix.is_prefix_of(path) {
        path.subrange(prefix.len() as int, path.len() as int)
    } else {
        cdup + path
    }
}

/// The files that git-lfs tracks, relative to the directory, in the order of paths.
pub open spec fn lfs_list(text: Seq<char>, cdup: Seq<char>, prefix: Seq<char>) -> Seq<Seq<char>> {
    Seq::new(
        lines_of(text).len(),
        |i: int| normalized(third_field(lines_of(text)[i]), cdup, prefix),
    ).sort_by(path_order())
}

/// The entries of `base` that `lfs` does not hold, in their order.
pub open spec fn excluded(base: Seq<Seq<char>>, lfs: Seq<Seq<char>>) -> Seq<Seq<char>> {
    base.filter(absent_from(lfs))
}

/// Holds of the paths that `lfs` does not hold.
pub open spec fn absent_from(lfs: Seq<Seq<char>>) -> spec_fn(Seq<char>) -> bool {
    |p: Seq<char>| !lfs.contains(p)
}

/// Where a resolution stands: the run it waits for, and what earlier runs gave.
pub enum Stage {
    /// Waits for the listing of tracked files.
    ListFiles,
    /// Waits for the git-lfs listing.
    ListLfs { files: Vec<Vec<char>> },
    /// Waits for the way up to the top of the work tree.
    ShowCdup { files: Vec<Vec<char>>, lfs_out: Vec<u8> },
    /// Waits for the directory's place below the top of the work tree.
    ShowPrefix { files: Vec<Vec<char>>, lfs_out: Vec<u8>, cdup: Vec<char> },
    /// Finished.
    Done { result: Result<Vec<String>, Error> },
}

/// The mathematical content of a [`Stage`].
pub enum StageModel {
    ListFiles,
    ListLfs { files: Seq<Seq<char>> },
    ShowCdup { files: Seq<Seq<char>>, lfs_out: Seq<u8> },
    ShowPrefix { files: Seq<Seq<char>>, lfs_out: Seq<u8>, cdup: Seq<char> },
    Done { result: Result<Seq<Seq<char>>, Failure> },
}

/// The mathematical content of the result of a resolution.
pub open spec fn files_result(r: Result<Vec<String>, Error>) -> Result<Seq<Seq<char>>, Failure> {
    match r {
        Ok(files) => Ok(strs(files@)),
        Err(e) => Err(e@),
    }
}

impl View for Stage {
    type V = StageModel;

    open spec fn view(&self) -> StageModel {
        match self {
            Stage::ListFiles => StageModel::ListFiles,
            Stage::ListLfs { files } => StageModel::ListLfs { files: seqs_of(files@) },
            Stage::ShowCdup { files, lfs_out } => StageModel::ShowCdup {
                files: seqs_of(files@),
                lfs_out: lfs_out@,
            },
            Stage::ShowPrefix { files, lfs_out, cdup } => StageModel::ShowPrefix {
                files: seqs_of(files@),
                lfs_out: lfs_out@,
                cdup: cdup@,
            },
            Stage::Done { result } => StageModel::Done { result: files_result(*result) },
        }
    }
}

/// How many runs a stage may still wait for.
pub open spec fn runs_left(s: StageModel) -> nat {
    match s {
        StageModel::ListFiles => 4,
        StageModel::ListLfs { .. } => 3,
        StageModel::ShowCdup { .. } => 2,
        StageModel::ShowPrefix { .. } => 1,
        StageModel::Done { .. } => 0,
    }
}

/// The arguments of the run that a stage waits for; none once it is done.
pub open spec fn next_args_of(opt: Opt, s: StageModel) -> Option<Seq<Seq<char>>> {
    match s {
        StageModel::ListFiles => Some(ls_files_args_of(opt)),
        StageModel::ListLfs { .. } => Some(lfs_ls_files_args_of(opt)),
        StageModel::ShowCdup { .. } => Some(show_cdup_args_of()),
        StageModel::ShowPrefix { .. } => Some(show_prefix_args_of()),
        StageModel::Done { .. } => None,
    }
}

/// The stage that follows `s` once its run ended as `inv`.
pub open spec fn step_of(opt: Opt, s: StageModel, inv: Invocation) -> StageModel {
    match s {
        StageModel::ListFiles => match call_outcome(opt.bin_git@, ls_files_args_of(opt), inv) {
            Err(e) => StageModel::Done { result: Err(e) },
            Ok(out) => if !valid_utf8(out) {
                StageModel::Done { result: Err(Failure::InvalidEncoding) }
            } else if opt.exclude_lfs {
                StageModel::ListLfs { files: ls_list(decode_utf8(out)) }
            } else {
                StageModel::Done { result: Ok(ls_list(decode_utf8(out))) }
            },
        },
        StageModel::ListLfs { files } => match call_outcome(
            opt.bin_git@,
            lfs_ls_files_args_of(opt),
            inv,
        ) {
            Err(e) => StageModel::Done { result: Err(e) },
            Ok(out) => StageModel::ShowCdup { files, lfs_out: out },
        },
        StageModel::ShowCdup { files, lfs_out } => match call_outcome(
            opt.bin_git@,
            show_cdup_args_of(),
            inv,
        ) {
            Err(e) => StageModel::Done { result: Err(e) },
            Ok(out) => if !valid_utf8(out) {
                StageModel::Done { result: Err(Failure::InvalidEncoding) }
            } else {
                StageModel::ShowPrefix { files, lfs_out, cdup: first_line_of(decode_utf8(out)) }
            },
        },
        StageModel::ShowPrefix { files, lfs_out, cdup } => match call_outcome(
            opt.bin_git@,
            show_prefix_args_of(),
            inv,
        ) {
            Err(e) => StageModel::Done { result: Err(e) },
            Ok(out) => if !valid_utf8(out) || !valid_utf8(lfs_out) {
                StageModel::Done { result: Err(Failure::InvalidEncoding) }
            } else {
                StageModel::Done {
                    result: Ok(
                        excluded(
                            files,
                            lfs_list(decode_utf8(lfs_out), cdup, first_line_of(decode_utf8(out))),
                        ),
                    ),
                }
            },
        },
        StageModel::Done { .. } => s,
    }
}

/// Keeping some entries of a sequence sorted in the order of paths leaves it sorted.
pub proof fn lemma_filter_sorted(s: Seq<Seq<char>>, pred: spec_fn(Seq<char>) -> bool)
    requires
        sorted_by(s, path_order()),
    ensures
        sorted_by(s.filter(pred), path_order()),
    decreases s.len(),
{
    if s.len() > 0 {
        let d = s.drop_last();
        let x = s.last();
        assert(sorted_by(d, path_order())) by {
            assert forall|i: int, j: int| 0 <= i < j < d.len() implies #[trigger] path_order()(
                d[i],
                d[j],
            ) by {
                assert(path_order()(s[i], s[j]));
            }
        }
        lemma_filter_sorted(d, pred);
        assert(d.push(x) =~= s);
        d.lemma_filter_push(x, pred);
        if pred(x) {
            let f = d.filter(pred);
            let g = f.push(x);
            assert forall|i: int, j: int| 0 <= i < j < g.len() implies #[trigger] path_order()(
                g[i],
                g[j],
            ) by {
                if j == f.len() {
                    assert(f.contains(f[i]));
                    d.lemma_filter_contains_rev(pred, f[i]);
                    let k = choose|k: int| 0 <= k < d.len() && d[k] == f[i];
                    assert(path_order()(s[k], s[s.len() - 1]));
                } else {
                    assert(path_order()(f[i], f[j]));
                }
            }
        }
    }
}

/// Without the git-lfs exclusion, the files are the lines that the listing of
/// tracked files printed, each kept, none added, in the order of paths.
pub proof fn lemma_files_without_lfs(opt: Opt, stdout: Vec<u8>, stderr: Vec<u8>)
    requires
        !opt.exclude_lfs,
        valid_utf8(stdout@),
    ensures
        ({
            let files = lines_of(decode_utf8(stdout@)).sort_by(path_order());
            &&& run_of(opt, seq![Invocation::Exited { success: true, stdout, stderr }])
                == StageModel::Done { result: Ok::<Seq<Seq<char>>, Failure>(files) }
            &&& sorted_by(files, path_order())
            &&& files.to_multiset() == lines_of(decode_utf8(stdout@)).to_multiset()
        }),
{
    lemma_path_order_total();
    lines_of(decode_utf8(stdout@)).lemma_sort_by_ensures(path_order());
    let inv = Invocation::Exited { success: true, stdout, stderr };
    let outs = seq![inv];
    assert(outs.drop_last() =~= Seq::<Invocation>::empty());
    assert(run_of(opt, outs.drop_last()) == StageModel::ListFiles);
    assert(outs.last() == inv);
    assert(run_of(opt, outs) == step_of(opt, StageModel::ListFiles, inv));
}

/// The exclusion of the files that git-lfs tracks removes every one of them and
/// adds nothing: what remains was in the listing of tracked files.
pub proof fn lemma_exclusion(base: Seq<Seq<char>>, lfs: Seq<Seq<char>>)
    ensures
        forall|p: Seq<char>| #[trigger] lfs.contains(p) ==> !excluded(base, lfs).contains(p),
        forall|p: Seq<char>| #[trigger] excluded(base, lfs).contains(p) ==> base.contains(p),
{
    assert forall|p: Seq<char>| #[trigger] lfs.contains(p) implies !excluded(base, lfs).contains(
        p,
    ) by {
        if excluded(base, lfs).contains(p) {
            let i = choose|i: int|
                0 <= i < excluded(base, lfs).len() && excluded(base, lfs)[i] == p;
            base.lemma_filter_pred(absent_from(lfs), i);
        }
    }
    assert forall|p: Seq<char>| #[trigger] excluded(base, lfs).contains(p) implies base.contains(
        p,
    ) by {
        base.lemma_filter_contains_rev(absent_from(lfs), p);
    }
}

/// Two listings that print the same lines, in any order, give the same files in
/// the same order: a resolution repeated on an unchanged repository repeats its result.
pub proof fn lemma_listing_order_independent(t1: Seq<char>, t2: Seq<char>)
    requires
        lines_of(t1).to_multiset() == lines_of(t2).to_multiset(),
    ensures
        ls_list(t1) == ls_list(t2),
{
    lemma_path_order_total();
    lines_of(t1).lemma_sort_by_ensures(path_order());
    lines_of(t2).lemma_sort_by_ensures(path_order());
    vstd::seq_lib::lemma_sorted_unique(ls_list(t1), ls_list(t2), path_order());
}

/// A listing that prints nothing gives no files.
pub proof fn lemma_empty_listing()
    ensures
        ls_list(Seq::<char>::empty()) == Seq::<Seq<char>>::empty(),
{
    lemma_path_order_total();
    let e = Seq::<char>::empty();
    assert(lines_of(e) =~= Seq::<Seq<char>>::empty());
    lines_of(e).lemma_sort_by_ensures(path_order());
    vstd::seq_lib::to_multiset_len(lines_of(e));
    vstd::seq_lib::to_multiset_len(ls_list(e));
    assert(ls_list(e) =~= Seq::<Seq<char>>::empty());
}

/// Every list of files that a stage holds or has given is in the order of paths.
pub open spec fn stage_sorted(s: StageModel) -> bool {
    match s {
        StageModel::ListLfs { files } => sorted_by(files, path_order()),
        StageModel::ShowCdup { files, .. } => sorted_by(files, path_order()),
        StageModel::ShowPrefix { files, .. } => sorted_by(files, path_order()),
        StageModel::Done { result } => result is Ok ==> sorted_by(result->Ok_0, path_order()),
        StageModel::ListFiles => true,
    }
}

/// Each step keeps the lists of files in the order of paths.
pub proof fn lemma_step_sorted(opt: Opt, s: StageModel, inv: Invocation)
    requires
        stage_sorted(s),
    ensures
        stage_sorted(step_of(opt, s, inv)),
        s !is Done ==> runs_left(step_of(opt, s, inv)) < runs_left(s),
{
    lemma_path_order_total();
    match s {
        StageModel::ListFiles => {
            if let Ok(out) = call_outcome(opt.bin_git@, ls_files_args_of(opt), inv) {
                lines_of(decode_utf8(out)).lemma_sort_by_ensures(path_order());
            }
        },
        StageModel::ShowPrefix { files, lfs_out, cdup } => {
            if let Ok(out) = call_outcome(opt.bin_git@, show_prefix_args_of(), inv) {
                if valid_utf8(out) && valid_utf8(lfs_out) {
                    lemma_filter_sorted(
                        files,
                        absent_from(
                            lfs_list(decode_utf8(lfs_out), cdup, first_line_of(decode_utf8(out))),
                        ),
                    );
                }
            }
        },
        _ => {},
    }
}

/// The stage that a resolution reaches once its runs ended as `outs`, in turn.
pub open spec fn run_of(opt: Opt, outs: Seq<Invocation>) -> StageModel
    decreases outs.len(),
{
    if outs.len() == 0 {
        StageModel::ListFiles
    } else {
        step_of(opt, run_of(opt, outs.drop_last()), outs.last())
    }
}

/// Runs the git executable on behalf of a resolution.
pub trait Invoker {
    /// Runs the git executable of `opt` with `args` in `opt.dir`, and reports how it ended.
    fn run(&mut self, opt: &Opt, args: &Vec<String>) -> Invocation;
}

pub struct CmdGit;

/// Relies on `String::from_utf8`: it succeeds exactly on valid UTF-8, and the
/// string then holds the bytes it was given.
#[verifier::external_body]
fn utf8_string(bytes: Vec<u8>) -> (r: Option<String>)
    ensures
        r is Some <==> valid_utf8(bytes@),
        r is Some ==> r->0@ == decode_utf8(bytes@),
{
    match String::from_utf8(bytes) {
        Ok(s) => Some(s),
        Err(_) => None,
    }
}

impl CmdGit {
    /// The command line as it is shown: the executable, then each argument after a space.
    pub fn get_cmd(opt: &Opt, args: &Vec<String>) -> (r: String)
        ensures
            r@ == command_text(opt.bin_git@, strs(args@)),
    {
        let mut cmd = opt.bin_git.clone();
        let mut i: usize = 0;
        while i < args.len()
            invariant
                i <= args.len(),
                cmd@ == command_text(opt.bin_git@, strs(args@).take(i as int)),
            decreases args.len() - i,
        {
            proof {
                reveal_strlit(" ");
                assert(strs(args@).take(i + 1).drop_last() =~= strs(args@).take(i as int));
            }
            cmd = cmd.concat(" ");
            cmd = cmd.concat(args[i].as_str());
            i = i + 1;
        }
        assert(strs(args@).take(i as int) =~= strs(args@));
        cmd
    }

    /// Arguments of the listing of tracked files.
    pub fn ls_files_args(opt: &Opt) -> (r: Vec<String>)
        ensures
            strs(r@) == ls_files_args_of(*opt),
    {
        let mut args: Vec<String> = Vec::new();
        args.push(String::from_str("ls-files"));
        args.push(String::from_str("--cached"));
        args.push(String::from_str("--exclude-standard"));
        if opt.include_submodule {
            args.push(String::from_str("--recurse-submodules"));
        } else if opt.include_untracked {
            args.push(String::from_str("--other"));
        }
        let ghost fixed = strs(args@);
        let mut i: usize = 0;
        while i < opt.opt_git.len()
            invariant
                i <= opt.opt_git.len(),
                strs(args@) == fixed + strs(opt.opt_git@).take(i as int),
            decreases opt.opt_git.len() - i,
        {
            let ghost before = strs(args@);
            args.push(opt.opt_git[i].clone());
            assert(strs(args@) =~= before.push(opt.opt_git@[i as int]@));
            assert(strs(opt.opt_git@).take(i + 1) =~= strs(opt.opt_git@).take(i as int).push(
                opt.opt_git@[i as int]@,
            ));
            i = i + 1;
        }
        assert(strs(opt.opt_git@).take(i as int) =~= strs(opt.opt_git@));
        assert(strs(args@) =~= ls_files_args_of(*opt));
        args
    }

    /// Arguments of the listing of the files that git-lfs tracks.
    pub fn lfs_ls_files_args(opt: &Opt) -> (r: Vec<String>)
        ensures
            strs(r@) == lfs_ls_files_args_of(*opt),
    {
        let mut args: Vec<String> = Vec::new();
        args.push(String::from_str("lfs"));
        args.push(String::from_str("ls-files"));
        let ghost fixed = strs(args@);
        let mut i: usize = 0;
        while i < opt.opt_git_lfs.len()
            invariant
                i <= opt.opt_git_lfs.len(),
                strs(args@) == fixed + strs(opt.opt_git_lfs@).take(i as int),
            decreases opt.opt_git_lfs.len() - i,
        {
            let ghost before = strs(args@);
            args.push(opt.opt_git_lfs[i].clone());
            assert(strs(args@) =~= before.push(opt.opt_git_lfs@[i as int]@));
            assert(strs(opt.opt_git_lfs@).take(i + 1) =~= strs(opt.opt_git_lfs@).take(
                i as int,
            ).push(opt.opt_git_lfs@[i as int]@));
            i = i + 1;
        }
        assert(strs(opt.opt_git_lfs@).take(i as int) =~= strs(opt.opt_git_lfs@));
        assert(strs(args@) =~= lfs_ls_files_args_of(*opt));
        args
    }

    /// Arguments of the query for the way up to the top of the work tree.
    pub fn show_cdup_args() -> (r: Vec<String>)
        ensures
            strs(r@) == show_cdup_args_of(),
    {
        let args = vec![String::from_str("rev-parse"), String::from_str("--show-cdup")];
        assert(strs(args@) =~= show_cdup_args_of());
        args
    }

    /// Arguments of the query for the directory's place below the top of the work tree.
    pub fn show_prefix_args() -> (r: Vec<String>)
        ensures
            strs(r@) == show_prefix_args_of(),
    {
        let args = vec![String::from_str("rev-parse"), String::from_str("--show-prefix")];
        assert(strs(args@) =~= show_prefix_args_of());
        args
    }

    /// Classifies how a run of git with `args` ended: its standard output when
    /// it succeeded, else the error that describes the failure.
    pub fn call(opt: &Opt, args: &Vec<String>, inv: Invocation) -> (r: Result<Vec<u8>, Error>)
        ensures
            match r {
                Ok(out) => call_outcome(opt.bin_git@, strs(args@), inv) == Ok::<Seq<u8>, Failure>(out@),
                Err(e) => call_outcome(opt.bin_git@, strs(args@), inv) == Err::<Seq<u8>, Failure>(e@),
            },
    {
        match inv {
            Invocation::LaunchFailed { os_error } => Err(
                Error::CommandFailed { path: opt.bin_git.clone(), err: os_error },
            ),
            Invocation::Exited { success, stdout, stderr } => {
                if success {
                    Ok(stdout)
                } else {
                    let cmd = CmdGit::get_cmd(opt, args);
                    match utf8_string(stderr) {
                        Some(err) => Err(Error::GitFailed { cmd, err }),
                        None => Err(Error::InvalidEncoding),
                    }
                }
            },
        }
    }

    /// The text that `bytes` encode in UTF-8, or `InvalidEncoding`.
    pub fn decode_text(bytes: Vec<u8>) -> (r: Result<Vec<char>, Error>)
        ensures
            match r {
                Ok(t) => valid_utf8(bytes@) && t@ == decode_utf8(bytes@),
                Err(e) => !valid_utf8(bytes@) && e@ == Failure::InvalidEncoding,
            },
    {
        match utf8_string(bytes) {
            Some(s) => Ok(chars_of(s.as_str())),
            None => Err(Error::InvalidEncoding),
        }
    }

    /// The tracked files that a listing reports, in the order of paths.
    pub fn ls_files(text: &Vec<char>) -> (r: Vec<Vec<char>>)
        ensures
            seqs_of(r@) == ls_list(text@),
    {
        sort_paths(split_lines(text))
    }

    /// A path that git-lfs reports from the top of the work tree, made relative
    /// to the directory.
    pub fn normalize(path: Vec<char>, cdup: &Vec<char>, prefix: &Vec<char>) -> (r: Vec<char>)
        ensures
            r@ == normalized(path@, cdup@, prefix@),
    {
        let mut k: usize = 0;
        let mut is_prefix = prefix.len() <= path.len();
        while is_prefix && k < prefix.len()
            invariant
                k <= prefix.len(),
                is_prefix ==> prefix.len() <= path.len(),
                is_prefix ==> prefix@.take(k as int) == path@.take(k as int),
                !is_prefix ==> !prefix@.is_prefix_of(path@),
            decreases prefix.len() - k + (if is_prefix { 1int } else { 0int }),
        {
            if prefix[k] != path[k] {
                is_prefix = false;
            } else {
                assert(prefix@.take(k + 1) =~= prefix@.take(k as int).push(prefix@[k as int]));
                assert(path@.take(k + 1) =~= path@.take(k as int).push(path@[k as int]));
                k = k + 1;
            }
        }
        if is_prefix {
            assert(prefix@.take(k as int) =~= prefix@);
            assert(prefix@.is_prefix_of(path@));
            sub_chars(&path, prefix.len(), path.len())
        } else {
            let mut r = cdup.clone();
            let mut i: usize = 0;
            while i < path.len()
                invariant
                    i <= path.len(),
                    r@ == cdup@ + path@.take(i as int),
                decreases path.len() - i,
            {
                r.push(path[i]);
                assert(path@.take(i + 1) =~= path@.take(i as int).push(path@[i as int]));
                i = i + 1;
            }
            assert(path@.take(i as int) =~= path@);
            r
        }
    }

    /// The files that a git-lfs listing reports, relative to the directory, in
    /// the order of paths.
    pub fn lfs_ls_files(text: &Vec<char>, cdup: &Vec<char>, prefix: &Vec<char>) -> (r: Vec<Vec<char>>)
        ensures
            seqs_of(r@) == lfs_list(text@, cdup@, prefix@),
    {
        let lines = split_lines(text);
        let mut paths: Vec<Vec<char>> = Vec::new();
        let mut i: usize = 0;
        while i < lines.len()
            invariant
                i <= lines.len(),
                seqs_of(lines@) == lines_of(text@),
                paths.len() == i,
                forall|k: int|
                    0 <= k < i ==> #[trigger] paths@[k]@ == normalized(
                        third_field(lines_of(text@)[k]),
                        cdup@,
                        prefix@,
                    ),
            decreases lines.len() - i,
        {
            let p = CmdGit::normalize(third_field_of(&lines[i]), cdup, prefix);
            assert(lines@[i as int]@ == lines_of(text@)[i as int]);
            paths.push(p);
            i = i + 1;
        }
        assert(seqs_of(paths@) =~= Seq::new(
            lines_of(text@).len(),
            |i: int| normalized(third_field(lines_of(text@)[i]), cdup@, prefix@),
        ));
        sort_paths(paths)
    }

    /// The entries of `files` that `lfs` does not hold, in their order.
    pub fn exclude(files: Vec<Vec<char>>, lfs: &Vec<Vec<char>>) -> (r: Vec<Vec<char>>)
        ensures
            seqs_of(r@) == excluded(seqs_of(files@), seqs_of(lfs@)),
    {
        let ghost keep = absent_from(seqs_of(lfs@));
        let mut r: Vec<Vec<char>> = Vec::new();
        let mut rest = files;
        let ghost all = seqs_of(rest@);
        let mut i: usize = 0;
        while i < rest.len()
            invariant
                i <= rest.len(),
                seqs_of(rest@) == all,
                keep == absent_from(seqs_of(lfs@)),
                seqs_of(r@) == all.take(i as int).filter(keep),
            decreases rest.len() - i,
        {
            let found = contains_path(lfs, &rest[i]);
            assert(found <==> seqs_of(lfs@).contains(all[i as int]));
            proof {
                assert(all.take(i + 1) =~= all.take(i as int).push(all[i as int]));
                all.take(i as int).lemma_filter_push(all[i as int], keep);
            }
            if !found {
                let ghost before = seqs_of(r@);
                let p = sub_chars(&rest[i], 0, rest[i].len());
                assert(p@ =~= all[i as int]);
                r.push(p);
                assert(seqs_of(r@) =~= before.push(all[i as int]));
            }
            i = i + 1;
        }
        assert(all.take(i as int) =~= all);
        r
    }

    /// Strings that hold the given paths.
    pub fn to_strings(v: Vec<Vec<char>>) -> (r: Vec<String>)
        ensures
            strs(r@) == seqs_of(v@),
    {
        let mut r: Vec<String> = Vec::new();
        let mut rest = v;
        let ghost all = seqs_of(rest@);
        while rest.len() > 0
            invariant
                all == strs(r@) + seqs_of(rest@),
            decreases rest.len(),
        {
            let ghost rest_before = seqs_of(rest@);
            let p = rest.remove(0);
            let ghost before = strs(r@);
            r.push(string_of(p));
            assert(strs(r@) =~= before.push(p@));
            assert(rest_before =~= seqs_of(rest@).insert(0, p@));
            assert(strs(r@) + seqs_of(rest@) =~= before + rest_before);
        }
        assert(strs(r@) + seqs_of(rest@) =~= strs(r@));
        r
    }

    /// The arguments of the run that `stage` waits for; none once it is done.
    pub fn next_call(opt: &Opt, stage: &Stage) -> (r: Option<Vec<String>>)
        ensures
            match r {
                Some(args) => next_args_of(*opt, stage@) == Some(strs(args@)),
                None => next_args_of(*opt, stage@) is None,
            },
    {
        match stage {
            Stage::ListFiles => Some(CmdGit::ls_files_args(opt)),
            Stage::ListLfs { .. } => Some(CmdGit::lfs_ls_files_args(opt)),
            Stage::ShowCdup { .. } => Some(CmdGit::show_cdup_args()),
            Stage::ShowPrefix { .. } => Some(CmdGit::show_prefix_args()),
            Stage::Done { .. } => None,
        }
    }

    /// The stage that follows `stage` once the run it waited for ended as `inv`.
    pub fn advance(opt: &Opt, stage: Stage, inv: Invocation) -> (r: Stage)
        ensures
            r@ == step_of(*opt, stage@, inv),
    {
        match stage {
            Stage::ListFiles => {
                let args = CmdGit::ls_files_args(opt);
                match CmdGit::call(opt, &args, inv) {
                    Err(e) => Stage::Done { result: Err(e) },
                    Ok(out) => match CmdGit::decode_text(out) {
                        Err(e) => Stage::Done { result: Err(e) },
                        Ok(text) => {
                            let files = CmdGit::ls_files(&text);
                            if opt.exclude_lfs {
                                Stage::ListLfs { files }
                            } else {
                                Stage::Done { result: Ok(CmdGit::to_strings(files)) }
                            }
                        },
                    },
                }
            },
            Stage::ListLfs { files } => {
                let args = CmdGit::lfs_ls_files_args(opt);
                match CmdGit::call(opt, &args, inv) {
                    Err(e) => Stage::Done { result: Err(e) },
                    Ok(out) => Stage::ShowCdup { files, lfs_out: out },
                }
            },
            Stage::ShowCdup { files, lfs_out } => {
                let args = CmdGit::show_cdup_args();
                match CmdGit::call(opt, &args, inv) {
                    Err(e) => Stage::Done { result: Err(e) },
                    Ok(out) => match CmdGit::decode_text(out) {
                        Err(e) => Stage::Done { result: Err(e) },
                        Ok(text) => Stage::ShowPrefix { files, lfs_out, cdup: first_line(&text) },
                    },
                }
            },
            Stage::ShowPrefix { files, lfs_out, cdup } => {
                let args = CmdGit::show_prefix_args();
                match CmdGit::call(opt, &args, inv) {
                    Err(e) => Stage::Done { result: Err(e) },
                    Ok(out) => match CmdGit::decode_text(out) {
                        Err(e) => Stage::Done { result: Err(e) },
                        Ok(text) => {
                            let prefix = first_line(&text);
                            match CmdGit::decode_text(lfs_out) {
                                Err(e) => Stage::Done { result: Err(e) },
                                Ok(lfs_text) => {
                                    let lfs = CmdGit::lfs_ls_files(&lfs_text, &cdup, &prefix);
                                    let kept = CmdGit::exclude(files, &lfs);
                                    Stage::Done { result: Ok(CmdGit::to_strings(kept)) }
                                },
                            }
                        },
                    },
                }
            },
            Stage::Done { result } => Stage::Done { result },
        }
    }

    /// Resolves the files to index: runs git through `invoker` as each stage
    /// asks, and hands each outcome to [`CmdGit::advance`]. The result is what
    /// the stages give for the outcomes that the runs had; whatever those were,
    /// a list of files is in the order of paths.
    pub fn get_files<I: Invoker>(opt: &Opt, invoker: &mut I) -> (r: Result<Vec<String>, Error>)
        ensures
            (exists|outs: Seq<Invocation>|
                #[trigger] run_of(*opt, outs) == (StageModel::Done { result: files_result(r) })),
            r is Ok ==> sorted_by(strs(r->Ok_0@), path_order()),
    {
        let mut stage = Stage::ListFiles;
        let ghost mut outs: Seq<Invocation> = Seq::empty();
        loop
            invariant
                stage@ == run_of(*opt, outs),
                stage_sorted(stage@),
            decreases runs_left(stage@),
        {
            match CmdGit::next_call(opt, &stage) {
                None => {
                    match stage {
                        Stage::Done { result } => {
                            assert(run_of(*opt, outs) == StageModel::Done {
                                result: files_result(result),
                            });
                            return result;
                        },
                        _ => {
                            proof {
                                assert(false);
                            }
                            return Err(Error::InvalidEncoding);
                        },
                    }
                },
                Some(args) => {
                    let inv = invoker.run(opt, &args);
                    proof {
                        lemma_step_sorted(*opt, stage@, inv);
                    }
                    proof {
                        assert(outs.push(inv).drop_last() =~= outs);
                        outs = outs.push(inv);
                    }
                    stage = CmdGit::advance(opt, stage, inv);
                },
            }
        }
    }
}

} // verus!
