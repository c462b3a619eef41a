//! Wrapper mode: decide whether decryption is needed, discover and combine the
//! identities, and hand over to chezmoi.

use vstd::prelude::*;

use crate::config;
use crate::config::{filter_dummy_identities, ConfigError, Probed};
use crate::exec;
use crate::exec::{expand_tilde, find_in_path, ExecError};
use crate::gpg;
use crate::gpg::is_encrypted;
use crate::scan;
use crate::scan::{scan_identities, ScanEntry};
use crate::secure;
use crate::secure::SecureString;
use crate::shim;
use crate::text;
use crate::text::{
    join, same_text, split, starts_with_char, strip_prefix, trim, trim_end, with_cause,
};

verus! {

/// Whether an argument is written as a flag.
pub open spec fn is_flag(arg: Seq<char>) -> bool {
    arg.len() > 0 && arg[0] == '-'
}

/// The first argument that is not written as a flag.
pub open spec fn subcommand(args: Seq<Seq<char>>) -> Option<Seq<char>>
    decreases args.len(),
{
    if args.len() == 0 {
        None
    } else if !is_flag(args[0]) {
        Some(args[0])
    } else {
        subcommand(args.skip(1))
    }
}

/// The chezmoi subcommands that never need age decryption.
///
/// They deal only with metadata, configuration, shell operations, or
/// write-only encryption with the age recipient, and never read the content
/// of an encrypted file.
pub open spec fn passthrough(cmd: Seq<char>) -> bool {
    ||| cmd == "add"@
    ||| cmd == "age-keygen"@
    ||| cmd == "cat-config"@
    ||| cmd == "cd"@
    ||| cmd == "chattr"@
    ||| cmd == "completion"@
    ||| cmd == "data"@
    ||| cmd == "doctor"@
    ||| cmd == "dump-config"@
    ||| cmd == "edit-config"@
    ||| cmd == "edit-config-template"@
    ||| cmd == "encrypt"@
    ||| cmd == "execute-template"@
    ||| cmd == "forget"@
    ||| cmd == "generate"@
    ||| cmd == "git"@
    ||| cmd == "help"@
    ||| cmd == "ignored"@
    ||| cmd == "license"@
    ||| cmd == "managed"@
    ||| cmd == "purge"@
    ||| cmd == "re-add"@
    ||| cmd == "secret"@
    ||| cmd == "source-path"@
    ||| cmd == "state"@
    ||| cmd == "target-path"@
    ||| cmd == "unmanaged"@
    ||| cmd == "upgrade"@
}

/// An `--exclude` (true) or `--include` (false) flag that carries its value
/// in the same argument, and that value.
pub open spec fn inline_flag(arg: Seq<char>) -> Option<(bool, Seq<char>)> {
    if "--exclude="@.is_prefix_of(arg) {
        Some((true, arg.skip("--exclude="@.len() as int)))
    } else if "--include="@.is_prefix_of(arg) {
        Some((false, arg.skip("--include="@.len() as int)))
    } else if "-x="@.is_prefix_of(arg) {
        Some((true, arg.skip("-x="@.len() as int)))
    } else if "-i="@.is_prefix_of(arg) {
        Some((false, arg.skip("-i="@.len() as int)))
    } else {
        None
    }
}

/// An `--exclude` (true) or `--include` (false) flag whose value is the next
/// argument.
pub open spec fn bare_flag(arg: Seq<char>) -> Option<bool> {
    if arg == "--exclude"@ || arg == "-x"@ {
        Some(true)
    } else if arg == "--include"@ || arg == "-i"@ {
        Some(false)
    } else {
        None
    }
}

/// The `--exclude` (true) and `--include` (false) flags of a command line with
/// their values, in order. A bare flag that is last, or that is followed by
/// another flag, has no value and does not count.
pub open spec fn filter_flags(args: Seq<Seq<char>>) -> Seq<(bool, Seq<char>)>
    decreases args.len(),
{
    if args.len() == 0 {
        Seq::empty()
    } else if inline_flag(args[0]) is Some {
        seq![inline_flag(args[0])->0] + filter_flags(args.skip(1))
    } else if bare_flag(args[0]) is Some && args.len() > 1 && !is_flag(args[1]) {
        seq![(bare_flag(args[0])->0, args[1])] + filter_flags(args.skip(2))
    } else {
        filter_flags(args.skip(1))
    }
}

/// What one entry type under `--exclude` (true) or `--include` (false) says of
/// the encrypted entries: that they are excluded, that they are not, or
/// nothing.
pub open spec fn verdict(excludes: bool, entry: Seq<char>) -> Option<bool> {
    if entry == "encrypted"@ || entry == "all"@ {
        Some(excludes)
    } else if entry == "none"@ || entry == "noencrypted"@ {
        Some(!excludes)
    } else {
        None
    }
}

/// Whether encrypted entries are excluded after a list of entry types: the
/// last one that says something of them decides.
pub open spec fn after_entries(excluded: bool, excludes: bool, entries: Seq<Seq<char>>) -> bool
    decreases entries.len(),
{
    if entries.len() == 0 {
        excluded
    } else {
        match verdict(excludes, text::trimmed(entries.last())) {
            Some(v) => v,
            None => after_entries(excluded, excludes, entries.drop_last()),
        }
    }
}

/// Whether encrypted entries are excluded after one flag with its
/// comma-separated value.
pub open spec fn after_flag(excluded: bool, flag: (bool, Seq<char>)) -> bool {
    after_entries(excluded, flag.0, text::pieces(flag.1, ","@))
}

/// Whether encrypted entries are excluded after a list of flags.
pub open spec fn after_flags(excluded: bool, flags: Seq<(bool, Seq<char>)>) -> bool
    decreases flags.len(),
{
    if flags.len() == 0 {
        excluded
    } else {
        after_flag(after_flags(excluded, flags.drop_last()), flags.last())
    }
}

/// Whether a command line excludes encrypted entries. Without a flag that says
/// so it does not.
pub open spec fn encrypted_excluded(args: Seq<Seq<char>>) -> bool {
    after_flags(false, filter_flags(args))
}

/// Whether a command line may read encrypted content.
pub open spec fn decryption_needed(args: Seq<Seq<char>>) -> bool {
    &&& !(subcommand(args) matches Some(cmd) && passthrough(cmd))
    &&& !encrypted_excluded(args)
}

proof fn lemma_after_flags_front(
    excluded: bool,
    flag: (bool, Seq<char>),
    rest: Seq<(bool, Seq<char>)>,
)
    ensures
        after_flags(excluded, seq![flag] + rest) == after_flags(after_flag(excluded, flag), rest),
    decreases rest.len(),
{
    let all = seq![flag] + rest;
    if rest.len() == 0 {
        assert(all.drop_last() =~= Seq::<(bool, Seq<char>)>::empty());
        assert(all.last() == flag);
        assert(after_flags(excluded, all.drop_last()) == excluded);
    } else {
        assert(all.drop_last() =~= seq![flag] + rest.drop_last());
        assert(all.last() == rest.last());
        lemma_after_flags_front(excluded, flag, rest.drop_last());
    }
}

/// Extract the chezmoi subcommand from the argument list: the first argument
/// that does not start with `-`.
pub fn extract_subcommand(args: &[String]) -> (r: Option<&str>)
    ensures
        match r {
            Some(cmd) => subcommand(text::texts(args@)) == Some(cmd@),
            None => subcommand(text::texts(args@)) is None,
        },
{
    let ghost all = text::texts(args@);
    assert(all.skip(0) =~= all);
    for i in 0..args.len()
        invariant
            all == text::texts(args@),
            subcommand(all.skip(i as int)) == subcommand(all),
    {
        assert(all.skip(i as int).skip(1) =~= all.skip(i + 1));
        if !starts_with_char(args[i].as_str(), '-') {
            return Some(args[i].as_str());
        }
    }
    None
}

/// The outcome of one comma-separated flag value.
fn apply_values(excluded: bool, excludes: bool, values: &str) -> (r: bool)
    ensures
        r == after_flag(excluded, (excludes, values@)),
{
    let entries = split(values, ",");
    let ghost all = text::slices(entries@);
    let mut out = excluded;
    for i in 0..entries.len()
        invariant
            all == text::slices(entries@),
            out == after_entries(excluded, excludes, all.take(i as int)),
    {
        assert(all.take(i + 1).drop_last() =~= all.take(i as int));
        assert(all.take(i + 1).last() == entries@[i as int]@);
        let entry = trim(entries[i]);
        if same_text(entry, "encrypted") || same_text(entry, "all") {
            out = excludes;
        } else if same_text(entry, "none") || same_text(entry, "noencrypted") {
            out = !excludes;
        }
    }
    assert(all.take(entries.len() as int) =~= all);
    out
}

/// The flag and value that `arg` holds, if it is an `--exclude=` or
/// `--include=` flag in its long or short form.
fn parse_inline_flag(arg: &str) -> (r: Option<(bool, &str)>)
    ensures
        match r {
            Some(f) => inline_flag(arg@) == Some((f.0, f.1@)),
            None => inline_flag(arg@) is None,
        },
{
    if let Some(v) = strip_prefix(arg, "--exclude=") {
        assert(arg@.skip("--exclude="@.len() as int) =~= v@);
        assert("--exclude="@.is_prefix_of(arg@));
        return Some((true, v));
    }
    if let Some(v) = strip_prefix(arg, "--include=") {
        assert(arg@.skip("--include="@.len() as int) =~= v@);
        assert("--include="@.is_prefix_of(arg@));
        return Some((false, v));
    }
    if let Some(v) = strip_prefix(arg, "-x=") {
        assert(arg@.skip("-x="@.len() as int) =~= v@);
        assert("-x="@.is_prefix_of(arg@));
        return Some((true, v));
    }
    if let Some(v) = strip_prefix(arg, "-i=") {
        assert(arg@.skip("-i="@.len() as int) =~= v@);
        assert("-i="@.is_prefix_of(arg@));
        return Some((false, v));
    }
    None
}

/// Whether `arg` is an `--exclude` (true) or `--include` (false) flag whose
/// value is the next argument.
fn parse_bare_flag(arg: &str) -> (r: Option<bool>)
    ensures
        r == bare_flag(arg@),
{
    if same_text(arg, "--exclude") || same_text(arg, "-x") {
        Some(true)
    } else if same_text(arg, "--include") || same_text(arg, "-i") {
        Some(false)
    } else {
        None
    }
}

/// Check whether `--exclude`/`-x` flags exclude `encrypted` entries.
///
/// Scans the arguments left to right; later flags override earlier ones.
/// Returns `false` (safe default: do decrypt) for ambiguous or empty input.
pub fn excludes_encrypted(args: &[String]) -> (r: bool)
    ensures
        r == encrypted_excluded(text::texts(args@)),
{
    let ghost all = text::texts(args@);
    assert(all.skip(0) =~= all);
    let mut excluded = false;
    let mut i: usize = 0;
    while i < args.len()
        invariant
            all == text::texts(args@),
            i <= args.len(),
            after_flags(excluded, filter_flags(all.skip(i as int))) == encrypted_excluded(all),
        decreases args.len() - i,
    {
        let ghost rest = all.skip(i as int);
        assert(rest.skip(1) =~= all.skip(i + 1));
        let arg = args[i].as_str();
        assert(rest[0] == arg@);
        if let Some((excludes, values)) = parse_inline_flag(arg) {
            proof {
                lemma_after_flags_front(excluded, (excludes, values@), filter_flags(all.skip(i + 1)));
            }
            excluded = apply_values(excluded, excludes, values);
            i = i + 1;
        } else if let Some(excludes) = parse_bare_flag(arg) {
            if args.len() - i > 1 && !starts_with_char(args[i + 1].as_str(), '-') {
                let values = args[i + 1].as_str();
                assert(rest[1] == values@);
                assert(rest.skip(2) =~= all.skip(i + 2));
                proof {
                    lemma_after_flags_front(
                        excluded,
                        (excludes, values@),
                        filter_flags(all.skip(i + 2)),
                    );
                }
                excluded = apply_values(excluded, excludes, values);
                i = i + 2;
            } else {
                assert(rest.len() > 1 ==> rest[1] == args@[i + 1]@);
                i = i + 1;
            }
        } else {
            i = i + 1;
        }
    }
    assert(all.skip(i as int).len() == 0);
    excluded
}

/// Whether `cmd` is a subcommand that never needs age decryption.
pub fn is_passthrough(cmd: &str) -> (r: bool)
    ensures
        r == passthrough(cmd@),
{
    same_text(cmd, "add")
        || same_text(cmd, "age-keygen")
        || same_text(cmd, "cat-config")
        || same_text(cmd, "cd")
        || same_text(cmd, "chattr")
        || same_text(cmd, "completion")
        || same_text(cmd, "data")
        || same_text(cmd, "doctor")
        || same_text(cmd, "dump-config")
        || same_text(cmd, "edit-config")
        || same_text(cmd, "edit-config-template")
        || same_text(cmd, "encrypt")
        || same_text(cmd, "execute-template")
        || same_text(cmd, "forget")
        || same_text(cmd, "generate")
        || same_text(cmd, "git")
        || same_text(cmd, "help")
        || same_text(cmd, "ignored")
        || same_text(cmd, "license")
        || same_text(cmd, "managed")
        || same_text(cmd, "purge")
        || same_text(cmd, "re-add")
        || same_text(cmd, "secret")
        || same_text(cmd, "source-path")
        || same_text(cmd, "state")
        || same_text(cmd, "target-path")
        || same_text(cmd, "unmanaged")
        || same_text(cmd, "upgrade")
}

/// Check whether the given arguments require age key decryption.
///
/// Returns `false` for known passthrough subcommands that never read encrypted
/// content, or when encrypted entries are excluded. Returns `true` for
/// everything else (safe default).
pub fn needs_decryption(args: &[String]) -> (r: bool)
    ensures
        r == decryption_needed(text::texts(args@)),
{
    if let Some(cmd) = extract_subcommand(args) {
        if is_passthrough(cmd) {
            return false;
        }
    }
    !excludes_encrypted(args)
}

/// What wrapper mode does first.
#[derive(Debug, Clone, Copy, PartialEq, Eq, Structural)]
pub enum RunStep {
    /// Replace this process with chezmoi at once.
    ExecChezmoi,
    /// Collect the identity files and decrypt them first.
    CollectIdentities,
}

/// What wrapper mode does first, by the value of the age key variable and the
/// arguments: chezmoi is executed at once where the key is already decrypted or
/// where the arguments never need it.
pub open spec fn first_step(age_key: Option<Seq<char>>, args: Seq<Seq<char>>) -> RunStep {
    if (age_key matches Some(key) && key.len() > 0) || !decryption_needed(args) {
        RunStep::ExecChezmoi
    } else {
        RunStep::CollectIdentities
    }
}

/// Decide how to run in wrapper mode from the value of the age key variable and
/// the arguments.
///
/// chezmoi is executed at once where the key is already decrypted (recursion
/// guard) or where the arguments never need it.
pub fn run(age_key: Option<&str>, args: &[String]) -> (r: RunStep)
    ensures
        r == first_step(text::opt_text(age_key), text::texts(args@)),
{
    if let Some(key) = age_key {
        if !key.is_empty() {
            return RunStep::ExecChezmoi;
        }
    }
    if needs_decryption(args) {
        RunStep::CollectIdentities
    } else {
        RunStep::ExecChezmoi
    }
}

/// Where the chezmoi binary is on `PATH`; see [`find_in_path`].
///
/// # Errors
///
/// Returns an error if no `chezmoi` binary is found.
pub fn find_chezmoi(path_files: Option<&Vec<bool>>) -> (r: Result<usize, ExecError>)
    ensures
        match r {
            Ok(i) => path_files matches Some(files) && exec::is_first(files@, i as int),
            Err(e) => {
                &&& e == ExecError::ChezmoiNotFound
                &&& path_files matches Some(files) ==> forall|j: int|
                    0 <= j < files@.len() ==> !files@[j]
            },
        },
{
    match find_in_path(path_files) {
        Some(i) => Ok(i),
        None => Err(ExecError::ChezmoiNotFound),
    }
}

/// The identity files to load.
pub enum IdentityPaths {
    /// Files named by the config or by the environment.
    Named(Vec<String>),
    /// Files found by the scan, by their position among its entries.
    Scanned(Vec<usize>),
}

/// The paths of a comma- or semicolon-separated list, trimmed and with a
/// leading tilde expanded.
pub open spec fn env_paths(value: Seq<char>, home: Option<Seq<char>>) -> Seq<Seq<char>> {
    text::pieces(value, ",;"@).map_values(|s: Seq<char>| exec::expanded(text::trimmed(s), home))
}

/// The paths that the value of the key file variable names.
pub fn env_candidates(value: &str, home: Option<&str>) -> (r: Vec<String>)
    ensures
        text::texts(r@) == env_paths(value@, text::opt_text(home)),
{
    let names = split(value, ",;");
    let ghost all = env_paths(value@, text::opt_text(home));
    let mut out: Vec<String> = Vec::new();
    for i in 0..names.len()
        invariant
            text::slices(names@) == text::pieces(value@, ",;"@),
            all == env_paths(value@, text::opt_text(home)),
            text::texts(out@) == all.take(i as int),
    {
        let ghost before = text::texts(out@);
        assert(text::slices(names@)[i as int] == names@[i as int]@);
        out.push(expand_tilde(trim(names[i]), home));
        assert(text::texts(out@) =~= before.push(all[i as int]));
        assert(all.take(i + 1) =~= all.take(i as int).push(all[i as int]));
    }
    assert(text::slices(names@).len() == names@.len());
    assert(all.take(names.len() as int) =~= all);
    out
}

/// The paths among those probed that are files, in order.
pub open spec fn existing(probed: Seq<Probed>) -> Seq<Seq<char>>
    decreases probed.len(),
{
    if probed.len() == 0 {
        Seq::empty()
    } else {
        let before = existing(probed.drop_last());
        if probed.last().is_file {
            before.push(probed.last().path@)
        } else {
            before
        }
    }
}

/// Keep the paths that are files.
pub fn keep_existing(probed: &Vec<Probed>) -> (r: Vec<String>)
    ensures
        text::texts(r@) == existing(probed@),
{
    let mut out: Vec<String> = Vec::new();
    assert(text::texts(out@) =~= Seq::<Seq<char>>::empty());
    for i in 0..probed.len()
        invariant
            text::texts(out@) == existing(probed@.take(i as int)),
    {
        let ghost before = text::texts(out@);
        assert(probed@.take(i + 1).drop_last() =~= probed@.take(i as int));
        if probed[i].is_file {
            out.push(probed[i].path.clone());
            assert(text::texts(out@) =~= before.push(probed@[i as int].path@));
        }
    }
    assert(probed@.take(probed.len() as int) =~= probed@);
    out
}

/// The identity paths of a config without the dummies; none where there is no
/// config or it could not be used.
pub open spec fn usable_config_paths(
    from_config: Option<Result<Vec<String>, ConfigError>>,
) -> Seq<Seq<char>> {
    match from_config {
        Some(Ok(paths)) => text::texts(paths@).filter(|p: Seq<char>| !config::dummy(p)),
        _ => Seq::empty(),
    }
}

/// What is known in the search for identity files.
pub enum Searched<'a> {
    /// What reading the config gave, where one was found.
    Config(Option<Result<Vec<String>, ConfigError>>),
    /// The paths of the key file variable, probed.
    Environment(&'a Vec<Probed>),
    /// The entries of the config directories.
    Directories(&'a Vec<ScanEntry>),
}

/// What is next in the search for identity files.
pub enum SearchStep {
    /// Probe the paths of the key file variable.
    ProbeEnvironment,
    /// Scan the config directories.
    ScanDirectories,
    /// The search has ended with these files.
    Found(IdentityPaths),
}

/// What is next after one source was searched: the paths that it gave, or, where
/// it gave none, the next source. The scan is the last.
pub open spec fn searched_next(searched: Searched, r: SearchStep) -> bool {
    match searched {
        Searched::Config(from_config) => if usable_config_paths(from_config).len() > 0 {
            r matches SearchStep::Found(IdentityPaths::Named(paths)) && text::texts(paths@)
                == usable_config_paths(from_config)
        } else {
            r == SearchStep::ProbeEnvironment
        },
        Searched::Environment(from_env) => if existing(from_env@).len() > 0 {
            r matches SearchStep::Found(IdentityPaths::Named(paths)) && text::texts(paths@)
                == existing(from_env@)
        } else {
            r == SearchStep::ScanDirectories
        },
        Searched::Directories(scanned) => {
            r matches SearchStep::Found(IdentityPaths::Scanned(order)) && scan::in_path_order(
                scanned@,
                order@,
            )
        },
    }
}

/// Decide what is next in the search for identity files. It begins with the
/// config, and ends with the first source that gives any path.
pub fn search_step(searched: Searched<'_>) -> (r: SearchStep)
    ensures
        searched_next(searched, r),
{
    match searched {
        Searched::Config(from_config) => {
            if let Some(Ok(paths)) = from_config {
                let filtered = filter_dummy_identities(paths);
                assert(text::texts(filtered@).len() == filtered@.len());
                if filtered.len() > 0 {
                    return SearchStep::Found(IdentityPaths::Named(filtered));
                }
            }
            SearchStep::ProbeEnvironment
        },
        Searched::Environment(from_env) => {
            let found = keep_existing(from_env);
            assert(text::texts(found@).len() == found@.len());
            if found.len() > 0 {
                SearchStep::Found(IdentityPaths::Named(found))
            } else {
                SearchStep::ScanDirectories
            }
        },
        Searched::Directories(scanned) => {
            SearchStep::Found(IdentityPaths::Scanned(scan_identities(scanned)))
        },
    }
}

/// Collect identity file paths in priority order:
///
/// 1. those of `chezmoi.toml`, excluding dummies;
/// 2. those of the key file variable that are files;
/// 3. the encrypted files found in the config directories.
///
/// The first source that gives any path is the only one used. `from_config` is
/// what reading the config gave, where one was found; a config that could not
/// be used counts as none. This is the whole search of [`search_step`], for when
/// all sources are at hand.
pub fn collect_identity_paths(
    from_config: Option<Result<Vec<String>, ConfigError>>,
    from_env: &Vec<Probed>,
    scanned: &Vec<ScanEntry>,
) -> (r: IdentityPaths)
    ensures
        if usable_config_paths(from_config).len() > 0 {
            r matches IdentityPaths::Named(paths) && text::texts(paths@) == usable_config_paths(
                from_config,
            )
        } else if existing(from_env@).len() > 0 {
            r matches IdentityPaths::Named(paths) && text::texts(paths@) == existing(from_env@)
        } else {
            r matches IdentityPaths::Scanned(order) && scan::in_path_order(scanned@, order@)
        },
{
    if let SearchStep::Found(paths) = search_step(Searched::Config(from_config)) {
        return paths;
    }
    if let SearchStep::Found(paths) = search_step(Searched::Environment(from_env)) {
        return paths;
    }
    match search_step(Searched::Directories(scanned)) {
        SearchStep::Found(paths) => paths,
        _ => IdentityPaths::Scanned(Vec::new()),
    }
}

/// How an identity file is loaded.
#[derive(Debug, Clone, Copy, PartialEq, Eq, Structural)]
pub enum LoadStep {
    /// Decrypt it with gpg.
    Decrypt,
    /// Read it as plain text.
    ReadText,
}

/// Why an identity file was not loaded.
#[derive(Debug)]
pub enum LoadError {
    /// There is no file with this path.
    NotFound(String),
    /// The file cannot be read.
    CannotRead {
        /// The path of the file.
        path: String,
        /// Why it cannot be read.
        cause: String,
    },
}

impl LoadError {
    /// The text of the error.
    pub open spec fn text(self) -> Seq<char> {
        match self {
            LoadError::NotFound(path) => "identity file not found: "@ + path@,
            LoadError::CannotRead { path, cause: _ } => "cannot read "@ + path@,
        }
    }

    /// The text of the error with its cause, where it has one.
    pub open spec fn full_text(self) -> Seq<char> {
        match self {
            LoadError::NotFound(_) => self.text(),
            LoadError::CannotRead { path: _, cause } => text::caused(self.text(), cause@),
        }
    }

    /// The error as a message for the user.
    pub fn message(&self) -> (r: String)
        ensures
            r@ == self.text(),
    {
        match self {
            LoadError::NotFound(path) => {
                let mut m = "identity file not found: ".to_owned();
                m.append(path.as_str());
                m
            },
            LoadError::CannotRead { path, cause: _ } => {
                let mut m = "cannot read ".to_owned();
                m.append(path.as_str());
                m
            },
        }
    }

    /// The error with its cause, where it has one, as a message for the user.
    pub fn report(&self) -> (r: String)
        ensures
            r@ == self.full_text(),
    {
        match self {
            LoadError::NotFound(_) => self.message(),
            LoadError::CannotRead { path: _, cause } => with_cause(self.message(), cause.as_str()),
        }
    }
}

/// How an identity file is to be loaded: decrypted where it is encrypted, read
/// where it is another file, not at all where there is none.
pub open spec fn load_outcome(
    r: Result<LoadStep, LoadError>,
    encrypted: bool,
    path: Seq<char>,
    is_file: bool,
) -> bool {
    if encrypted {
        r == Ok::<LoadStep, LoadError>(LoadStep::Decrypt)
    } else if is_file {
        r == Ok::<LoadStep, LoadError>(LoadStep::ReadText)
    } else {
        r matches Err(LoadError::NotFound(p)) && p@ == path
    }
}

/// Decide how to load an identity file, by whether its path marks it as
/// encrypted and whether there is a file.
///
/// # Errors
///
/// Returns an error if the path does not mark it as encrypted and there is no
/// file.
pub fn load_step(encrypted: bool, path: &str, is_file: bool) -> (r: Result<LoadStep, LoadError>)
    ensures
        load_outcome(r, encrypted, path@, is_file),
{
    if encrypted {
        Ok(LoadStep::Decrypt)
    } else if is_file {
        Ok(LoadStep::ReadText)
    } else {
        Err(LoadError::NotFound(path.to_owned()))
    }
}

/// Decide how to load a single identity file: GPG-decrypt if encrypted, read
/// plaintext otherwise.
///
/// # Errors
///
/// Returns an error if the file is not encrypted and does not exist.
pub fn load_identity(path: &str, is_file: bool) -> (r: Result<LoadStep, LoadError>)
    ensures
        load_outcome(r, gpg::encrypted_name(gpg::lowercase(path@)), path@, is_file),
{
    load_step(is_encrypted(path), path, is_file)
}

/// The identity in a plaintext file, from what was read of it.
///
/// # Errors
///
/// Returns an error if the file could not be read.
pub fn plaintext_identity(path: &str, content: Result<String, String>) -> (r: Result<
    String,
    LoadError,
>)
    ensures
        match content {
            Ok(s) => r matches Ok(t) && t@ == text::trimmed_end(s@),
            Err(why) => r matches Err(LoadError::CannotRead { path: p, cause }) && p@ == path@
                && cause@ == why@,
        },
{
    match content {
        Ok(s) => Ok(trim_end(s.as_str()).to_owned()),
        Err(cause) => Err(LoadError::CannotRead { path: path.to_owned(), cause }),
    }
}

/// Why wrapper mode has no key to hand on.
#[derive(Debug, Clone, Copy, PartialEq, Eq, Structural)]
pub enum RunError {
    /// No identity file was found.
    NoIdentities,
    /// No identity file holds a secret key.
    NoSecretKey,
}

impl RunError {
    /// The text of the error.
    pub open spec fn text(self) -> Seq<char> {
        match self {
            RunError::NoIdentities => "no age identity files found.\nHint: set [age] identity or identities in chezmoi.toml,\nor set CHEZMOI_AGE_GPG_KEY_FILE environment variable."@,
            RunError::NoSecretKey => "no valid AGE-SECRET-KEY found in any identity file"@,
        }
    }

    /// The error as a message for the user.
    pub fn message(&self) -> (r: String)
        ensures
            r@ == self.text(),
    {
        match self {
            RunError::NoIdentities => "no age identity files found.\nHint: set [age] identity or identities in chezmoi.toml,\nor set CHEZMOI_AGE_GPG_KEY_FILE environment variable.".to_owned(),
            RunError::NoSecretKey => "no valid AGE-SECRET-KEY found in any identity file".to_owned(),
        }
    }
}

/// The keys of all identity files together.
pub struct CombinedKeys {
    /// Their contents, one after the other on lines of their own.
    pub combined: String,
    /// How many files they come from.
    pub identity_count: usize,
    /// How many secret keys they hold.
    pub secret_key_count: usize,
}

/// The secret texts of a list.
pub open spec fn secrets(parts: Seq<SecureString>) -> Seq<Seq<char>> {
    parts.map_values(|p: SecureString| p@)
}

/// Whether `keys` are the keys of the texts together: the texts joined by line
/// feeds, how many they are, and how many secret keys they hold, as far as that
/// can be counted.
pub open spec fn combines(keys: CombinedKeys, parts: Seq<Seq<char>>) -> bool {
    &&& keys.combined@ == text::joined(parts, "\n"@)
    &&& keys.identity_count == parts.len()
    &&& keys.secret_key_count == (if secure::total_keys(parts) <= usize::MAX {
        secure::total_keys(parts) as int
    } else {
        usize::MAX as int
    })
}

/// Combine the loaded identities into the value of the age key variable.
///
/// # Errors
///
/// Returns an error if there are no identities, or if they hold no secret key.
pub fn combine_identities(parts: &Vec<SecureString>) -> (r: Result<CombinedKeys, RunError>)
    ensures
        match r {
            Ok(keys) => {
                &&& parts@.len() > 0
                &&& secure::total_keys(secrets(parts@)) > 0
                &&& combines(keys, secrets(parts@))
            },
            Err(RunError::NoIdentities) => parts@.len() == 0,
            Err(RunError::NoSecretKey) => parts@.len() > 0 && secure::total_keys(secrets(parts@))
                == 0,
        },
{
    if parts.len() == 0 {
        return Err(RunError::NoIdentities);
    }
    let ghost all = secrets(parts@);
    let mut total: usize = 0;
    let mut contents: Vec<&str> = Vec::new();
    for i in 0..parts.len()
        invariant
            all == secrets(parts@),
            total == (if secure::total_keys(all.take(i as int)) <= usize::MAX {
                secure::total_keys(all.take(i as int)) as int
            } else {
                usize::MAX as int
            }),
            text::slices(contents@) == all.take(i as int),
    {
        let ghost before = text::slices(contents@);
        assert(all.take(i + 1).drop_last() =~= all.take(i as int));
        assert(all.take(i + 1).last() == parts@[i as int]@);
        total = total.saturating_add(parts[i].count_secret_keys());
        contents.push(parts[i].as_str());
        assert(text::slices(contents@) =~= before.push(parts@[i as int]@));
        assert(all.take(i + 1) =~= all.take(i as int).push(parts@[i as int]@));
    }
    assert(all.take(parts.len() as int) =~= all);
    if total == 0 {
        return Err(RunError::NoSecretKey);
    }
    let combined = join(&contents, "\n");
    Ok(
        CombinedKeys { combined, identity_count: parts.len(), secret_key_count: total },
    )
}

/// What wrapper mode does next once the identity files are known.
pub enum RunAction {
    /// Load the identity file at this position.
    Load(usize),
    /// Set the age key variable to these keys and execute chezmoi.
    SetKey(CombinedKeys),
    /// End with this error, leaving the age key variable as it is.
    Fail(String),
}

/// What wrapper mode does next with `count` identity files, of which the first
/// ones are loaded, and where the last attempt may have failed: an error ends
/// the run, `Ok` tells the file to load, or that the loaded keys are to be set.
pub open spec fn next_action(
    count: nat,
    loaded: Seq<Seq<char>>,
    failure: Option<Seq<char>>,
) -> Result<Option<nat>, Seq<char>> {
    match failure {
        Some(e) => Err(e),
        None => if count == 0 {
            Err(RunError::NoIdentities.text())
        } else if loaded.len() < count {
            Ok(Some(loaded.len()))
        } else if secure::total_keys(loaded) == 0 {
            Err(RunError::NoSecretKey.text())
        } else {
            Ok(None)
        },
    }
}

/// Decide what wrapper mode does next once `count` identity files are known:
/// they are loaded one after the other, the first failure ends the run with its
/// error, and when all are loaded their keys are combined.
pub fn next_load(count: usize, loaded: &Vec<SecureString>, failure: Option<String>) -> (r:
    RunAction)
    ensures
        match next_action(count as nat, secrets(loaded@), text::opt_string(failure)) {
            Err(e) => r matches RunAction::Fail(m) && m@ == e,
            Ok(Some(i)) => r matches RunAction::Load(k) && k == i,
            Ok(None) => r matches RunAction::SetKey(keys) && combines(keys, secrets(loaded@)),
        },
{
    assert(secrets(loaded@).len() == loaded@.len());
    if let Some(e) = failure {
        return RunAction::Fail(e);
    }
    if count == 0 {
        return RunAction::Fail(RunError::NoIdentities.message());
    }
    if loaded.len() < count {
        return RunAction::Load(loaded.len());
    }
    match combine_identities(loaded) {
        Ok(keys) => RunAction::SetKey(keys),
        Err(e) => RunAction::Fail(e.message()),
    }
}

/// What a run ends with, from what loading each identity file would give: the
/// value that the age key variable is set to, or the error. `loaded` are the
/// contents of the files that are loaded already.
pub open spec fn run_outcome(
    outcomes: Seq<Result<Seq<char>, Seq<char>>>,
    loaded: Seq<Seq<char>>,
) -> Result<Seq<char>, Seq<char>>
    decreases outcomes.len() - loaded.len(),
{
    match next_action(outcomes.len(), loaded, None) {
        Err(e) => Err(e),
        Ok(None) => Ok(text::joined(loaded, "\n"@)),
        Ok(Some(i)) => match outcomes[i as int] {
            Ok(content) => run_outcome(outcomes, loaded.push(content)),
            Err(why) => Err(next_action(outcomes.len(), loaded, Some(why))->Err_0),
        },
    }
}

/// The contents of the first `n` files, where they all load.
pub open spec fn contents(outcomes: Seq<Result<Seq<char>, Seq<char>>>, n: nat) -> Seq<Seq<char>> {
    Seq::new(n, |i: int| outcomes[i]->Ok_0)
}

/// A run that has loaded `n` files goes on as one that has loaded the first `m`.
proof fn lemma_run_reaches(outcomes: Seq<Result<Seq<char>, Seq<char>>>, m: nat, n: nat)
    requires
        m <= n <= outcomes.len(),
        forall|j: int| 0 <= j < n ==> #[trigger] outcomes[j] is Ok,
    ensures
        run_outcome(outcomes, contents(outcomes, m)) == run_outcome(
            outcomes,
            contents(outcomes, n),
        ),
    decreases n - m,
{
    if m < n {
        assert(outcomes[m as int] is Ok);
        assert(contents(outcomes, m).push(outcomes[m as int]->Ok_0) =~= contents(outcomes, m + 1));
        lemma_run_reaches(outcomes, m + 1, n);
    }
}

/// The first identity file that fails to load ends the run with its error:
/// nothing is set, whatever the files after it hold.
pub proof fn law_first_failure_ends_run(outcomes: Seq<Result<Seq<char>, Seq<char>>>, k: int)
    requires
        0 <= k < outcomes.len(),
        forall|j: int| 0 <= j < k ==> #[trigger] outcomes[j] is Ok,
        outcomes[k] is Err,
    ensures
        run_outcome(outcomes, Seq::empty()) == Err::<Seq<char>, Seq<char>>(outcomes[k]->Err_0),
{
    lemma_run_reaches(outcomes, 0, k as nat);
    assert(contents(outcomes, 0) =~= Seq::<Seq<char>>::empty());
    assert(contents(outcomes, k as nat).len() == k);
}

/// Where every identity file loads, the run sets the age key variable to their
/// contents together, unless there is no file or no secret key in them.
pub proof fn law_loaded_keys_are_set(outcomes: Seq<Result<Seq<char>, Seq<char>>>)
    requires
        forall|j: int| 0 <= j < outcomes.len() ==> #[trigger] outcomes[j] is Ok,
    ensures
        ({
            let parts = contents(outcomes, outcomes.len());
            run_outcome(outcomes, Seq::empty()) == (if outcomes.len() == 0 {
                Err::<Seq<char>, Seq<char>>(RunError::NoIdentities.text())
            } else if secure::total_keys(parts) == 0 {
                Err(RunError::NoSecretKey.text())
            } else {
                Ok(text::joined(parts, "\n"@))
            })
        }),
{
    lemma_run_reaches(outcomes, 0, outcomes.len());
    assert(contents(outcomes, 0) =~= Seq::<Seq<char>>::empty());
}

/// A flag with its value in the same argument is written as a flag.
proof fn lemma_inline_flag_is_flag(arg: Seq<char>)
    requires
        inline_flag(arg) is Some,
    ensures
        is_flag(arg),
{
    reveal_strlit("--exclude=");
    reveal_strlit("--include=");
    reveal_strlit("-x=");
    reveal_strlit("-i=");
    if "--exclude="@.is_prefix_of(arg) {
        assert(arg[0] == arg.subrange(0, "--exclude="@.len() as int)[0]);
    } else if "--include="@.is_prefix_of(arg) {
        assert(arg[0] == arg.subrange(0, "--include="@.len() as int)[0]);
    } else if "-x="@.is_prefix_of(arg) {
        assert(arg[0] == arg.subrange(0, "-x="@.len() as int)[0]);
    } else {
        assert(arg[0] == arg.subrange(0, "-i="@.len() as int)[0]);
    }
}

/// A flag whose value is the next argument is written as a flag and carries no
/// value itself.
proof fn lemma_bare_flag_is_flag(arg: Seq<char>)
    requires
        bare_flag(arg) is Some,
    ensures
        is_flag(arg),
        inline_flag(arg) is None,
{
    reveal_strlit("--exclude");
    reveal_strlit("--include");
    reveal_strlit("-x");
    reveal_strlit("-i");
    reveal_strlit("--exclude=");
    reveal_strlit("--include=");
    reveal_strlit("-x=");
    reveal_strlit("-i=");
    if "-x="@.is_prefix_of(arg) {
        assert("-x="@[1] == arg.subrange(0, 3)[1]);
    }
    if "-i="@.is_prefix_of(arg) {
        assert("-i="@[1] == arg.subrange(0, 3)[1]);
    }
}

proof fn lemma_filter_flags_append(args: Seq<Seq<char>>, tail: Seq<Seq<char>>)
    requires
        tail.len() > 0,
        is_flag(tail[0]),
    ensures
        filter_flags(args + tail) == filter_flags(args) + filter_flags(tail),
    decreases args.len(),
{
    let all = args + tail;
    if args.len() == 0 {
        assert(all =~= tail);
        assert(filter_flags(args) + filter_flags(tail) =~= filter_flags(tail));
    } else {
        assert(all[0] == args[0]);
        assert(all.skip(1) =~= args.skip(1) + tail);
        lemma_filter_flags_append(args.skip(1), tail);
        if inline_flag(args[0]) is Some {
            let f = seq![inline_flag(args[0])->0];
            assert(f + (filter_flags(args.skip(1)) + filter_flags(tail)) =~= (f + filter_flags(
                args.skip(1),
            )) + filter_flags(tail));
        } else if bare_flag(args[0]) is Some && args.len() > 1 && !is_flag(args[1]) {
            assert(all[1] == args[1]);
            assert(all.skip(2) =~= args.skip(2) + tail);
            lemma_filter_flags_append(args.skip(2), tail);
            let f = seq![(bare_flag(args[0])->0, args[1])];
            assert(f + (filter_flags(args.skip(2)) + filter_flags(tail)) =~= (f + filter_flags(
                args.skip(2),
            )) + filter_flags(tail));
        } else {
            if args.len() == 1 {
                assert(all[1] == tail[0]);
            } else {
                assert(all[1] == args[1]);
            }
        }
    }
}

/// Later flags override earlier ones: whatever comes before, a final
/// `--exclude=` or `--include=` flag is applied last.
pub proof fn law_last_inline_flag_applies(args: Seq<Seq<char>>, arg: Seq<char>)
    requires
        inline_flag(arg) is Some,
    ensures
        encrypted_excluded(args.push(arg)) == after_flag(
            encrypted_excluded(args),
            inline_flag(arg)->0,
        ),
{
    lemma_inline_flag_is_flag(arg);
    let tail = seq![arg];
    lemma_filter_flags_append(args, tail);
    assert(args + tail =~= args.push(arg));
    assert(tail.skip(1) =~= Seq::<Seq<char>>::empty());
    assert(filter_flags(tail.skip(1)) =~= Seq::<(bool, Seq<char>)>::empty());
    assert(filter_flags(tail) =~= seq![inline_flag(arg)->0]);
    let flags = filter_flags(args) + filter_flags(tail);
    assert(flags.drop_last() =~= filter_flags(args));
}

/// Later flags override earlier ones: whatever comes before, a final
/// `--exclude` or `--include` flag with its value as the last argument is
/// applied last.
pub proof fn law_last_bare_flag_applies(
    args: Seq<Seq<char>>,
    arg: Seq<char>,
    value: Seq<char>,
)
    requires
        bare_flag(arg) is Some,
        !is_flag(value),
    ensures
        encrypted_excluded(args.push(arg).push(value)) == after_flag(
            encrypted_excluded(args),
            (bare_flag(arg)->0, value),
        ),
{
    lemma_bare_flag_is_flag(arg);
    let tail = seq![arg, value];
    lemma_filter_flags_append(args, tail);
    assert(args + tail =~= args.push(arg).push(value));
    assert(tail.skip(2) =~= Seq::<Seq<char>>::empty());
    assert(filter_flags(tail.skip(2)) =~= Seq::<(bool, Seq<char>)>::empty());
    assert(filter_flags(tail) =~= seq![(bare_flag(arg)->0, value)]);
    let flags = filter_flags(args) + filter_flags(tail);
    assert(flags.drop_last() =~= filter_flags(args));
}

/// Safe default: a subcommand that is not known to be harmless needs
/// decryption unless some `--exclude` or `--include` flag is given.
pub proof fn law_unknown_subcommand_needs_decryption(args: Seq<Seq<char>>)
    requires
        subcommand(args) matches Some(cmd) ==> !passthrough(cmd),
        forall|i: int|
            0 <= i < args.len() ==> inline_flag(#[trigger] args[i]) is None && bare_flag(args[i]) is None,
    ensures
        decryption_needed(args),
{
    lemma_no_filter_flags(args);
}

/// Keys that were combined once are used from then on: with the combined text
/// in the age key variable, wrapper mode decrypts nothing again, whatever the
/// arguments, and shim mode delivers exactly that text.
pub proof fn law_combined_keys_are_used(parts: Seq<Seq<char>>, args: Seq<Seq<char>>)
    requires
        secure::total_keys(parts) > 0,
    ensures
        ({
            let combined = text::joined(parts, "\n"@);
            &&& first_step(Some(combined), args) == RunStep::ExecChezmoi
            &&& shim::delivered(Some(combined)) == Some(combined)
        }),
{
    secure::law_joined_keys_not_empty(parts);
}

/// A subcommand that is known to be harmless never needs decryption, whatever
/// flags are given.
pub proof fn law_passthrough_needs_no_decryption(args: Seq<Seq<char>>, cmd: Seq<char>)
    requires
        subcommand(args) == Some(cmd),
        passthrough(cmd),
    ensures
        !decryption_needed(args),
{
}

proof fn lemma_no_filter_flags(args: Seq<Seq<char>>)
    requires
        forall|i: int|
            0 <= i < args.len() ==> inline_flag(#[trigger] args[i]) is None && bare_flag(args[i]) is None,
    ensures
        filter_flags(args).len() == 0,
    decreases args.len(),
{
    if args.len() > 0 {
        assert forall|i: int| 0 <= i < args.skip(1).len() implies inline_flag(
            #[trigger] args.skip(1)[i],
        ) is None && bare_flag(args.skip(1)[i]) is None by {
            assert(args.skip(1)[i] == args[i + 1]);
        }
        lemma_no_filter_flags(args.skip(1));
    }
}

/// Whether an argument begins with a hyphen.
pub open spec fn hyphenated(arg: Seq<char>) -> bool {
    exists|rest: Seq<char>| arg == #[trigger] (seq!['-'] + rest)
}

proof fn lemma_hyphenated(arg: Seq<char>)
    ensures
        hyphenated(arg) <==> is_flag(arg),
{
    if is_flag(arg) {
        assert(arg =~= seq!['-'] + arg.skip(1));
    }
    if hyphenated(arg) {
        let rest = choose|rest: Seq<char>| arg == #[trigger] (seq!['-'] + rest);
        assert(arg[0] == '-');
    }
}

/// The subcommand is the first argument that does not begin with a hyphen: with
/// hyphens on all arguments before position `k` and none on the one there, it is
/// that one, and with hyphens on all there is none.
pub proof fn law_subcommand_is_first_without_hyphen(args: &[String], k: int, r: Option<&str>)
    requires
        call_ensures(extract_subcommand, (args,), r),
        0 <= k <= args@.len(),
        forall|j: int| 0 <= j < k ==> hyphenated((#[trigger] args@[j])@),
        k < args@.len() ==> !hyphenated(args@[k]@),
    ensures
        k < args@.len() ==> text::opt_text(r) == Some(args@[k]@),
        k == args@.len() ==> r is None,
{
    let all = text::texts(args@);
    text::law_texts_are_views(args@);
    assert forall|j: int| 0 <= j < k implies is_flag(#[trigger] all[j]) by {
        assert(all[j] == args@[j]@);
        lemma_hyphenated(all[j]);
    }
    if k < all.len() {
        assert(all[k] == args@[k]@);
        lemma_hyphenated(all[k]);
    }
    lemma_subcommand_at(all, k);
}

proof fn lemma_subcommand_at(args: Seq<Seq<char>>, k: int)
    requires
        0 <= k <= args.len(),
        forall|j: int| 0 <= j < k ==> is_flag(#[trigger] args[j]),
        k < args.len() ==> !is_flag(args[k]),
    ensures
        subcommand(args) == (if k < args.len() {
            Some(args[k])
        } else {
            None
        }),
    decreases k,
{
    if k > 0 {
        let rest = args.skip(1);
        assert(is_flag(args[0]));
        assert forall|j: int| 0 <= j < k - 1 implies is_flag(#[trigger] rest[j]) by {
            assert(rest[j] == args[j + 1]);
        }
        if k < args.len() {
            assert(rest[k - 1] == args[k]);
        }
        lemma_subcommand_at(rest, k - 1);
    }
}

/// Whether `arg` gives the filter value in the same argument: after
/// `--exclude=` or `-x=` to exclude, after `--include=` or `-i=` to include.
pub open spec fn gives_filter(arg: Seq<char>, excludes: bool, value: Seq<char>) -> bool {
    if excludes {
        arg == "--exclude="@ + value || arg == "-x="@ + value
    } else {
        arg == "--include="@ + value || arg == "-i="@ + value
    }
}

/// Whether `arg` announces a filter value: `--exclude` or `-x` to exclude,
/// `--include` or `-i` to include.
pub open spec fn announces_filter(arg: Seq<char>, excludes: bool) -> bool {
    if excludes {
        arg == "--exclude"@ || arg == "-x"@
    } else {
        arg == "--include"@ || arg == "-i"@
    }
}

proof fn lemma_given_filter(arg: Seq<char>, excludes: bool, value: Seq<char>)
    requires
        gives_filter(arg, excludes, value),
    ensures
        inline_flag(arg) == Some((excludes, value)),
{
    reveal_strlit("--exclude=");
    reveal_strlit("--include=");
    reveal_strlit("-x=");
    reveal_strlit("-i=");
    if "--exclude="@.is_prefix_of(arg) {
        assert(arg.subrange(0, 10)[1] == '-');
        assert(arg.subrange(0, 10)[2] == 'e');
    }
    if "--include="@.is_prefix_of(arg) {
        assert(arg.subrange(0, 10)[1] == '-');
        assert(arg.subrange(0, 10)[2] == 'i');
    }
    if "-x="@.is_prefix_of(arg) {
        assert(arg.subrange(0, 3)[1] == 'x');
    }
    if "-i="@.is_prefix_of(arg) {
        assert(arg.subrange(0, 3)[1] == 'i');
    }
    if arg == "--exclude="@ + value {
        assert("--exclude="@ =~= arg.subrange(0, 10));
        assert(arg.skip(10) =~= value);
        assert(arg[2] == 'e');
    } else if arg == "--include="@ + value {
        assert("--include="@ =~= arg.subrange(0, 10));
        assert(arg.skip(10) =~= value);
        assert(arg[2] == 'i');
    } else if arg == "-x="@ + value {
        assert("-x="@ =~= arg.subrange(0, 3));
        assert(arg.skip(3) =~= value);
        assert(arg[1] == 'x');
    } else {
        assert("-i="@ =~= arg.subrange(0, 3));
        assert(arg.skip(3) =~= value);
        assert(arg[1] == 'i');
    }
}

proof fn lemma_announced_filter(arg: Seq<char>, excludes: bool)
    requires
        announces_filter(arg, excludes),
    ensures
        bare_flag(arg) == Some(excludes),
{
    reveal_strlit("--exclude");
    reveal_strlit("--include");
    reveal_strlit("-x");
    reveal_strlit("-i");
    if !excludes {
        assert("--exclude"@[2] == 'e');
        assert("-x"@[1] == 'x');
        if arg == "--include"@ {
            assert(arg.len() == 9);
            assert(arg[2] == 'i');
        } else {
            assert(arg.len() == 2);
            assert(arg[1] == 'i');
        }
        assert(arg != "--exclude"@);
        assert(arg != "-x"@);
    }
}

/// One entry type decides or says nothing: alone it sets whether encrypted
/// entries are excluded (`encrypted` and `all` as the flag says, `none` and
/// `noencrypted` the other way round) or leaves it as it was; at the end of a
/// list it decides over what stands before it, or leaves it to that. White space
/// around it does not count.
pub proof fn law_entry_types(
    excluded: bool,
    excludes: bool,
    head: Seq<char>,
    entry: Seq<char>,
    t: Seq<char>,
    k: int,
)
    requires
        !entry.contains(','),
        text::stripped(entry, t, k),
    ensures
        t == "encrypted"@ || t == "all"@ ==> {
            &&& after_flag(excluded, (excludes, entry)) == excludes
            &&& after_flag(excluded, (excludes, head.push(',') + entry)) == excludes
        },
        t == "none"@ || t == "noencrypted"@ ==> {
            &&& after_flag(excluded, (excludes, entry)) == !excludes
            &&& after_flag(excluded, (excludes, head.push(',') + entry)) == !excludes
        },
        t != "encrypted"@ && t != "all"@ && t != "none"@ && t != "noencrypted"@ ==> {
            &&& after_flag(excluded, (excludes, entry)) == excluded
            &&& after_flag(excluded, (excludes, head.push(',') + entry)) == after_flag(
                excluded,
                (excludes, head),
            )
        },
{
    reveal_strlit(",");
    reveal_strlit("encrypted");
    reveal_strlit("all");
    reveal_strlit("none");
    reveal_strlit("noencrypted");
    let seps = ","@;
    assert(seps[0] == ',');
    assert forall|i: int| 0 <= i < entry.len() implies !seps.contains(#[trigger] entry[i]) by {
        if seps.contains(entry[i]) {
            assert(entry[i] == ',');
            assert(entry.contains(','));
        }
    }
    text::law_pieces_without_separator(entry, seps);
    text::lemma_pieces_concat(head, ',', entry, seps);
    text::law_trimmed(entry);
    let m = choose|m: int| text::stripped(entry, text::trimmed(entry), m);
    text::law_stripped_unique(entry, t, k, text::trimmed(entry), m);
    let one = seq![entry];
    assert(one.last() == entry);
    assert(one.drop_last() =~= Seq::<Seq<char>>::empty());
    assert(after_entries(excluded, excludes, one.drop_last()) == excluded);
    let both = text::pieces(head, seps) + one;
    assert(both.last() == entry);
    assert(both.drop_last() =~= text::pieces(head, seps));
    assert("encrypted"@.len() == 9 && "all"@.len() == 3 && "none"@.len() == 4
        && "noencrypted"@.len() == 11);
}

/// The last filter decides: after `--exclude=` or `-x=` with a value, encrypted
/// entries are excluded as the value says over what stood before, after
/// `--include=` or `-i=` the other way round.
pub proof fn law_filter_given_last(
    front: &[String],
    whole: &[String],
    arg: Seq<char>,
    excludes: bool,
    value: Seq<char>,
    before: bool,
    r: bool,
)
    requires
        call_ensures(excludes_encrypted, (front,), before),
        call_ensures(excludes_encrypted, (whole,), r),
        gives_filter(arg, excludes, value),
        text::texts(whole@) == text::texts(front@).push(arg),
    ensures
        r == after_flag(before, (excludes, value)),
        value == "encrypted"@ || value == "all"@ ==> r == excludes,
        value == "none"@ || value == "noencrypted"@ ==> r == !excludes,
{
    lemma_given_filter(arg, excludes, value);
    law_last_inline_flag_applies(text::texts(front@), arg);
    lemma_plain_entry(before, excludes, value);
}

proof fn lemma_plain_entry(excluded: bool, excludes: bool, value: Seq<char>)
    ensures
        value == "encrypted"@ || value == "all"@ ==> after_flag(excluded, (excludes, value))
            == excludes,
        value == "none"@ || value == "noencrypted"@ ==> after_flag(excluded, (excludes, value))
            == !excludes,
{
    reveal_strlit("encrypted");
    reveal_strlit("all");
    reveal_strlit("none");
    reveal_strlit("noencrypted");
    if value == "encrypted"@ || value == "all"@ || value == "none"@ || value == "noencrypted"@ {
        assert(value.subrange(0, value.len() as int) =~= value);
        assert(text::stripped(value, value, 0));
        assert(!value.contains(','));
        law_entry_types(excluded, excludes, value, value, value, 0);
    }
}

/// A value in an argument of its own has the same effect: `--exclude` or `-x`,
/// and `--include` or `-i`, followed by a value that does not begin with a
/// hyphen.
pub proof fn law_filter_announced_last(
    front: &[String],
    whole: &[String],
    arg: Seq<char>,
    excludes: bool,
    value: Seq<char>,
    before: bool,
    r: bool,
)
    requires
        call_ensures(excludes_encrypted, (front,), before),
        call_ensures(excludes_encrypted, (whole,), r),
        announces_filter(arg, excludes),
        !hyphenated(value),
        text::texts(whole@) == text::texts(front@).push(arg).push(value),
    ensures
        r == after_flag(before, (excludes, value)),
        value == "encrypted"@ || value == "all"@ ==> r == excludes,
        value == "none"@ || value == "noencrypted"@ ==> r == !excludes,
{
    lemma_announced_filter(arg, excludes);
    lemma_hyphenated(value);
    law_last_bare_flag_applies(text::texts(front@), arg, value);
    lemma_plain_entry(before, excludes, value);
}

/// Whether an argument is no filter of any form.
pub open spec fn no_filter(arg: Seq<char>) -> bool {
    &&& arg != "--exclude"@
    &&& arg != "-x"@
    &&& arg != "--include"@
    &&& arg != "-i"@
    &&& !"--exclude="@.is_prefix_of(arg)
    &&& !"-x="@.is_prefix_of(arg)
    &&& !"--include="@.is_prefix_of(arg)
    &&& !"-i="@.is_prefix_of(arg)
}

/// Without filters encrypted entries are not excluded.
pub proof fn law_nothing_excluded_without_filter(args: &[String], r: bool)
    requires
        call_ensures(excludes_encrypted, (args,), r),
        forall|j: int| 0 <= j < args@.len() ==> no_filter((#[trigger] args@[j])@),
    ensures
        !r,
{
    let all = text::texts(args@);
    text::law_texts_are_views(args@);
    assert forall|i: int| 0 <= i < all.len() implies inline_flag(#[trigger] all[i]) is None
        && bare_flag(all[i]) is None by {
        assert(all[i] == args@[i]@);
        assert(no_filter(all[i]));
    }
    lemma_no_filter_flags(all);
}

/// Other arguments change nothing: neither one that is no filter and no value of
/// one, nor an announced filter without a value.
pub proof fn law_other_arguments_exclude_nothing(
    front: &[String],
    whole: &[String],
    arg: Seq<char>,
    before: bool,
    r: bool,
)
    requires
        call_ensures(excludes_encrypted, (front,), before),
        call_ensures(excludes_encrypted, (whole,), r),
        text::texts(whole@) == text::texts(front@).push(arg),
        no_filter(arg) || announces_filter(arg, true) || announces_filter(arg, false),
        front@.len() == 0 || hyphenated(arg) || !(announces_filter(front@.last()@, true)
            || announces_filter(front@.last()@, false)),
    ensures
        r == before,
{
    let args = text::texts(front@);
    text::law_texts_are_views(front@);
    if front@.len() > 0 {
        assert(args.last() == front@.last()@);
    }
    lemma_hyphenated(arg);
    if announces_filter(arg, true) {
        lemma_announced_filter(arg, true);
        lemma_bare_flag_is_flag(arg);
    } else if announces_filter(arg, false) {
        lemma_announced_filter(arg, false);
        lemma_bare_flag_is_flag(arg);
    }
    assert(inline_flag(arg) is None);
    if is_flag(arg) {
        let tail = seq![arg];
        lemma_filter_flags_append(args, tail);
        assert(args + tail =~= args.push(arg));
        assert(tail.skip(1) =~= Seq::<Seq<char>>::empty());
        assert(filter_flags(tail.skip(1)) =~= Seq::<(bool, Seq<char>)>::empty());
        assert(filter_flags(tail) =~= Seq::<(bool, Seq<char>)>::empty());
        assert(filter_flags(args) + filter_flags(tail) =~= filter_flags(args));
    } else {
        lemma_word_appended(args, arg);
    }
}

proof fn lemma_word_appended(args: Seq<Seq<char>>, word: Seq<char>)
    requires
        !is_flag(word),
        args.len() == 0 || bare_flag(args.last()) is None,
    ensures
        filter_flags(args.push(word)) == filter_flags(args),
    decreases args.len(),
{
    let all = args.push(word);
    if inline_flag(word) is Some {
        lemma_inline_flag_is_flag(word);
    }
    if bare_flag(word) is Some {
        lemma_bare_flag_is_flag(word);
    }
    if args.len() == 0 {
        assert(all.skip(1) =~= Seq::<Seq<char>>::empty());
        assert(filter_flags(all.skip(1)) =~= Seq::<(bool, Seq<char>)>::empty());
        assert(all[0] == word);
    } else {
        assert(all[0] == args[0]);
        assert(all.skip(1) =~= args.skip(1).push(word));
        if args.len() > 1 {
            assert(args.skip(1).last() == args.last());
        }
        lemma_word_appended(args.skip(1), word);
        if args.len() > 1 {
            assert(all[1] == args[1]);
            assert(all.skip(2) =~= args.skip(2).push(word));
            if args.len() > 2 {
                assert(args.skip(2).last() == args.last());
            }
            lemma_word_appended(args.skip(2), word);
        }
    }
}

/// Whether a subcommand is one of those that never read encrypted content.
pub open spec fn harmless(name: Seq<char>) -> bool {
    seq![
        "add"@,
        "age-keygen"@,
        "cat-config"@,
        "cd"@,
        "chattr"@,
        "completion"@,
        "data"@,
        "doctor"@,
        "dump-config"@,
        "edit-config"@,
        "edit-config-template"@,
        "encrypt"@,
        "execute-template"@,
        "forget"@,
        "generate"@,
        "git"@,
        "help"@,
        "ignored"@,
        "license"@,
        "managed"@,
        "purge"@,
        "re-add"@,
        "secret"@,
        "source-path"@,
        "state"@,
        "target-path"@,
        "unmanaged"@,
        "upgrade"@,
    ].contains(name)
}

/// Decryption is needed exactly where the subcommand is not one of those that
/// never read encrypted content, if there is one, and encrypted entries are not
/// excluded.
pub proof fn law_needs_decryption(
    args: &[String],
    cmd: Option<&str>,
    excluded: bool,
    r: bool,
)
    requires
        call_ensures(extract_subcommand, (args,), cmd),
        call_ensures(excludes_encrypted, (args,), excluded),
        call_ensures(needs_decryption, (args,), r),
    ensures
        r <==> !(cmd is Some && harmless(cmd->0@)) && !excluded,
{
    if cmd is Some {
        lemma_harmless(cmd->0@);
    }
}

proof fn lemma_harmless(name: Seq<char>)
    ensures
        harmless(name) <==> passthrough(name),
{
    let list = seq![
        "add"@,
        "age-keygen"@,
        "cat-config"@,
        "cd"@,
        "chattr"@,
        "completion"@,
        "data"@,
        "doctor"@,
        "dump-config"@,
        "edit-config"@,
        "edit-config-template"@,
        "encrypt"@,
        "execute-template"@,
        "forget"@,
        "generate"@,
        "git"@,
        "help"@,
        "ignored"@,
        "license"@,
        "managed"@,
        "purge"@,
        "re-add"@,
        "secret"@,
        "source-path"@,
        "state"@,
        "target-path"@,
        "unmanaged"@,
        "upgrade"@,
    ];
    assert(list[0] == "add"@);
    assert(list[1] == "age-keygen"@);
    assert(list[2] == "cat-config"@);
    assert(list[3] == "cd"@);
    assert(list[4] == "chattr"@);
    assert(list[5] == "completion"@);
    assert(list[6] == "data"@);
    assert(list[7] == "doctor"@);
    assert(list[8] == "dump-config"@);
    assert(list[9] == "edit-config"@);
    assert(list[10] == "edit-config-template"@);
    assert(list[11] == "encrypt"@);
    assert(list[12] == "execute-template"@);
    assert(list[13] == "forget"@);
    assert(list[14] == "generate"@);
    assert(list[15] == "git"@);
    assert(list[16] == "help"@);
    assert(list[17] == "ignored"@);
    assert(list[18] == "license"@);
    assert(list[19] == "managed"@);
    assert(list[20] == "purge"@);
    assert(list[21] == "re-add"@);
    assert(list[22] == "secret"@);
    assert(list[23] == "source-path"@);
    assert(list[24] == "state"@);
    assert(list[25] == "target-path"@);
    assert(list[26] == "unmanaged"@);
    assert(list[27] == "upgrade"@);
    if passthrough(name) {
        assert(list.contains(name));
    }
    if list.contains(name) {
        let i = choose|i: int| 0 <= i < list.len() && list[i] == name;
        assert(passthrough(list[i]));
    }
}

/// chezmoi is executed at once exactly where a key is set that is not empty, or
/// where decryption is not needed.
pub proof fn law_first_step(age_key: Option<&str>, args: &[String], needed: bool, r: RunStep)
    requires
        call_ensures(needs_decryption, (args,), needed),
        call_ensures(run, (age_key, args), r),
    ensures
        r is ExecChezmoi <==> (age_key is Some && age_key->0@ != Seq::<char>::empty()) || !needed,
{
    if age_key is Some && age_key->0@.len() == 0 {
        assert(age_key->0@ =~= Seq::<char>::empty());
    }
}

/// chezmoi is the first one on `PATH`, and an error where there is none.
pub proof fn law_first_chezmoi(
    path_files: Option<&Vec<bool>>,
    found: Option<usize>,
    r: Result<usize, ExecError>,
)
    requires
        call_ensures(find_in_path, (path_files,), found),
        call_ensures(find_chezmoi, (path_files,), r),
    ensures
        r == (match found {
            Some(i) => Ok::<usize, ExecError>(i),
            None => Err(ExecError::ChezmoiNotFound),
        }),
{
    exec::law_first_on_path(path_files, found);
    if found is Some && r is Ok {
        let files = path_files->0@;
        assert(files[found->0 as int]);
        assert(files[r->Ok_0 as int]);
    }
}

/// The key file variable is a list: commas and semicolons separate paths, each
/// taken without the white space around it and with a leading tilde expanded.
pub proof fn law_env_paths(
    a: Seq<char>,
    c: char,
    b: Seq<char>,
    one: Seq<char>,
    t: Seq<char>,
    k: int,
    home: Option<Seq<char>>,
)
    requires
        c == ',' || c == ';',
        !one.contains(','),
        !one.contains(';'),
        text::stripped(one, t, k),
    ensures
        env_paths(one, home) == seq![exec::expanded(t, home)],
        env_paths(a.push(c) + b, home) == env_paths(a, home) + env_paths(b, home),
{
    reveal_strlit(",;");
    let seps = ",;"@;
    assert(seps[0] == ',');
    assert(seps[1] == ';');
    assert forall|i: int| 0 <= i < one.len() implies !seps.contains(#[trigger] one[i]) by {
        if seps.contains(one[i]) {
            assert(one[i] == ',' || one[i] == ';');
            assert(one.contains(one[i]));
        }
    }
    text::law_pieces_without_separator(one, seps);
    text::law_trimmed(one);
    let m = choose|m: int| text::stripped(one, text::trimmed(one), m);
    text::law_stripped_unique(one, t, k, text::trimmed(one), m);
    assert(env_paths(one, home) =~= seq![exec::expanded(t, home)]);
    text::lemma_pieces_concat(a, c, b, seps);
    assert(env_paths(a.push(c) + b, home) =~= env_paths(a, home) + env_paths(b, home));
}

/// Exactly the paths that are files are kept, in order.
pub proof fn law_existing(a: Seq<Probed>, b: Seq<Probed>, one: Probed)
    ensures
        existing(Seq::empty()) == Seq::<Seq<char>>::empty(),
        one.is_file ==> existing(seq![one]) == seq![one.path@],
        !one.is_file ==> existing(seq![one]) == Seq::<Seq<char>>::empty(),
        existing(a + b) == existing(a) + existing(b),
    decreases b.len(),
{
    let single = seq![one];
    assert(single.drop_last() =~= Seq::<Probed>::empty());
    assert(existing(single.drop_last()) =~= Seq::<Seq<char>>::empty());
    assert(single.last() == one);
    if one.is_file {
        assert(existing(single) =~= seq![one.path@]);
    }
    if b.len() == 0 {
        assert(a + b =~= a);
        assert(existing(b) =~= Seq::<Seq<char>>::empty());
        assert(existing(a) + existing(b) =~= existing(a));
    } else {
        law_existing(a, b.drop_last(), one);
        assert((a + b).drop_last() =~= a + b.drop_last());
        assert((a + b).last() == b.last());
        assert(existing(a + b) =~= existing(a) + existing(b));
    }
}

/// A path is kept exactly where it was probed and is a file.
pub proof fn law_kept_paths_are_files(probed: &Vec<Probed>, r: Vec<String>, p: Seq<char>)
    requires
        call_ensures(keep_existing, (probed,), r),
    ensures
        text::texts(r@).contains(p) <==> exists|i: int|
            0 <= i < probed@.len() && (#[trigger] probed@[i]).is_file && probed@[i].path@ == p,
{
    lemma_existing_contains(probed@, p);
}

proof fn lemma_existing_contains(probed: Seq<Probed>, p: Seq<char>)
    ensures
        existing(probed).contains(p) <==> exists|i: int|
            0 <= i < probed.len() && (#[trigger] probed[i]).is_file && probed[i].path@ == p,
    decreases probed.len(),
{
    if probed.len() > 0 {
        let front = probed.drop_last();
        let before = existing(front);
        let last = probed.last();
        lemma_existing_contains(front, p);
        assert(probed[probed.len() - 1] == last);
        if existing(probed).contains(p) {
            let k = choose|k: int| 0 <= k < existing(probed).len() && existing(probed)[k] == p;
            if k < before.len() {
                assert(before[k] == p);
                let i = choose|i: int|
                    0 <= i < front.len() && (#[trigger] front[i]).is_file && front[i].path@ == p;
                assert(probed[i] == front[i]);
            }
        }
        if exists|i: int|
            0 <= i < probed.len() && (#[trigger] probed[i]).is_file && probed[i].path@ == p {
            let i = choose|i: int|
                0 <= i < probed.len() && (#[trigger] probed[i]).is_file && probed[i].path@ == p;
            if i < front.len() {
                assert(front[i] == probed[i]);
                let k = choose|k: int| 0 <= k < before.len() && before[k] == p;
                assert(existing(probed)[k] == p);
            } else {
                assert(existing(probed)[before.len() as int] == p);
            }
        }
    }
}

/// The config comes first: where it can be used and names a path that is no
/// dummy, its paths without the dummies are the identities; otherwise the key
/// file variable is next.
pub proof fn law_config_searched_first(
    from_config: Option<Result<Vec<String>, ConfigError>>,
    paths: Vec<String>,
    kept: Vec<String>,
    r: SearchStep,
)
    requires
        call_ensures(search_step, (Searched::Config(from_config),), r),
        from_config is Some && from_config->0 is Ok ==> paths == from_config->0->Ok_0,
        call_ensures(filter_dummy_identities, (paths,), kept),
    ensures
        from_config is None || from_config->0 is Err || kept@.len() == 0 ==> r is ProbeEnvironment,
        from_config is Some && from_config->0 is Ok && kept@.len() > 0 ==> {
            &&& r is Found
            &&& r->Found_0 is Named
            &&& text::texts(r->Found_0->Named_0@) == text::texts(kept@)
        },
{
    text::law_texts_are_views(kept@);
}

/// The key file variable comes next: where it names a file, its files are the
/// identities; otherwise the directories are scanned.
pub proof fn law_environment_searched_next(probed: &Vec<Probed>, kept: Vec<String>, r: SearchStep)
    requires
        call_ensures(search_step, (Searched::Environment(probed),), r),
        call_ensures(keep_existing, (probed,), kept),
    ensures
        kept@.len() == 0 ==> r is ScanDirectories,
        kept@.len() > 0 ==> {
            &&& r is Found
            &&& r->Found_0 is Named
            &&& text::texts(r->Found_0->Named_0@) == text::texts(kept@)
        },
{
    text::law_texts_are_views(kept@);
}

/// The scan comes last, and its files are the identities.
pub proof fn law_directories_searched_last(
    entries: &Vec<ScanEntry>,
    order: Vec<usize>,
    r: SearchStep,
)
    requires
        call_ensures(search_step, (Searched::Directories(entries),), r),
        call_ensures(scan_identities, (entries,), order),
    ensures
        r is Found,
        r->Found_0 is Scanned,
        r->Found_0->Scanned_0@ == order@,
{
    scan::law_scan_order_unique(entries@, r->Found_0->Scanned_0@, order@);
}

/// Collecting is searching: what is collected is what the search over the three
/// sources, one after the other, ends with.
pub proof fn law_collecting_is_searching(
    from_config: Option<Result<Vec<String>, ConfigError>>,
    probed: &Vec<Probed>,
    entries: &Vec<ScanEntry>,
    config_step: SearchStep,
    environment_step: SearchStep,
    order: Vec<usize>,
    r: IdentityPaths,
)
    requires
        call_ensures(search_step, (Searched::Config(from_config),), config_step),
        call_ensures(search_step, (Searched::Environment(probed),), environment_step),
        call_ensures(scan_identities, (entries,), order),
        call_ensures(collect_identity_paths, (from_config, probed, entries), r),
    ensures
        config_step is Found ==> r is Named && text::texts(r->Named_0@) == text::texts(
            config_step->Found_0->Named_0@,
        ),
        config_step !is Found && environment_step is Found ==> r is Named && text::texts(
            r->Named_0@,
        ) == text::texts(environment_step->Found_0->Named_0@),
        config_step !is Found && environment_step !is Found ==> r is Scanned && r->Scanned_0@
            == order@,
{
    if config_step !is Found && environment_step !is Found {
        scan::law_scan_order_unique(entries@, r->Scanned_0@, order@);
    }
}

/// An identity is decrypted where its path is that of an encrypted file, read
/// where it is another file, and an error that names the path otherwise.
pub proof fn law_how_identities_are_loaded(
    path: &str,
    is_file: bool,
    encrypted: bool,
    r: Result<LoadStep, LoadError>,
    step: Result<LoadStep, LoadError>,
)
    requires
        call_ensures(is_encrypted, (path,), encrypted),
        call_ensures(load_identity, (path, is_file), r),
        call_ensures(load_step, (encrypted, path, is_file), step),
    ensures
        encrypted ==> r == Ok::<LoadStep, LoadError>(LoadStep::Decrypt) && step == r,
        !encrypted && is_file ==> r == Ok::<LoadStep, LoadError>(LoadStep::ReadText) && step == r,
        !encrypted && !is_file ==> {
            &&& r is Err && step is Err
            &&& r->Err_0 is NotFound && step->Err_0 is NotFound
            &&& r->Err_0->NotFound_0@ == path@ && step->Err_0->NotFound_0@ == path@
        },
{
}

/// A plaintext identity is the file without the white space at its end, and
/// nothing else is taken off, so no key is lost; a file that could not be read
/// is an error that names the path and the reason.
pub proof fn law_plaintext_kept_whole(
    path: &str,
    content: Result<String, String>,
    r: Result<String, LoadError>,
)
    requires
        call_ensures(plaintext_identity, (path, content), r),
    ensures
        r is Ok <==> content is Ok,
        content is Ok ==> {
            &&& gpg::end_stripped(content->Ok_0@, r->Ok_0@)
            &&& secure::key_count(r->Ok_0@) == secure::key_count(content->Ok_0@)
        },
        content is Err ==> {
            &&& r->Err_0 is CannotRead
            &&& r->Err_0->path@ == path@
            &&& r->Err_0->cause@ == content->Err_0@
        },
{
    if content is Ok {
        text::law_trimmed_end(content->Ok_0@);
        secure::law_trimming_keeps_keys(content->Ok_0@);
    }
}

/// The secrets of a list are their texts, one for one.
pub proof fn law_secrets_are_texts(parts: Seq<SecureString>)
    ensures
        secrets(parts).len() == parts.len(),
        forall|i: int| 0 <= i < parts.len() ==> #[trigger] secrets(parts)[i] == parts[i]@,
{
}

/// Combining loses no key and makes none: the combined text is the identities on
/// lines of their own, it holds as many keys as they do, and it is refused only
/// where there is no identity, or no key in any.
pub proof fn law_combining_keeps_keys(
    parts: &Vec<SecureString>,
    r: Result<CombinedKeys, RunError>,
)
    requires
        call_ensures(combine_identities, (parts,), r),
    ensures
        parts@.len() == 0 <==> r == Err::<CombinedKeys, RunError>(RunError::NoIdentities),
        r is Ok <==> secure::total_keys(secrets(parts@)) > 0,
        r is Ok ==> {
            let keys = r->Ok_0;
            &&& keys.combined@ == text::joined(secrets(parts@), seq!['\n'])
            &&& secure::key_count(keys.combined@) == secure::total_keys(secrets(parts@))
            &&& keys.identity_count == parts@.len()
            &&& secure::total_keys(secrets(parts@)) <= usize::MAX ==> keys.secret_key_count
                == secure::key_count(keys.combined@)
        },
{
    reveal_strlit("\n");
    assert("\n"@ =~= seq!['\n']);
    law_secrets_are_texts(parts@);
    secure::law_joined_keys(secrets(parts@));
    if parts@.len() == 0 {
        assert(secrets(parts@) =~= Seq::<Seq<char>>::empty());
    }
}

/// Identities are loaded in order until all are, and then combined: a failure
/// ends the run with its error, no identity with that error, and otherwise the
/// next file is loaded, or the combination is set or refused.
pub proof fn law_next_load(
    count: usize,
    loaded: &Vec<SecureString>,
    failure: Option<String>,
    combined: Result<CombinedKeys, RunError>,
    none: String,
    no_key: String,
    r: RunAction,
)
    requires
        call_ensures(next_load, (count, loaded, failure), r),
        call_ensures(combine_identities, (loaded,), combined),
        call_ensures(RunError::message, (&RunError::NoIdentities,), none),
        call_ensures(RunError::message, (&RunError::NoSecretKey,), no_key),
    ensures
        failure is Some ==> r is Fail && r->Fail_0@ == failure->0@,
        failure is None && count == 0 ==> r is Fail && r->Fail_0@ == none@,
        failure is None && loaded@.len() < count ==> r is Load && r->Load_0 == loaded@.len(),
        failure is None && 0 < count <= loaded@.len() ==> {
            &&& r is SetKey <==> combined is Ok
            &&& r is Fail <==> combined is Err
            &&& r is Fail ==> r->Fail_0@ == no_key@
            &&& r is SetKey ==> {
                &&& r->SetKey_0.combined@ == combined->Ok_0.combined@
                &&& r->SetKey_0.identity_count == combined->Ok_0.identity_count
                &&& r->SetKey_0.secret_key_count == combined->Ok_0.secret_key_count
            }
        },
{
    law_secrets_are_texts(loaded@);
}

/// A report is the message, and the cause after it where there is one.
pub proof fn law_load_report(e: &LoadError, message: String, report: String)
    requires
        call_ensures(LoadError::message, (e,), message),
        call_ensures(LoadError::report, (e,), report),
    ensures
        match *e {
            LoadError::NotFound(path) => {
                &&& message@ == "identity file not found: "@ + path@
                &&& report@ == message@
            },
            LoadError::CannotRead { path, cause } => {
                &&& message@ == "cannot read "@ + path@
                &&& report@ == message@ + seq![':', ' '] + cause@
            },
        },
{
    reveal_strlit(": ");
    assert(": "@ =~= seq![':', ' ']);
}

} // verus!
