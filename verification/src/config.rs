//! Chezmoi configuration for age identity discovery.

use vstd::prelude::*;

use crate::exec;
use crate::exec::{expand_tilde, home_dir};
use crate::path;
use crate::path::{extension_of, join_path, paths_equal};
use crate::text;
use crate::text::{same_text, trim, with_cause};

verus! {

/// Environment variable override for chezmoi config file path.
pub const ENV_CHEZMOI_CONFIG: &'static str = "CHEZMOI_CONFIG";

/// Top-level chezmoi configuration (only the `[age]` section).
#[derive(Debug)]
pub struct ChezmoiConfig {
    /// Age encryption section.
    pub age: AgeSection,
}

/// The `[age]` section of chezmoi.toml.
#[derive(Debug)]
pub struct AgeSection {
    /// Single identity file path.
    pub identity: Option<String>,
    /// Multiple identity file paths.
    pub identities: Option<Vec<String>>,
}

impl Default for AgeSection {
    fn default() -> (r: Self)
        ensures
            r == (AgeSection { identity: None, identities: None }),
    {
        AgeSection { identity: None, identities: None }
    }
}

impl Default for ChezmoiConfig {
    fn default() -> (r: Self)
        ensures
            r.age == (AgeSection { identity: None, identities: None }),
    {
        ChezmoiConfig { age: AgeSection::default() }
    }
}

/// What became of reading a config file.
pub enum ConfigFile {
    /// The file could not be read, for this reason.
    Unreadable(String),
    /// The file is not a chezmoi config in TOML, for this reason.
    Malformed(String),
    /// The config that the file holds.
    Parsed(ChezmoiConfig),
}

/// Why a config file gives no identities.
#[derive(Debug)]
pub enum ConfigError {
    /// The file cannot be read.
    CannotRead {
        /// The path of the file.
        path: String,
        /// Why it cannot be read.
        cause: String,
    },
    /// The file cannot be parsed.
    Parse {
        /// The path of the file.
        path: String,
        /// Why it cannot be parsed.
        cause: String,
    },
}

impl ConfigError {
    /// The text of the error.
    pub open spec fn text(self) -> Seq<char> {
        match self {
            ConfigError::CannotRead { path, cause: _ } => "cannot read "@ + path@,
            ConfigError::Parse { path, cause: _ } => "parse error in "@ + path@,
        }
    }

    /// The text of the error with its cause.
    pub open spec fn full_text(self) -> Seq<char> {
        match self {
            ConfigError::CannotRead { path: _, cause } => text::caused(self.text(), cause@),
            ConfigError::Parse { path: _, cause } => text::caused(self.text(), cause@),
        }
    }

    /// The error as a message for the user.
    pub fn message(&self) -> (r: String)
        ensures
            r@ == self.text(),
    {
        match self {
            ConfigError::CannotRead { path, cause: _ } => {
                let mut m = "cannot read ".to_owned();
                m.append(path.as_str());
                m
            },
            ConfigError::Parse { path, cause: _ } => {
                let mut m = "parse error in ".to_owned();
                m.append(path.as_str());
                m
            },
        }
    }

    /// The error with its cause as a message for the user.
    pub fn report(&self) -> (r: String)
        ensures
            r@ == self.full_text(),
    {
        match self {
            ConfigError::CannotRead { path: _, cause } => with_cause(
                self.message(),
                cause.as_str(),
            ),
            ConfigError::Parse { path: _, cause } => with_cause(self.message(), cause.as_str()),
        }
    }
}

/// A path, and whether there is a file.
pub struct Probed {
    /// The path.
    pub path: String,
    /// Whether there is a file.
    pub is_file: bool,
}

/// The list with the one text, or the empty list.
pub open spec fn listed(s: Option<Seq<char>>) -> Seq<Seq<char>> {
    match s {
        Some(t) => seq![t],
        None => Seq::empty(),
    }
}

/// Candidate config directories, before neighbours that are the same path are
/// merged: those under the XDG config directory, the home directory and the
/// application data directory, as far as these are known.
pub open spec fn candidate_dirs(
    xdg_config_home: Option<Seq<char>>,
    home_dir: Option<Seq<char>>,
    appdata: Option<Seq<char>>,
) -> Seq<Seq<char>> {
    listed(xdg_config_home).map_values(|d: Seq<char>| path::joined_path(d, "chezmoi"@)) + listed(
        home_dir,
    ).map_values(
        |d: Seq<char>| path::joined_path(path::joined_path(d, ".config"@), "chezmoi"@),
    ) + listed(appdata).map_values(|d: Seq<char>| path::joined_path(d, "chezmoi"@))
}

/// The paths without those that are the same as the one kept before them.
pub open spec fn merged(paths: Seq<Seq<char>>) -> Seq<Seq<char>>
    decreases paths.len(),
{
    if paths.len() == 0 {
        Seq::empty()
    } else {
        let before = merged(paths.drop_last());
        if before.len() > 0 && path::same_path(paths.last(), before.last()) {
            before
        } else {
            before.push(paths.last())
        }
    }
}

/// Add a path to those kept, unless it is the same as the last of them.
///
/// `same_as_last` tells whether it is; it counts only where a path was kept.
pub fn push_distinct(kept: &mut Vec<String>, path: String, same_as_last: bool)
    ensures
        final(kept)@ == (if old(kept)@.len() > 0 && same_as_last {
            old(kept)@
        } else {
            old(kept)@.push(path)
        }),
{
    if kept.len() == 0 || !same_as_last {
        kept.push(path);
    }
}

/// Remove paths that are the same as the one kept before them, so that no text
/// is left right after itself.
pub fn merge_neighbours(paths: Vec<String>) -> (r: Vec<String>)
    ensures
        text::texts(r@) == merged(text::texts(paths@)),
        forall|i: int| 0 < i < r@.len() ==> (#[trigger] r@[i])@ != r@[i - 1]@,
{
    let ghost all = text::texts(paths@);
    let mut out: Vec<String> = Vec::new();
    assert(text::texts(out@) =~= Seq::<Seq<char>>::empty());
    for i in 0..paths.len()
        invariant
            all == text::texts(paths@),
            text::texts(out@) == merged(all.take(i as int)),
            forall|k: int| 0 < k < out@.len() ==> (#[trigger] out@[k])@ != out@[k - 1]@,
    {
        let ghost kept = out@;
        assert(all.take(i + 1).drop_last() =~= all.take(i as int));
        assert(all.take(i + 1).last() == paths@[i as int]@);
        let same_as_last = if out.len() > 0 {
            paths_equal(paths[i].as_str(), out[out.len() - 1].as_str())
        } else {
            false
        };
        push_distinct(&mut out, paths[i].clone(), same_as_last);
        assert(text::texts(kept.push(paths@[i as int])) =~= text::texts(kept).push(
            paths@[i as int]@,
        ));
    }
    assert(all.take(all.len() as int) =~= all);
    out
}

/// Build candidate config directories from environment values.
pub fn dirs_from_values(
    xdg_config_home: Option<&str>,
    home_dir: Option<String>,
    appdata: Option<&str>,
) -> (r: Vec<String>)
    ensures
        text::texts(r@) == merged(
            candidate_dirs(text::opt_text(xdg_config_home), text::opt_string(home_dir), text::opt_text(appdata)),
        ),
        forall|i: int| 0 < i < r@.len() ==> (#[trigger] r@[i])@ != r@[i - 1]@,
{
    let ghost xdg_part = listed(text::opt_text(xdg_config_home)).map_values(
        |d: Seq<char>| path::joined_path(d, "chezmoi"@),
    );
    let ghost home_part = listed(text::opt_string(home_dir)).map_values(
        |d: Seq<char>| path::joined_path(path::joined_path(d, ".config"@), "chezmoi"@),
    );
    let ghost appdata_part = listed(text::opt_text(appdata)).map_values(
        |d: Seq<char>| path::joined_path(d, "chezmoi"@),
    );
    let mut dirs: Vec<String> = Vec::new();
    if let Some(xdg) = xdg_config_home {
        dirs.push(join_path(xdg, "chezmoi"));
    }
    assert(text::texts(dirs@) =~= xdg_part);
    if let Some(home) = home_dir {
        dirs.push(join_path(join_path(home.as_str(), ".config").as_str(), "chezmoi"));
    }
    assert(text::texts(dirs@) =~= xdg_part + home_part);
    if let Some(data) = appdata {
        dirs.push(join_path(data, "chezmoi"));
    }
    assert(text::texts(dirs@) =~= xdg_part + home_part + appdata_part);
    merge_neighbours(dirs)
}

/// Return candidate chezmoi config directories from the values of
/// `XDG_CONFIG_HOME`, `HOME`, `USERPROFILE` and `APPDATA`; see [`home_dir`].
pub fn dirs(
    xdg_config_home: Option<&str>,
    home: Option<String>,
    userprofile: Result<String, String>,
    appdata: Option<&str>,
) -> (r: Vec<String>)
    ensures
        text::texts(r@) == merged(
            candidate_dirs(
                text::opt_text(xdg_config_home),
                match (home, userprofile) {
                    (Some(dir), _) => Some(dir@),
                    (None, Ok(dir)) => Some(dir@),
                    (None, Err(_)) => None,
                },
                text::opt_text(appdata),
            ),
        ),
        forall|i: int| 0 < i < r@.len() ==> (#[trigger] r@[i])@ != r@[i - 1]@,
{
    let dir = match home_dir(home, userprofile) {
        Ok(dir) => Some(dir),
        Err(_) => None,
    };
    dirs_from_values(xdg_config_home, dir, appdata)
}

/// Where the chezmoi config file may be: at the path of the `CHEZMOI_CONFIG`
/// variable, then as `chezmoi.toml` in each config directory.
pub open spec fn config_places(config_var: Option<Seq<char>>, dirs: Seq<Seq<char>>) -> Seq<
    Seq<char>,
> {
    listed(config_var) + dirs.map_values(|d: Seq<char>| path::joined_path(d, "chezmoi.toml"@))
}

/// The paths at which the chezmoi config file is looked for, in order.
pub fn config_candidates(config_var: Option<String>, dirs: &Vec<String>) -> (r: Vec<String>)
    ensures
        text::texts(r@) == config_places(text::opt_string(config_var), text::texts(dirs@)),
{
    let ghost in_dirs = text::texts(dirs@).map_values(
        |d: Seq<char>| path::joined_path(d, "chezmoi.toml"@),
    );
    let ghost first = listed(text::opt_string(config_var));
    let mut out: Vec<String> = Vec::new();
    if let Some(p) = config_var {
        out.push(p);
    }
    assert(text::texts(out@) =~= first);
    for i in 0..dirs.len()
        invariant
            in_dirs == text::texts(dirs@).map_values(
                |d: Seq<char>| path::joined_path(d, "chezmoi.toml"@),
            ),
            text::texts(out@) =~= first + in_dirs.take(i as int),
    {
        let ghost before = text::texts(out@);
        out.push(join_path(dirs[i].as_str(), "chezmoi.toml"));
        assert(text::texts(out@) =~= before.push(in_dirs[i as int]));
        assert(in_dirs.take(i + 1) =~= in_dirs.take(i as int).push(in_dirs[i as int]));
    }
    assert(in_dirs.take(dirs.len() as int) =~= in_dirs);
    out
}

/// The path of the first candidate that is a file.
pub open spec fn first_file(candidates: Seq<Probed>) -> Option<Seq<char>>
    decreases candidates.len(),
{
    if candidates.len() == 0 {
        None
    } else if candidates[0].is_file {
        Some(candidates[0].path@)
    } else {
        first_file(candidates.skip(1))
    }
}

/// Locate the chezmoi config file: the first candidate that is a file.
pub fn find(candidates: &Vec<Probed>) -> (r: Option<String>)
    ensures
        text::opt_string(r) == first_file(candidates@),
        match r {
            Some(p) => exists|i: int|
                {
                    &&& 0 <= i < candidates@.len()
                    &&& (#[trigger] candidates@[i]).is_file
                    &&& candidates@[i].path@ == p@
                    &&& forall|j: int| 0 <= j < i ==> !(#[trigger] candidates@[j]).is_file
                },
            None => forall|j: int| 0 <= j < candidates@.len() ==> !(#[trigger] candidates@[j]).is_file,
        },
{
    assert(candidates@.skip(0) =~= candidates@);
    for i in 0..candidates.len()
        invariant
            first_file(candidates@.skip(i as int)) == first_file(candidates@),
            forall|j: int| 0 <= j < i ==> !(#[trigger] candidates@[j]).is_file,
    {
        assert(candidates@.skip(i as int).skip(1) =~= candidates@.skip(i + 1));
        if candidates[i].is_file {
            return Some(candidates[i].path.clone());
        }
    }
    None
}

impl ChezmoiConfig {
    /// The identity entries of the config, as written: the single one, then
    /// those of the list.
    pub open spec fn entries(self) -> Seq<Seq<char>> {
        listed(text::opt_string(self.age.identity)) + (match self.age.identities {
            Some(ids) => text::texts(ids@),
            None => Seq::empty(),
        })
    }
}

/// The identity paths of a list of entries: blank entries are left out, the
/// others are trimmed and a leading tilde is expanded.
pub open spec fn identity_paths(entries: Seq<Seq<char>>, home: Option<Seq<char>>) -> Seq<Seq<char>>
    decreases entries.len(),
{
    if entries.len() == 0 {
        Seq::empty()
    } else {
        let before = identity_paths(entries.drop_last(), home);
        let entry = text::trimmed(entries.last());
        if entry.len() == 0 {
            before
        } else {
            before.push(exec::expanded(entry, home))
        }
    }
}

/// Add the path of one entry to the identity paths, unless it is blank.
fn push_identity(paths: &mut Vec<String>, entry: &str, home: Option<&str>)
    ensures
        text::texts(final(paths)@) == (if text::trimmed(entry@).len() == 0 {
            text::texts(old(paths)@)
        } else {
            text::texts(old(paths)@).push(exec::expanded(text::trimmed(entry@), text::opt_text(home)))
        }),
{
    let ghost before = text::texts(paths@);
    let id = trim(entry);
    if !id.is_empty() {
        paths.push(expand_tilde(id, home));
        assert(text::texts(paths@) =~= before.push(exec::expanded(id@, text::opt_text(home))));
    }
}

/// Extract the identity paths from a config.
pub fn config_identities(config: &ChezmoiConfig, home: Option<&str>) -> (r: Vec<String>)
    ensures
        text::texts(r@) == identity_paths(config.entries(), text::opt_text(home)),
{
    let ghost all = config.entries();
    let mut paths: Vec<String> = Vec::new();
    assert(text::texts(paths@) =~= Seq::<Seq<char>>::empty());
    let ghost first = listed(text::opt_string(config.age.identity));
    if let Some(id) = &config.age.identity {
        assert(first.drop_last() =~= Seq::<Seq<char>>::empty());
        assert(identity_paths(first.drop_last(), text::opt_text(home)) =~= Seq::<Seq<char>>::empty());
        push_identity(&mut paths, id.as_str(), home);
    }
    assert(text::texts(paths@) == identity_paths(first, text::opt_text(home)));
    if let Some(ids) = &config.age.identities {
        assert(all.take(first.len() as int) =~= first);
        for i in 0..ids.len()
            invariant
                all == first + text::texts(ids@),
                text::texts(paths@) == identity_paths(
                    all.take(first.len() + i),
                    text::opt_text(home),
                ),
        {
            assert(all.take(first.len() + i + 1).drop_last() =~= all.take(first.len() + i));
            assert(all.take(first.len() + i + 1).last() == ids@[i as int]@);
            push_identity(&mut paths, ids[i].as_str(), home);
        }
        assert(all.take(first.len() + ids.len()) =~= all);
    } else {
        assert(all =~= first);
    }
    paths
}

/// What the identities of a config file are, by the extension of its path and
/// what was read of it. Only TOML is supported: a file with another extension
/// has no identities.
pub open spec fn identities_read(
    r: Result<Vec<String>, ConfigError>,
    extension: Option<Seq<char>>,
    config_path: Seq<char>,
    file: ConfigFile,
    home: Option<Seq<char>>,
) -> bool {
    if extension != Some("toml"@) {
        r matches Ok(paths) && paths@.len() == 0
    } else {
        match file {
            ConfigFile::Unreadable(why) => r matches Err(ConfigError::CannotRead { path, cause })
                && path@ == config_path && cause@ == why@,
            ConfigFile::Malformed(why) => r matches Err(ConfigError::Parse { path, cause }) && path@
                == config_path && cause@ == why@,
            ConfigFile::Parsed(config) => r matches Ok(paths) && text::texts(paths@)
                == identity_paths(config.entries(), home),
        }
    }
}

/// Whether config files whose path has the given extension are read.
pub fn supported_extension(extension: Option<&str>) -> (r: bool)
    ensures
        r == (text::opt_text(extension) == Some("toml"@)),
{
    match extension {
        Some(ext) => same_text(ext, "toml"),
        None => false,
    }
}

/// Whether the config file at a path is read: only TOML is supported.
pub fn is_supported(config_path: &str) -> (r: bool)
    ensures
        r == (path::path_extension(config_path@) == Some("toml"@)),
{
    match extension_of(config_path) {
        Some(ext) => supported_extension(Some(ext.as_str())),
        None => supported_extension(None),
    }
}

/// Extract identity paths from what was read of a config file whose path has
/// the given extension.
///
/// # Errors
///
/// Returns an error if the file cannot be read or parsed.
pub fn identities_of(
    extension: Option<&str>,
    config_path: &str,
    file: &ConfigFile,
    home: Option<&str>,
) -> (r: Result<Vec<String>, ConfigError>)
    ensures
        identities_read(
            r,
            text::opt_text(extension),
            config_path@,
            *file,
            text::opt_text(home),
        ),
{
    if !supported_extension(extension) {
        return Ok(Vec::new());
    }
    match file {
        ConfigFile::Unreadable(why) => Err(
            ConfigError::CannotRead { path: config_path.to_owned(), cause: why.clone() },
        ),
        ConfigFile::Malformed(why) => Err(
            ConfigError::Parse { path: config_path.to_owned(), cause: why.clone() },
        ),
        ConfigFile::Parsed(config) => Ok(config_identities(config, home)),
    }
}

/// Extract identity paths from what was read of a chezmoi config file.
///
/// Only TOML is supported: a file with another extension has no identities.
///
/// # Errors
///
/// Returns an error if the file cannot be read or parsed.
pub fn read_identities(config_path: &str, file: &ConfigFile, home: Option<&str>) -> (r: Result<
    Vec<String>,
    ConfigError,
>)
    ensures
        identities_read(
            r,
            path::path_extension(config_path@),
            config_path@,
            *file,
            text::opt_text(home),
        ),
{
    match extension_of(config_path) {
        Some(ext) => identities_of(Some(ext.as_str()), config_path, file, home),
        None => identities_of(None, config_path, file, home),
    }
}

/// The paths that stand for no identity.
pub open spec fn dummy(path: Seq<char>) -> bool {
    path == "/dev/null"@ || path == "NUL"@ || path == "nul"@
}

/// Filter out dummy identity paths (`/dev/null`, `NUL`).
pub fn filter_dummy_identities(paths: Vec<String>) -> (r: Vec<String>)
    ensures
        text::texts(r@) == text::texts(paths@).filter(|p: Seq<char>| !dummy(p)),
{
    let ghost all = text::texts(paths@);
    let ghost keep = |p: Seq<char>| !dummy(p);
    let mut out: Vec<String> = Vec::new();
    proof {
        reveal(Seq::filter);
    }
    assert(text::texts(out@) =~= Seq::<Seq<char>>::empty());
    for i in 0..paths.len()
        invariant
            all == text::texts(paths@),
            keep == (|p: Seq<char>| !dummy(p)),
            text::texts(out@) == all.take(i as int).filter(keep),
    {
        reveal(Seq::filter);
        let ghost before = text::texts(out@);
        assert(all.take(i + 1).drop_last() =~= all.take(i as int));
        assert(all.take(i + 1).last() == paths@[i as int]@);
        let p = paths[i].as_str();
        if !(same_text(p, "/dev/null") || same_text(p, "NUL") || same_text(p, "nul")) {
            out.push(paths[i].clone());
            assert(text::texts(out@) =~= before.push(paths@[i as int]@));
        }
    }
    assert(all.take(all.len() as int) =~= all);
    out
}

/// No dummy is left among the identity paths, and no other path is lost.
pub proof fn law_only_dummies_removed(paths: Seq<Seq<char>>)
    ensures
        ({
            let kept = paths.filter(|p: Seq<char>| !dummy(p));
            &&& forall|p: Seq<char>| #[trigger] kept.contains(p) <==> paths.contains(p) && !dummy(p)
        }),
    decreases paths.len(),
{
    reveal(Seq::filter);
    let keep = |p: Seq<char>| !dummy(p);
    let kept = paths.filter(keep);
    if paths.len() > 0 {
        law_only_dummies_removed(paths.drop_last());
        let before = paths.drop_last().filter(keep);
        assert forall|p: Seq<char>| #[trigger] kept.contains(p) <==> paths.contains(p) && !dummy(
            p,
        ) by {
            assert(paths =~= paths.drop_last().push(paths.last()));
            assert(paths.contains(p) <==> paths.drop_last().contains(p) || p == paths.last()) by {
                if paths.contains(p) {
                    let i = paths.index_of(p);
                    if i < paths.len() - 1 {
                        assert(paths.drop_last()[i] == p);
                    }
                }
                if paths.drop_last().contains(p) {
                    let i = paths.drop_last().index_of(p);
                    assert(paths[i] == p);
                }
                if p == paths.last() {
                    assert(paths[paths.len() - 1] == p);
                }
            }
            if keep(paths.last()) {
                assert(kept == before.push(paths.last()));
                assert(kept.contains(p) <==> before.contains(p) || p == paths.last()) by {
                    if kept.contains(p) {
                        let i = kept.index_of(p);
                        if i < before.len() {
                            assert(before[i] == p);
                        }
                    }
                    if before.contains(p) {
                        let i = before.index_of(p);
                        assert(kept[i] == p);
                    }
                    if p == paths.last() {
                        assert(kept[before.len() as int] == p);
                    }
                }
            }
        }
    } else {
        assert(kept =~= Seq::<Seq<char>>::empty());
    }
}

/// Merged directories hold no path right after the same path.
pub proof fn law_merged_neighbours_differ(paths: Seq<Seq<char>>)
    ensures
        forall|i: int|
            0 < i < merged(paths).len() ==> !path::same_path(
                #[trigger] merged(paths)[i],
                merged(paths)[i - 1],
            ),
    decreases paths.len(),
{
    if paths.len() > 0 {
        law_merged_neighbours_differ(paths.drop_last());
        let before = merged(paths.drop_last());
        assert forall|i: int| 0 < i < merged(paths).len() implies !path::same_path(
            #[trigger] merged(paths)[i],
            merged(paths)[i - 1],
        ) by {
            if i < before.len() {
                assert(merged(paths)[i] == before[i]);
                assert(merged(paths)[i - 1] == before[i - 1]);
            } else {
                assert(merged(paths) == before.push(paths.last()));
            }
        }
    }
}

/// The config is found exactly where some candidate is a file: what is found is
/// the path of a candidate that is a file and no candidate before it is one, and
/// nothing is found only where no candidate is.
pub proof fn law_first_config_found(candidates: &Vec<Probed>, r: Option<String>, i: int)
    requires
        call_ensures(find, (candidates,), r),
        0 <= i < candidates@.len(),
        candidates@[i].is_file,
    ensures
        r is Some,
        (forall|j: int| 0 <= j < i ==> !(#[trigger] candidates@[j]).is_file) ==> r->0@
            == candidates@[i].path@,
{
}

/// The first file among candidates is one of them, and none before it is a
/// file; there is one wherever some candidate is a file.
pub proof fn law_first_file(candidates: Seq<Probed>, i: int)
    requires
        0 <= i < candidates.len(),
        candidates[i].is_file,
        forall|j: int| 0 <= j < i ==> !(#[trigger] candidates[j]).is_file,
    ensures
        first_file(candidates) == Some(candidates[i].path@),
    decreases i,
{
    if i > 0 {
        let rest = candidates.skip(1);
        assert(!candidates[0].is_file);
        assert(rest[i - 1] == candidates[i]);
        assert forall|j: int| 0 <= j < i - 1 implies !(#[trigger] rest[j]).is_file by {
            assert(rest[j] == candidates[j + 1]);
        }
        law_first_file(rest, i - 1);
    }
}

/// The config is looked for at the path of the variable, where it is set, and
/// then as `chezmoi.toml` in each directory, in order, and nowhere else.
pub proof fn law_config_places(var: Option<String>, dirs: &Vec<String>, r: Vec<String>)
    requires
        call_ensures(config_candidates, (var, dirs), r),
    ensures
        ({
            let first: int = if var is Some {
                1
            } else {
                0
            };
            &&& r@.len() == first + dirs@.len()
            &&& var is Some ==> r@[0]@ == var->0@
            &&& forall|i: int|
                0 <= i < dirs@.len() ==> r@[first + i]@ == path::joined_path(
                    (#[trigger] dirs@[i])@,
                    "chezmoi.toml"@,
                )
        }),
{
    let all = text::texts(r@);
    text::law_texts_are_views(r@);
    text::law_texts_are_views(dirs@);
    let first: int = if var is Some {
        1
    } else {
        0
    };
    assert(all.len() == r@.len());
    assert forall|i: int| 0 <= i < dirs@.len() implies r@[first + i]@ == path::joined_path(
        (#[trigger] dirs@[i])@,
        "chezmoi.toml"@,
    ) by {
        assert(all[first + i] == r@[first + i]@);
        assert(text::texts(dirs@)[i] == dirs@[i]@);
    }
    if var is Some {
        assert(all[0] == r@[0]@);
    }
}

/// The config directories are those under the XDG config directory, under
/// `.config` of the home directory, and under the application data directory,
/// in this order, each where it is known, with neighbours that are the same
/// merged.
pub proof fn law_config_dirs(
    xdg: Option<&str>,
    home: Option<String>,
    appdata: Option<&str>,
    r: Vec<String>,
)
    requires
        call_ensures(dirs_from_values, (xdg, home, appdata), r),
    ensures
        ({
            let none = Seq::<Seq<char>>::empty();
            let under_xdg = if xdg is Some {
                seq![path::joined_path(xdg->0@, "chezmoi"@)]
            } else {
                none
            };
            let under_home = if home is Some {
                seq![path::joined_path(path::joined_path(home->0@, ".config"@), "chezmoi"@)]
            } else {
                none
            };
            let under_appdata = if appdata is Some {
                seq![path::joined_path(appdata->0@, "chezmoi"@)]
            } else {
                none
            };
            text::texts(r@) == merged(under_xdg + under_home + under_appdata)
        }),
{
    let none = Seq::<Seq<char>>::empty();
    let under_xdg = if xdg is Some {
        seq![path::joined_path(xdg->0@, "chezmoi"@)]
    } else {
        none
    };
    let under_home = if home is Some {
        seq![path::joined_path(path::joined_path(home->0@, ".config"@), "chezmoi"@)]
    } else {
        none
    };
    let under_appdata = if appdata is Some {
        seq![path::joined_path(appdata->0@, "chezmoi"@)]
    } else {
        none
    };
    assert(candidate_dirs(text::opt_text(xdg), text::opt_string(home), text::opt_text(appdata))
        =~= under_xdg + under_home + under_appdata);
}

/// The config directories of the environment are those of its values, where the
/// home directory is that of `HOME`, or else of `USERPROFILE`.
pub proof fn law_dirs_of_environment(
    xdg: Option<&str>,
    home: Option<String>,
    userprofile: Result<String, String>,
    appdata: Option<&str>,
    dir: Option<String>,
    r: Vec<String>,
    of_values: Vec<String>,
)
    requires
        home is Some ==> dir == home,
        home is None && userprofile is Ok ==> dir == Some(userprofile->Ok_0),
        home is None && userprofile is Err ==> dir is None,
        call_ensures(dirs, (xdg, home, userprofile, appdata), r),
        call_ensures(dirs_from_values, (xdg, dir, appdata), of_values),
    ensures
        text::texts(r@) == text::texts(of_values@),
{
}

/// Merging keeps a list in which no path is the same as the one before it.
pub proof fn law_merging_keeps_different_neighbours(paths: Seq<Seq<char>>)
    requires
        forall|i: int|
            0 < i < paths.len() ==> !path::same_path(#[trigger] paths[i], paths[i - 1]),
    ensures
        merged(paths) == paths,
    decreases paths.len(),
{
    if paths.len() == 0 {
        assert(merged(paths) =~= paths);
    } else {
        let front = paths.drop_last();
        assert forall|i: int| 0 < i < front.len() implies !path::same_path(
            #[trigger] front[i],
            front[i - 1],
        ) by {
            assert(front[i] == paths[i]);
            assert(front[i - 1] == paths[i - 1]);
        }
        law_merging_keeps_different_neighbours(front);
        if front.len() > 0 {
            assert(!path::same_path(paths[paths.len() - 1], paths[paths.len() - 2]));
        }
        assert(front.push(paths.last()) =~= paths);
    }
}

/// Merging leaves out a path exactly where it is the same as the last one kept
/// before it, and keeps all others in order.
pub proof fn law_merging_one_more(paths: Seq<Seq<char>>, p: Seq<char>)
    ensures
        merged(Seq::empty()) == Seq::<Seq<char>>::empty(),
        paths.len() > 0 ==> merged(paths).len() > 0 && merged(paths)[0] == paths[0],
        paths.len() > 0 && path::same_path(p, merged(paths).last()) ==> merged(paths.push(p))
            == merged(paths),
        paths.len() > 0 && !path::same_path(p, merged(paths).last()) ==> merged(paths.push(p))
            == merged(paths).push(p),
    decreases paths.len(),
{
    assert(paths.push(p).drop_last() =~= paths);
    if paths.len() > 0 {
        law_merging_one_more(paths.drop_last(), p);
        let before = merged(paths.drop_last());
        if paths.len() > 1 {
            assert(paths.drop_last()[0] == paths[0]);
            assert(merged(paths)[0] == before[0]);
        } else {
            assert(paths.drop_last() =~= Seq::<Seq<char>>::empty());
        }
    }
}

/// The identities of a config are those of the single entry, then those of the
/// list, in order.
pub proof fn law_config_entries(config: ChezmoiConfig)
    ensures
        ({
            let first: int = if config.age.identity is Some {
                1
            } else {
                0
            };
            &&& config.age.identity is Some ==> config.entries().len() > 0 && config.entries()[0]
                == config.age.identity->0@
            &&& config.age.identities is None ==> config.entries().len() == first
            &&& config.age.identities is Some ==> {
                let ids = config.age.identities->0@;
                &&& config.entries().len() == first + ids.len()
                &&& forall|i: int|
                    0 <= i < ids.len() ==> config.entries()[first + i] == (#[trigger] ids[i])@
            }
        }),
{
    if config.age.identities is Some {
        text::law_texts_are_views(config.age.identities->0@);
        let ids = config.age.identities->0@;
        let first: int = if config.age.identity is Some {
            1
        } else {
            0
        };
        assert forall|i: int| 0 <= i < ids.len() implies config.entries()[first + i] == (
        #[trigger] ids[i])@ by {
            assert(text::texts(ids)[i] == ids[i]@);
        }
    }
}

/// The identity paths of entries are taken entry by entry: a blank one gives
/// none, another its text without the white space around it and with a leading
/// tilde expanded, and two lists of entries give their paths one after the
/// other.
pub proof fn law_identity_paths(
    a: Seq<Seq<char>>,
    b: Seq<Seq<char>>,
    entry: Seq<char>,
    t: Seq<char>,
    k: int,
    home: Option<Seq<char>>,
)
    requires
        text::stripped(entry, t, k),
    ensures
        identity_paths(Seq::empty(), home) == Seq::<Seq<char>>::empty(),
        t.len() == 0 ==> identity_paths(seq![entry], home) == Seq::<Seq<char>>::empty(),
        t.len() > 0 ==> identity_paths(seq![entry], home) == seq![exec::expanded(t, home)],
        identity_paths(a + b, home) == identity_paths(a, home) + identity_paths(b, home),
    decreases b.len(),
{
    text::law_trimmed(entry);
    let m = choose|m: int| text::stripped(entry, text::trimmed(entry), m);
    text::law_stripped_unique(entry, t, k, text::trimmed(entry), m);
    let one = seq![entry];
    assert(one.drop_last() =~= Seq::<Seq<char>>::empty());
    assert(identity_paths(one.drop_last(), home) =~= Seq::<Seq<char>>::empty());
    assert(one.last() == entry);
    if t.len() > 0 {
        assert(identity_paths(one, home) =~= seq![exec::expanded(t, home)]);
    }
    if b.len() == 0 {
        assert(a + b =~= a);
        assert(identity_paths(b, home) =~= Seq::<Seq<char>>::empty());
        assert(identity_paths(a, home) + identity_paths(b, home) =~= identity_paths(a, home));
    } else {
        law_identity_paths(a, b.drop_last(), entry, t, k, home);
        assert((a + b).drop_last() =~= a + b.drop_last());
        assert((a + b).last() == b.last());
        assert(identity_paths(a + b, home) =~= identity_paths(a, home) + identity_paths(b, home));
    }
}

/// A single identity under the home directory is read as such: of `~/` and what
/// follows it, with any white space around, comes the path in the home
/// directory, and nothing else.
pub proof fn law_identity_under_home(
    config: &ChezmoiConfig,
    home: &str,
    before: Seq<char>,
    rest: Seq<char>,
    after: Seq<char>,
    r: Vec<String>,
)
    requires
        call_ensures(config_identities, (config, Some(home)), r),
        config.age.identity is Some,
        config.age.identity->0@ == before + ("~/"@ + rest) + after,
        config.age.identities is None,
        forall|i: int| 0 <= i < before.len() ==> text::white_space(#[trigger] before[i]),
        forall|i: int| 0 <= i < after.len() ==> text::white_space(#[trigger] after[i]),
        rest.len() > 0 ==> !text::white_space(rest.last()),
    ensures
        r@.len() == 1,
        r@[0]@ == path::joined_path(home@, rest),
{
    reveal_strlit("~/");
    let entry = config.age.identity->0@;
    let t = "~/"@ + rest;
    let k = before.len() as int;
    assert(entry.subrange(k, k + t.len()) =~= t);
    assert forall|j: int| 0 <= j < k implies text::white_space(#[trigger] entry[j]) by {
        assert(entry[j] == before[j]);
    }
    assert forall|j: int| k + t.len() <= j < entry.len() implies text::white_space(
        #[trigger] entry[j],
    ) by {
        assert(entry[j] == after[j - k - t.len()]);
    }
    assert(text::stripped(entry, t, k));
    let none = Seq::<Seq<char>>::empty();
    law_identity_paths(none, none, entry, t, k, Some(home@));
    assert(config.entries() =~= seq![entry]);
    assert("~/"@ =~= t.subrange(0, "~/"@.len() as int));
    assert(t.skip("~/"@.len() as int) =~= rest);
    assert(exec::under_home(t) == Some(rest));
    text::law_texts_are_views(r@);
    assert(text::texts(r@)[0] == r@[0]@);
}

/// Only TOML gives identities: another extension gives none whatever the file
/// holds; a TOML file that could not be read or parsed is an error with its path
/// and reason, and one that could gives the identities of its config.
pub proof fn law_only_toml_read(
    extension: Option<&str>,
    config_path: &str,
    file: &ConfigFile,
    home: Option<&str>,
    r: Result<Vec<String>, ConfigError>,
    supported: bool,
)
    requires
        call_ensures(identities_of, (extension, config_path, file, home), r),
        call_ensures(supported_extension, (extension,), supported),
    ensures
        supported <==> extension is Some && extension->0@ == "toml"@,
        !supported ==> r is Ok && r->Ok_0@.len() == 0,
        supported ==> match *file {
            ConfigFile::Unreadable(why) => {
                &&& r is Err
                &&& r->Err_0 is CannotRead
                &&& r->Err_0->CannotRead_path@ == config_path@
                &&& r->Err_0->CannotRead_cause@ == why@
            },
            ConfigFile::Malformed(why) => {
                &&& r is Err
                &&& r->Err_0 is Parse
                &&& r->Err_0->Parse_path@ == config_path@
                &&& r->Err_0->Parse_cause@ == why@
            },
            ConfigFile::Parsed(config) => {
                &&& r is Ok
                &&& text::texts(r->Ok_0@) == identity_paths(config.entries(), text::opt_text(home))
            },
        },
{
}

/// Reading a config file goes by the extension of its path.
pub proof fn law_extension_of_path_decides(
    config_path: &str,
    extension: Option<&str>,
    file: &ConfigFile,
    home: Option<&str>,
    r: Result<Vec<String>, ConfigError>,
    by_extension: Result<Vec<String>, ConfigError>,
    supported: bool,
)
    requires
        path::path_extension(config_path@) == text::opt_text(extension),
        call_ensures(read_identities, (config_path, file, home), r),
        call_ensures(identities_of, (extension, config_path, file, home), by_extension),
        call_ensures(is_supported, (config_path,), supported),
    ensures
        supported <==> extension is Some && extension->0@ == "toml"@,
        r is Ok <==> by_extension is Ok,
        r is Ok ==> text::texts(r->Ok_0@) == text::texts(by_extension->Ok_0@),
        r is Err ==> r->Err_0.full_text() == by_extension->Err_0.full_text(),
{
    if r is Ok && !supported {
        assert(text::texts(r->Ok_0@) =~= Seq::<Seq<char>>::empty());
        assert(text::texts(by_extension->Ok_0@) =~= Seq::<Seq<char>>::empty());
    }
}

/// The dummies are `/dev/null`, `NUL` and `nul`; these are left out, and all
/// other paths stay, in order.
pub proof fn law_dummies_left_out(paths: Vec<String>, r: Vec<String>)
    requires
        call_ensures(filter_dummy_identities, (paths,), r),
    ensures
        text::texts(r@) == text::texts(paths@).filter(
            |p: Seq<char>|
                {
                    &&& p != "/dev/null"@
                    &&& p != "NUL"@
                    &&& p != "nul"@
                },
        ),
{
    let keep = |p: Seq<char>|
        {
            &&& p != "/dev/null"@
            &&& p != "NUL"@
            &&& p != "nul"@
        };
    assert(keep =~= (|p: Seq<char>| !dummy(p)));
}

/// A report is the message, and the cause after it.
pub proof fn law_config_report(e: &ConfigError, message: String, report: String)
    requires
        call_ensures(ConfigError::message, (e,), message),
        call_ensures(ConfigError::report, (e,), report),
    ensures
        match *e {
            ConfigError::CannotRead { path, cause } => {
                &&& message@ == "cannot read "@ + path@
                &&& report@ == message@ + seq![':', ' '] + cause@
            },
            ConfigError::Parse { path, cause } => {
                &&& message@ == "parse error in "@ + path@
                &&& report@ == message@ + seq![':', ' '] + cause@
            },
        },
{
    reveal_strlit(": ");
    assert(": "@ =~= seq![':', ' ']);
}

} // verus!
