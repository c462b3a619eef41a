//! Home directory, tilde expansion and the search for binaries on `PATH`.

use vstd::prelude::*;

use crate::path;
use crate::path::{join_path, same_components, PathPart};
use crate::text;
use crate::text::{same_text, strip_prefix, with_cause};

verus! {

/// Environment variable holding pre-decrypted age key material.
pub const ENV_AGE_KEY: &'static str = "CHEZMOI_AGE_KEY";

/// Environment variable for explicit GPG key file path(s).
pub const ENV_GPG_KEY_FILE: &'static str = "CHEZMOI_AGE_GPG_KEY_FILE";

/// Why the environment does not allow an operation.
#[derive(Debug, PartialEq, Eq)]
pub enum ExecError {
    /// Neither `HOME` nor `USERPROFILE` is set.
    HomeNotSet {
        /// Why `USERPROFILE` has no value.
        cause: String,
    },
    /// No `age` binary other than this program is on `PATH`.
    AgeNotFound,
    /// No `chezmoi` binary is on `PATH`.
    ChezmoiNotFound,
}

impl ExecError {
    /// The text of the error.
    pub open spec fn text(self) -> Seq<char> {
        match self {
            ExecError::HomeNotSet { cause: _ } => "neither HOME nor USERPROFILE environment variable is set"@,
            ExecError::AgeNotFound => "age binary not found in PATH"@,
            ExecError::ChezmoiNotFound => "chezmoi not found in PATH"@,
        }
    }

    /// The text of the error with its cause, where it has one.
    pub open spec fn full_text(self) -> Seq<char> {
        match self {
            ExecError::HomeNotSet { cause } => text::caused(self.text(), cause@),
            _ => self.text(),
        }
    }

    /// The error as a message for the user.
    pub fn message(&self) -> (r: String)
        ensures
            r@ == self.text(),
    {
        match self {
            ExecError::HomeNotSet { cause: _ } => "neither HOME nor USERPROFILE environment variable is set".to_owned(),
            ExecError::AgeNotFound => "age binary not found in PATH".to_owned(),
            ExecError::ChezmoiNotFound => "chezmoi not found in PATH".to_owned(),
        }
    }

    /// The error with its cause, where it has one, as a message for the user.
    pub fn report(&self) -> (r: String)
        ensures
            r@ == self.full_text(),
    {
        match self {
            ExecError::HomeNotSet { cause } => with_cause(self.message(), cause.as_str()),
            _ => self.message(),
        }
    }
}

/// What follows a leading `~/` or `~\`.
pub open spec fn under_home(path: Seq<char>) -> Option<Seq<char>> {
    if "~/"@.is_prefix_of(path) {
        Some(path.skip("~/"@.len() as int))
    } else if "~\\"@.is_prefix_of(path) {
        Some(path.skip("~\\"@.len() as int))
    } else {
        None
    }
}

/// `path` with a leading `~` replaced by the home directory, where there is
/// one.
pub open spec fn expanded(path: Seq<char>, home: Option<Seq<char>>) -> Seq<char> {
    match (home, under_home(path)) {
        (Some(dir), Some(rest)) => path::joined_path(dir, rest),
        (Some(dir), None) => if path == "~"@ {
            dir
        } else {
            path
        },
        (None, _) => path,
    }
}

/// What follows a leading `~/` or `~\`.
pub fn strip_tilde(path: &str) -> (r: Option<&str>)
    ensures
        match r {
            Some(rest) => under_home(path@) == Some(rest@),
            None => under_home(path@) is None,
        },
{
    if let Some(rest) = strip_prefix(path, "~/") {
        assert(path@.skip("~/"@.len() as int) =~= rest@);
        assert("~/"@.is_prefix_of(path@));
        return Some(rest);
    }
    if let Some(rest) = strip_prefix(path, "~\\") {
        assert(path@.skip("~\\"@.len() as int) =~= rest@);
        assert("~\\"@.is_prefix_of(path@));
        return Some(rest);
    }
    None
}

/// Expand a leading `~/` or `~\`, or a lone `~`, to the user's home directory.
///
/// Without a home directory the path stays as it is.
pub fn expand_tilde(path: &str, home: Option<&str>) -> (r: String)
    ensures
        r@ == expanded(path@, text::opt_text(home)),
{
    if let Some(dir) = home {
        if let Some(rest) = strip_tilde(path) {
            return join_path(dir, rest);
        }
        if same_text(path, "~") {
            return dir.to_owned();
        }
    }
    path.to_owned()
}

/// Get the user's home directory from the values of `HOME` and `USERPROFILE`.
///
/// `userprofile` tells why there is no value where there is none.
///
/// # Errors
///
/// Returns an error if neither is set.
pub fn home_dir(home: Option<String>, userprofile: Result<String, String>) -> (r: Result<
    String,
    ExecError,
>)
    ensures
        r == (match (home, userprofile) {
            (Some(dir), _) => Ok::<String, ExecError>(dir),
            (None, Ok(dir)) => Ok(dir),
            (None, Err(cause)) => Err(ExecError::HomeNotSet { cause }),
        }),
{
    match home {
        Some(dir) => Ok(dir),
        None => match userprofile {
            Ok(dir) => Ok(dir),
            Err(cause) => Err(ExecError::HomeNotSet { cause }),
        },
    }
}

/// The file name of the program `name`.
pub fn exe_name(name: &str, windows: bool) -> (r: String)
    ensures
        r@ == (if windows {
            name@ + ".exe"@
        } else {
            name@
        }),
{
    let mut file = name.to_owned();
    if windows {
        file.append(".exe");
    }
    file
}

/// Whether `i` is the first position that holds `true`.
pub open spec fn is_first(flags: Seq<bool>, i: int) -> bool {
    &&& 0 <= i < flags.len()
    &&& flags[i]
    &&& forall|j: int| 0 <= j < i ==> !flags[j]
}

/// Search for a binary on `PATH`.
///
/// `path_files` tells for each directory of `PATH`, in order, whether the
/// binary is a file there; it is `None` where `PATH` is not set. Returns the
/// position of the first directory that holds the binary.
pub fn find_in_path(path_files: Option<&Vec<bool>>) -> (r: Option<usize>)
    ensures
        match path_files {
            Some(files) => match r {
                Some(i) => is_first(files@, i as int),
                None => forall|j: int| 0 <= j < files@.len() ==> !files@[j],
            },
            None => r is None,
        },
{
    let files = match path_files {
        Some(files) => files,
        None => return None,
    };
    for i in 0..files.len()
        invariant
            path_files == Some(files),
            forall|j: int| 0 <= j < i ==> !files@[j],
    {
        if files[i] {
            return Some(i);
        }
    }
    None
}

/// A place where the `age` binary may be.
pub struct Candidate {
    /// Whether there is a file.
    pub is_file: bool,
    /// The components of the file's canonical path, where it has one.
    pub resolved: Option<Vec<PathPart>>,
}

/// Whether a candidate is the program with the canonical path `self_path`.
pub open spec fn is_self(candidate: Candidate, self_path: Option<Vec<PathPart>>) -> bool {
    match (candidate.resolved, self_path) {
        (Some(a), Some(b)) => path::path_key(a@) == path::path_key(b@),
        _ => false,
    }
}

/// Which candidates are an `age` binary other than this program.
pub open spec fn real_age(candidates: Seq<Candidate>, self_path: Option<Vec<PathPart>>) -> Seq<bool> {
    candidates.map_values(|c: Candidate| c.is_file && !is_self(c, self_path))
}

/// Search for the age binary among the candidates of each directory, in order,
/// skipping this program itself.
pub fn find_age_in_dirs(candidates: &Vec<Candidate>, self_path: &Option<Vec<PathPart>>) -> (r: Option<
    usize,
>)
    ensures
        match r {
            Some(i) => is_first(real_age(candidates@, *self_path), i as int),
            None => forall|j: int| 0 <= j < candidates@.len() ==> !real_age(candidates@, *self_path)[j],
        },
{
    let ghost usable = real_age(candidates@, *self_path);
    for i in 0..candidates.len()
        invariant
            usable == real_age(candidates@, *self_path),
            forall|j: int| 0 <= j < i ==> !usable[j],
    {
        let candidate = &candidates[i];
        let own = match (&candidate.resolved, self_path) {
            (Some(a), Some(b)) => same_components(a, b),
            _ => false,
        };
        if candidate.is_file && !own {
            return Some(i);
        }
    }
    None
}

/// Find the real `age` binary on `PATH`, excluding our own executable.
///
/// # Errors
///
/// Returns an error if no `age` binary is found.
pub fn find_real_age(candidates: &Vec<Candidate>, self_path: &Option<Vec<PathPart>>) -> (r: Result<
    usize,
    ExecError,
>)
    ensures
        match r {
            Ok(i) => is_first(real_age(candidates@, *self_path), i as int),
            Err(e) => {
                &&& e == ExecError::AgeNotFound
                &&& forall|j: int|
                    0 <= j < candidates@.len() ==> !real_age(candidates@, *self_path)[j]
            },
        },
{
    match find_age_in_dirs(candidates, self_path) {
        Some(i) => Ok(i),
        None => Err(ExecError::AgeNotFound),
    }
}

/// What follows the tilde is kept whole: whatever it is, `~/` or `~\` before it
/// stands for the home directory, and nothing else of the path is taken off.
pub proof fn law_tilde_stands_for_home(
    path: &str,
    home: &str,
    rest: Seq<char>,
    stripped: Option<&str>,
    r: String,
)
    requires
        path@ == "~/"@ + rest || path@ == "~\\"@ + rest,
        call_ensures(strip_tilde, (path,), stripped),
        call_ensures(expand_tilde, (path, Some(home)), r),
    ensures
        text::opt_text(stripped) == Some(rest),
        r@ == path::joined_path(home@, rest),
{
    reveal_strlit("~/");
    reveal_strlit("~\\");
    if path@ == "~/"@ + rest {
        assert("~/"@ =~= path@.subrange(0, "~/"@.len() as int));
        assert(path@.skip("~/"@.len() as int) =~= rest);
    } else {
        assert("~\\"@ =~= path@.subrange(0, "~\\"@.len() as int));
        assert(path@.skip("~\\"@.len() as int) =~= rest);
        assert(path@[1] == '\\');
        if "~/"@.is_prefix_of(path@) {
            assert(path@.subrange(0, "~/"@.len() as int)[1] == '/');
        }
    }
}

/// A lone tilde is the home directory.
pub proof fn law_lone_tilde_is_home(path: &str, home: &str, r: String)
    requires
        path@ == "~"@,
        call_ensures(expand_tilde, (path, Some(home)), r),
    ensures
        r@ == home@,
{
    reveal_strlit("~");
    reveal_strlit("~/");
    reveal_strlit("~\\");
}

/// A path stays as it is where it does not begin with a tilde and a separator
/// and is not a lone tilde, and every path does without a home directory.
pub proof fn law_other_paths_stay(path: &str, home: Option<&str>, r: String)
    requires
        call_ensures(expand_tilde, (path, home), r),
        home is None || !({
            &&& path@.len() > 0
            &&& path@[0] == '~'
            &&& path@.len() == 1 || path@[1] == '/' || path@[1] == '\\'
        }),
    ensures
        r@ == path@,
{
    reveal_strlit("~");
    reveal_strlit("~/");
    reveal_strlit("~\\");
    if "~/"@.is_prefix_of(path@) {
        assert(path@.subrange(0, 2)[0] == '~');
        assert(path@.subrange(0, 2)[1] == '/');
    }
    if "~\\"@.is_prefix_of(path@) {
        assert(path@.subrange(0, 2)[0] == '~');
        assert(path@.subrange(0, 2)[1] == '\\');
    }
    if path@ == "~"@ {
        assert(path@[0] == '~');
    }
}

/// `HOME` comes before `USERPROFILE`, and one of them is enough.
pub proof fn law_home_before_userprofile(
    home: Option<String>,
    userprofile: Result<String, String>,
    r: Result<String, ExecError>,
)
    requires
        call_ensures(home_dir, (home, userprofile), r),
    ensures
        home matches Some(dir) ==> r == Ok::<String, ExecError>(dir),
        home is None ==> (userprofile matches Ok(dir) ==> r == Ok::<String, ExecError>(dir)),
        r is Err <==> home is None && userprofile is Err,
{
}

/// The file name of a program is its name, and on Windows `.exe` after it.
pub proof fn law_exe_name(name: &str, windows: bool, r: String)
    requires
        call_ensures(exe_name, (name, windows), r),
    ensures
        r@.take(name@.len() as int) == name@,
        !windows ==> r@.len() == name@.len(),
        windows ==> r@.skip(name@.len() as int) == seq!['.', 'e', 'x', 'e'],
{
    reveal_strlit(".exe");
    assert(r@.take(name@.len() as int) =~= name@);
    if windows {
        assert(r@.skip(name@.len() as int) =~= seq!['.', 'e', 'x', 'e']);
    }
}

/// A binary is found exactly where some directory of `PATH` holds it, and the
/// first such directory is the one.
pub proof fn law_first_on_path(path_files: Option<&Vec<bool>>, r: Option<usize>)
    requires
        call_ensures(find_in_path, (path_files,), r),
    ensures
        path_files is None ==> r is None,
        r matches Some(i) ==> {
            let files = path_files->0@;
            &&& i < files.len()
            &&& files[i as int]
            &&& forall|j: int| 0 <= j < i ==> !#[trigger] files[j]
        },
        r is None && path_files is Some ==> forall|j: int|
            0 <= j < path_files->0@.len() ==> !#[trigger] path_files->0@[j],
{
}

/// Whether the file of a candidate is this program: both have a canonical path,
/// and the two are the same.
pub open spec fn is_own(candidate: Candidate, self_path: Option<Vec<PathPart>>) -> bool {
    &&& candidate.resolved is Some
    &&& self_path is Some
    &&& path::path_key(candidate.resolved->0@) == path::path_key(self_path->0@)
}

/// The real `age` is the first file that is not this program: what is found is
/// such a file and every candidate before it is no file or this program, and
/// nothing is found only where that holds of all.
pub proof fn law_first_real_age(
    candidates: &Vec<Candidate>,
    self_path: &Option<Vec<PathPart>>,
    r: Option<usize>,
    found: Result<usize, ExecError>,
)
    requires
        call_ensures(find_age_in_dirs, (candidates, self_path), r),
        call_ensures(find_real_age, (candidates, self_path), found),
    ensures
        r matches Some(i) ==> {
            &&& i < candidates@.len()
            &&& candidates@[i as int].is_file
            &&& !is_own(candidates@[i as int], *self_path)
            &&& forall|j: int|
                0 <= j < i ==> !(#[trigger] candidates@[j]).is_file || is_own(
                    candidates@[j],
                    *self_path,
                )
        },
        r is None ==> forall|j: int|
            0 <= j < candidates@.len() ==> !(#[trigger] candidates@[j]).is_file || is_own(
                candidates@[j],
                *self_path,
            ),
        found == (match r {
            Some(i) => Ok::<usize, ExecError>(i),
            None => Err(ExecError::AgeNotFound),
        }),
{
    let usable = real_age(candidates@, *self_path);
    assert(usable.len() == candidates@.len());
    assert forall|j: int| 0 <= j < candidates@.len() implies usable[j] == ((
    #[trigger] candidates@[j]).is_file && !is_own(candidates@[j], *self_path)) by {}
}

/// A report is the message, and the cause after it where there is one.
pub proof fn law_exec_report(e: &ExecError, message: String, report: String)
    requires
        call_ensures(ExecError::message, (e,), message),
        call_ensures(ExecError::report, (e,), report),
    ensures
        match *e {
            ExecError::HomeNotSet { cause } => report@ == message@ + seq![':', ' '] + cause@,
            _ => report@ == message@,
        },
{
    reveal_strlit(": ");
    assert(": "@ =~= seq![':', ' ']);
}

} // verus!
