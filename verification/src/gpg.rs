//! GPG decryption: what is an encrypted file, and what gpg's output gives.

use vstd::prelude::*;
use vstd::utf8::{decode_utf8, is_ascii_chars, valid_utf8};

use crate::secure;
use crate::text;
use crate::text::{ends_with, signed_decimal_text, trim_end, with_cause};

verus! {

/// The lowercase equivalent of a text, by the Unicode rules of
/// `str::to_lowercase`.
pub uninterp spec fn lowercase(s: Seq<char>) -> Seq<char>;

/// The lowercase equivalent of an ASCII character.
pub open spec fn ascii_lowercase(c: char) -> char {
    if 'A' <= c <= 'Z' {
        (c as u32 + 32) as char
    } else {
        c
    }
}

/// `str::to_lowercase`: the lowercase equivalent of a text. The result is named
/// by [`lowercase`]; of an ASCII text it is the text with `A` to `Z` replaced
/// by `a` to `z`.
#[verifier::external_body]
fn to_lowercase(s: &str) -> (r: String)
    ensures
        r@ == lowercase(s@),
        is_ascii_chars(s@) ==> r@ == s@.map_values(|c: char| ascii_lowercase(c)),
{
    s.to_lowercase()
}

/// The text of the error that `String::from_utf8` returns for bytes that are not
/// valid UTF-8.
pub uninterp spec fn utf8_error(bytes: Seq<u8>) -> Seq<char>;

/// `String::from_utf8`: the text that the bytes encode, where they are valid
/// UTF-8, and otherwise the text of its error, which is named by
/// [`utf8_error`]: it tells where the bytes cease to be valid, and depends on
/// them alone.
#[verifier::external_body]
fn utf8_string(bytes: Vec<u8>) -> (r: Result<String, String>)
    ensures
        match r {
            Ok(s) => valid_utf8(bytes@) && s@ == decode_utf8(bytes@),
            Err(e) => !valid_utf8(bytes@) && e@ == utf8_error(bytes@),
        },
{
    match String::from_utf8(bytes) {
        Ok(s) => Ok(s),
        Err(e) => Err(e.to_string()),
    }
}

/// A name in lower case that ends like a GPG-encrypted file's.
pub open spec fn encrypted_name(lowered: Seq<char>) -> bool {
    ".gpg"@.is_suffix_of(lowered) || ".asc"@.is_suffix_of(lowered)
}

/// Check whether a name in lower case has a GPG encryption extension.
pub fn has_gpg_extension(lowered: &str) -> (r: bool)
    ensures
        r == encrypted_name(lowered@),
{
    ends_with(lowered, ".gpg") || ends_with(lowered, ".asc")
}

/// Check whether a file path has a GPG encryption extension (.gpg or .asc), in
/// upper or lower case.
pub fn is_encrypted(path: &str) -> (r: bool)
    ensures
        r == encrypted_name(lowercase(path@)),
        is_ascii_chars(path@) ==> r == encrypted_name(
            path@.map_values(|c: char| ascii_lowercase(c)),
        ),
{
    let lowered = to_lowercase(path);
    has_gpg_extension(lowered.as_str())
}

/// Why a file was not decrypted.
#[derive(Debug)]
pub enum GpgError {
    /// gpg failed on the file with this path, with this exit code.
    Failed {
        /// The path of the file.
        path: String,
        /// The exit code, or -1 where there is none.
        exit_code: i32,
    },
    /// gpg's output is not text.
    NotUtf8 {
        /// Why it is not.
        cause: String,
    },
}

impl GpgError {
    /// The text of the error.
    pub open spec fn text(self) -> Seq<char> {
        match self {
            GpgError::Failed { path, exit_code } => "gpg --decrypt "@ + path@ + " failed (exit "@
                + text::signed_decimal(exit_code as int) + ")"@,
            GpgError::NotUtf8 { cause: _ } => "gpg output is not valid UTF-8"@,
        }
    }

    /// The text of the error with its cause, where it has one.
    pub open spec fn full_text(self) -> Seq<char> {
        match self {
            GpgError::Failed { path: _, exit_code: _ } => self.text(),
            GpgError::NotUtf8 { cause } => text::caused(self.text(), cause@),
        }
    }

    /// The error as a message for the user.
    pub fn message(&self) -> (r: String)
        ensures
            r@ == self.text(),
    {
        match self {
            GpgError::Failed { path, exit_code } => {
                let mut m = "gpg --decrypt ".to_owned();
                m.append(path.as_str());
                m.append(" failed (exit ");
                m.append(signed_decimal_text(*exit_code).as_str());
                m.append(")");
                m
            },
            GpgError::NotUtf8 { cause: _ } => "gpg output is not valid UTF-8".to_owned(),
        }
    }

    /// The error with its cause, where it has one, as a message for the user.
    pub fn report(&self) -> (r: String)
        ensures
            r@ == self.full_text(),
    {
        match self {
            GpgError::Failed { path: _, exit_code: _ } => self.message(),
            GpgError::NotUtf8 { cause } => with_cause(self.message(), cause.as_str()),
        }
    }
}

/// What gpg's output gives, by whether gpg succeeded, its exit code, and what
/// decoding the output gave: the text without its trailing white space, or the
/// error.
pub open spec fn parsed(
    r: Result<String, GpgError>,
    success: bool,
    exit_code: Option<i32>,
    decoded: Result<Seq<char>, Seq<char>>,
    path: Seq<char>,
) -> bool {
    if !success {
        r matches Err(GpgError::Failed { path: p, exit_code: c }) && p@ == path && c == (
        match exit_code {
            Some(code) => code,
            None => -1i32,
        })
    } else {
        match decoded {
            Ok(s) => r matches Ok(t) && t@ == text::trimmed_end(s),
            Err(why) => r matches Err(GpgError::NotUtf8 { cause }) && cause@ == why,
        }
    }
}

/// The text that gpg's output holds, from what decoding it gave.
///
/// # Errors
///
/// Returns an error if the process exited non-zero or its output could not be
/// decoded.
pub fn parse_decoded(
    success: bool,
    exit_code: Option<i32>,
    decoded: Result<String, String>,
    path: &str,
) -> (r: Result<String, GpgError>)
    ensures
        parsed(
            r,
            success,
            exit_code,
            match decoded {
                Ok(s) => Ok::<Seq<char>, Seq<char>>(s@),
                Err(why) => Err(why@),
            },
            path@,
        ),
{
    if !success {
        let code: i32 = match exit_code {
            Some(code) => code,
            None => -1,
        };
        return Err(GpgError::Failed { path: path.to_owned(), exit_code: code });
    }
    match decoded {
        Ok(s) => Ok(trim_end(s.as_str()).to_owned()),
        Err(cause) => Err(GpgError::NotUtf8 { cause }),
    }
}

/// Validate and parse gpg output bytes into a trimmed string.
///
/// # Errors
///
/// Returns an error if the process exited non-zero or its output is not valid
/// UTF-8.
pub fn parse_gpg_bytes(
    success: bool,
    exit_code: Option<i32>,
    stdout: Vec<u8>,
    path: &str,
) -> (r: Result<String, GpgError>)
    ensures
        parsed(
            r,
            success,
            exit_code,
            if valid_utf8(stdout@) {
                Ok::<Seq<char>, Seq<char>>(decode_utf8(stdout@))
            } else {
                Err(utf8_error(stdout@))
            },
            path@,
        ),
{
    parse_decoded(success, exit_code, utf8_string(stdout), path)
}

/// The options with which gpg is run; the path of the file follows them.
pub fn gpg_options() -> (r: Vec<String>)
    ensures
        text::texts(r@) == seq!["--quiet"@, "--yes"@, "--decrypt"@],
{
    let mut options: Vec<String> = Vec::new();
    options.push("--quiet".to_owned());
    options.push("--yes".to_owned());
    options.push("--decrypt".to_owned());
    assert(text::texts(options@) =~= seq!["--quiet"@, "--yes"@, "--decrypt"@]);
    options
}

/// Whether `t` is `s` without the white space at its end, all of it and nothing
/// else.
pub open spec fn end_stripped(s: Seq<char>, t: Seq<char>) -> bool {
    &&& t.len() <= s.len()
    &&& t == s.take(t.len() as int)
    &&& forall|j: int| t.len() <= j < s.len() ==> text::white_space(#[trigger] s[j])
    &&& t.len() > 0 ==> !text::white_space(t.last())
}

/// Where gpg succeeds and its output is text, the output is what is returned
/// followed by white space only, and what is returned does not end in white
/// space; so no secret key of the output is lost.
pub proof fn law_output_kept_whole(
    exit_code: Option<i32>,
    stdout: Vec<u8>,
    path: &str,
    r: Result<String, GpgError>,
)
    requires
        call_ensures(parse_gpg_bytes, (true, exit_code, stdout, path), r),
        valid_utf8(stdout@),
    ensures
        r is Ok,
        end_stripped(decode_utf8(stdout@), r->Ok_0@),
        secure::key_count(r->Ok_0@) == secure::key_count(decode_utf8(stdout@)),
{
    text::law_trimmed_end(decode_utf8(stdout@));
    secure::law_trimming_keeps_keys(decode_utf8(stdout@));
}

/// The same of output that is decoded already.
pub proof fn law_decoded_output_kept_whole(
    exit_code: Option<i32>,
    decoded: String,
    path: &str,
    r: Result<String, GpgError>,
)
    requires
        call_ensures(
            parse_decoded,
            (true, exit_code, Ok::<String, String>(decoded), path),
            r,
        ),
    ensures
        r is Ok,
        end_stripped(decoded@, r->Ok_0@),
        secure::key_count(r->Ok_0@) == secure::key_count(decoded@),
{
    text::law_trimmed_end(decoded@);
    secure::law_trimming_keeps_keys(decoded@);
}

/// gpg's output counts only where gpg succeeds and the output is text: a failure
/// is reported with the path and the exit code, -1 where there is none, whatever
/// the output is, and output that is no text with the reason.
pub proof fn law_failed_output_refused(
    success: bool,
    exit_code: Option<i32>,
    stdout: Vec<u8>,
    path: &str,
    r: Result<String, GpgError>,
)
    requires
        call_ensures(parse_gpg_bytes, (success, exit_code, stdout, path), r),
    ensures
        r is Ok <==> success && valid_utf8(stdout@),
        !success ==> {
            &&& r->Err_0 is Failed
            &&& r->Err_0->path@ == path@
            &&& exit_code is Some ==> r->Err_0->exit_code == exit_code->0
            &&& exit_code is None ==> r->Err_0->exit_code == -1
        },
        success && !valid_utf8(stdout@) ==> r->Err_0 is NotUtf8 && r->Err_0->cause@ == utf8_error(
            stdout@,
        ),
{
}

/// A name has a GPG extension exactly where its last four characters are `.gpg`
/// or `.asc`.
pub proof fn law_gpg_extensions(name: &str, r: bool)
    requires
        call_ensures(has_gpg_extension, (name,), r),
    ensures
        r <==> name@.len() >= 4 && ({
            let end = name@.skip(name@.len() - 4);
            end == seq!['.', 'g', 'p', 'g'] || end == seq!['.', 'a', 's', 'c']
        }),
{
    reveal_strlit(".gpg");
    reveal_strlit(".asc");
    assert(".gpg"@ =~= seq!['.', 'g', 'p', 'g']);
    assert(".asc"@ =~= seq!['.', 'a', 's', 'c']);
    if name@.len() >= 4 {
        assert(name@.skip(name@.len() - 4) =~= name@.subrange(name@.len() - 4, name@.len() as int));
    }
}

/// A file is encrypted exactly where the lowercase of its path has a GPG
/// extension.
pub proof fn law_encrypted_by_lowercase(path: &str, r: bool)
    requires
        call_ensures(is_encrypted, (path,), r),
    ensures
        r <==> lowercase(path@).len() >= 4 && ({
            let end = lowercase(path@).skip(lowercase(path@).len() - 4);
            end == seq!['.', 'g', 'p', 'g'] || end == seq!['.', 'a', 's', 'c']
        }),
{
    reveal_strlit(".gpg");
    reveal_strlit(".asc");
    let name = lowercase(path@);
    assert(".gpg"@ =~= seq!['.', 'g', 'p', 'g']);
    assert(".asc"@ =~= seq!['.', 'a', 's', 'c']);
    if name.len() >= 4 {
        assert(name.skip(name.len() - 4) =~= name.subrange(name.len() - 4, name.len() as int));
    }
}

/// A file with an ASCII path is encrypted exactly where the path ends in `.gpg`
/// or `.asc`, in upper or lower case or both.
pub proof fn law_encrypted_ignores_case(path: &str, r: bool)
    requires
        call_ensures(is_encrypted, (path,), r),
        is_ascii_chars(path@),
    ensures
        r <==> path@.len() >= 4 && ({
            let n = path@.len() as int;
            let (dot, x, y, z) = (path@[n - 4], path@[n - 3], path@[n - 2], path@[n - 1]);
            &&& dot == '.'
            &&& {
                ||| (x == 'g' || x == 'G') && (y == 'p' || y == 'P') && (z == 'g' || z == 'G')
                ||| (x == 'a' || x == 'A') && (y == 's' || y == 'S') && (z == 'c' || z == 'C')
            }
        }),
{
    reveal_strlit(".gpg");
    reveal_strlit(".asc");
    let low = path@.map_values(|c: char| ascii_lowercase(c));
    let n = path@.len() as int;
    assert(low.len() == n);
    assert(".gpg"@ =~= seq!['.', 'g', 'p', 'g']);
    assert(".asc"@ =~= seq!['.', 'a', 's', 'c']);
    if n >= 4 {
        let end = low.subrange(n - 4, n);
        assert forall|i: int| 0 <= i < 4 implies #[trigger] end[i] == ascii_lowercase(
            path@[n - 4 + i],
        ) by {}
        if end == ".gpg"@ {
            assert(end[0] == '.' && end[1] == 'g' && end[2] == 'p' && end[3] == 'g');
        }
        if end == ".asc"@ {
            assert(end[0] == '.' && end[1] == 'a' && end[2] == 's' && end[3] == 'c');
        }
        let (dot, x, y, z) = (path@[n - 4], path@[n - 3], path@[n - 2], path@[n - 1]);
        if dot == '.' && (x == 'g' || x == 'G') && (y == 'p' || y == 'P') && (z == 'g' || z
            == 'G') {
            assert(end[0] == '.' && end[1] == 'g' && end[2] == 'p' && end[3] == 'g');
            assert(end =~= ".gpg"@);
        }
        if dot == '.' && (x == 'a' || x == 'A') && (y == 's' || y == 'S') && (z == 'c' || z
            == 'C') {
            assert(end[0] == '.' && end[1] == 'a' && end[2] == 's' && end[3] == 'c');
            assert(end =~= ".asc"@);
        }
    }
}

/// gpg is asked to decrypt, quietly and without questions, and nothing else.
pub proof fn law_gpg_only_decrypts(r: Vec<String>)
    requires
        call_ensures(gpg_options, (), r),
    ensures
        r@.len() == 3,
        r@[0]@ == "--quiet"@,
        r@[1]@ == "--yes"@,
        r@[2]@ == "--decrypt"@,
{
    text::law_texts_are_views(r@);
    assert(text::texts(r@)[0] == r@[0]@);
    assert(text::texts(r@)[1] == r@[1]@);
    assert(text::texts(r@)[2] == r@[2]@);
}

/// A failure is reported with the path and the exit code, and output that is no
/// text with its cause.
pub proof fn law_gpg_report(e: &GpgError, message: String, report: String)
    requires
        call_ensures(GpgError::message, (e,), message),
        call_ensures(GpgError::report, (e,), report),
    ensures
        match *e {
            GpgError::Failed { path, exit_code } => {
                &&& message@ == "gpg --decrypt "@ + path@ + " failed (exit "@ + text::signed_decimal(
                    exit_code as int,
                ) + ")"@
                &&& report@ == message@
            },
            GpgError::NotUtf8 { cause } => report@ == message@ + seq![':', ' '] + cause@,
        },
{
    reveal_strlit(": ");
    assert(": "@ =~= seq![':', ' ']);
}

} // verus!
