//! Secret text that is zeroed when it is dropped.

use vstd::prelude::*;
use vstd::utf8::{decode_utf8, encode_utf8, valid_utf8};
use zeroize::Zeroizing;

use crate::text;
use crate::text::{decimal_text, split, starts_with, starts_with_char, trim};

verus! {

/// A byte buffer of the zeroize crate, which overwrites its bytes with zeros
/// when it is dropped.
#[verifier::external_body]
pub struct SecretBuf {
    inner: Zeroizing<Vec<u8>>,
}

/// The bytes that a buffer holds.
pub uninterp spec fn secret_bytes(buf: SecretBuf) -> Seq<u8>;

/// `Zeroizing::new`: a buffer that holds the given bytes.
#[verifier::external_body]
fn seal(bytes: Vec<u8>) -> (r: SecretBuf)
    ensures
        secret_bytes(r) == bytes@,
{
    SecretBuf { inner: Zeroizing::new(bytes) }
}

/// `Zeroizing::deref`: the bytes that the buffer holds.
#[verifier::external_body]
fn expose(buf: &SecretBuf) -> (r: &[u8])
    ensures
        r@ == secret_bytes(*buf),
{
    buf.inner.as_slice()
}

/// `String::into_bytes`: the UTF-8 encoding of the text.
pub assume_specification[ String::into_bytes ](s: String) -> (r: Vec<u8>)
    ensures
        r@ == encode_utf8(s@),
;

/// `str::from_utf8`: the text that the bytes encode, where they are valid
/// UTF-8.
#[verifier::external_body]
fn utf8_str(bytes: &[u8]) -> (r: Option<&str>)
    ensures
        match r {
            Some(s) => valid_utf8(bytes@) && s@ == decode_utf8(bytes@),
            None => !valid_utf8(bytes@),
        },
{
    std::str::from_utf8(bytes).ok()
}

/// Secure string that zeroes its memory on drop.
///
/// Its debug text tells the length only, so that no key material leaks.
pub struct SecureString {
    buf: SecretBuf,
}

impl View for SecureString {
    type V = Seq<char>;

    /// The secret text.
    closed spec fn view(&self) -> Seq<char> {
        decode_utf8(secret_bytes(self.buf))
    }
}

/// A line that holds an age secret key: apart from white space around it, it
/// begins with the key prefix and is no comment.
pub open spec fn secret_key_line(line: Seq<char>) -> bool {
    let t = text::trimmed(line);
    !(t.len() > 0 && t[0] == '#') && "AGE-SECRET-KEY-"@.is_prefix_of(t)
}

/// How many of the lines hold an age secret key.
pub open spec fn key_lines(lines: Seq<Seq<char>>) -> nat
    decreases lines.len(),
{
    if lines.len() == 0 {
        0
    } else {
        key_lines(lines.drop_last()) + if secret_key_line(lines.last()) {
            1nat
        } else {
            0nat
        }
    }
}

/// How many lines of a text hold an age secret key.
pub open spec fn key_count(s: Seq<char>) -> nat {
    key_lines(text::pieces(s, "\n"@))
}

/// The debug text of a secret whose UTF-8 encoding has `len` bytes.
pub open spec fn redacted(len: nat) -> Seq<char> {
    "SecureString { len: "@ + text::decimal(len) + " }"@
}

impl SecureString {
    #[verifier::type_invariant]
    spec fn wf(self) -> bool {
        valid_utf8(secret_bytes(self.buf))
    }

    /// Create a new `SecureString` from a `String`.
    pub fn new(s: String) -> (r: Self)
        ensures
            r@ == s@,
    {
        proof {
            vstd::utf8::encode_utf8_valid_utf8(s@);
            vstd::utf8::encode_utf8_decode_utf8(s@);
        }
        SecureString { buf: seal(s.into_bytes()) }
    }

    /// Return the content as a string slice.
    pub fn as_str(&self) -> (r: &str)
        ensures
            r@ == self@,
    {
        proof {
            use_type_invariant(self);
        }
        match utf8_str(expose(&self.buf)) {
            Some(s) => s,
            None => "",
        }
    }

    /// Count valid AGE-SECRET-KEY lines (ignoring comments).
    pub fn count_secret_keys(&self) -> (r: usize)
        ensures
            r == key_count(self@),
    {
        let lines = split(self.as_str(), "\n");
        let ghost all = text::slices(lines@);
        let mut count: usize = 0;
        for i in 0..lines.len()
            invariant
                all == text::slices(lines@),
                count <= i,
                count == key_lines(all.take(i as int)),
        {
            assert(all.take(i + 1).drop_last() =~= all.take(i as int));
            assert(all.take(i + 1).last() == lines@[i as int]@);
            let t = trim(lines[i]);
            if !starts_with_char(t, '#') && starts_with(t, "AGE-SECRET-KEY-") {
                count = count + 1;
            }
        }
        assert(all.take(all.len() as int) =~= all);
        count
    }

    /// The text for debug output: the length in bytes, and nothing of the
    /// content.
    pub fn debug_text(&self) -> (r: String)
        ensures
            r@ == redacted(encode_utf8(self@).len()),
    {
        proof {
            use_type_invariant(self);
            vstd::utf8::decode_utf8_encode_utf8(secret_bytes(self.buf));
        }
        let len: usize = expose(&self.buf).len();
        let mut out = "SecureString { len: ".to_owned();
        out.append(decimal_text(len as u64).as_str());
        out.append(" }");
        out
    }
}

proof fn lemma_key_lines_concat(a: Seq<Seq<char>>, b: Seq<Seq<char>>)
    ensures
        key_lines(a + b) == key_lines(a) + key_lines(b),
    decreases b.len(),
{
    if b.len() == 0 {
        assert(a + b =~= a);
    } else {
        assert((a + b).drop_last() =~= a + b.drop_last());
        lemma_key_lines_concat(a, b.drop_last());
    }
}

/// How many secret keys the texts hold together.
pub open spec fn total_keys(parts: Seq<Seq<char>>) -> nat
    decreases parts.len(),
{
    if parts.len() == 0 {
        0
    } else {
        total_keys(parts.drop_last()) + key_count(parts.last())
    }
}

/// Joining texts by line feeds loses no secret key and makes none: the joined
/// text holds as many as the parts together.
pub proof fn law_joined_keys(parts: Seq<Seq<char>>)
    ensures
        key_count(text::joined(parts, "\n"@)) == total_keys(parts),
    decreases parts.len(),
{
    reveal_strlit("\n");
    if parts.len() == 0 {
        lemma_empty_holds_no_key();
    } else if parts.len() == 1 {
        assert(parts.drop_last() =~= Seq::<Seq<char>>::empty());
        assert(total_keys(parts.drop_last()) == 0);
    } else {
        let front = text::joined(parts.drop_last(), "\n"@);
        let last = parts.last();
        assert("\n"@[0] == '\n');
        assert(front + "\n"@ + last =~= front.push('\n') + last);
        text::lemma_pieces_concat(front, '\n', last, "\n"@);
        lemma_key_lines_concat(text::pieces(front, "\n"@), text::pieces(last, "\n"@));
        law_joined_keys(parts.drop_last());
    }
}

/// The empty text holds no key.
proof fn lemma_empty_holds_no_key()
    ensures
        key_count(Seq::<char>::empty()) == 0,
        !secret_key_line(Seq::<char>::empty()),
{
    reveal_strlit("AGE-SECRET-KEY-");
    let none = Seq::<char>::empty();
    let lines = text::pieces(none, "\n"@);
    assert(lines.drop_last() =~= Seq::<Seq<char>>::empty());
    assert(key_lines(lines.drop_last()) == 0);
    assert(lines.last() =~= none);
    assert(text::trimmed(none) =~= none);
}

/// Where there are keys there is text: joined texts that hold a secret key are
/// not empty, so their reader takes them for a key.
pub proof fn law_joined_keys_not_empty(parts: Seq<Seq<char>>)
    requires
        total_keys(parts) > 0,
    ensures
        text::joined(parts, "\n"@).len() > 0,
{
    law_joined_keys(parts);
    lemma_empty_holds_no_key();
    if text::joined(parts, "\n"@).len() == 0 {
        assert(text::joined(parts, "\n"@) =~= Seq::<char>::empty());
    }
}

/// White space at the end does not change what is left after trimming.
proof fn lemma_trimmed_push(line: Seq<char>, c: char)
    requires
        text::white_space(c),
    ensures
        text::trimmed(line.push(c)) == text::trimmed(line),
        text::trimmed_start(line.push(c)) == (if text::trimmed_start(line).len() == 0 {
            Seq::<char>::empty()
        } else {
            text::trimmed_start(line).push(c)
        }),
    decreases line.len(),
{
    let longer = line.push(c);
    if line.len() == 0 {
        assert(longer.drop_first() =~= Seq::<char>::empty());
        assert(text::trimmed_start(longer.drop_first()) =~= Seq::<char>::empty());
        assert(longer.first() == c);
        assert(text::trimmed_start(line) =~= Seq::<char>::empty());
    } else if text::white_space(line.first()) {
        assert(longer.drop_first() =~= line.drop_first().push(c));
        assert(longer.first() == line.first());
        lemma_trimmed_push(line.drop_first(), c);
    } else {
        assert(longer.first() == line.first());
        assert(longer.drop_last() =~= line);
    }
}

/// White space at the end of a text adds no key and hides none.
proof fn lemma_key_count_push(s: Seq<char>, c: char)
    requires
        text::white_space(c),
    ensures
        key_count(s.push(c)) == key_count(s),
{
    let lines = text::pieces(s, "\n"@);
    let longer = text::pieces(s.push(c), "\n"@);
    assert(s.push(c).drop_last() =~= s);
    text::lemma_pieces_nonempty(s, "\n"@);
    if "\n"@.contains(c) {
        assert(longer.drop_last() =~= lines);
        lemma_empty_holds_no_key();
    } else {
        assert(longer.drop_last() =~= lines.drop_last());
        assert(longer.last() == lines.last().push(c));
        lemma_trimmed_push(lines.last(), c);
    }
}

/// Trimming the end of a loaded identity loses no secret key.
pub proof fn law_trimming_keeps_keys(s: Seq<char>)
    ensures
        key_count(text::trimmed_end(s)) == key_count(s),
    decreases s.len(),
{
    if s.len() > 0 && text::white_space(s.last()) {
        law_trimming_keeps_keys(s.drop_last());
        lemma_key_count_push(s.drop_last(), s.last());
        assert(s.drop_last().push(s.last()) =~= s);
    }
}

/// No decimal digit is a letter.
proof fn lemma_decimal_no_letter(n: nat)
    ensures
        forall|i: int| 0 <= i < text::decimal(n).len() ==> #[trigger] text::decimal(n)[i] != 'A',
    decreases n,
{
    if n >= 10 {
        lemma_decimal_no_letter(n / 10);
        let head = text::decimal(n / 10);
        assert forall|i: int| 0 <= i < text::decimal(n).len() implies #[trigger] text::decimal(
            n,
        )[i] != 'A' by {
            if i < head.len() {
                assert(text::decimal(n)[i] == head[i]);
            }
        }
    }
}

/// Debug output shows no key: whatever the secret and its length, the prefix of
/// a secret key stands nowhere in the debug text.
pub proof fn law_debug_shows_no_key(len: nat, i: int)
    requires
        0 <= i <= redacted(len).len(),
    ensures
        !"AGE-SECRET-KEY-"@.is_prefix_of(redacted(len).skip(i)),
{
    reveal_strlit("SecureString { len: ");
    reveal_strlit(" }");
    reveal_strlit("AGE-SECRET-KEY-");
    lemma_decimal_no_letter(len);
    let shown = redacted(len);
    let lead = "SecureString { len: "@;
    let digits = text::decimal(len);
    assert forall|k: int| 0 <= k < shown.len() implies #[trigger] shown[k] != 'A' by {
        if k < lead.len() {
            assert(shown[k] == lead[k]);
        } else if k < lead.len() + digits.len() {
            assert(shown[k] == digits[k - lead.len()]);
        } else {
            assert(shown[k] == " }"@[k - lead.len() - digits.len()]);
        }
    }
    if "AGE-SECRET-KEY-"@.is_prefix_of(shown.skip(i)) {
        assert("AGE-SECRET-KEY-"@[0] == shown.skip(i).subrange(0, "AGE-SECRET-KEY-"@.len() as int)[0]);
        assert(shown[i] == 'A');
    }
}

/// Whether a secret key begins on a line after `k` characters of white space.
pub open spec fn key_begins_at(line: Seq<char>, k: int) -> bool {
    &&& 0 <= k <= line.len()
    &&& forall|j: int| 0 <= j < k ==> text::white_space(#[trigger] line[j])
    &&& "AGE-SECRET-KEY-"@.is_prefix_of(line.skip(k))
}

/// A line holds a secret key exactly where, after white space only, it goes on
/// with the key prefix, whatever follows; so a comment holds none.
pub proof fn law_secret_key_line(line: Seq<char>)
    ensures
        secret_key_line(line) <==> exists|k: int| key_begins_at(line, k),
{
    reveal_strlit("AGE-SECRET-KEY-");
    let prefix = "AGE-SECRET-KEY-"@;
    let n = prefix.len() as int;
    text::law_trimmed(line);
    let t = text::trimmed(line);
    let m = choose|m: int| text::stripped(line, t, m);
    if secret_key_line(line) {
        assert(line.skip(m).subrange(0, n) =~= t.subrange(0, n));
        assert(key_begins_at(line, m));
    }
    if exists|k: int| key_begins_at(line, k) {
        let k = choose|k: int| key_begins_at(line, k);
        let rest = line.skip(k);
        assert(prefix == rest.subrange(0, n));
        assert(line[k] == rest.subrange(0, n)[0]);
        assert(line[k + n - 1] == rest.subrange(0, n)[n - 1]);
        assert(prefix[0] == 'A');
        assert(prefix[n - 1] == '-');
        assert(!text::white_space(line[k]));
        assert(!text::white_space(line[k + n - 1]));
        if m > k {
            assert(text::white_space(line[k]));
        }
        if m < k && t.len() > 0 {
            assert(t.first() == line[m]);
            assert(text::white_space(line[m]));
        }
        if t.len() == 0 {
            assert(text::white_space(line[k]));
        }
        assert(m == k);
        if m + t.len() <= k + n - 1 {
            assert(text::white_space(line[k + n - 1]));
        }
        assert(t.subrange(0, n) =~= rest.subrange(0, n));
        assert(t[0] == line[k]);
    }
}

/// Keys are counted line by line: a single line counts one where it holds a
/// key and none otherwise, and two texts on lines of their own count together.
pub proof fn law_keys_counted_by_line(line: Seq<char>, a: Seq<char>, b: Seq<char>)
    requires
        !line.contains('\n'),
    ensures
        key_count(line) == if secret_key_line(line) {
            1nat
        } else {
            0nat
        },
        key_count(a.push('\n') + b) == key_count(a) + key_count(b),
{
    reveal_strlit("\n");
    let seps = "\n"@;
    assert(seps[0] == '\n');
    assert forall|i: int| 0 <= i < line.len() implies !seps.contains(#[trigger] line[i]) by {
        if seps.contains(line[i]) {
            assert(line[i] == '\n');
            assert(line.contains('\n'));
        }
    }
    text::law_pieces_without_separator(line, seps);
    let one = seq![line];
    assert(one.drop_last() =~= Seq::<Seq<char>>::empty());
    assert(key_lines(one.drop_last()) == 0);
    assert(one.last() == line);
    text::lemma_pieces_concat(a, '\n', b, seps);
    lemma_key_lines_concat(text::pieces(a, seps), text::pieces(b, seps));
}

/// The keys of texts are counted text by text.
pub proof fn law_total_keys(parts: Seq<Seq<char>>, part: Seq<char>)
    ensures
        total_keys(Seq::empty()) == 0,
        total_keys(parts.push(part)) == total_keys(parts) + key_count(part),
{
    assert(parts.push(part).drop_last() =~= parts);
}

/// A secret gives back the text that it was made of, and counts its keys.
pub proof fn law_secret_gives_text_back(s: String, secret: &SecureString, r: &str, keys: usize)
    requires
        call_ensures(SecureString::new, (s,), *secret),
        call_ensures(SecureString::as_str, (secret,), r),
        call_ensures(SecureString::count_secret_keys, (secret,), keys),
    ensures
        r@ == s@,
        keys == key_count(s@),
{
}

/// The debug text of a secret is the name of its type and its length in bytes.
pub proof fn law_debug_text(s: String, secret: &SecureString, r: String)
    requires
        call_ensures(SecureString::new, (s,), *secret),
        call_ensures(SecureString::debug_text, (secret,), r),
    ensures
        exists|digits: Seq<char>|
            {
                &&& r@ == "SecureString { len: "@ + digits + " }"@
                &&& #[trigger] text::digits_value(digits) == encode_utf8(s@).len()
            },
{
    let digits = text::decimal(encode_utf8(s@).len());
    text::law_decimal_value(encode_utf8(s@).len());
    assert(text::digits_value(digits) == encode_utf8(s@).len());
}

} // verus!
