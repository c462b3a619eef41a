//! Text operations over the characters of a string.
//!
//! A string is modelled by its sequence of characters. Everything here works
//! on that model and agrees with the standard library's `str` methods of the
//! same purpose: trimming, splitting, prefixes and suffixes, joining, and
//! decimal formatting. What is cut from a text is borrowed from it, so that no
//! copy of a secret is left behind.

use vstd::prelude::*;

verus! {

/// The characters with the Unicode `White_Space` property.
pub open spec fn white_space(c: char) -> bool {
    ||| '\u{0009}' <= c <= '\u{000D}'
    ||| c == '\u{0020}'
    ||| c == '\u{0085}'
    ||| c == '\u{00A0}'
    ||| c == '\u{1680}'
    ||| '\u{2000}' <= c <= '\u{200A}'
    ||| c == '\u{2028}'
    ||| c == '\u{2029}'
    ||| c == '\u{202F}'
    ||| c == '\u{205F}'
    ||| c == '\u{3000}'
}

/// `char::is_whitespace` tells whether a character has the Unicode
/// `White_Space` property; the characters that have it are listed by
/// [`white_space`].
pub assume_specification[ char::is_whitespace ](c: char) -> (r: bool)
    ensures
        r == white_space(c),
;

/// `s` without its leading white space.
pub open spec fn trimmed_start(s: Seq<char>) -> Seq<char>
    decreases s.len(),
{
    if s.len() > 0 && white_space(s.first()) {
        trimmed_start(s.drop_first())
    } else {
        s
    }
}

/// `s` without its trailing white space.
pub open spec fn trimmed_end(s: Seq<char>) -> Seq<char>
    decreases s.len(),
{
    if s.len() > 0 && white_space(s.last()) {
        trimmed_end(s.drop_last())
    } else {
        s
    }
}

/// `s` without the white space at either end.
pub open spec fn trimmed(s: Seq<char>) -> Seq<char> {
    trimmed_end(trimmed_start(s))
}

/// The pieces of `s` between the separators: every character in `seps` ends
/// one piece and begins the next, so there is always at least one piece.
pub open spec fn pieces(s: Seq<char>, seps: Seq<char>) -> Seq<Seq<char>>
    decreases s.len(),
{
    if s.len() == 0 {
        seq![Seq::<char>::empty()]
    } else {
        let before = pieces(s.drop_last(), seps);
        if seps.contains(s.last()) {
            before.push(Seq::<char>::empty())
        } else {
            before.drop_last().push(before.last().push(s.last()))
        }
    }
}

/// The parts one after the other, with `sep` between neighbours.
pub open spec fn joined(parts: Seq<Seq<char>>, sep: Seq<char>) -> Seq<char>
    decreases parts.len(),
{
    if parts.len() == 0 {
        Seq::<char>::empty()
    } else if parts.len() == 1 {
        parts[0]
    } else {
        joined(parts.drop_last(), sep) + sep + parts.last()
    }
}

/// The decimal digit for `d`, which is below ten.
pub open spec fn digit(d: nat) -> char {
    if d == 0 {
        '0'
    } else if d == 1 {
        '1'
    } else if d == 2 {
        '2'
    } else if d == 3 {
        '3'
    } else if d == 4 {
        '4'
    } else if d == 5 {
        '5'
    } else if d == 6 {
        '6'
    } else if d == 7 {
        '7'
    } else if d == 8 {
        '8'
    } else {
        '9'
    }
}

/// `n` in decimal, without leading zeros.
pub open spec fn decimal(n: nat) -> Seq<char>
    decreases n,
{
    if n < 10 {
        seq![digit(n)]
    } else {
        decimal(n / 10).push(digit(n % 10))
    }
}

/// `n` in decimal, with a minus sign where it is negative.
pub open spec fn signed_decimal(n: int) -> Seq<char> {
    if n < 0 {
        seq!['-'] + decimal((-n) as nat)
    } else {
        decimal(n as nat)
    }
}

/// The text of an optional string slice.
pub open spec fn opt_text(s: Option<&str>) -> Option<Seq<char>> {
    match s {
        Some(t) => Some(t@),
        None => None,
    }
}

/// The text of an optional string.
pub open spec fn opt_string(s: Option<String>) -> Option<Seq<char>> {
    match s {
        Some(t) => Some(t@),
        None => None,
    }
}

/// The texts of a list of strings.
pub open spec fn texts(list: Seq<String>) -> Seq<Seq<char>> {
    list.map_values(|s: String| s@)
}

/// The text of an error followed by that of its cause.
pub open spec fn caused(message: Seq<char>, cause: Seq<char>) -> Seq<char> {
    message + ": "@ + cause
}

/// The texts of a list of string slices.
pub open spec fn slices(list: Seq<&str>) -> Seq<Seq<char>> {
    list.map_values(|s: &str| s@)
}

/// Whether two texts are the same.
pub fn same_text(a: &str, b: &str) -> (r: bool)
    ensures
        r == (a@ == b@),
{
    let len: usize = b.unicode_len();
    if a.unicode_len() != len {
        return false;
    }
    let mut i: usize = 0;
    for c in it: b.chars()
        invariant
            it.seq() == b@,
            i == it.index(),
            len == b@.len(),
            len == a@.len(),
            forall|j: int| 0 <= j < i ==> a@[j] == b@[j],
    {
        if a.get_char(i) != c {
            assert(a@[i as int] != b@[i as int]);
            return false;
        }
        i = i + 1;
    }
    assert(a@ =~= b@);
    true
}

/// Whether `s` begins with `prefix`.
pub fn starts_with(s: &str, prefix: &str) -> (r: bool)
    ensures
        r == prefix@.is_prefix_of(s@),
{
    let len: usize = prefix.unicode_len();
    if s.unicode_len() < len {
        return false;
    }
    let mut i: usize = 0;
    for c in it: prefix.chars()
        invariant
            it.seq() == prefix@,
            i == it.index(),
            len == prefix@.len(),
            len <= s@.len(),
            forall|j: int| 0 <= j < i ==> s@[j] == prefix@[j],
    {
        if s.get_char(i) != c {
            assert(s@.subrange(0, prefix@.len() as int)[i as int] != prefix@[i as int]);
            return false;
        }
        i = i + 1;
    }
    assert(prefix@ =~= s@.subrange(0, prefix@.len() as int));
    true
}

/// Whether `s` begins with the character `c`.
pub fn starts_with_char(s: &str, c: char) -> (r: bool)
    ensures
        r == (s@.len() > 0 && s@[0] == c),
{
    !s.is_empty() && s.get_char(0) == c
}

/// Whether `s` ends with `suffix`.
pub fn ends_with(s: &str, suffix: &str) -> (r: bool)
    ensures
        r == suffix@.is_suffix_of(s@),
{
    let whole: usize = s.unicode_len();
    let len: usize = suffix.unicode_len();
    if whole < len {
        return false;
    }
    let skip: usize = whole - len;
    let mut i: usize = 0;
    for c in it: suffix.chars()
        invariant
            it.seq() == suffix@,
            i == it.index(),
            len == suffix@.len(),
            skip + len == s@.len(),
            s@.len() <= usize::MAX,
            forall|j: int| 0 <= j < i ==> s@[skip + j] == suffix@[j],
    {
        if s.get_char(skip + i) != c {
            assert(s@.subrange(skip as int, s@.len() as int)[i as int] != suffix@[i as int]);
            return false;
        }
        i = i + 1;
    }
    assert(suffix@ =~= s@.subrange(skip as int, s@.len() as int));
    true
}

/// What follows `prefix` in `s`, where `s` begins with it.
pub fn strip_prefix<'a>(s: &'a str, prefix: &str) -> (r: Option<&'a str>)
    ensures
        match r {
            Some(rest) => s@ == prefix@ + rest@,
            None => !prefix@.is_prefix_of(s@),
        },
{
    if starts_with(s, prefix) {
        let from: usize = prefix.unicode_len();
        let to: usize = s.unicode_len();
        let rest = s.substring_char(from, to);
        assert(s@ =~= prefix@ + rest@);
        Some(rest)
    } else {
        None
    }
}

/// White space at the end adds nothing to what is left after trimming it.
proof fn lemma_trimmed_end_blank(s: Seq<char>, end: int)
    requires
        0 <= end <= s.len(),
        forall|j: int| end <= j < s.len() ==> white_space(#[trigger] s[j]),
    ensures
        trimmed_end(s) == trimmed_end(s.subrange(0, end)),
    decreases s.len(),
{
    if end == s.len() {
        assert(s.subrange(0, end) =~= s);
    } else {
        assert(s.drop_last().subrange(0, end) =~= s.subrange(0, end));
        lemma_trimmed_end_blank(s.drop_last(), end);
    }
}

/// `s` without its trailing white space.
pub fn trim_end(s: &str) -> (r: &str)
    ensures
        r@ == trimmed_end(s@),
{
    let len: usize = s.unicode_len();
    let mut end: usize = 0;
    let mut i: usize = 0;
    for c in it: s.chars()
        invariant
            it.seq() == s@,
            i == it.index(),
            len == s@.len(),
            end <= i,
            end == 0 || !white_space(s@[end - 1]),
            forall|j: int| end <= j < i ==> white_space(#[trigger] s@[j]),
    {
        i = i + 1;
        if !c.is_whitespace() {
            end = i;
        }
    }
    proof {
        lemma_trimmed_end_blank(s@, end as int);
    }
    s.substring_char(0, end)
}

/// `s` without its leading white space.
pub fn trim_start(s: &str) -> (r: &str)
    ensures
        r@ == trimmed_start(s@),
{
    let len: usize = s.unicode_len();
    let mut start: usize = 0;
    assert(s@.skip(0) =~= s@);
    for c in it: s.chars()
        invariant
            it.seq() == s@,
            start == it.index(),
            len == s@.len(),
            trimmed_start(s@.skip(start as int)) == trimmed_start(s@),
    {
        if !c.is_whitespace() {
            assert(s@.skip(start as int).first() == c);
            return s.substring_char(start, len);
        }
        assert(s@.skip(start as int).drop_first() =~= s@.skip(start + 1));
        start = start + 1;
    }
    s.substring_char(len, len)
}

/// `s` without the white space at either end.
pub fn trim(s: &str) -> (r: &str)
    ensures
        r@ == trimmed(s@),
{
    trim_end(trim_start(s))
}

/// Whether `s` holds the character `c`.
fn holds_char(s: &str, c: char) -> (r: bool)
    ensures
        r == s@.contains(c),
{
    for d in it: s.chars()
        invariant
            it.seq() == s@,
            forall|j: int| 0 <= j < it.index() ==> s@[j] != c,
    {
        if d == c {
            assert(s@[it.index() as int] == c);
            return true;
        }
    }
    false
}

/// The pieces of `s` between the characters of `seps`.
pub fn split<'a>(s: &'a str, seps: &str) -> (r: Vec<&'a str>)
    ensures
        slices(r@) == pieces(s@, seps@),
{
    let len: usize = s.unicode_len();
    let mut out: Vec<&'a str> = Vec::new();
    let mut start: usize = 0;
    let mut i: usize = 0;
    assert(s@.subrange(0, 0) =~= Seq::<char>::empty());
    assert(slices(out@).push(s@.subrange(0, 0)) =~= seq![Seq::<char>::empty()]);
    for c in it: s.chars()
        invariant
            it.seq() == s@,
            i == it.index(),
            len == s@.len(),
            start <= i,
            slices(out@).push(s@.subrange(start as int, i as int)) == pieces(
                s@.take(i as int),
                seps@,
            ),
    {
        let ghost before = pieces(s@.take(i as int), seps@);
        assert(s@.take(i + 1).drop_last() =~= s@.take(i as int));
        assert(before.drop_last() =~= slices(out@));
        if holds_char(seps, c) {
            out.push(s.substring_char(start, i));
            assert(slices(out@) =~= before);
            start = i + 1;
            assert(s@.subrange(start as int, i + 1) =~= Seq::<char>::empty());
        } else {
            assert(s@.subrange(start as int, i + 1) =~= s@.subrange(start as int, i as int).push(
                s@[i as int],
            ));
        }
        i = i + 1;
    }
    assert(s@.take(len as int) =~= s@);
    let ghost done = slices(out@);
    out.push(s.substring_char(start, len));
    assert(slices(out@) =~= done.push(s@.subrange(start as int, s@.len() as int)));
    out
}

/// The parts one after the other, with `sep` between neighbours.
pub fn join(parts: &Vec<&str>, sep: &str) -> (r: String)
    ensures
        r@ == joined(slices(parts@), sep@),
{
    let ghost all = slices(parts@);
    let mut out = String::new();
    for i in 0..parts.len()
        invariant
            all == slices(parts@),
            out@ == joined(all.take(i as int), sep@),
    {
        assert(all.take(i + 1).drop_last() =~= all.take(i as int));
        if i > 0 {
            out.append(sep);
            out.append(parts[i]);
        } else {
            out.append(parts[i]);
            assert(out@ =~= all[0]);
        }
    }
    assert(all.take(parts.len() as int) =~= all);
    out
}

/// The text of an error followed by that of its cause.
pub fn with_cause(message: String, cause: &str) -> (r: String)
    ensures
        r@ == caused(message@, cause@),
{
    let mut out = message;
    out.append(": ");
    out.append(cause);
    out
}

/// The decimal digit for `d`.
fn digit_text(d: u64) -> (r: &'static str)
    requires
        d < 10,
    ensures
        r@ == seq![digit(d as nat)],
{
    proof {
        reveal_strlit("0");
        reveal_strlit("1");
        reveal_strlit("2");
        reveal_strlit("3");
        reveal_strlit("4");
        reveal_strlit("5");
        reveal_strlit("6");
        reveal_strlit("7");
        reveal_strlit("8");
        reveal_strlit("9");
    }
    let r: &'static str = match d {
        0 => "0",
        1 => "1",
        2 => "2",
        3 => "3",
        4 => "4",
        5 => "5",
        6 => "6",
        7 => "7",
        8 => "8",
        _ => "9",
    };
    assert(r@ =~= seq![digit(d as nat)]);
    r
}

/// `n` in decimal.
pub fn decimal_text(n: u64) -> (r: String)
    ensures
        r@ == decimal(n as nat),
    decreases n,
{
    if n < 10 {
        digit_text(n).to_owned()
    } else {
        let mut s = decimal_text(n / 10);
        s.append(digit_text(n % 10));
        assert(s@ =~= decimal(n as nat));
        s
    }
}

/// `n` in decimal, with a minus sign where it is negative.
pub fn signed_decimal_text(n: i32) -> (r: String)
    ensures
        r@ == signed_decimal(n as int),
{
    let wide: i64 = n as i64;
    if wide < 0 {
        let mut s = "-".to_owned();
        proof {
            reveal_strlit("-");
        }
        s.append(decimal_text((-wide) as u64).as_str());
        assert(s@ =~= signed_decimal(n as int));
        s
    } else {
        decimal_text(wide as u64)
    }
}

/// There is always at least one piece.
pub proof fn lemma_pieces_nonempty(s: Seq<char>, seps: Seq<char>)
    ensures
        pieces(s, seps).len() > 0,
    decreases s.len(),
{
    if s.len() > 0 {
        lemma_pieces_nonempty(s.drop_last(), seps);
    }
}

/// A separator between two texts keeps their pieces apart.
pub proof fn lemma_pieces_concat(a: Seq<char>, c: char, b: Seq<char>, seps: Seq<char>)
    requires
        seps.contains(c),
    ensures
        pieces(a.push(c) + b, seps) == pieces(a, seps) + pieces(b, seps),
    decreases b.len(),
{
    let whole = a.push(c) + b;
    if b.len() == 0 {
        assert(whole =~= a.push(c));
        assert(whole.drop_last() =~= a);
        assert(pieces(whole, seps) =~= pieces(a, seps) + pieces(b, seps));
    } else {
        assert(whole.drop_last() =~= a.push(c) + b.drop_last());
        lemma_pieces_concat(a, c, b.drop_last(), seps);
        lemma_pieces_nonempty(b.drop_last(), seps);
        let front = pieces(a, seps) + pieces(b.drop_last(), seps);
        assert(front.last() == pieces(b.drop_last(), seps).last());
        assert(pieces(whole, seps) =~= pieces(a, seps) + pieces(b, seps));
    }
}

/// Decimal texts hold digits only, never a hyphen.
pub proof fn lemma_decimal_no_hyphen(n: nat)
    ensures
        forall|i: int| 0 <= i < decimal(n).len() ==> #[trigger] decimal(n)[i] != '-',
    decreases n,
{
    if n >= 10 {
        lemma_decimal_no_hyphen(n / 10);
        let head = decimal(n / 10);
        assert forall|i: int| 0 <= i < decimal(n).len() implies #[trigger] decimal(n)[i] != '-' by {
            if i < head.len() {
                assert(decimal(n)[i] == head[i]);
            }
        }
    }
}

/// Different numbers have different decimal texts.
pub proof fn lemma_decimal_injective(a: nat, b: nat)
    requires
        decimal(a) == decimal(b),
    ensures
        a == b,
    decreases a,
{
    lemma_decimal_nonempty(a / 10);
    lemma_decimal_nonempty(b / 10);
    assert(decimal(a).last() == digit(a % 10));
    assert(decimal(b).last() == digit(b % 10));
    assert(a % 10 == b % 10);
    if a < 10 {
        assert(decimal(a).len() == 1);
    }
    if b < 10 {
        assert(decimal(b).len() == 1);
    }
    if a >= 10 && b >= 10 {
        assert(decimal(a).drop_last() =~= decimal(a / 10));
        assert(decimal(b).drop_last() =~= decimal(b / 10));
        lemma_decimal_injective(a / 10, b / 10);
    }
}

proof fn lemma_decimal_nonempty(n: nat)
    ensures
        decimal(n).len() > 0,
{
}

/// White space is told by code point: tab to carriage return, space, next line,
/// no-break space, and the space separators, line and paragraph separators of
/// Unicode.
pub proof fn law_white_space_code_points(c: char)
    ensures
        white_space(c) <==> ({
            let n = c as u32;
            ||| 0x09 <= n <= 0x0D
            ||| n == 0x20
            ||| n == 0x85
            ||| n == 0xA0
            ||| n == 0x1680
            ||| 0x2000 <= n <= 0x200A
            ||| n == 0x2028
            ||| n == 0x2029
            ||| n == 0x202F
            ||| n == 0x205F
            ||| n == 0x3000
        }),
{
}

/// The texts of a list are the views of its strings, one for one.
pub proof fn law_texts_are_views(list: Seq<String>)
    ensures
        texts(list).len() == list.len(),
        forall|i: int| 0 <= i < list.len() ==> #[trigger] texts(list)[i] == list[i]@,
{
}

/// The texts of a list of slices are the views of its slices, one for one.
pub proof fn law_slices_are_views(list: Seq<&str>)
    ensures
        slices(list).len() == list.len(),
        forall|i: int| 0 <= i < list.len() ==> #[trigger] slices(list)[i] == list[i]@,
{
}

/// The text of an optional string is the view of the string, where there is
/// one.
pub proof fn law_optional_texts(s: &str, t: String)
    ensures
        opt_text(Some(s)) == Some(s@),
        opt_text(None) is None,
        opt_string(Some(t)) == Some(t@),
        opt_string(None) is None,
{
}

/// Trimming the end of a text takes off white space only, and all of it: the
/// text is what is left followed by white space, and what is left does not end
/// in white space.
pub proof fn law_trimmed_end(s: Seq<char>)
    ensures
        trimmed_end(s).len() <= s.len(),
        trimmed_end(s) == s.take(trimmed_end(s).len() as int),
        forall|j: int| trimmed_end(s).len() <= j < s.len() ==> white_space(#[trigger] s[j]),
        trimmed_end(s).len() > 0 ==> !white_space(trimmed_end(s).last()),
    decreases s.len(),
{
    if s.len() > 0 && white_space(s.last()) {
        let front = s.drop_last();
        law_trimmed_end(front);
        assert(front.take(trimmed_end(front).len() as int) =~= s.take(
            trimmed_end(front).len() as int,
        ));
        assert forall|j: int| trimmed_end(s).len() <= j < s.len() implies white_space(
            #[trigger] s[j],
        ) by {
            if j < front.len() {
                assert(front[j] == s[j]);
            }
        }
    } else {
        assert(s.take(s.len() as int) =~= s);
    }
}

/// Trimming the start of a text takes off white space only, and all of it: the
/// text is white space followed by what is left, and what is left does not
/// begin with white space.
pub proof fn law_trimmed_start(s: Seq<char>)
    ensures
        trimmed_start(s).len() <= s.len(),
        trimmed_start(s) == s.skip(s.len() - trimmed_start(s).len()),
        forall|j: int| 0 <= j < s.len() - trimmed_start(s).len() ==> white_space(#[trigger] s[j]),
        trimmed_start(s).len() > 0 ==> !white_space(trimmed_start(s).first()),
    decreases s.len(),
{
    if s.len() > 0 && white_space(s.first()) {
        let rest = s.drop_first();
        law_trimmed_start(rest);
        let t = trimmed_start(rest);
        assert(rest.skip(rest.len() - t.len()) =~= s.skip(s.len() - t.len()));
        assert forall|j: int| 0 <= j < s.len() - trimmed_start(s).len() implies white_space(
            #[trigger] s[j],
        ) by {
            if j > 0 {
                assert(rest[j - 1] == s[j]);
            }
        }
    } else {
        assert(s.skip(0) =~= s);
    }
}

/// Whether `t` is what is left of `s` from position `k` on when nothing but
/// white space is taken off at either end, and none is left there.
pub open spec fn stripped(s: Seq<char>, t: Seq<char>, k: int) -> bool {
    &&& 0 <= k <= k + t.len() <= s.len()
    &&& t == s.subrange(k, k + t.len())
    &&& forall|j: int| 0 <= j < k ==> white_space(#[trigger] s[j])
    &&& forall|j: int| k + t.len() <= j < s.len() ==> white_space(#[trigger] s[j])
    &&& t.len() > 0 ==> !white_space(t.first()) && !white_space(t.last())
}

/// Trimming a text takes off the white space at either end, all of it, and
/// nothing else.
pub proof fn law_trimmed(s: Seq<char>)
    ensures
        exists|k: int| stripped(s, trimmed(s), k),
{
    law_trimmed_start(s);
    let u = trimmed_start(s);
    law_trimmed_end(u);
    let t = trimmed(s);
    let k = s.len() - u.len();
    assert(t =~= s.subrange(k, k + t.len()));
    assert forall|j: int| k + t.len() <= j < s.len() implies white_space(#[trigger] s[j]) by {
        assert(u[j - k] == s[j]);
    }
    if t.len() > 0 {
        assert(t.first() == u.first());
    }
    assert(stripped(s, t, k));
}

/// There is one way only to strip a text.
pub proof fn law_stripped_unique(s: Seq<char>, t: Seq<char>, k: int, u: Seq<char>, m: int)
    requires
        stripped(s, t, k),
        stripped(s, u, m),
    ensures
        t == u,
{
    if t.len() == 0 && u.len() > 0 {
        assert(u.first() == s[m]);
        assert(white_space(s[m]));
    } else if u.len() == 0 && t.len() > 0 {
        assert(t.first() == s[k]);
        assert(white_space(s[k]));
    } else if t.len() > 0 && u.len() > 0 {
        assert(t.first() == s[k]);
        assert(u.first() == s[m]);
        assert(t.last() == s[k + t.len() - 1]);
        assert(u.last() == s[m + u.len() - 1]);
    }
    assert(t =~= u);
}

/// What trimming a text gives: nothing but white space is taken off.
pub proof fn law_trim(s: &str, r: &str)
    requires
        call_ensures(trim, (s,), r),
    ensures
        exists|k: int| stripped(s@, r@, k),
{
    law_trimmed(s@);
}

/// A text without separators is its only piece.
pub proof fn law_pieces_without_separator(s: Seq<char>, seps: Seq<char>)
    requires
        forall|i: int| 0 <= i < s.len() ==> !seps.contains(#[trigger] s[i]),
    ensures
        pieces(s, seps) == seq![s],
    decreases s.len(),
{
    if s.len() == 0 {
        assert(s =~= Seq::<char>::empty());
    } else {
        let front = s.drop_last();
        assert forall|i: int| 0 <= i < front.len() implies !seps.contains(#[trigger] front[i]) by {
            assert(front[i] == s[i]);
        }
        law_pieces_without_separator(front, seps);
        assert(!seps.contains(s[s.len() - 1]));
        assert(front.push(s.last()) =~= s);
        assert(pieces(s, seps) =~= seq![s]);
    }
}

/// Splitting a text and joining the pieces by the separator gives the text
/// back, and no piece holds the separator.
pub proof fn law_split_then_join(s: Seq<char>, sep: char)
    ensures
        joined(pieces(s, seq![sep]), seq![sep]) == s,
        forall|i: int|
            0 <= i < pieces(s, seq![sep]).len() ==> !(#[trigger] pieces(s, seq![sep])[i]).contains(
                sep,
            ),
    decreases s.len(),
{
    let seps = seq![sep];
    let all = pieces(s, seps);
    assert(seps[0] == sep);
    if s.len() == 0 {
        assert(all[0] =~= s);
    } else {
        let front = s.drop_last();
        let before = pieces(front, seps);
        law_split_then_join(front, sep);
        lemma_pieces_nonempty(front, seps);
        assert(front.push(s.last()) =~= s);
        if s.last() == sep {
            assert(seps.contains(s.last()));
            assert(all.drop_last() =~= before);
            assert(joined(before, seps) + seps + Seq::<char>::empty() =~= s);
        } else {
            assert(!seps.contains(s.last()));
            assert(all.drop_last() =~= before.drop_last());
            assert(all.last() =~= before.last().push(s.last()));
            if before.len() == 1 {
                assert(all[0] == before[0].push(s.last()));
            } else {
                assert(joined(all, seps) =~= joined(before, seps).push(s.last()));
            }
            assert forall|i: int| 0 <= i < all.len() implies !(#[trigger] all[i]).contains(sep) by {
                if i < all.len() - 1 {
                    assert(all[i] == before[i]);
                } else {
                    let last = before[before.len() - 1];
                    assert(!last.contains(sep));
                    assert(all[i] == last.push(s.last()));
                    if all[i].contains(sep) {
                        let k = choose|k: int| 0 <= k < all[i].len() && all[i][k] == sep;
                        assert(last[k] == sep);
                    }
                }
            }
        }
    }
}

/// Joining loses and adds nothing: no part gives the empty text, one part
/// itself, and lists of parts are joined with one separator between them.
pub proof fn law_joined(a: Seq<Seq<char>>, b: Seq<Seq<char>>, part: Seq<char>, sep: Seq<char>)
    requires
        a.len() > 0,
        b.len() > 0,
    ensures
        joined(Seq::empty(), sep) == Seq::<char>::empty(),
        joined(seq![part], sep) == part,
        joined(a + b, sep) == joined(a, sep) + sep + joined(b, sep),
    decreases b.len(),
{
    let all = a + b;
    assert(all.last() == b.last());
    assert(all.drop_last() =~= a + b.drop_last());
    if b.len() == 1 {
        assert(all.drop_last() =~= a);
    } else {
        law_joined(a, b.drop_last(), part, sep);
        assert(joined(all, sep) =~= joined(a, sep) + sep + joined(b, sep));
    }
}

/// The number that a text of digits stands for.
pub open spec fn digits_value(s: Seq<char>) -> int
    decreases s.len(),
{
    if s.len() == 0 {
        0
    } else {
        10 * digits_value(s.drop_last()) + (s.last() as int - 48)
    }
}

/// The decimal text of a number stands for that number: it is made of digits,
/// its value is the number, and only zero begins with a zero.
pub proof fn law_decimal_value(n: nat)
    ensures
        digits_value(decimal(n)) == n,
        decimal(n).len() > 0,
        forall|i: int| 0 <= i < decimal(n).len() ==> '0' <= #[trigger] decimal(n)[i] <= '9',
        decimal(n)[0] == '0' ==> n == 0,
    decreases n,
{
    let d = decimal(n);
    if n < 10 {
        assert(d.drop_last() =~= Seq::<char>::empty());
        assert(digits_value(d.drop_last()) == 0);
        assert(d.last() == digit(n));
    } else {
        let head = decimal(n / 10);
        law_decimal_value(n / 10);
        assert(d.drop_last() =~= head);
        assert(d.last() == digit(n % 10));
        assert forall|i: int| 0 <= i < d.len() implies '0' <= #[trigger] d[i] <= '9' by {
            if i < head.len() {
                assert(d[i] == head[i]);
            }
        }
        assert(d[0] == head[0]);
    }
}

/// The decimal text of a signed number is that of its magnitude, after a minus
/// sign where the number is negative.
pub proof fn law_signed_decimal_value(n: int)
    ensures
        n >= 0 ==> digits_value(signed_decimal(n)) == n && signed_decimal(n)[0] != '-',
        n < 0 ==> signed_decimal(n)[0] == '-' && digits_value(signed_decimal(n).skip(1)) == -n,
        n < 0 ==> signed_decimal(n).skip(1)[0] != '-',
{
    if n < 0 {
        law_decimal_value((-n) as nat);
        assert(signed_decimal(n).skip(1) =~= decimal((-n) as nat));
    } else {
        law_decimal_value(n as nat);
    }
}

/// What writing a number gives: a text that stands for it.
pub proof fn law_decimal_text(n: u64, r: String)
    requires
        call_ensures(decimal_text, (n,), r),
    ensures
        digits_value(r@) == n,
        r@.len() > 0,
        forall|i: int| 0 <= i < r@.len() ==> '0' <= #[trigger] r@[i] <= '9',
{
    law_decimal_value(n as nat);
}

/// An error with its cause is the error, a colon, a space, and the cause.
pub proof fn law_caused(message: Seq<char>, cause: Seq<char>)
    ensures
        caused(message, cause).len() == message.len() + 2 + cause.len(),
        caused(message, cause).take(message.len() as int) == message,
        caused(message, cause)[message.len() as int] == ':',
        caused(message, cause)[message.len() + 1int] == ' ',
        caused(message, cause).skip(message.len() + 2int) == cause,
{
    reveal_strlit(": ");
    let all = caused(message, cause);
    assert(all.take(message.len() as int) =~= message);
    assert(all.skip(message.len() + 2int) =~= cause);
}

} // verus!
