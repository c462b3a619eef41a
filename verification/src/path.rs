//! Paths by their text, with the rules of `std::path` for the platform the
//! library is built for, and paths by their components, for those that are no
//! text.

use std::path::Path;

use vstd::prelude::*;

verus! {

/// The text of `Path::join` applied to paths with these texts.
pub uninterp spec fn joined_path(base: Seq<char>, rest: Seq<char>) -> Seq<char>;

/// Whether `==` on paths with these texts holds.
pub uninterp spec fn same_path(a: Seq<char>, b: Seq<char>) -> bool;

/// The text of `Path::extension` of a path with this text.
pub uninterp spec fn path_extension(path: Seq<char>) -> Option<Seq<char>>;

/// `Path::join`: the path of `rest` seen from `base`. The result is named by
/// [`joined_path`]; it depends on the two texts alone. Two texts join to a
/// text, so nothing is lost in the conversion.
#[verifier::external_body]
pub(crate) fn join_path(base: &str, rest: &str) -> (r: String)
    ensures
        r@ == joined_path(base@, rest@),
{
    Path::new(base).join(rest).to_string_lossy().into_owned()
}

/// `==` on `Path`: whether two paths have the same components. The result is
/// named by [`same_path`]; a path is the same as itself.
#[verifier::external_body]
pub(crate) fn paths_equal(a: &str, b: &str) -> (r: bool)
    ensures
        r == same_path(a@, b@),
        a@ == b@ ==> r,
{
    Path::new(a) == Path::new(b)
}

/// `Path::extension`: what follows the last dot of the file name, where the
/// file name has one that does not begin it. The result is named by
/// [`path_extension`].
#[verifier::external_body]
pub(crate) fn extension_of(path: &str) -> (r: Option<String>)
    ensures
        match r {
            Some(ext) => path_extension(path@) == Some(ext@),
            None => path_extension(path@) is None,
        },
{
    match Path::new(path).extension() {
        Some(ext) => Some(ext.to_string_lossy().into_owned()),
        None => None,
    }
}

/// One component of a path, as `std::path` tells them apart. Names are in the
/// system's encoding; a drive is given by its letter, in either case.
pub enum PathPart {
    /// The prefix `\\?\name`.
    Verbatim(Vec<u8>),
    /// The prefix `\\?\UNC\server\share`.
    VerbatimUnc(Vec<u8>, Vec<u8>),
    /// The prefix `\\?\C:`.
    VerbatimDisk(u8),
    /// The prefix `\\.\name`.
    DeviceNs(Vec<u8>),
    /// The prefix `\\server\share`.
    Unc(Vec<u8>, Vec<u8>),
    /// The prefix `C:`.
    Disk(u8),
    /// The root directory.
    Root,
    /// The current directory, `.`.
    Current,
    /// The parent directory, `..`.
    Parent,
    /// A name.
    Name(Vec<u8>),
}

/// What a component is ordered by: the rank of its kind, then its names.
pub type PartKey = (u8, Seq<u8>, Seq<u8>);

/// A drive letter in upper case.
pub open spec fn drive(letter: u8) -> u8 {
    if 0x61 <= letter <= 0x7A {
        (letter - 32) as u8
    } else {
        letter
    }
}

impl PathPart {
    /// The rank of the component's kind: the prefixes come first, in the order
    /// of their variants, then the root, `.`, `..`, and names.
    pub open spec fn spec_rank(self) -> u8 {
        match self {
            PathPart::Verbatim(_) => 0,
            PathPart::VerbatimUnc(_, _) => 1,
            PathPart::VerbatimDisk(_) => 2,
            PathPart::DeviceNs(_) => 3,
            PathPart::Unc(_, _) => 4,
            PathPart::Disk(_) => 5,
            PathPart::Root => 6,
            PathPart::Current => 7,
            PathPart::Parent => 8,
            PathPart::Name(_) => 9,
        }
    }

    /// What the component is ordered by.
    pub open spec fn key(self) -> PartKey {
        let none = Seq::<u8>::empty();
        let (name, share) = match self {
            PathPart::Verbatim(name) => (name@, none),
            PathPart::VerbatimUnc(server, share) => (server@, share@),
            PathPart::VerbatimDisk(letter) => (seq![drive(letter)], none),
            PathPart::DeviceNs(name) => (name@, none),
            PathPart::Unc(server, share) => (server@, share@),
            PathPart::Disk(letter) => (seq![drive(letter)], none),
            PathPart::Root => (none, none),
            PathPart::Current => (none, none),
            PathPart::Parent => (none, none),
            PathPart::Name(name) => (name@, none),
        };
        (self.spec_rank(), name, share)
    }

    /// The rank of the component's kind.
    fn rank(&self) -> (r: u8)
        ensures
            r == self.spec_rank(),
    {
        match self {
            PathPart::Verbatim(_) => 0,
            PathPart::VerbatimUnc(_, _) => 1,
            PathPart::VerbatimDisk(_) => 2,
            PathPart::DeviceNs(_) => 3,
            PathPart::Unc(_, _) => 4,
            PathPart::Disk(_) => 5,
            PathPart::Root => 6,
            PathPart::Current => 7,
            PathPart::Parent => 8,
            PathPart::Name(_) => 9,
        }
    }
}

/// What a path is compared by: two paths are the same where this is.
pub open spec fn path_key(parts: Seq<PathPart>) -> Seq<PartKey> {
    parts.map_values(|p: PathPart| p.key())
}

/// Whether `a` comes strictly before `b`, byte by byte.
pub open spec fn bytes_before(a: Seq<u8>, b: Seq<u8>) -> bool
    decreases a.len(),
{
    if b.len() == 0 {
        false
    } else if a.len() == 0 {
        true
    } else if a[0] != b[0] {
        a[0] < b[0]
    } else {
        bytes_before(a.skip(1), b.skip(1))
    }
}

/// Whether the component `a` comes strictly before `b`: by kind, then by name,
/// then by share.
pub open spec fn part_before(a: PartKey, b: PartKey) -> bool {
    ||| a.0 < b.0
    ||| a.0 == b.0 && bytes_before(a.1, b.1)
    ||| a.0 == b.0 && a.1 == b.1 && bytes_before(a.2, b.2)
}

/// Whether the path `a` comes strictly before `b`, component by component.
pub open spec fn path_before(a: Seq<PartKey>, b: Seq<PartKey>) -> bool
    decreases a.len(),
{
    if b.len() == 0 {
        false
    } else if a.len() == 0 {
        true
    } else if a[0] != b[0] {
        part_before(a[0], b[0])
    } else {
        path_before(a.skip(1), b.skip(1))
    }
}

proof fn lemma_bytes_order(a: Seq<u8>, b: Seq<u8>)
    ensures
        !(bytes_before(a, b) && bytes_before(b, a)),
        a == b ==> !bytes_before(a, b),
        a != b ==> bytes_before(a, b) || bytes_before(b, a),
    decreases a.len(),
{
    if a.len() == 0 && b.len() == 0 {
        assert(a =~= b);
    } else if a.len() > 0 && b.len() > 0 && a[0] == b[0] {
        lemma_bytes_order(a.skip(1), b.skip(1));
        if a.skip(1) == b.skip(1) {
            assert(a =~= seq![a[0]] + a.skip(1));
            assert(b =~= seq![b[0]] + b.skip(1));
        }
    }
}

proof fn lemma_bytes_transitive(a: Seq<u8>, b: Seq<u8>, c: Seq<u8>)
    requires
        bytes_before(a, b),
        bytes_before(b, c),
    ensures
        bytes_before(a, c),
    decreases a.len(),
{
    if a.len() > 0 && b.len() > 0 && c.len() > 0 && a[0] == b[0] && b[0] == c[0] {
        lemma_bytes_transitive(a.skip(1), b.skip(1), c.skip(1));
    }
}

proof fn lemma_part_order(a: PartKey, b: PartKey)
    ensures
        !(part_before(a, b) && part_before(b, a)),
        a == b ==> !part_before(a, b),
        a != b ==> part_before(a, b) || part_before(b, a),
{
    lemma_bytes_order(a.1, b.1);
    lemma_bytes_order(a.2, b.2);
}

proof fn lemma_part_transitive(a: PartKey, b: PartKey, c: PartKey)
    requires
        part_before(a, b),
        part_before(b, c),
    ensures
        part_before(a, c),
{
    if bytes_before(a.1, b.1) && bytes_before(b.1, c.1) {
        lemma_bytes_transitive(a.1, b.1, c.1);
    }
    if bytes_before(a.2, b.2) && bytes_before(b.2, c.2) {
        lemma_bytes_transitive(a.2, b.2, c.2);
    }
}

/// Path order is a strict total order: of two different paths exactly one comes
/// first.
pub proof fn law_path_order_total(a: Seq<PartKey>, b: Seq<PartKey>)
    ensures
        !(path_before(a, b) && path_before(b, a)),
        a == b ==> !path_before(a, b),
        a != b ==> path_before(a, b) || path_before(b, a),
    decreases a.len(),
{
    if a.len() == 0 && b.len() == 0 {
        assert(a =~= b);
    } else if a.len() > 0 && b.len() > 0 {
        lemma_part_order(a[0], b[0]);
        if a[0] == b[0] {
            law_path_order_total(a.skip(1), b.skip(1));
            if a.skip(1) == b.skip(1) {
                assert(a =~= seq![a[0]] + a.skip(1));
                assert(b =~= seq![b[0]] + b.skip(1));
            }
        }
    }
}

/// Path order is transitive.
pub proof fn law_path_order_transitive(
    a: Seq<PartKey>,
    b: Seq<PartKey>,
    c: Seq<PartKey>,
)
    requires
        path_before(a, b),
        path_before(b, c),
    ensures
        path_before(a, c),
    decreases a.len(),
{
    if a.len() > 0 && b.len() > 0 && c.len() > 0 {
        if a[0] == b[0] && b[0] == c[0] {
            law_path_order_transitive(a.skip(1), b.skip(1), c.skip(1));
        } else if a[0] != b[0] && b[0] != c[0] {
            lemma_part_transitive(a[0], b[0], c[0]);
            lemma_part_order(a[0], c[0]);
        }
    }
}

/// Whether two byte strings are the same.
fn same_bytes(a: &Vec<u8>, b: &Vec<u8>) -> (r: bool)
    ensures
        r == (a@ == b@),
{
    if a.len() != b.len() {
        return false;
    }
    for i in 0..a.len()
        invariant
            a.len() == b.len(),
            forall|j: int| 0 <= j < i ==> a@[j] == b@[j],
    {
        if a[i] != b[i] {
            return false;
        }
    }
    assert(a@ =~= b@);
    true
}

/// Whether `a` comes strictly before `b`, byte by byte.
fn bytes_come_before(a: &Vec<u8>, b: &Vec<u8>) -> (r: bool)
    ensures
        r == bytes_before(a@, b@),
{
    assert(a@.skip(0) =~= a@);
    assert(b@.skip(0) =~= b@);
    let mut i: usize = 0;
    while i < a.len() && i < b.len()
        invariant
            i <= a.len(),
            i <= b.len(),
            bytes_before(a@.skip(i as int), b@.skip(i as int)) == bytes_before(a@, b@),
        decreases a.len() - i,
    {
        assert(a@.skip(i as int).skip(1) =~= a@.skip(i + 1));
        assert(b@.skip(i as int).skip(1) =~= b@.skip(i + 1));
        if a[i] != b[i] {
            return a[i] < b[i];
        }
        i = i + 1;
    }
    i < b.len()
}

/// A drive letter in upper case.
fn drive_letter(letter: u8) -> (r: u8)
    ensures
        r == drive(letter),
{
    if 0x61 <= letter && letter <= 0x7A {
        letter - 32
    } else {
        letter
    }
}

/// Whether two components are the same.
fn same_part(a: &PathPart, b: &PathPart) -> (r: bool)
    ensures
        r == (a.key() == b.key()),
{
    match (a, b) {
        (PathPart::Verbatim(x), PathPart::Verbatim(y)) => same_bytes(x, y),
        (PathPart::VerbatimUnc(x, s), PathPart::VerbatimUnc(y, t)) => same_bytes(x, y)
            && same_bytes(s, t),
        (PathPart::VerbatimDisk(x), PathPart::VerbatimDisk(y)) => same_drive(*x, *y),
        (PathPart::DeviceNs(x), PathPart::DeviceNs(y)) => same_bytes(x, y),
        (PathPart::Unc(x, s), PathPart::Unc(y, t)) => same_bytes(x, y) && same_bytes(s, t),
        (PathPart::Disk(x), PathPart::Disk(y)) => same_drive(*x, *y),
        (PathPart::Name(x), PathPart::Name(y)) => same_bytes(x, y),
        _ => a.rank() == b.rank(),
    }
}

/// Whether two letters are those of the same drive.
fn same_drive(a: u8, b: u8) -> (r: bool)
    ensures
        r == (seq![drive(a)] == seq![drive(b)]),
{
    assert(seq![drive(a)][0] == drive(a));
    assert(seq![drive(b)][0] == drive(b));
    drive_letter(a) == drive_letter(b)
}

/// Whether drive `a` comes strictly before `b`.
fn drive_comes_before(a: u8, b: u8) -> (r: bool)
    ensures
        r == bytes_before(seq![drive(a)], seq![drive(b)]),
{
    assert(seq![drive(a)].skip(1) =~= Seq::<u8>::empty());
    assert(seq![drive(b)].skip(1) =~= Seq::<u8>::empty());
    assert(!bytes_before(Seq::<u8>::empty(), Seq::<u8>::empty()));
    drive_letter(a) < drive_letter(b)
}

/// Whether the share `s` of the server `x` comes strictly before the share `t`
/// of the server `y`.
fn share_comes_before(x: &Vec<u8>, s: &Vec<u8>, y: &Vec<u8>, t: &Vec<u8>) -> (r: bool)
    ensures
        r == (bytes_before(x@, y@) || (x@ == y@ && bytes_before(s@, t@))),
{
    proof {
        lemma_bytes_order(x@, y@);
    }
    if same_bytes(x, y) {
        bytes_come_before(s, t)
    } else {
        bytes_come_before(x, y)
    }
}

/// Whether the component `a` comes strictly before `b`.
fn part_comes_before(a: &PathPart, b: &PathPart) -> (r: bool)
    ensures
        r == part_before(a.key(), b.key()),
{
    assert(!bytes_before(Seq::<u8>::empty(), Seq::<u8>::empty()));
    match (a, b) {
        (PathPart::Verbatim(x), PathPart::Verbatim(y)) => bytes_come_before(x, y),
        (PathPart::VerbatimUnc(x, s), PathPart::VerbatimUnc(y, t)) => share_comes_before(
            x,
            s,
            y,
            t,
        ),
        (PathPart::VerbatimDisk(x), PathPart::VerbatimDisk(y)) => drive_comes_before(*x, *y),
        (PathPart::DeviceNs(x), PathPart::DeviceNs(y)) => bytes_come_before(x, y),
        (PathPart::Unc(x, s), PathPart::Unc(y, t)) => share_comes_before(x, s, y, t),
        (PathPart::Disk(x), PathPart::Disk(y)) => drive_comes_before(*x, *y),
        (PathPart::Name(x), PathPart::Name(y)) => bytes_come_before(x, y),
        _ => a.rank() < b.rank(),
    }
}

/// Whether two paths are the same, component by component.
pub fn same_components(a: &Vec<PathPart>, b: &Vec<PathPart>) -> (r: bool)
    ensures
        r == (path_key(a@) == path_key(b@)),
{
    assert(path_key(a@).len() == a@.len());
    assert(path_key(b@).len() == b@.len());
    if a.len() != b.len() {
        return false;
    }
    for i in 0..a.len()
        invariant
            a.len() == b.len(),
            forall|j: int| 0 <= j < i ==> path_key(a@)[j] == path_key(b@)[j],
    {
        if !same_part(&a[i], &b[i]) {
            assert(path_key(a@)[i as int] != path_key(b@)[i as int]);
            return false;
        }
    }
    assert(path_key(a@) =~= path_key(b@));
    true
}

/// Whether the path `a` comes strictly before `b`, component by component.
pub fn path_comes_before(a: &Vec<PathPart>, b: &Vec<PathPart>) -> (r: bool)
    ensures
        r == path_before(path_key(a@), path_key(b@)),
{
    let ghost x = path_key(a@);
    let ghost y = path_key(b@);
    assert(x.skip(0) =~= x);
    assert(y.skip(0) =~= y);
    let mut i: usize = 0;
    while i < a.len() && i < b.len()
        invariant
            x == path_key(a@),
            y == path_key(b@),
            i <= a.len(),
            i <= b.len(),
            path_before(x.skip(i as int), y.skip(i as int)) == path_before(x, y),
        decreases a.len() - i,
    {
        assert(x.skip(i as int).skip(1) =~= x.skip(i + 1));
        assert(y.skip(i as int).skip(1) =~= y.skip(i + 1));
        assert(x.skip(i as int)[0] == a@[i as int].key());
        assert(y.skip(i as int)[0] == b@[i as int].key());
        if !same_part(&a[i], &b[i]) {
            return part_comes_before(&a[i], &b[i]);
        }
        i = i + 1;
    }
    i < b.len()
}

/// Byte strings are ordered like words in a dictionary: where they agree up to
/// some position, the bytes there decide, and a string comes before those that
/// it begins.
pub proof fn law_bytes_first_difference(
    common: Seq<u8>,
    x: u8,
    y: u8,
    a: Seq<u8>,
    b: Seq<u8>,
)
    ensures
        x < y ==> bytes_before(common.push(x) + a, common.push(y) + b),
        x > y ==> !bytes_before(common.push(x) + a, common.push(y) + b),
        bytes_before(common, common.push(x) + a),
        !bytes_before(common.push(x) + a, common),
        !bytes_before(common, common),
    decreases common.len(),
{
    let p = common.push(x) + a;
    let q = common.push(y) + b;
    lemma_bytes_order(common, common);
    if common.len() > 0 {
        let rest = common.skip(1);
        law_bytes_first_difference(rest, x, y, a, b);
        assert(p.skip(1) =~= rest.push(x) + a);
        assert(q.skip(1) =~= rest.push(y) + b);
        assert(p[0] == common[0]);
        assert(q[0] == common[0]);
    } else {
        assert(p[0] == x);
        assert(q[0] == y);
    }
}

/// Paths are ordered component by component: where they agree up to some
/// component, the components there decide, and a path comes before those below
/// it.
pub proof fn law_path_first_difference(
    common: Seq<PartKey>,
    x: PartKey,
    y: PartKey,
    a: Seq<PartKey>,
    b: Seq<PartKey>,
)
    ensures
        x != y ==> path_before(common.push(x) + a, common.push(y) + b) == part_before(x, y),
        path_before(common, common.push(x) + a),
        !path_before(common.push(x) + a, common),
        !path_before(common, common),
    decreases common.len(),
{
    let p = common.push(x) + a;
    let q = common.push(y) + b;
    law_path_order_total(common, common);
    if common.len() > 0 {
        let rest = common.skip(1);
        law_path_first_difference(rest, x, y, a, b);
        assert(p.skip(1) =~= rest.push(x) + a);
        assert(q.skip(1) =~= rest.push(y) + b);
        assert(p[0] == common[0]);
        assert(q[0] == common[0]);
    } else {
        assert(p[0] == x);
        assert(q[0] == y);
    }
}

/// The kinds of components come in the order of `std::path`: verbatim prefixes,
/// device names, shares, drives, the root, `.`, `..`, and names, whatever the
/// names are.
pub proof fn law_kinds_in_order(x: Vec<u8>, s: Vec<u8>, c: u8, y: Vec<u8>, t: Vec<u8>, d: u8)
    ensures
        part_before(PathPart::Verbatim(x).key(), PathPart::VerbatimUnc(y, t).key()),
        part_before(PathPart::VerbatimUnc(x, s).key(), PathPart::VerbatimDisk(d).key()),
        part_before(PathPart::VerbatimDisk(c).key(), PathPart::DeviceNs(y).key()),
        part_before(PathPart::DeviceNs(x).key(), PathPart::Unc(y, t).key()),
        part_before(PathPart::Unc(x, s).key(), PathPart::Disk(d).key()),
        part_before(PathPart::Disk(c).key(), PathPart::Root.key()),
        part_before(PathPart::Root.key(), PathPart::Current.key()),
        part_before(PathPart::Current.key(), PathPart::Parent.key()),
        part_before(PathPart::Parent.key(), PathPart::Name(y).key()),
{
}

/// Whether two drive letters are the same letter, in upper or lower case.
pub open spec fn same_letter(c: u8, d: u8) -> bool {
    ||| c == d
    ||| 0x41 <= c <= 0x5A && d == c + 0x20
    ||| 0x41 <= d <= 0x5A && c == d + 0x20
}

/// Two components of one kind are the same where their names are, byte for
/// byte; drives are told by their letter without regard to case.
pub proof fn law_same_component(x: Vec<u8>, s: Vec<u8>, c: u8, y: Vec<u8>, t: Vec<u8>, d: u8)
    ensures
        PathPart::Verbatim(x).key() == PathPart::Verbatim(y).key() <==> x@ == y@,
        PathPart::VerbatimUnc(x, s).key() == PathPart::VerbatimUnc(y, t).key() <==> x@ == y@ && s@
            == t@,
        PathPart::VerbatimDisk(c).key() == PathPart::VerbatimDisk(d).key() <==> same_letter(c, d),
        PathPart::DeviceNs(x).key() == PathPart::DeviceNs(y).key() <==> x@ == y@,
        PathPart::Unc(x, s).key() == PathPart::Unc(y, t).key() <==> x@ == y@ && s@ == t@,
        PathPart::Disk(c).key() == PathPart::Disk(d).key() <==> same_letter(c, d),
        PathPart::Name(x).key() == PathPart::Name(y).key() <==> x@ == y@,
{
    assert(seq![drive(c)][0] == drive(c));
    assert(seq![drive(d)][0] == drive(d));
}

/// Two components of one kind are ordered by their names, byte by byte; shares
/// by server, then by share; drives by their letter.
pub proof fn law_components_by_name(x: Vec<u8>, s: Vec<u8>, c: u8, y: Vec<u8>, t: Vec<u8>, d: u8)
    ensures
        part_before(PathPart::Verbatim(x).key(), PathPart::Verbatim(y).key()) == bytes_before(
            x@,
            y@,
        ),
        part_before(PathPart::VerbatimUnc(x, s).key(), PathPart::VerbatimUnc(y, t).key())
            == if x@ == y@ {
            bytes_before(s@, t@)
        } else {
            bytes_before(x@, y@)
        },
        part_before(PathPart::DeviceNs(x).key(), PathPart::DeviceNs(y).key()) == bytes_before(
            x@,
            y@,
        ),
        part_before(PathPart::Unc(x, s).key(), PathPart::Unc(y, t).key()) == if x@ == y@ {
            bytes_before(s@, t@)
        } else {
            bytes_before(x@, y@)
        },
        part_before(PathPart::Name(x).key(), PathPart::Name(y).key()) == bytes_before(x@, y@),
        0x41 <= c < d <= 0x5A ==> part_before(PathPart::Disk(c).key(), PathPart::Disk(d).key()),
        0x41 <= c < d <= 0x5A ==> part_before(
            PathPart::VerbatimDisk(c).key(),
            PathPart::VerbatimDisk(d).key(),
        ),
{
    let none = Seq::<u8>::empty();
    lemma_bytes_order(none, none);
    lemma_bytes_order(x@, y@);
    law_bytes_first_difference(none, drive(c), drive(d), none, none);
    assert(none.push(drive(c)) + none =~= seq![drive(c)]);
    assert(none.push(drive(d)) + none =~= seq![drive(d)]);
}

/// Two paths are the same where they have as many components, and each is the
/// same as the other's at that place.
pub proof fn law_same_components(a: &Vec<PathPart>, b: &Vec<PathPart>, r: bool)
    requires
        call_ensures(same_components, (a, b), r),
    ensures
        r <==> a@.len() == b@.len() && forall|i: int|
            0 <= i < a@.len() ==> (#[trigger] a@[i]).key() == b@[i].key(),
{
    let x = path_key(a@);
    let y = path_key(b@);
    assert(x.len() == a@.len());
    assert(y.len() == b@.len());
    if x == y {
        assert forall|i: int| 0 <= i < a@.len() implies (#[trigger] a@[i]).key()
            == b@[i].key() by {
            assert(x[i] == a@[i].key());
            assert(y[i] == b@[i].key());
        }
    }
    if a@.len() == b@.len() && (forall|i: int|
        0 <= i < a@.len() ==> (#[trigger] a@[i]).key() == b@[i].key()) {
        assert forall|i: int| 0 <= i < x.len() implies x[i] == y[i] by {
            assert(x[i] == a@[i].key());
            assert(y[i] == b@[i].key());
        }
        assert(x =~= y);
    }
}

/// Of two paths that agree up to component `k` and not there, the one whose
/// component comes first there comes first; a path that another begins with
/// comes before it.
pub proof fn law_path_comes_before(a: &Vec<PathPart>, b: &Vec<PathPart>, k: int, r: bool)
    requires
        call_ensures(path_comes_before, (a, b), r),
        0 <= k <= a@.len(),
        k <= b@.len(),
        forall|i: int| 0 <= i < k ==> (#[trigger] a@[i]).key() == b@[i].key(),
        k < a@.len() && k < b@.len() ==> a@[k].key() != b@[k].key(),
    ensures
        k < a@.len() && k < b@.len() ==> r == part_before(a@[k].key(), b@[k].key()),
        k == a@.len() && k < b@.len() ==> r,
        k == b@.len() ==> !r,
{
    let x = path_key(a@);
    let y = path_key(b@);
    let common = x.take(k);
    assert forall|i: int| 0 <= i < k implies x[i] == y[i] by {
        assert(x[i] == a@[i].key());
        assert(y[i] == b@[i].key());
    }
    assert(y.take(k) =~= common);
    if k < a@.len() && k < b@.len() {
        law_path_first_difference(common, x[k], y[k], x.skip(k + 1), y.skip(k + 1));
        assert(common.push(x[k]) + x.skip(k + 1) =~= x);
        assert(common.push(y[k]) + y.skip(k + 1) =~= y);
    } else if k < b@.len() {
        law_path_first_difference(common, y[k], y[k], y.skip(k + 1), y.skip(k + 1));
        assert(common =~= x);
        assert(common.push(y[k]) + y.skip(k + 1) =~= y);
    } else if k < a@.len() {
        law_path_first_difference(common, x[k], x[k], x.skip(k + 1), x.skip(k + 1));
        assert(common =~= y);
        assert(common.push(x[k]) + x.skip(k + 1) =~= x);
    } else {
        assert(x =~= common);
        assert(y =~= common);
        law_path_order_total(x, y);
    }
}

} // verus!
