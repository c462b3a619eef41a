//! Identity files found in the config directories, in path order.

use vstd::prelude::*;

use crate::gpg;
use crate::gpg::is_encrypted;
use crate::path;
use crate::path::{path_comes_before, PartKey, PathPart};

verus! {

/// A directory entry that may be an identity file.
pub struct ScanEntry {
    /// The components of its path.
    pub parts: Vec<PathPart>,
    /// Whether it is a file.
    pub is_file: bool,
    /// Whether its path has a GPG encryption extension.
    pub encrypted: bool,
}

impl ScanEntry {
    /// An entry with the given path text and components.
    pub fn new(path: &str, parts: Vec<PathPart>, is_file: bool) -> (r: Self)
        ensures
            r.parts == parts,
            r.is_file == is_file,
            r.encrypted == gpg::encrypted_name(gpg::lowercase(path@)),
    {
        ScanEntry { parts, is_file, encrypted: is_encrypted(path) }
    }

    /// Whether the entry is an identity file.
    pub open spec fn selected(self) -> bool {
        self.is_file && self.encrypted
    }

    /// The path by which the entry is ordered.
    pub open spec fn key(self) -> Seq<PartKey> {
        path::path_key(self.parts@)
    }
}

/// Whether entry `i` comes strictly before entry `j`: by path, then by
/// position.
pub open spec fn entry_before(entries: Seq<ScanEntry>, i: int, j: int) -> bool {
    ||| path::path_before(entries[i].key(), entries[j].key())
    ||| entries[i].key() == entries[j].key() && i < j
}

/// Whether `order` lists the positions of the identity files among `entries`,
/// each once, in path order.
pub open spec fn in_path_order(entries: Seq<ScanEntry>, order: Seq<usize>) -> bool {
    &&& forall|k: int|
        0 <= k < order.len() ==> 0 <= #[trigger] order[k] < entries.len()
            && entries[order[k] as int].selected()
    &&& forall|i: int|
        0 <= i < entries.len() && #[trigger] entries[i].selected() ==> exists|k: int|
            0 <= k < order.len() && #[trigger] order[k] == i
    &&& forall|a: int, b: int|
        0 <= a < b < order.len() ==> entry_before(
            entries,
            #[trigger] order[a] as int,
            #[trigger] order[b] as int,
        )
}

proof fn lemma_entry_order(entries: Seq<ScanEntry>, i: int, j: int)
    requires
        i != j,
    ensures
        entry_before(entries, i, j) <==> !entry_before(entries, j, i),
{
    path::law_path_order_total(entries[i].key(), entries[j].key());
}

proof fn lemma_entry_transitive(entries: Seq<ScanEntry>, i: int, j: int, k: int)
    requires
        entry_before(entries, i, j),
        entry_before(entries, j, k),
    ensures
        entry_before(entries, i, k),
{
    if path::path_before(entries[i].key(), entries[j].key()) && path::path_before(
        entries[j].key(),
        entries[k].key(),
    ) {
        path::law_path_order_transitive(entries[i].key(), entries[j].key(), entries[k].key());
    }
}

/// The positions of the identity files among the entries, in path order.
pub fn scan_identities(entries: &Vec<ScanEntry>) -> (r: Vec<usize>)
    ensures
        in_path_order(entries@, r@),
{
    let mut out: Vec<usize> = Vec::new();
    for i in 0..entries.len()
        invariant
            forall|k: int|
                0 <= k < out@.len() ==> 0 <= #[trigger] out@[k] < i
                    && entries@[out@[k] as int].selected(),
            forall|j: int|
                0 <= j < i && #[trigger] entries@[j].selected() ==> exists|k: int|
                    0 <= k < out@.len() && #[trigger] out@[k] == j,
            forall|a: int, b: int|
                0 <= a < b < out@.len() ==> entry_before(
                    entries@,
                    #[trigger] out@[a] as int,
                    #[trigger] out@[b] as int,
                ),
    {
        if entries[i].is_file && entries[i].encrypted {
            let mut p: usize = 0;
            while p < out.len() && !path_comes_before(
                &entries[i].parts,
                &entries[out[p]].parts,
            )
                invariant
                    i < entries.len(),
                    p <= out.len(),
                    forall|k: int| 0 <= k < out@.len() ==> 0 <= #[trigger] out@[k] < i,
                    forall|k: int|
                        0 <= k < p ==> entry_before(entries@, #[trigger] out@[k] as int, i as int),
                ensures
                    p <= out.len(),
                    p < out.len() ==> entry_before(entries@, i as int, out@[p as int] as int),
                    forall|k: int|
                        0 <= k < p ==> entry_before(entries@, #[trigger] out@[k] as int, i as int),
                decreases out.len() - p,
            {
                proof {
                    lemma_entry_order(entries@, i as int, out@[p as int] as int);
                }
                p = p + 1;
            }
            let ghost before = out@;
            out.insert(p, i);
            proof {
                assert(out@ =~= before.insert(p as int, i));
                assert forall|a: int, b: int| 0 <= a < b < out@.len() implies entry_before(
                    entries@,
                    #[trigger] out@[a] as int,
                    #[trigger] out@[b] as int,
                ) by {
                    if b < p {
                        assert(out@[a] == before[a] && out@[b] == before[b]);
                    } else if b == p {
                        assert(out@[a] == before[a]);
                    } else if a == p {
                        assert(out@[b] == before[b - 1]);
                        if b - 1 > p {
                            lemma_entry_transitive(
                                entries@,
                                i as int,
                                before[p as int] as int,
                                before[b - 1] as int,
                            );
                        }
                    } else if a < p {
                        assert(out@[a] == before[a] && out@[b] == before[b - 1]);
                    } else {
                        assert(out@[a] == before[a - 1] && out@[b] == before[b - 1]);
                    }
                }
                assert forall|j: int|
                    0 <= j < i + 1 && #[trigger] entries@[j].selected() implies exists|k: int|
                    0 <= k < out@.len() && #[trigger] out@[k] == j by {
                    if j == i {
                        assert(out@[p as int] == j);
                    } else {
                        let k = choose|k: int| 0 <= k < before.len() && #[trigger] before[k] == j;
                        if k < p {
                            assert(out@[k] == j);
                        } else {
                            assert(out@[k + 1] == j);
                        }
                    }
                }
                assert forall|k: int| 0 <= k < out@.len() implies 0 <= #[trigger] out@[k] < i + 1
                    && entries@[out@[k] as int].selected() by {
                    if k < p {
                        assert(out@[k] == before[k]);
                    } else if k > p {
                        assert(out@[k] == before[k - 1]);
                    }
                }
            }
        }
    }
    out
}

/// An order lists no position twice.
proof fn lemma_order_distinct(entries: Seq<ScanEntry>, order: Seq<usize>, a: int, b: int)
    requires
        in_path_order(entries, order),
        0 <= a < order.len(),
        0 <= b < order.len(),
        order[a] == order[b],
    ensures
        a == b,
{
    let i = order[a] as int;
    path::law_path_order_total(entries[i].key(), entries[i].key());
    if a < b {
        assert(entry_before(entries, order[a] as int, order[b] as int));
    } else if b < a {
        assert(entry_before(entries, order[b] as int, order[a] as int));
    }
}

proof fn lemma_orders_agree(entries: Seq<ScanEntry>, x: Seq<usize>, y: Seq<usize>, k: int)
    requires
        in_path_order(entries, x),
        in_path_order(entries, y),
        0 <= k < x.len(),
    ensures
        k < y.len(),
        x[k] == y[k],
    decreases k,
{
    assert forall|j: int| 0 <= j < k implies j < y.len() && x[j] == y[j] by {
        lemma_orders_agree(entries, x, y, j);
    }
    assert(entries[x[k] as int].selected());
    let m = choose|m: int| 0 <= m < y.len() && #[trigger] y[m] == x[k];
    if m < k {
        assert(x[m] == y[m]);
        lemma_order_distinct(entries, x, m, k);
    }
    if m > k {
        assert(entry_before(entries, y[k] as int, y[m] as int));
        assert(entries[y[k] as int].selected());
        let n = choose|n: int| 0 <= n < x.len() && #[trigger] x[n] == y[k];
        if n < k {
            assert(x[n] == y[n]);
            lemma_order_distinct(entries, y, n, k);
        }
        if n == k {
            lemma_order_distinct(entries, y, m, k);
        }
        assert(entry_before(entries, x[k] as int, x[n] as int));
        if x[k] == y[k] {
            lemma_order_distinct(entries, y, m, k);
        }
        lemma_entry_order(entries, x[k] as int, y[k] as int);
    }
}

/// The identity files have one order only: the same entries always give the
/// same list.
pub proof fn law_scan_order_unique(entries: Seq<ScanEntry>, x: Seq<usize>, y: Seq<usize>)
    requires
        in_path_order(entries, x),
        in_path_order(entries, y),
    ensures
        x == y,
{
    assert forall|k: int| 0 <= k < x.len() implies k < y.len() && x[k] == y[k] by {
        lemma_orders_agree(entries, x, y, k);
    }
    assert forall|k: int| 0 <= k < y.len() implies k < x.len() && x[k] == y[k] by {
        lemma_orders_agree(entries, y, x, k);
    }
    if x.len() < y.len() {
        lemma_orders_agree(entries, y, x, x.len() as int);
    }
    if y.len() < x.len() {
        lemma_orders_agree(entries, x, y, y.len() as int);
    }
    assert(x =~= y);
}

/// An entry keeps what it is made of, and is encrypted where its path is.
pub proof fn law_entry_of_path(
    path: &str,
    parts: Vec<PathPart>,
    is_file: bool,
    entry: ScanEntry,
    encrypted: bool,
)
    requires
        call_ensures(ScanEntry::new, (path, parts, is_file), entry),
        call_ensures(is_encrypted, (path,), encrypted),
    ensures
        entry.parts == parts,
        entry.is_file == is_file,
        entry.encrypted == encrypted,
{
}

/// The scan lists the encrypted files, all of them, each once, and no other
/// entry: a position is listed exactly where the entry there is a file and
/// encrypted.
pub proof fn law_scan_lists_encrypted_files(entries: &Vec<ScanEntry>, r: Vec<usize>, i: int)
    requires
        call_ensures(scan_identities, (entries,), r),
        0 <= i < entries@.len(),
    ensures
        entries@[i].is_file && entries@[i].encrypted <==> exists|k: int|
            0 <= k < r@.len() && #[trigger] r@[k] == i,
        forall|k: int| 0 <= k < r@.len() ==> #[trigger] r@[k] < entries@.len(),
        forall|a: int, b: int| 0 <= a < b < r@.len() ==> #[trigger] r@[a] != #[trigger] r@[b],
{
    assert(entries@[i].selected() == (entries@[i].is_file && entries@[i].encrypted));
    assert forall|a: int, b: int| 0 <= a < b < r@.len() implies #[trigger] r@[a] != #[trigger] r@[b] by {
        if r@[a] == r@[b] {
            lemma_order_distinct(entries@, r@, a, b);
        }
    }
}

/// The scan lists its files in path order: no file comes before one whose path
/// comes first, and files of the same path stay in the order of the entries.
pub proof fn law_scan_in_path_order(entries: &Vec<ScanEntry>, r: Vec<usize>, a: int, b: int)
    requires
        call_ensures(scan_identities, (entries,), r),
        0 <= a < b < r@.len(),
    ensures
        ({
            let x = path::path_key(entries@[r@[a] as int].parts@);
            let y = path::path_key(entries@[r@[b] as int].parts@);
            &&& !path::path_before(y, x)
            &&& x == y ==> r@[a] < r@[b]
        }),
{
    assert(entry_before(entries@, r@[a] as int, r@[b] as int));
    path::law_path_order_total(entries@[r@[a] as int].key(), entries@[r@[b] as int].key());
}

} // verus!
