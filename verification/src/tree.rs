//! The decisions behind the project tree view: the order in which the
//! entries of a directory are listed, which of them are left out, and the
//! branch drawn before each.

use vstd::prelude::*;
use crate::paths::{
    has_ignored_component, parent_components, parent_ignored, path_components, should_ignore, views,
};
use crate::text::{chars_of, concat_str};

verus! {

/// One entry of a directory, as the tree view reads it.
#[derive(Debug)]
pub struct DirEntryInfo {
    pub name: String,
    pub path: String,
    pub is_dir: bool,
}

/// `a` comes before `b`, or equals it, in the order of code points,
/// character by character (for valid UTF-8 this is the byte order in which
/// std compares file names).
pub open spec fn name_le(a: Seq<char>, b: Seq<char>) -> bool
    decreases a.len(),
{
    if a.len() == 0 {
        true
    } else if b.len() == 0 {
        false
    } else if a[0] < b[0] {
        true
    } else if a[0] > b[0] {
        false
    } else {
        name_le(a.drop_first(), b.drop_first())
    }
}

/// Of two names, one comes before the other.
pub proof fn lemma_name_le_total(a: Seq<char>, b: Seq<char>)
    ensures
        name_le(a, b) || name_le(b, a),
    decreases a.len(),
{
    if a.len() > 0 && b.len() > 0 && a[0] == b[0] {
        lemma_name_le_total(a.drop_first(), b.drop_first());
    }
}

/// The order of names is transitive.
pub proof fn lemma_name_le_trans(a: Seq<char>, b: Seq<char>, c: Seq<char>)
    requires
        name_le(a, b),
        name_le(b, c),
    ensures
        name_le(a, c),
    decreases a.len(),
{
    if a.len() > 0 && b.len() > 0 && c.len() > 0 && a[0] == b[0] && b[0] == c[0] {
        lemma_name_le_trans(a.drop_first(), b.drop_first(), c.drop_first());
    }
}

/// Whether `a` comes before `b`, or equals it, in the order of code points.
pub fn names_in_order(a: &str, b: &str) -> (r: bool)
    ensures
        r == name_le(a@, b@),
{
    let va = chars_of(a);
    let vb = chars_of(b);
    let mut i: usize = 0;
    assert(va@.skip(0) =~= va@);
    assert(vb@.skip(0) =~= vb@);
    while i < va.len() && i < vb.len() && va[i] == vb[i]
        invariant
            i <= va.len(),
            i <= vb.len(),
            name_le(va@, vb@) == name_le(va@.skip(i as int), vb@.skip(i as int)),
        decreases va.len() - i,
    {
        assert(va@.skip(i as int).drop_first() =~= va@.skip(i + 1));
        assert(vb@.skip(i as int).drop_first() =~= vb@.skip(i + 1));
        i = i + 1;
    }
    assert(va@.skip(i as int).len() == va.len() - i);
    assert(vb@.skip(i as int).len() == vb.len() - i);
    if i == va.len() {
        true
    } else if i == vb.len() {
        false
    } else {
        assert(va@.skip(i as int)[0] == va@[i as int]);
        assert(vb@.skip(i as int)[0] == vb@[i as int]);
        let ca = va[i];
        let cb = vb[i];
        ca < cb
    }
}

/// The entry as plain values: name, path, and whether it is a directory.
pub open spec fn entry_view(e: DirEntryInfo) -> (Seq<char>, Seq<char>, bool) {
    (e.name@, e.path@, e.is_dir)
}

/// The plain values of each entry.
pub open spec fn entries_view(s: Seq<DirEntryInfo>) -> Seq<(Seq<char>, Seq<char>, bool)> {
    s.map_values(|e: DirEntryInfo| entry_view(e))
}

/// The tree lists directories before files, and each group by name.
pub open spec fn listed_before(a: (Seq<char>, Seq<char>, bool), b: (Seq<char>, Seq<char>, bool)) -> bool {
    (a.2 && !b.2) || (a.2 == b.2 && name_le(a.0, b.0))
}

/// The entries are in the order in which the tree lists them.
pub open spec fn in_listing_order(s: Seq<(Seq<char>, Seq<char>, bool)>) -> bool {
    forall|a: int, b: int| 0 <= a < b < s.len() ==> listed_before(#[trigger] s[a], #[trigger] s[b])
}

/// Whether the tree lists `a` before `b` (or they are in the same place).
pub fn entry_listed_before(a: &DirEntryInfo, b: &DirEntryInfo) -> (r: bool)
    ensures
        r == listed_before(entry_view(*a), entry_view(*b)),
{
    if a.is_dir != b.is_dir {
        a.is_dir
    } else {
        names_in_order(a.name.as_str(), b.name.as_str())
    }
}

fn copy_entry(e: &DirEntryInfo) -> (r: DirEntryInfo)
    ensures
        r == *e,
{
    DirEntryInfo { name: e.name.clone(), path: e.path.clone(), is_dir: e.is_dir }
}

/// The entries in the order in which the tree lists them: directories first,
/// then files, each group by name.
pub fn sort_entries(entries: &Vec<DirEntryInfo>) -> (r: Vec<DirEntryInfo>)
    ensures
        entries_view(r@).to_multiset() == entries_view(entries@).to_multiset(),
        in_listing_order(entries_view(r@)),
{
    let n = entries.len();
    let mut out: Vec<DirEntryInfo> = Vec::new();
    let mut i: usize = 0;
    assert(entries_view(entries@).take(0) =~= Seq::empty());
    assert(entries_view(out@) =~= Seq::empty());
    while i < n
        invariant
            n == entries.len(),
            i <= n,
            entries_view(out@).to_multiset() == entries_view(entries@).take(i as int).to_multiset(),
            in_listing_order(entries_view(out@)),
        decreases n - i,
    {
        let x = copy_entry(&entries[i]);
        let ghost xv = entry_view(x);
        let mut pos: usize = 0;
        while pos < out.len() && entry_listed_before(&out[pos], &x)
            invariant
                pos <= out.len(),
                xv == entry_view(x),
                forall|j: int| 0 <= j < pos ==> listed_before(entries_view(out@)[j], xv),
            decreases out.len() - pos,
        {
            pos = pos + 1;
        }
        let ghost before = entries_view(out@);
        proof {
            if pos < out.len() {
                lemma_name_le_total(before[pos as int].0, xv.0);
            }
        }
        out.insert(pos, x);
        proof {
            let now = entries_view(out@);
            assert(now =~= before.insert(pos as int, xv));
            assert(entries_view(entries@).take(i + 1) =~= entries_view(entries@).take(i as int).push(xv));
            vstd::seq_lib::to_multiset_insert(before, pos as int, xv);
            vstd::seq_lib::to_multiset_build(entries_view(entries@).take(i as int), xv);
            assert forall|a: int, b: int| 0 <= a < b < now.len() implies listed_before(
                #[trigger] now[a],
                #[trigger] now[b],
            ) by {
                if a < pos {
                    if b == pos {
                    } else if b < pos {
                        assert(now[b] == before[b]);
                    } else {
                        assert(now[b] == before[b - 1]);
                        assert(listed_before(before[a], before[b - 1]));
                    }
                    assert(now[a] == before[a]);
                } else if a == pos {
                    assert(now[b] == before[b - 1]);
                    assert(listed_before(xv, before[pos as int]));
                    if b - 1 > pos {
                        assert(listed_before(before[pos as int], before[b - 1]));
                        if xv.2 == before[pos as int].2 && before[pos as int].2 == before[b - 1].2 {
                            lemma_name_le_trans(xv.0, before[pos as int].0, before[b - 1].0);
                        }
                    }
                } else {
                    assert(now[a] == before[a - 1]);
                    assert(now[b] == before[b - 1]);
                }
            }
        }
        i = i + 1;
    }
    assert(entries_view(entries@).take(n as int) =~= entries_view(entries@));
    out
}

/// An entry is left out of the tree where its path names an ignored
/// directory: for a directory, some component of its path is ignored; for
/// any other entry, some directory above it is (its own name is not tested,
/// as the ignore lists name directories).
pub open spec fn entry_ignored(e: (Seq<char>, Seq<char>, bool), ignore: Seq<Seq<char>>) -> bool {
    if e.2 {
        has_ignored_component(path_components(e.1), ignore)
    } else {
        has_ignored_component(parent_components(path_components(e.1)), ignore)
    }
}

/// Whether the entry at `path` is left out of the tree.
pub fn tree_entry_ignored(path: &str, is_dir: bool, ignore_dir: &Vec<String>) -> (r: bool)
    ensures
        r == entry_ignored((Seq::empty(), path@, is_dir), views(ignore_dir@)),
{
    if is_dir {
        should_ignore(path, ignore_dir)
    } else {
        parent_ignored(path, ignore_dir)
    }
}

/// The entries that are not left out of the tree, in their order.
pub open spec fn kept_entries(
    s: Seq<(Seq<char>, Seq<char>, bool)>,
    ignore: Seq<Seq<char>>,
) -> Seq<(Seq<char>, Seq<char>, bool)>
    decreases s.len(),
{
    if s.len() == 0 {
        s
    } else {
        let k = kept_entries(s.drop_last(), ignore);
        if entry_ignored(s.last(), ignore) {
            k
        } else {
            k.push(s.last())
        }
    }
}

/// Every kept entry is one of the entries.
pub proof fn lemma_kept_from(s: Seq<(Seq<char>, Seq<char>, bool)>, ignore: Seq<Seq<char>>)
    ensures
        kept_entries(s, ignore).len() <= s.len(),
        forall|i: int|
            0 <= i < kept_entries(s, ignore).len() ==> exists|j: int|
                0 <= j < s.len() && s[j] == #[trigger] kept_entries(s, ignore)[i],
    decreases s.len(),
{
    if s.len() > 0 {
        lemma_kept_from(s.drop_last(), ignore);
        let k = kept_entries(s.drop_last(), ignore);
        assert forall|i: int| 0 <= i < kept_entries(s, ignore).len() implies exists|j: int|
            0 <= j < s.len() && s[j] == #[trigger] kept_entries(s, ignore)[i] by {
            if i < k.len() {
                let j = choose|j: int| 0 <= j < s.drop_last().len() && s.drop_last()[j] == k[i];
                assert(s[j] == kept_entries(s, ignore)[i]);
            } else {
                assert(s[s.len() - 1] == kept_entries(s, ignore)[i]);
            }
        }
    }
}

/// Leaving entries out keeps the rest in listing order.
pub proof fn lemma_kept_in_order(s: Seq<(Seq<char>, Seq<char>, bool)>, ignore: Seq<Seq<char>>)
    requires
        in_listing_order(s),
    ensures
        in_listing_order(kept_entries(s, ignore)),
    decreases s.len(),
{
    if s.len() > 0 {
        let d = s.drop_last();
        assert(in_listing_order(d)) by {
            assert forall|a: int, b: int| 0 <= a < b < d.len() implies listed_before(
                #[trigger] d[a],
                #[trigger] d[b],
            ) by {
                assert(d[a] == s[a] && d[b] == s[b]);
            }
        }
        lemma_kept_in_order(d, ignore);
        lemma_kept_from(d, ignore);
        let k = kept_entries(d, ignore);
        let r = kept_entries(s, ignore);
        assert forall|a: int, b: int| 0 <= a < b < r.len() implies listed_before(
            #[trigger] r[a],
            #[trigger] r[b],
        ) by {
            if b < k.len() {
                assert(r[a] == k[a] && r[b] == k[b]);
            } else {
                assert(r[a] == k[a]);
                let j = choose|j: int| 0 <= j < d.len() && d[j] == k[a];
                assert(s[j] == d[j]);
                assert(r[b] == s[s.len() - 1]);
            }
        }
    }
}

/// The entries that are not left out of the tree, in their order.
pub fn drop_ignored(entries: &Vec<DirEntryInfo>, ignore_dir: &Vec<String>) -> (r: Vec<DirEntryInfo>)
    ensures
        entries_view(r@) == kept_entries(entries_view(entries@), views(ignore_dir@)),
{
    let n = entries.len();
    let mut out: Vec<DirEntryInfo> = Vec::new();
    let mut i: usize = 0;
    assert(entries_view(entries@).take(0) =~= Seq::empty());
    assert(entries_view(out@) =~= kept_entries(Seq::empty(), views(ignore_dir@)));
    while i < n
        invariant
            n == entries.len(),
            i <= n,
            entries_view(out@) == kept_entries(entries_view(entries@).take(i as int), views(ignore_dir@)),
        decreases n - i,
    {
        let e = &entries[i];
        proof {
            let t = entries_view(entries@).take(i + 1);
            assert(t.drop_last() =~= entries_view(entries@).take(i as int));
            assert(t.last() == entry_view(*e));
        }
        if !tree_entry_ignored(e.path.as_str(), e.is_dir, ignore_dir) {
            let ghost before = entries_view(out@);
            out.push(copy_entry(e));
            assert(entries_view(out@) =~= before.push(entry_view(*e)));
        }
        i = i + 1;
    }
    assert(entries_view(entries@).take(n as int) =~= entries_view(entries@));
    out
}

/// The branch drawn before an entry: `+--> ` before the last one, `|--- `
/// before the others.
pub open spec fn connector_of(is_last: bool) -> Seq<char> {
    if is_last {
        "+--> "@
    } else {
        "|--- "@
    }
}

/// What is drawn below an entry, before the entries of a directory it opens:
/// blank after the last entry, a bar after the others.
pub open spec fn continuation_of(is_last: bool) -> Seq<char> {
    if is_last {
        "     "@
    } else {
        "|    "@
    }
}

/// One line of the tree: the entry, the text drawn before it, and the prefix
/// of the lines of its own entries, where it is a directory.
#[derive(Debug)]
pub struct TreeRow {
    pub name: String,
    pub path: String,
    pub is_dir: bool,
    pub lead: String,
    pub child_prefix: String,
}

/// The rows list the entries `s`, in order, below a branch drawn after `prefix`.
pub open spec fn rows_for(rows: Seq<TreeRow>, prefix: Seq<char>, s: Seq<(Seq<char>, Seq<char>, bool)>) -> bool {
    &&& rows.len() == s.len()
    &&& forall|i: int|
        0 <= i < rows.len() ==> {
            let is_last = i == rows.len() - 1;
            &&& (#[trigger] rows[i]).name@ == s[i].0
            &&& rows[i].path@ == s[i].1
            &&& rows[i].is_dir == s[i].2
            &&& rows[i].lead@ == prefix + connector_of(is_last)
            &&& rows[i].child_prefix@ == prefix + continuation_of(is_last)
        }
}

/// The rows of the tree for `entries`, in their order, below `prefix`.
pub fn tree_rows(prefix: &str, entries: &Vec<DirEntryInfo>) -> (r: Vec<TreeRow>)
    ensures
        rows_for(r@, prefix@, entries_view(entries@)),
{
    let n = entries.len();
    let mut rows: Vec<TreeRow> = Vec::new();
    let mut i: usize = 0;
    while i < n
        invariant
            n == entries.len(),
            i <= n,
            rows.len() == i,
            forall|j: int|
                0 <= j < i ==> {
                    let is_last = j == n - 1;
                    &&& (#[trigger] rows@[j]).name@ == entries@[j].name@
                    &&& rows@[j].path@ == entries@[j].path@
                    &&& rows@[j].is_dir == entries@[j].is_dir
                    &&& rows@[j].lead@ == prefix@ + connector_of(is_last)
                    &&& rows@[j].child_prefix@ == prefix@ + continuation_of(is_last)
                },
        decreases n - i,
    {
        let e = &entries[i];
        let is_last = i == n - 1;
        let connector = if is_last {
            "+--> "
        } else {
            "|--- "
        };
        let continuation = if is_last {
            "     "
        } else {
            "|    "
        };
        rows.push(
            TreeRow {
                name: e.name.clone(),
                path: e.path.clone(),
                is_dir: e.is_dir,
                lead: concat_str(prefix, connector),
                child_prefix: concat_str(prefix, continuation),
            },
        );
        i = i + 1;
    }
    rows
}

/// The rows of one directory level of the tree: its entries other than those
/// left out of the tree (see `entry_ignored`), directories first, then files, each group by name,
/// each below `prefix` with its branch.
pub fn plan_tree_level(prefix: &str, entries: &Vec<DirEntryInfo>, ignore_dir: &Vec<String>) -> (r:
    Vec<TreeRow>)
    ensures
        exists|s: Seq<(Seq<char>, Seq<char>, bool)>|
            {
                &&& s.to_multiset() == entries_view(entries@).to_multiset()
                &&& in_listing_order(s)
                &&& rows_for(r@, prefix@, kept_entries(s, views(ignore_dir@)))
            },
        forall|a: int, b: int|
            0 <= a < b < r@.len() ==> listed_before(
                (r@[a].name@, r@[a].path@, r@[a].is_dir),
                (r@[b].name@, r@[b].path@, r@[b].is_dir),
            ),
        forall|a: int, b: int|
            0 <= a < b < r@.len() && (#[trigger] r@[b]).is_dir ==> (#[trigger] r@[a]).is_dir,
        forall|a: int, b: int|
            0 <= a < b < r@.len() && (#[trigger] r@[a]).is_dir == (#[trigger] r@[b]).is_dir
                ==> name_le(r@[a].name@, r@[b].name@),
{
    let sorted = sort_entries(entries);
    let kept = drop_ignored(&sorted, ignore_dir);
    let rows = tree_rows(prefix, &kept);
    proof {
        let s = entries_view(sorted@);
        lemma_kept_in_order(s, views(ignore_dir@));
        let k = kept_entries(s, views(ignore_dir@));
        assert forall|a: int, b: int| 0 <= a < b < rows@.len() implies listed_before(
            (rows@[a].name@, rows@[a].path@, rows@[a].is_dir),
            (rows@[b].name@, rows@[b].path@, rows@[b].is_dir),
        ) by {
            assert((rows@[a].name@, rows@[a].path@, rows@[a].is_dir) == k[a]);
            assert((rows@[b].name@, rows@[b].path@, rows@[b].is_dir) == k[b]);
        }
    }
    rows
}

/// The branches: `|--- ` before every entry but the last and `+--> ` before
/// the last; below an entry that is not last the prefix grows by `|    `,
/// below the last by five spaces.
pub proof fn lemma_branch_strings()
    ensures
        connector_of(false) == "|--- "@,
        connector_of(true) == "+--> "@,
        continuation_of(false) == "|    "@,
        continuation_of(true) == "     "@,
{
}

/// The order of names is the order of code points, first difference first: `a`
/// comes before `b` exactly when `a` is a prefix of `b`, or at the first index
/// where they differ `a` has the smaller character.
pub proof fn lemma_name_order(a: Seq<char>, b: Seq<char>)
    ensures
        name_le(a, b) <==> ((a.len() <= b.len() && b.take(a.len() as int) == a) || exists|k: int|
            0 <= k < a.len() && k < b.len() && a.take(k) == b.take(k) && #[trigger] a[k] < b[k]),
    decreases a.len(),
{
    if a.len() == 0 {
        assert(b.take(0) =~= a);
    } else if b.len() == 0 {
    } else if a[0] < b[0] {
        assert(a.take(0) =~= b.take(0));
    } else if a[0] > b[0] {
        if exists|k: int| 0 <= k < a.len() && k < b.len() && a.take(k) == b.take(k) && #[trigger] a[k] < b[k] {
            let k = choose|k: int| 0 <= k < a.len() && k < b.len() && a.take(k) == b.take(k) && #[trigger] a[k] < b[k];
            if k > 0 {
                assert(a.take(k)[0] == b.take(k)[0]);
            }
        }
        if a.len() <= b.len() && b.take(a.len() as int) == a {
            assert(b.take(a.len() as int)[0] == b[0]);
        }
    } else {
        let a1 = a.drop_first();
        let b1 = b.drop_first();
        lemma_name_order(a1, b1);
        if a.len() <= b.len() && b.take(a.len() as int) == a {
            assert(b1.take(a1.len() as int) =~= a1) by {
                assert forall|j: int| 0 <= j < a1.len() implies b1.take(a1.len() as int)[j] == a1[j] by {
                    assert(b.take(a.len() as int)[j + 1] == a[j + 1]);
                }
            }
        }
        if a1.len() <= b1.len() && b1.take(a1.len() as int) == a1 {
            assert(b.take(a.len() as int) =~= a) by {
                assert forall|j: int| 0 <= j < a.len() implies b.take(a.len() as int)[j] == a[j] by {
                    if j > 0 {
                        assert(b1.take(a1.len() as int)[j - 1] == a1[j - 1]);
                    }
                }
            }
        }
        if exists|k: int| 0 <= k < a.len() && k < b.len() && a.take(k) == b.take(k) && #[trigger] a[k] < b[k] {
            let k = choose|k: int| 0 <= k < a.len() && k < b.len() && a.take(k) == b.take(k) && #[trigger] a[k] < b[k];
            assert(k > 0);
            assert(a1.take(k - 1) =~= b1.take(k - 1)) by {
                assert forall|j: int| 0 <= j < k - 1 implies #[trigger] a1.take(k - 1)[j] == b1.take(k - 1)[j] by {
                    assert(a.take(k)[j + 1] == b.take(k)[j + 1]);
                }
            }
            assert(a1[k - 1] < b1[k - 1]);
        }
        if exists|k: int| 0 <= k < a1.len() && k < b1.len() && a1.take(k) == b1.take(k) && #[trigger] a1[k] < b1[k] {
            let k = choose|k: int| 0 <= k < a1.len() && k < b1.len() && a1.take(k) == b1.take(k) && #[trigger] a1[k] < b1[k];
            assert(a.take(k + 1) =~= b.take(k + 1)) by {
                assert forall|j: int| 0 <= j < k + 1 implies #[trigger] a.take(k + 1)[j] == b.take(k + 1)[j] by {
                    if j > 0 {
                        assert(a1.take(k)[j - 1] == b1.take(k)[j - 1]);
                    }
                }
            }
            assert(a[k + 1] < b[k + 1]);
        }
    }
}

} // verus!
