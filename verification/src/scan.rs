//! The decisions of the directory scan: which directories it enters and which
//! files it counts.

use vstd::prelude::*;
use crate::paths::{
    has_ignored_component, is_default_ignored, lemma_ignore_list_monotone, lemma_ignored_component_iff, parent_components, parent_ignored, path_components, path_extension,
    path_extension_of, should_ignore, views,
};
use crate::text::{all_ascii, ascii_lowercase, lowercase, str_in, to_lowercase};

verus! {

/// The scan enters a directory unless some component of its path is ignored;
/// it does not prune at other entries.
pub open spec fn walk_keeps(path: Seq<char>, is_dir: bool, ignore_dir: Seq<Seq<char>>) -> bool {
    !is_dir || !has_ignored_component(path_components(path), ignore_dir)
}

/// Whether the scan goes on past the entry at `path` (for a directory: enters it).
pub fn keep_walk_entry(path: &str, is_dir: bool, ignore_dir: &Vec<String>) -> (r: bool)
    ensures
        r == walk_keeps(path@, is_dir, views(ignore_dir@)),
{
    if is_dir {
        !should_ignore(path, ignore_dir)
    } else {
        true
    }
}

/// The extension by which `--ignore-ext` filters a file: its extension in
/// lowercase, or empty where it has none.
pub open spec fn filter_extension(path: Seq<char>) -> Seq<char> {
    match path_extension(path) {
        Some(e) => lowercase(e),
        None => Seq::empty(),
    }
}

/// The extension by which `--ignore-ext` filters the file at `path`.
pub fn file_filter_extension(path: &str) -> (r: String)
    ensures
        r@ == filter_extension(path@),
        path_extension(path@) matches Some(e) ==> (all_ascii(e) ==> r@ == ascii_lowercase(e)),
{
    match path_extension_of(path) {
        Some(e) => to_lowercase(e.as_str()),
        None => String::new(),
    }
}

/// The strings of `list`, each in lowercase.
pub fn lowercase_all(list: &Vec<String>) -> (r: Vec<String>)
    ensures
        r.len() == list.len(),
        forall|i: int| 0 <= i < list.len() ==> (#[trigger] r@[i])@ == lowercase(list@[i]@),
        forall|i: int|
            0 <= i < list.len() && all_ascii(list@[i]@) ==> (#[trigger] r@[i])@ == ascii_lowercase(
                list@[i]@,
            ),
{
    let mut r: Vec<String> = Vec::new();
    let mut i: usize = 0;
    while i < list.len()
        invariant
            i <= list.len(),
            r.len() == i,
            forall|j: int| 0 <= j < i ==> (#[trigger] r@[j])@ == lowercase(list@[j]@),
            forall|j: int|
                0 <= j < i && all_ascii(list@[j]@) ==> (#[trigger] r@[j])@ == ascii_lowercase(
                    list@[j]@,
                ),
        decreases list.len() - i,
    {
        r.push(to_lowercase(list[i].as_str()));
        i = i + 1;
    }
    r
}

/// The extension `ext` is one of those of `ignore_ext`, compared in lowercase.
pub open spec fn ext_excluded(ext: Seq<char>, ignore_ext: Seq<Seq<char>>) -> bool {
    exists|i: int| 0 <= i < ignore_ext.len() && lowercase(#[trigger] ignore_ext[i]) == ext
}

/// The scan counts a file that is a regular file, whose extension is not
/// excluded, and none of the directories above which is ignored (the ignore
/// lists name directories; the file's own name is not tested).
pub open spec fn counts_file(
    path: Seq<char>,
    is_file: bool,
    ignore_ext: Seq<Seq<char>>,
    ignore_dir: Seq<Seq<char>>,
) -> bool {
    &&& is_file
    &&& !ext_excluded(filter_extension(path), ignore_ext)
    &&& !has_ignored_component(parent_components(path_components(path)), ignore_dir)
}

/// Whether the scan counts the entry at `path`.
pub fn include_file(path: &str, is_file: bool, ignore_ext: &Vec<String>, ignore_dir: &Vec<String>) -> (r: bool)
    ensures
        r == counts_file(path@, is_file, views(ignore_ext@), views(ignore_dir@)),
{
    if !is_file {
        return false;
    }
    if ignore_ext.len() > 0 {
        let ext = file_filter_extension(path);
        let lowered = lowercase_all(ignore_ext);
        let found = str_in(ext.as_str(), &lowered);
        proof {
            if found {
                let k = choose|k: int| 0 <= k < lowered@.len() && #[trigger] lowered@[k]@ == ext@;
                assert(lowercase(views(ignore_ext@)[k]) == ext@);
            } else {
                assert forall|k: int| 0 <= k < views(ignore_ext@).len() implies lowercase(
                    #[trigger] views(ignore_ext@)[k],
                ) != ext@ by {
                    assert(lowered@[k]@ != ext@);
                }
            }
        }
        if found {
            return false;
        }
    }
    !parent_ignored(path, ignore_dir)
}

/// The overview counts a directory below the root no component of whose path
/// is a default ignored name (the extra ignore list plays no part here).
pub open spec fn counts_directory(path: Seq<char>, is_dir: bool, is_root: bool) -> bool {
    is_dir && !is_root && !has_ignored_component(path_components(path), Seq::empty())
}

/// Whether the overview counts the entry at `path` as one of the project's
/// directories; `is_root` tells whether it is the root of the walk itself.
pub fn counted_directory(path: &str, is_dir: bool, is_root: bool) -> (r: bool)
    ensures
        r == counts_directory(path@, is_dir, is_root),
{
    if !is_dir || is_root {
        return false;
    }
    let none: Vec<String> = Vec::new();
    assert(views(none@) =~= Seq::<Seq<char>>::empty());
    !should_ignore(path, &none)
}

/// Ignoring more never counts more: a file counted with the longer lists
/// (extensions compared in lowercase, directory names exactly) is counted
/// with the shorter ones.
pub proof fn lemma_ignoring_more_counts_less(
    path: Seq<char>,
    is_file: bool,
    ext1: Seq<Seq<char>>,
    ext2: Seq<Seq<char>>,
    dir1: Seq<Seq<char>>,
    dir2: Seq<Seq<char>>,
)
    requires
        counts_file(path, is_file, ext2, dir2),
        forall|k: int|
            0 <= k < ext1.len() ==> exists|j: int|
                0 <= j < ext2.len() && lowercase(#[trigger] ext1[k]) == lowercase(ext2[j]),
        forall|k: int| 0 <= k < dir1.len() ==> dir2.contains(#[trigger] dir1[k]),
    ensures
        counts_file(path, is_file, ext1, dir1),
{
    let e = filter_extension(path);
    if ext_excluded(e, ext1) {
        let k = choose|k: int| 0 <= k < ext1.len() && lowercase(#[trigger] ext1[k]) == e;
        let j = choose|j: int| 0 <= j < ext2.len() && lowercase(ext1[k]) == lowercase(ext2[j]);
        assert(lowercase(ext2[j]) == e);
        assert(ext_excluded(e, ext2));
    }
    let c = parent_components(path_components(path));
    if has_ignored_component(c, dir1) {
        lemma_ignore_list_monotone(c, dir1, dir2);
    }
}

/// The overview counts a directory exactly when it is a directory, is not the
/// root, and none of the components of its path, its own name included, is an
/// always-ignored name; in particular a directory whose own name is `.git`,
/// `target` or any other always-ignored name is never counted.
pub proof fn lemma_counted_directories(path: Seq<char>, is_dir: bool, is_root: bool)
    ensures
        counts_directory(path, is_dir, is_root) <==> (is_dir && !is_root && forall|i: int|
            0 <= i < path_components(path).len() ==> !is_default_ignored(
                #[trigger] path_components(path)[i],
            )),
        path_components(path).len() > 0 && is_default_ignored(path_components(path).last())
            ==> !counts_directory(path, is_dir, is_root),
{
    let c = path_components(path);
    lemma_ignored_component_iff(c, Seq::empty());
    if has_ignored_component(c, Seq::empty()) {
        let i = choose|i: int| 0 <= i < c.len() && crate::paths::is_ignored_name(#[trigger] c[i], Seq::empty());
        assert(is_default_ignored(c[i]));
    }
    if c.len() > 0 && is_default_ignored(c.last()) {
        assert(crate::paths::is_ignored_name(c[c.len() - 1], Seq::empty()));
    }
}

} // verus!
