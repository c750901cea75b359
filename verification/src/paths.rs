//! Paths: file names, extensions, and which paths the scan leaves out.

use vstd::prelude::*;
use crate::text::{chars_of, find_last, last_index_of, lemma_last_index_of, str_eq, str_in, string_from_chars};

verus! {

/// The character views of a sequence of strings.
pub open spec fn views(v: Seq<String>) -> Seq<Seq<char>> {
    v.map_values(|s: String| s@)
}

/// What `Path::components` gives for a path, each component as the text of
/// its `as_os_str()`.
pub uninterp spec fn path_components(path: Seq<char>) -> Seq<Seq<char>>;

/// What `Path::file_name` gives for a path: its final normal component, or
/// nothing where the path ends in `..` or is a root or prefix.
pub uninterp spec fn path_file_name(path: Seq<char>) -> Option<Seq<char>>;

/// Calls std's `Path::components` on `path` and returns the text of each
/// component (`as_os_str`). The contract claims only that the result is the
/// component list of `path`, a function of `path` alone; how std splits and
/// normalizes a path is not stated.
#[verifier::external_body]
pub(crate) fn component_names(path: &str) -> (r: Vec<String>)
    ensures
        views(r@) == path_components(path@),
{
    std::path::Path::new(path).components().map(|c| c.as_os_str().to_string_lossy().into_owned()).collect()
}

/// Calls std's `Path::file_name` on `path`. The contract claims only that the
/// result is the file name of `path`, a function of `path` alone; how std
/// finds it is not stated.
#[verifier::external_body]
pub(crate) fn file_name_of(path: &str) -> (r: Option<String>)
    ensures
        match r {
            Some(n) => path_file_name(path@) == Some(n@),
            None => path_file_name(path@) is None,
        },
{
    std::path::Path::new(path).file_name().map(|n| n.to_string_lossy().into_owned())
}

/// The extension of a file name, as `Path::extension` documents it: nothing
/// where the name holds no `.`, or begins with `.` and holds no other `.`;
/// otherwise the part after the final `.`.
pub open spec fn extension_of_name(name: Seq<char>) -> Option<Seq<char>> {
    let k = last_index_of(name, '.');
    if k <= 0 {
        None
    } else {
        Some(name.skip(k + 1))
    }
}

/// The extension of a file name.
pub fn extension_of(name: &str) -> (r: Option<String>)
    ensures
        match r {
            Some(e) => extension_of_name(name@) == Some(e@),
            None => extension_of_name(name@) is None,
        },
{
    let v = chars_of(name);
    match find_last(&v, '.') {
        Some(k) => {
            if k == 0 {
                None
            } else {
                proof {
                    lemma_last_index_of(v@, '.');
                }
                assert(k < v.len());
                let tail = v.as_slice().split_at(k + 1).1;
                assert(tail@ =~= v@.skip(k + 1));
                Some(string_from_chars(tail))
            }
        },
        None => None,
    }
}

/// The extension of a path: that of its file name.
pub open spec fn path_extension(path: Seq<char>) -> Option<Seq<char>> {
    match path_file_name(path) {
        Some(n) => extension_of_name(n),
        None => None,
    }
}

/// The extension of `path`, as `Path::extension` gives it.
pub fn path_extension_of(path: &str) -> (r: Option<String>)
    ensures
        match r {
            Some(e) => path_extension(path@) == Some(e@),
            None => path_extension(path@) is None,
        },
{
    match file_name_of(path) {
        Some(n) => extension_of(n.as_str()),
        None => None,
    }
}

/// Directory names that the scan always leaves out.
pub open spec fn is_default_ignored(name: Seq<char>) -> bool {
    ||| name == ".git"@
    ||| name == "target"@
    ||| name == "node_modules"@
    ||| name == ".idea"@
    ||| name == ".vscode"@
    ||| name == "dist"@
    ||| name == "build"@
    ||| name == "__pycache__"@
    ||| name == ".next"@
    ||| name == "vendor"@
}

/// Whether `name` is one of the directory names that the scan always leaves out.
pub fn default_ignored(name: &str) -> (r: bool)
    ensures
        r == is_default_ignored(name@),
{
    str_eq(name, ".git") || str_eq(name, "target") || str_eq(name, "node_modules") || str_eq(
        name,
        ".idea",
    ) || str_eq(name, ".vscode") || str_eq(name, "dist") || str_eq(name, "build") || str_eq(
        name,
        "__pycache__",
    ) || str_eq(name, ".next") || str_eq(name, "vendor")
}

/// A component name is ignored where it is a default name or one of `extra`.
pub open spec fn is_ignored_name(name: Seq<char>, extra: Seq<Seq<char>>) -> bool {
    is_default_ignored(name) || extra.contains(name)
}

/// Some component of the list is an ignored name.
pub open spec fn has_ignored_component(components: Seq<Seq<char>>, extra: Seq<Seq<char>>) -> bool {
    exists|i: int| 0 <= i < components.len() && is_ignored_name(#[trigger] components[i], extra)
}

/// Whether one of the first `n` components of `components` is a default
/// ignored name or one of `extra_ignore`.
pub fn leading_components_ignored(components: &Vec<String>, n: usize, extra_ignore: &Vec<String>) -> (r: bool)
    requires
        n <= components.len(),
    ensures
        r == has_ignored_component(views(components@).take(n as int), views(extra_ignore@)),
{
    let mut i: usize = 0;
    while i < n
        invariant
            n <= components.len(),
            i <= n,
            forall|j: int|
                0 <= j < i ==> !is_ignored_name(
                    #[trigger] views(components@)[j],
                    views(extra_ignore@),
                ),
        decreases n - i,
    {
        let name = components[i].as_str();
        let extra = str_in(name, extra_ignore);
        proof {
            if extra {
                let k = choose|k: int| 0 <= k < extra_ignore@.len() && #[trigger] extra_ignore@[k]@ == name@;
                assert(views(extra_ignore@)[k] == name@);
            } else {
                assert forall|k: int| 0 <= k < views(extra_ignore@).len() implies views(extra_ignore@)[k] != name@ by {
                    assert(extra_ignore@[k]@ != name@);
                }
            }
        }
        if default_ignored(name) || extra {
            assert(views(components@).take(n as int)[i as int] == views(components@)[i as int]);
            assert(is_ignored_name(views(components@).take(n as int)[i as int], views(extra_ignore@)));
            return true;
        }
        i = i + 1;
    }
    assert forall|j: int| 0 <= j < n implies !is_ignored_name(
        #[trigger] views(components@).take(n as int)[j],
        views(extra_ignore@),
    ) by {
        assert(views(components@).take(n as int)[j] == views(components@)[j]);
    }
    false
}

/// Whether some component of `components` is a default ignored name or one of
/// `extra_ignore`.
pub fn any_component_ignored(components: &Vec<String>, extra_ignore: &Vec<String>) -> (r: bool)
    ensures
        r == has_ignored_component(views(components@), views(extra_ignore@)),
{
    assert(views(components@).take(components.len() as int) =~= views(components@));
    leading_components_ignored(components, components.len(), extra_ignore)
}

/// Whether `path` is left out of the scan: some component of it is a default
/// ignored name or one of `extra_ignore`.
pub fn should_ignore(path: &str, extra_ignore: &Vec<String>) -> (r: bool)
    ensures
        r == has_ignored_component(path_components(path@), views(extra_ignore@)),
{
    let components = component_names(path);
    any_component_ignored(&components, extra_ignore)
}

/// The components of the directory that holds the last component: all
/// components but the last.
pub open spec fn parent_components(components: Seq<Seq<char>>) -> Seq<Seq<char>> {
    if components.len() == 0 {
        components
    } else {
        components.drop_last()
    }
}

/// Whether some directory above the last component of `path` is a default
/// ignored name or one of `extra_ignore`; the last component itself is not
/// tested.
pub fn parent_ignored(path: &str, extra_ignore: &Vec<String>) -> (r: bool)
    ensures
        r == has_ignored_component(parent_components(path_components(path@)), views(extra_ignore@)),
{
    let components = component_names(path);
    let n = components.len();
    if n == 0 {
        assert(views(components@).take(0) =~= views(components@));
        leading_components_ignored(&components, 0, extra_ignore)
    } else {
        assert(views(components@).take(n - 1) =~= views(components@).drop_last());
        leading_components_ignored(&components, n - 1, extra_ignore)
    }
}

/// A longer ignore list leaves out every path that a shorter one does.
pub proof fn lemma_ignore_list_monotone(
    components: Seq<Seq<char>>,
    e1: Seq<Seq<char>>,
    e2: Seq<Seq<char>>,
)
    requires
        has_ignored_component(components, e1),
        forall|k: int| 0 <= k < e1.len() ==> e2.contains(#[trigger] e1[k]),
    ensures
        has_ignored_component(components, e2),
{
    let i = choose|i: int| 0 <= i < components.len() && is_ignored_name(#[trigger] components[i], e1);
    if !is_default_ignored(components[i]) {
        let k = choose|k: int| 0 <= k < e1.len() && e1[k] == components[i];
        assert(e2.contains(e1[k]));
    }
    assert(is_ignored_name(components[i], e2));
}

/// A path below an ignored one, in components, is ignored too.
pub proof fn lemma_ignore_deeper(components: Seq<Seq<char>>, more: Seq<Seq<char>>, extra: Seq<Seq<char>>)
    requires
        has_ignored_component(components, extra),
    ensures
        has_ignored_component(components + more, extra),
{
    let i = choose|i: int| 0 <= i < components.len() && is_ignored_name(#[trigger] components[i], extra);
    assert((components + more)[i] == components[i]);
}

/// The directory names that are always ignored, and only these: `.git`,
/// `target`, `node_modules`, `.idea`, `.vscode`, `dist`, `build`,
/// `__pycache__`, `.next` and `vendor`.
pub proof fn lemma_default_ignored_names(name: Seq<char>)
    ensures
        is_default_ignored(name) <==> (name == ".git"@ || name == "target"@ || name == "node_modules"@ || name == ".idea"@ || name == ".vscode"@ || name == "dist"@ || name == "build"@ || name == "__pycache__"@ || name == ".next"@ || name == "vendor"@),
{
}

/// A path with any of the always-ignored names among its components is
/// ignored, whatever the extra list.
pub proof fn lemma_default_names_ignored_in_paths(components: Seq<Seq<char>>, extra: Seq<Seq<char>>, i: int)
    requires
        0 <= i < components.len(),
        components[i] == ".git"@ || components[i] == "target"@ || components[i] == "node_modules"@ || components[i] == ".idea"@ || components[i] == ".vscode"@ || components[i] == "dist"@ || components[i] == "build"@ || components[i] == "__pycache__"@ || components[i] == ".next"@ || components[i] == "vendor"@,
    ensures
        has_ignored_component(components, extra),
{
    lemma_default_ignored_names(components[i]);
    assert(is_ignored_name(components[i], extra));
}

/// A path is ignored exactly when one of its components is an always-ignored
/// name or one of the extra names.
pub proof fn lemma_ignored_component_iff(components: Seq<Seq<char>>, extra: Seq<Seq<char>>)
    ensures
        has_ignored_component(components, extra) <==> exists|i: int|
            0 <= i < components.len() && ((components[i] == ".git"@ || components[i] == "target"@ || components[i] == "node_modules"@ || components[i] == ".idea"@ || components[i] == ".vscode"@ || components[i] == "dist"@ || components[i] == "build"@ || components[i] == "__pycache__"@ || components[i] == ".next"@ || components[i] == "vendor"@) || extra.contains(
                #[trigger] components[i],
            )),
{
    if has_ignored_component(components, extra) {
        let i = choose|i: int| 0 <= i < components.len() && is_ignored_name(#[trigger] components[i], extra);
        lemma_default_ignored_names(components[i]);
    }
    if exists|i: int|
        0 <= i < components.len() && ((components[i] == ".git"@ || components[i] == "target"@ || components[i] == "node_modules"@ || components[i] == ".idea"@ || components[i] == ".vscode"@ || components[i] == "dist"@ || components[i] == "build"@ || components[i] == "__pycache__"@ || components[i] == ".next"@ || components[i] == "vendor"@) || extra.contains(
            #[trigger] components[i],
        )) {
        let i = choose|i: int|
            0 <= i < components.len() && ((components[i] == ".git"@ || components[i] == "target"@ || components[i] == "node_modules"@ || components[i] == ".idea"@ || components[i] == ".vscode"@ || components[i] == "dist"@ || components[i] == "build"@ || components[i] == "__pycache__"@ || components[i] == ".next"@ || components[i] == "vendor"@) || extra.contains(
                #[trigger] components[i],
            ));
        lemma_default_ignored_names(components[i]);
        assert(is_ignored_name(components[i], extra));
    }
}

/// What an extension is: where a file name has one, the name is a non-empty
/// stem, a `.`, and the extension, which holds no `.`; where it has none, the
/// name holds no `.`, or only one, in front.
pub proof fn lemma_extension_shape(name: Seq<char>)
    ensures
        extension_of_name(name) matches Some(e) ==> {
            &&& e.len() < name.len()
            &&& name == name.take(name.len() - e.len() - 1) + seq!['.'] + e
            &&& name.len() - e.len() - 1 > 0
            &&& forall|j: int| 0 <= j < e.len() ==> e[j] != '.'
        },
        extension_of_name(name) is None ==> forall|j: int|
            0 < j < name.len() ==> #[trigger] name[j] != '.',
{
    lemma_last_index_of(name, '.');
    let k = last_index_of(name, '.');
    if k > 0 {
        let e = name.skip(k + 1);
        assert(name =~= name.take(k) + seq!['.'] + e);
        assert(name.len() - e.len() - 1 == k);
        assert forall|j: int| 0 <= j < e.len() implies e[j] != '.' by {
            assert(e[j] == name[k + 1 + j]);
        }
    }
}

} // verus!
