//! Where a download is saved.

use vstd::prelude::*;

use crate::text;

verus! {

/// `path` without the slashes and the components `.` at its end, but for a root or a `.` that is all
/// of it.
pub open spec fn stripped(path: Seq<char>) -> Seq<char>
    decreases path.len(),
{
    if path.len() > 1 && (path.last() == '/' || (path.last() == '.' && path[path.len() - 2]
        == '/')) {
        stripped(path.drop_last())
    } else {
        path
    }
}

/// `path` up to its last slash.
pub open spec fn up_to_slash(path: Seq<char>) -> Seq<char> {
    text::trimmed_end(path, |c: char| c != '/')
}

/// `path` without its final component: nothing if it is empty or the root.
pub open spec fn without_final(path: Seq<char>) -> Option<Seq<char>> {
    let components = stripped(path);
    if components.len() == 0 || components == seq!['/'] {
        None
    } else {
        Some(stripped(up_to_slash(components)))
    }
}

/// `path` starts with a drive, where there are drives, and nothing but its final component follows.
pub open spec fn is_all_drive(path: Seq<char>) -> bool {
    &&& path.len() >= 2
    &&& path[0] != '/'
    &&& path[1] == ':'
    &&& without_final(path) is None || without_final(path)->0.len() <= 2
}

/// `path` has the same components on every platform: it holds no backslash, which may separate
/// components, and starts with no two slashes, which may name a server, and with no drive in which
/// its final component stands alone.
pub open spec fn is_portable(path: Seq<char>) -> bool {
    &&& !path.contains('\\')
    &&& !(path.len() >= 2 && path[0] == '/' && path[1] == '/')
    &&& !is_all_drive(path)
}

/// `parent` is what remains of `path` without its final component.
pub open spec fn is_parent(path: Seq<char>, parent: Option<Seq<char>>) -> bool {
    &&& is_portable(path) ==> parent == without_final(path)
    &&& parent is Some ==> parent->0.is_prefix_of(path) && parent->0.len() < path.len()
}

/// The directory that `parent` gives: the current one, if there is no parent.
pub open spec fn directory(parent: Option<Seq<char>>) -> Seq<char> {
    match parent {
        Some(dir) => dir,
        None => "."@,
    }
}

/// `std::path::Path::parent` gives the path without its final component, if there is one. Repeated
/// slashes, slashes at the end and components `.` do not count, but for a `.` at the start. Which
/// components a path with a backslash, with two slashes at its start or with a drive and one
/// component has depends on the platform and is left unsaid; whatever comes back is a proper start
/// of the path.
#[verifier::external_body]
fn parent_of(path: &str) -> (res: Option<String>)
    ensures
        (match res {
            Some(dir) => is_parent(path@, Some(dir@)),
            None => is_parent(path@, None),
        }),
{
    std::path::Path::new(path).parent().map(|parent| parent.to_string_lossy().into_owned())
}

/// The directory that a parent gives.
pub fn directory_or_current(parent: Option<String>) -> (res: String)
    ensures
        res@ == directory(
            match parent {
                Some(dir) => Some(dir@),
                None => None,
            },
        ),
{
    match parent {
        Some(dir) => dir,
        None => ".".to_owned(),
    }
}

/// `dir` is where the file `save_path` belongs: its parent, or the current directory if it has none.
pub open spec fn is_output_directory(save_path: Seq<char>, dir: Seq<char>) -> bool {
    exists|parent: Option<Seq<char>>|
        #[trigger] is_parent(save_path, parent) && dir == directory(parent)
}

/// The directory in which to save a download.
pub fn output_directory(save_path: &str) -> (res: String)
    ensures
        is_output_directory(save_path@, res@),
        is_portable(save_path@) ==> res@ == directory(without_final(save_path@)),
{
    directory_or_current(parent_of(save_path))
}

/// Stripping leaves a start of the path that cannot be stripped again.
proof fn lemma_stripped(path: Seq<char>)
    ensures
        stripped(path).is_prefix_of(path),
        stripped(stripped(path)) == stripped(path),
        stripped(path).len() > 1 ==> stripped(path).last() != '/',
    decreases path.len(),
{
    if path.len() > 1 && (path.last() == '/' || (path.last() == '.' && path[path.len() - 2]
        == '/')) {
        lemma_stripped(path.drop_last());
        let rest = stripped(path);
        assert(path.subrange(0, rest.len() as int) =~= path.drop_last().subrange(
            0,
            rest.len() as int,
        ));
    }
}

/// What is trimmed at its end is a start of the text, and a proper one if the last character goes.
proof fn lemma_up_to_slash(path: Seq<char>)
    ensures
        up_to_slash(path).is_prefix_of(path),
        path.len() > 0 && path.last() != '/' ==> up_to_slash(path).len() < path.len(),
    decreases path.len(),
{
    if path.len() > 0 && path.last() != '/' {
        lemma_up_to_slash(path.drop_last());
        let rest = up_to_slash(path);
        assert(rest == up_to_slash(path.drop_last()));
        assert(path.subrange(0, rest.len() as int) =~= path.drop_last().subrange(
            0,
            rest.len() as int,
        ));
    }
}

/// A path without its final component is a proper start of the path.
pub proof fn law_parent_is_a_proper_start(path: Seq<char>)
    ensures
        without_final(path) is Some ==> without_final(path)->0.is_prefix_of(path)
            && without_final(path)->0.len() < path.len(),
        is_parent(path, without_final(path)),
{
    let components = stripped(path);
    lemma_stripped(path);
    lemma_up_to_slash(components);
    lemma_stripped(up_to_slash(components));
    if without_final(path) is Some {
        let parent = without_final(path)->0;
        if components.len() == 1 {
            assert(components =~= seq![components[0]]);
        }
        assert(path.subrange(0, parent.len() as int) =~= components.subrange(
            0,
            parent.len() as int,
        ));
        assert(components.subrange(0, parent.len() as int) =~= up_to_slash(components).subrange(
            0,
            parent.len() as int,
        ));
    }
}

/// A name in a directory is saved in that directory, as far as the directory is stripped.
pub proof fn law_directory_of_a_name(dir: Seq<char>, name: Seq<char>, output: Seq<char>)
    requires
        dir.len() > 0,
        name.len() > 0,
        !name.contains('/'),
        name != seq!['.'],
        is_portable(dir + seq!['/'] + name),
        is_output_directory(dir + seq!['/'] + name, output),
    ensures
        output == stripped(dir + seq!['/']),
        dir != seq!['/'] ==> output == stripped(dir),
{
    let start = dir + seq!['/'];
    let path = start + name;
    assert(name[name.len() - 1] == path.last());
    assert(path.last() != '/');
    if path.last() == '.' {
        if name.len() == 1 {
            assert(name =~= seq!['.']);
        }
        assert(path[path.len() - 2] == name[name.len() - 2]);
    }
    assert(stripped(path) == path);
    assert forall|i: int| 0 <= i < name.len() implies (|c: char| c != '/')(#[trigger] name[i]) by {
        assert(name.contains(name[i]));
    }
    text::lemma_trimmed_end_skips(start, name, |c: char| c != '/');
    assert(up_to_slash(start) == start);
    assert(start.drop_last() =~= dir);
}

/// A single name is saved under an empty path, a name in the root there, an empty path or the root in
/// the current directory.
pub proof fn law_directory_without_directory(name: Seq<char>, output: Seq<char>)
    requires
        name.len() > 0,
        !name.contains('/'),
    ensures
        is_portable(name) && is_output_directory(name, output) ==> output == Seq::<char>::empty(),
        name != seq!['.'] && is_portable(seq!['/'] + name) && is_output_directory(
            seq!['/'] + name,
            output,
        ) ==> output == seq!['/'],
        is_output_directory(Seq::empty(), output) ==> output == "."@,
        is_output_directory(seq!['/'], output) ==> output == "."@,
{
    let empty = Seq::<char>::empty();
    let root = seq!['/'];
    let path = root + name;
    let kept = |c: char| c != '/';
    assert forall|i: int| 0 <= i < name.len() implies kept(#[trigger] name[i]) by {
        assert(name.contains(name[i]));
    }
    assert(name.last() == name[name.len() - 1]);
    assert(stripped(name) == name);
    assert(name != root) by {
        if name == root {
            assert(name[0] == '/');
        }
    }
    text::lemma_trimmed_end_skips(empty, name, kept);
    assert(empty + name =~= name);
    text::lemma_trimmed_end_skips(root, name, kept);
    assert(path.last() == name.last());
    if name != seq!['.'] {
        if name.len() == 1 && name.last() == '.' {
            assert(name =~= seq!['.']);
        }
        if name.len() > 1 {
            assert(path[path.len() - 2] == name[name.len() - 2]);
        }
        assert(stripped(path) == path);
    }
    assert(is_portable(empty));
    assert(is_portable(root));
}

/// A path has the same components on every platform if it has no backslash and starts with neither two
/// slashes nor a drive, or with a drive and more than one component behind it.
pub proof fn law_portable_paths(path: Seq<char>)
    requires
        !path.contains('\\'),
        path.len() >= 2 ==> path[0] != '/' || path[1] != '/',
        path.len() >= 2 && path[0] != '/' && path[1] == ':' ==> without_final(path) is Some
            && without_final(path)->0.len() > 2,
    ensures
        is_portable(path),
{
}

/// Slashes and components `.` at the end of a path do not count, and nothing else is taken away.
pub proof fn law_ends_that_do_not_count(path: Seq<char>)
    ensures
        path.len() > 0 ==> stripped(path.push('/')) == stripped(path),
        path.len() > 0 ==> stripped(path.push('/').push('.')) == stripped(path),
        path.len() <= 1 ==> stripped(path) == path,
        path.len() > 1 && path.last() != '/' && !(path.last() == '.' && path[path.len() - 2] == '/')
            ==> stripped(path) == path,
        path.len() > 0 ==> without_final(path.push('/')) == without_final(path),
        path.len() > 0 ==> without_final(path.push('/').push('.')) == without_final(path),
        without_final(seq!['/', '.']) is None,
{
    assert(seq!['/', '.'].drop_last() =~= seq!['/']);
    assert(stripped(seq!['/']) == seq!['/']);
    let slash = path.push('/');
    let dot = slash.push('.');
    assert(slash.drop_last() =~= path);
    assert(dot.drop_last() =~= slash);
    assert(path.len() > 0 ==> stripped(slash) == stripped(path));
    assert(path.len() > 0 ==> stripped(dot) == stripped(slash));
}

/// The directory of a portable path is the path without its final component, and the current one if
/// that is nothing. Of any path it is a proper start, or the current one.
pub proof fn law_output_directory(save_path: Seq<char>, dir: Seq<char>)
    requires
        is_output_directory(save_path, dir),
    ensures
        is_portable(save_path) ==> dir == (match without_final(save_path) {
            Some(parent) => parent,
            None => "."@,
        }),
        dir == "."@ || (dir.is_prefix_of(save_path) && dir.len() < save_path.len()),
{
}

} // verus!
