//! Paths of files and directories, as text.

use crate::text::{chars_of, same, starts_with, string_of};
use vstd::prelude::*;

verus! {

/// `part` below `base`. An absolute part stands for itself, and a separator is put between the two
/// unless there is one or nothing to separate.
pub open spec fn joined_path(base: Seq<char>, part: Seq<char>) -> Seq<char> {
    if "/"@.is_prefix_of(part) {
        part
    } else if base.len() == 0 || base.last() == '/' {
        base + part
    } else {
        base + "/"@ + part
    }
}

/// Joins two paths.
pub fn join_path(base: &str, part: &str) -> (r: String)
    ensures
        r@ == joined_path(base@, part@),
{
    if starts_with(part, "/") {
        return part.to_owned();
    }
    let chars = chars_of(base);
    let n: usize = chars.len();
    if n == 0 || chars[n - 1] == '/' {
        base.to_owned().concat(part)
    } else {
        base.to_owned().concat("/").concat(part)
    }
}

/// Whether a path does not depend on the current directory.
pub fn is_absolute(path: &str) -> (r: bool)
    ensures
        r == "/"@.is_prefix_of(path@),
{
    starts_with(path, "/")
}

/// A relative path is joined below its directory: the directory begins the result, and the relative
/// path ends it.
pub proof fn relative_part_stays_below(base: Seq<char>, part: Seq<char>)
    requires
        !"/"@.is_prefix_of(part),
    ensures
        base.is_prefix_of(joined_path(base, part)),
        part.is_suffix_of(joined_path(base, part)),
{
    let whole = joined_path(base, part);
    assert(base =~= whole.subrange(0, base.len() as int));
    assert(part =~= whole.subrange(whole.len() - part.len(), whole.len() as int));
}

/// The directory that holds the caches of all users.
pub open spec fn cache_root() -> Seq<char> {
    "/var/tmp/archbrew-cache"@
}

/// The cache directory of a user.
pub open spec fn user_cache(user: Seq<char>) -> Seq<char> {
    joined_path(cache_root(), user)
}

/// The cache directory of a user.
pub fn cache_root_for_user(user: &str) -> (r: String)
    ensures
        r@ == user_cache(user@),
{
    join_path("/var/tmp/archbrew-cache", user)
}

/// Where the snapshots of AUR packages that a user downloaded are kept.
pub fn aur_snapshot_cache_dir(user: &str) -> (r: String)
    ensures
        r@ == joined_path(user_cache(user@), "snapshots"@),
{
    join_path(cache_root_for_user(user).as_str(), "snapshots")
}

/// Where the sources of AUR packages that a user built are kept.
pub fn aur_source_cache_dir(user: &str) -> (r: String)
    ensures
        r@ == joined_path(user_cache(user@), "sources"@),
{
    join_path(cache_root_for_user(user).as_str(), "sources")
}

/// The home directory that builds of a user see.
pub fn aur_sandbox_home_dir(user: &str) -> (r: String)
    ensures
        r@ == joined_path(user_cache(user@), "sandbox-home"@),
{
    join_path(cache_root_for_user(user).as_str(), "sandbox-home")
}

/// The position behind the last separator of `path`, or its beginning if it has none.
pub open spec fn last_component_start(path: Seq<char>) -> int
    decreases path.len(),
{
    if path.len() == 0 || path.last() == '/' {
        path.len() as int
    } else {
        last_component_start(path.drop_last())
    }
}

/// The file name that a path ends with: its last component, where empty components and those that
/// stand for the same directory do not count. A path has none if it has no other component, or if
/// the last one stands for the parent directory.
pub open spec fn file_name(path: Seq<char>) -> Option<Seq<char>>
    decreases path.len(),
{
    let start = last_component_start(path);
    if 0 <= start <= path.len() {
        let component = path.skip(start);
        if component == ".."@ {
            None
        } else if component != ""@ && component != "."@ {
            Some(component)
        } else if start > 0 {
            file_name(path.take(start - 1))
        } else {
            None
        }
    } else {
        None
    }
}

proof fn lemma_last_component_start(path: Seq<char>)
    ensures
        0 <= last_component_start(path) <= path.len(),
        last_component_start(path) > 0 ==> path[last_component_start(path) - 1] == '/',
        forall|i: int| last_component_start(path) <= i < path.len() ==> path[i] != '/',
    decreases path.len(),
{
    if path.len() > 0 && path.last() != '/' {
        lemma_last_component_start(path.drop_last());
        assert forall|i: int| last_component_start(path) <= i < path.len() implies path[i] != '/' by {
            if i < path.len() - 1 {
                assert(path.drop_last()[i] == path[i]);
            }
        }
    }
}

/// A file name is not empty and holds no separator.
pub proof fn file_name_is_one_component(path: Seq<char>)
    ensures
        file_name(path) matches Some(name) ==> name.len() > 0 && forall|i: int|
            0 <= i < name.len() ==> name[i] != '/',
    decreases path.len(),
{
    lemma_last_component_start(path);
    reveal_strlit("");
    let start = last_component_start(path);
    let component = path.skip(start);
    if component.len() == 0 {
        assert(component =~= ""@);
    }
    if start > 0 {
        file_name_is_one_component(path.take(start - 1));
    }
}

/// The name under which a package file is shown: its file name, or the whole path if it has none.
pub fn package_name_from_pkg_file(path: &str) -> (r: String)
    ensures
        r@ == (match file_name(path@) {
            Some(name) => name,
            None => path@,
        }),
{
    let chars = chars_of(path);
    let mut end: usize = chars.len();
    assert(path@.take(end as int) =~= path@);
    loop
        invariant
            end <= chars@.len(),
            chars@ == path@,
            file_name(path@) == file_name(path@.take(end as int)),
        decreases end,
    {
        let ghost part = path@.take(end as int);
        let mut start: usize = end;
        assert(part.take(start as int) =~= part);
        while start > 0 && chars[start - 1] != '/'
            invariant
                start <= end <= chars@.len(),
                chars@ == path@,
                part == path@.take(end as int),
                last_component_start(part) == last_component_start(part.take(start as int)),
            decreases start,
        {
            assert(part.take(start as int).drop_last() =~= part.take(start - 1));
            start -= 1;
        }
        assert(last_component_start(part) == start);
        let component = string_of(&chars, start, end);
        assert(component@ =~= part.skip(start as int));
        if same(component.as_str(), "..") {
            return path.to_owned();
        }
        if !same(component.as_str(), "") && !same(component.as_str(), ".") {
            return component;
        }
        if start == 0 {
            return path.to_owned();
        }
        assert(part.take(start - 1) =~= path@.take(start - 1));
        end = start - 1;
    }
}

/// The message for a directory that could not be made.
pub open spec fn directory_message(path: Seq<char>, reason: Seq<char>) -> Seq<char> {
    "failed to create directory '"@ + path + "': "@ + reason
}

/// Writes the message for a directory that could not be made.
pub fn directory_failure(path: &str, reason: &str) -> (r: String)
    ensures
        r@ == directory_message(path@, reason@),
{
    String::from_str("failed to create directory '").concat(path).concat("': ").concat(reason)
}

/// A relative part is put behind its directory with one separator between them, whether or not the
/// directory ends with one; an absolute part stands for itself.
pub proof fn parts_are_joined_by_one_separator(base: Seq<char>, part: Seq<char>)
    ensures
        part.len() > 0 && part[0] == '/' ==> joined_path(base, part) == part,
        (part.len() == 0 || part[0] != '/') ==> joined_path(base + "/"@, part) == base + "/"@
            + part,
        (part.len() == 0 || part[0] != '/') && base.len() > 0 && base.last() != '/' ==> joined_path(
            base,
            part,
        ) == base + "/"@ + part,
        (part.len() == 0 || part[0] != '/') ==> joined_path(Seq::empty(), part) == part,
{
    reveal_strlit("/");
    if part.len() > 0 && part[0] == '/' {
        assert(part.subrange(0, 1) =~= "/"@);
    } else if "/"@.is_prefix_of(part) {
        assert(part.subrange(0, 1)[0] == '/');
    }
    assert((base + "/"@).last() == '/');
    assert(Seq::empty() + part =~= part);
}

/// The cache of a user is a directory of its own below the one that holds all caches.
pub proof fn users_have_their_own_caches(user: Seq<char>)
    requires
        user.len() == 0 || user[0] != '/',
    ensures
        user_cache(user) == "/var/tmp/archbrew-cache"@ + "/"@ + user,
{
    reveal_strlit("/var/tmp/archbrew-cache");
    parts_are_joined_by_one_separator("/var/tmp/archbrew-cache"@, user);
}

proof fn lemma_last_component_of(front: Seq<char>, name: Seq<char>)
    requires
        front.len() == 0 || front.last() == '/',
        forall|i: int| 0 <= i < name.len() ==> name[i] != '/',
    ensures
        last_component_start(front + name) == front.len(),
        (front + name).skip(front.len() as int) == name,
    decreases name.len(),
{
    let path = front + name;
    assert(path.skip(front.len() as int) =~= name);
    if name.len() == 0 {
        assert(path =~= front);
    } else {
        assert(path.last() == name.last());
        assert(path.drop_last() =~= front + name.drop_last());
        lemma_last_component_of(front, name.drop_last());
    }
}

/// The file name of a path is what follows the last separator.
pub proof fn file_name_is_what_follows_the_last_separator(directory: Seq<char>, name: Seq<char>)
    requires
        name.len() > 0,
        name != "."@,
        name != ".."@,
        forall|i: int| 0 <= i < name.len() ==> name[i] != '/',
    ensures
        file_name(directory + "/"@ + name) == Some(name),
        file_name(name) == Some(name),
{
    reveal_strlit("/");
    reveal_strlit("");
    lemma_last_component_of(directory + "/"@, name);
    lemma_last_component_of(Seq::empty(), name);
    assert(Seq::empty() + name =~= name);
}

/// A separator at the end of a path, and a last component that stands for the same directory, do
/// not change its file name. A path that ends with the parent directory has none.
pub proof fn file_name_ignores_the_same_directory(path: Seq<char>)
    ensures
        file_name(path + "/"@) == file_name(path),
        file_name(path + "/"@ + "."@) == file_name(path),
        file_name(path + "/"@ + ".."@) is None,
        file_name(Seq::empty()) is None,
{
    reveal_strlit("/");
    reveal_strlit("");
    reveal_strlit(".");
    reveal_strlit("..");
    let front = path + "/"@;
    let none = Seq::<char>::empty();
    lemma_last_component_of(front, none);
    lemma_last_component_of(front, "."@);
    lemma_last_component_of(front, ".."@);
    lemma_last_component_of(none, none);
    assert(none =~= ""@);
    assert(none + none =~= none);
    assert(front + none =~= front);
    assert(front.take(front.len() - 1) =~= path);
    assert((front + "."@).take(front.len() - 1) =~= path);
    assert(".."@.len() == 2);
    assert(none != ".."@);
    assert("."@ != ".."@);
    assert("."@ != ""@) by {
        assert("."@.len() == 1);
    }
}

} // verus!
