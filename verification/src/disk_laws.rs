//! Which files and directories belong to an application, and what they take up.

use vstd::prelude::*;
use crate::counter_laws::fitting;
use crate::disk::{
    block_bytes, components, directory_names, first_sizes, is_temporary, joined, linked_files,
    named, permanent_roots, present, roots_for, socket_number, temporary_roots, Directories,
    FileSize, LinkedFile, Places,
};
use crate::resources::{merge_files, DiskFile, DiskFileId};
use crate::splitting_laws::{is_free_of, lemma_parse_decimal, lemma_together_split, together};
use crate::text::{after_last, ascii_lowercase, byte_len, decimal, starts_with};
use crate::text_laws::lemma_endings;

verus! {

// ---------------------------------------------------------------------
// Places

/// These can be the names on a path.
pub open spec fn are_names(names: Seq<Seq<char>>) -> bool {
    forall|i: int|
        0 <= i < names.len() ==> (#[trigger] names[i]).len() > 0 && is_free_of(names[i], '/')
            && names[i] != "."@
}

/// The path from the root along these names.
pub open spec fn absolute(names: Seq<Seq<char>>) -> Seq<char> {
    seq!['/'] + together(names, '/')
}

/// The first way begins with the second.
pub open spec fn goes_through(names: Seq<Seq<char>>, way: Seq<Seq<char>>) -> bool {
    way.len() <= names.len() && forall|i: int| 0 <= i < way.len() ==> names[i] == #[trigger] way[i]
}

proof fn lemma_named(names: Seq<Seq<char>>)
    requires
        are_names(names),
    ensures
        named(names) == names,
        named(seq![Seq::<char>::empty()] + names) == names,
    decreases names.len(),
{
    let empty = Seq::<char>::empty();
    let more = seq![empty] + names;
    if names.len() > 0 {
        let front = names.drop_last();
        assert forall|i: int| 0 <= i < front.len() implies (#[trigger] front[i]).len() > 0
            && is_free_of(front[i], '/') && front[i] != "."@ by {
            assert(front[i] == names[i]);
        }
        lemma_named(front);
        assert(names[names.len() - 1] == names.last());
        assert(front.push(names.last()) =~= names);
        assert(more.drop_last() =~= seq![empty] + front);
        assert(more.last() == names.last());
    } else {
        assert(named(names) =~= names);
        assert(more.drop_last() =~= names);
        assert(more.last().len() == 0);
    }
}

/// A path is taken apart into its names.
pub proof fn lemma_components(names: Seq<Seq<char>>)
    requires
        are_names(names),
        names.len() > 0,
    ensures
        components(absolute(names)) == seq!["/"@] + names,
        components(together(names, '/')) == names,
{
    reveal_strlit(".");
    let empty = Seq::<char>::empty();
    let more = seq![empty] + names;
    assert forall|i: int| 0 <= i < more.len() implies is_free_of(#[trigger] more[i], '/') by {
        if i > 0 {
            assert(more[i] == names[i - 1]);
        }
    }
    assert forall|i: int| 0 <= i < names.len() implies is_free_of(#[trigger] names[i], '/') by {}
    lemma_together_split(more, '/');
    lemma_together_split(names, '/');
    assert(more.skip(1) =~= names);
    assert(together(more, '/') =~= absolute(names));
    lemma_named(names);
    let path = together(names, '/');
    assert(path.len() > 0 && path[0] == names[0][0]) by {
        assert(names[0].len() > 0);
    }
    assert(is_free_of(names[0], '/'));
    assert(names[0] != "."@);
    assert(components(path) =~= names);
}

proof fn lemma_through(names: Seq<Seq<char>>, way: Seq<Seq<char>>)
    ensures
        crate::disk::lies_under(seq!["/"@] + names, seq!["/"@] + way) == goes_through(names, way),
{
    let path = seq!["/"@] + names;
    let root = seq!["/"@] + way;
    if goes_through(names, way) {
        assert(path.take(root.len() as int) =~= root) by {
            assert forall|i: int| 0 <= i < root.len() implies path.take(root.len() as int)[i]
                == root[i] by {
                if i > 0 {
                    assert(way[i - 1] == names[i - 1]);
                }
            }
        }
    }
    if root.len() <= path.len() && path.take(root.len() as int) == root {
        assert forall|i: int| 0 <= i < way.len() implies names[i] == #[trigger] way[i] by {
            assert(path.take(root.len() as int)[i + 1] == root[i + 1]);
        }
    }
}

/// The place is known, and it is this one.
pub open spec fn is_at(place: Option<String>, way: Seq<Seq<char>>) -> bool {
    place is Some && place->0@ == absolute(way)
}

/// A file is temporary in the system's directories for temporary files, in the user's
/// runtime and cache directories and in the cache below the home directory, and
/// nowhere else.
pub proof fn lemma_temporary(
    names: Seq<Seq<char>>,
    places: Places,
    home: Seq<Seq<char>>,
    runtime: Seq<Seq<char>>,
    cache: Seq<Seq<char>>,
)
    requires
        are_names(names) && names.len() > 0,
        are_names(home) && home.len() > 0,
        are_names(runtime) && runtime.len() > 0,
        are_names(cache) && cache.len() > 0,
        places.home is None || is_at(places.home, home),
        places.runtime is None || is_at(places.runtime, runtime),
        places.cache is None || is_at(places.cache, cache),
    ensures
        is_temporary(absolute(names), places) == ({
            ||| goes_through(names, seq!["tmp"@])
            ||| goes_through(names, seq!["var"@, "tmp"@])
            ||| goes_through(names, seq!["dev"@, "shm"@])
            ||| places.runtime is Some && goes_through(names, runtime)
            ||| places.cache is Some && goes_through(names, cache)
            ||| places.home is Some && goes_through(names, home.push(".cache"@))
        }),
{
    lemma_components(names);
    lemma_components(home);
    lemma_components(runtime);
    lemma_components(cache);
    lemma_system_places();
    lemma_through(names, seq!["tmp"@]);
    lemma_through(names, seq!["var"@, "tmp"@]);
    lemma_through(names, seq!["dev"@, "shm"@]);
    lemma_through(names, runtime);
    lemma_through(names, cache);
    lemma_through(names, home.push(".cache"@));
    assert((seq!["/"@] + home).push(".cache"@) =~= seq!["/"@] + home.push(".cache"@));
}

proof fn lemma_system_places()
    ensures
        components("/tmp"@) == seq!["/"@] + seq!["tmp"@],
        components("/var/tmp"@) == seq!["/"@] + seq!["var"@, "tmp"@],
        components("/dev/shm"@) == seq!["/"@] + seq!["dev"@, "shm"@],
{
    reveal_strlit(".");
    reveal_strlit("tmp");
    reveal_strlit("var");
    reveal_strlit("dev");
    reveal_strlit("shm");
    reveal_strlit("/tmp");
    reveal_strlit("/var/tmp");
    reveal_strlit("/dev/shm");
    let t = seq!["tmp"@];
    let v = seq!["var"@, "tmp"@];
    let d = seq!["dev"@, "shm"@];
    assert(absolute(t) =~= "/tmp"@);
    assert(v.skip(1) =~= t);
    assert(together(v, '/') =~= "var"@ + seq!['/'] + "tmp"@);
    assert(absolute(v) =~= "/var/tmp"@);
    assert(d.skip(1) =~= seq!["shm"@]);
    assert(together(seq!["shm"@], '/') == "shm"@);
    assert(together(d, '/') =~= "dev"@ + seq!['/'] + "shm"@);
    assert(absolute(d) =~= "/dev/shm"@);
    lemma_components(t);
    lemma_components(v);
    lemma_components(d);
}

// ---------------------------------------------------------------------
// Files

/// A block takes 512 bytes.
pub proof fn lemma_blocks(blocks: u64)
    ensures
        block_bytes(blocks) == fitting(blocks * 512),
{
}

/// A process's files are those that it links to; of two links to one file the later
/// one counts.
pub proof fn lemma_links(links: Seq<LinkedFile>, link: LinkedFile, places: Places)
    ensures
        linked_files(Seq::empty(), places) == Map::<DiskFileId, DiskFile>::empty(),
        link.file is None ==> linked_files(links.push(link), places) == linked_files(links, places),
        link.file is Some ==> ({
            let all = linked_files(links.push(link), places);
            let id = link.file->0.id;
            &&& all.contains_key(id)
            &&& all[id].bytes == fitting(link.file->0.blocks * 512)
            &&& all[id].temporary == is_temporary(link.link@, places)
            &&& forall|other: DiskFileId|
                other != id ==> (#[trigger] all.contains_key(other)) == linked_files(
                    links,
                    places,
                ).contains_key(other)
            &&& forall|other: DiskFileId|
                other != id && linked_files(links, places).contains_key(other)
                    ==> #[trigger] all[other] == linked_files(links, places)[other]
        }),
{
    assert(links.push(link).drop_last() =~= links);
}

/// One of the links leads to this file.
pub open spec fn leads_to(links: Seq<LinkedFile>, id: DiskFileId) -> bool {
    exists|k: int|
        0 <= k < links.len() && (#[trigger] links[k]).file is Some && links[k].file->0.id == id
}

/// A process's files are those that its links lead to.
pub proof fn lemma_linked(links: Seq<LinkedFile>, places: Places, id: DiskFileId)
    ensures
        linked_files(links, places).contains_key(id) == leads_to(links, id),
    decreases links.len(),
{
    if links.len() > 0 {
        let front = links.drop_last();
        lemma_linked(front, places, id);
        if leads_to(front, id) {
            let k = choose|k: int|
                0 <= k < front.len() && (#[trigger] front[k]).file is Some && front[k].file->0.id
                    == id;
            assert(links[k] == front[k]);
        }
        if leads_to(links, id) {
            let k = choose|k: int|
                0 <= k < links.len() && (#[trigger] links[k]).file is Some && links[k].file->0.id
                    == id;
            if k < front.len() {
                assert(front[k] == links[k]);
            }
        }
        if links.last().file is Some {
            assert(links[links.len() - 1] == links.last());
        }
    }
}

/// A link to a socket names its number; no other link does.
pub proof fn lemma_socket(number: u64, other: Seq<char>)
    requires
        !starts_with(other, "socket:["@),
    ensures
        socket_number("socket:["@ + decimal(number as nat) + "]"@) == Some(number as nat),
        socket_number(other) is None,
{
    let d = decimal(number as nat);
    lemma_endings(d, "]"@);
    lemma_endings(d + "]"@, "socket:["@);
    assert("socket:["@ + d + "]"@ =~= "socket:["@ + (d + "]"@));
    lemma_parse_decimal(number as nat, u64::MAX as nat);
}

/// Files of two processes are taken together: a file that both have counts once, with
/// its larger size, and as temporary where it is so for either.
pub proof fn lemma_merged(
    a: Map<DiskFileId, DiskFile>,
    b: Map<DiskFileId, DiskFile>,
    id: DiskFileId,
)
    ensures
        merge_files(a, b).contains_key(id) == (a.contains_key(id) || b.contains_key(id)),
        a.contains_key(id) && !b.contains_key(id) ==> merge_files(a, b)[id] == a[id],
        b.contains_key(id) && !a.contains_key(id) ==> merge_files(a, b)[id] == b[id],
        a.contains_key(id) && b.contains_key(id) ==> ({
            let file = merge_files(a, b)[id];
            &&& file.bytes >= a[id].bytes
            &&& file.bytes >= b[id].bytes
            &&& file.bytes == a[id].bytes || file.bytes == b[id].bytes
            &&& file.temporary == (a[id].temporary || b[id].temporary)
        }),
{
}

/// A file that is met twice in a directory takes up its size once: that which it had
/// when it was met first.
pub proof fn lemma_met_once(files: Seq<FileSize>, i: int)
    requires
        0 <= i < files.len(),
        forall|j: int| 0 <= j < i ==> (#[trigger] files[j]).id != files[i].id,
    ensures
        first_sizes(files).contains_key(files[i].id),
        first_sizes(files)[files[i].id] == fitting(files[i].blocks * 512),
    decreases files.len(),
{
    let front = files.drop_last();
    if i < front.len() {
        assert forall|j: int| 0 <= j < i implies (#[trigger] front[j]).id != front[i].id by {
            assert(front[j] == files[j]);
        }
        lemma_met_once(front, i);
    } else {
        lemma_only_met(front, files[i].id);
        if first_sizes(front).contains_key(files[i].id) {
            let j = choose|j: int| 0 <= j < front.len() && (#[trigger] front[j]).id == files[i].id;
            assert(files[j].id == files[i].id);
        }
    }
}

/// Only files that are met take up anything.
pub proof fn lemma_only_met(files: Seq<FileSize>, id: DiskFileId)
    ensures
        first_sizes(files).contains_key(id) ==> exists|j: int|
            0 <= j < files.len() && (#[trigger] files[j]).id == id,
    decreases files.len(),
{
    if files.len() > 0 && first_sizes(files).contains_key(id) {
        let front = files.drop_last();
        lemma_only_met(front, id);
        if first_sizes(front).contains_key(id) {
            let j = choose|j: int| 0 <= j < front.len() && (#[trigger] front[j]).id == id;
            assert(files[j].id == id);
        } else {
            assert(files[files.len() - 1].id == id);
        }
    }
}

// ---------------------------------------------------------------------
// Directories

/// A name below a directory.
pub proof fn lemma_joined(directory: Seq<char>, name: Seq<char>)
    requires
        directory.len() > 0,
        name.len() > 0,
    ensures
        name[0] == '/' ==> joined(directory, name) == name,
        name[0] != '/' && directory.last() != '/' ==> joined(directory, name) == directory + "/"@
            + name,
        name[0] != '/' && directory.last() == '/' ==> joined(directory, name) == directory + name,
{
}

/// The directories of an application have its id as their name, as it stands or in
/// lower case, or the part of it behind the last dot where that is long enough.
pub proof fn lemma_directory_names(target: Seq<char>, name: Seq<char>)
    ensures
        directory_names(target).contains(name) == ({
            ||| name == target
            ||| name == ascii_lowercase(target)
            ||| name == after_last(target, '.') && byte_len(name) >= 4
            ||| name == after_last(ascii_lowercase(target), '.') && byte_len(name) >= 4
        }),
{
    let lower = ascii_lowercase(target);
    let first = seq![target];
    let a = crate::disk::with_name(first, lower);
    let b = crate::disk::with_short(a, target);
    let c = crate::disk::with_short(b, lower);
    lemma_with(first, lower, name);
    lemma_with(a, after_last(target, '.'), name);
    lemma_with(b, after_last(lower, '.'), name);
    assert(first.contains(name) == (name == target)) by {
        assert(first[0] == target);
    }
    assert(c == directory_names(target));
}

proof fn lemma_with(names: Seq<Seq<char>>, more: Seq<char>, name: Seq<char>)
    ensures
        crate::disk::with_name(names, more).contains(name) == (names.contains(name) || name == more),
{
    let pushed = names.push(more);
    if names.contains(name) {
        let i = choose|i: int| 0 <= i < names.len() && names[i] == name;
        assert(pushed[i] == name);
    }
    assert(pushed[names.len() as int] == more);
    if pushed.contains(name) && name != more {
        let i = choose|i: int| 0 <= i < pushed.len() && pushed[i] == name;
        assert(names[i] == name);
    }
}

/// Every name stands in every directory, and nothing else.
pub proof fn lemma_roots(names: Seq<Seq<char>>, directories: Seq<Seq<char>>, root: Seq<char>)
    ensures
        roots_for(names, directories).contains(root) == exists|i: int, j: int|
            0 <= i < names.len() && 0 <= j < directories.len() && root == joined(
                #[trigger] directories[j],
                #[trigger] names[i],
            ),
    decreases names.len(),
{
    if names.len() > 0 {
        let front = names.drop_last();
        let last = names.last();
        let before = roots_for(front, directories);
        let here = directories.map_values(|directory: Seq<char>| joined(directory, last));
        let all = roots_for(names, directories);
        lemma_roots(front, directories, root);
        if all.contains(root) {
            let k = choose|k: int| 0 <= k < all.len() && all[k] == root;
            if k < before.len() {
                assert(before[k] == root);
                let (i, j) = choose|i: int, j: int|
                    0 <= i < front.len() && 0 <= j < directories.len() && root == joined(
                        #[trigger] directories[j],
                        #[trigger] front[i],
                    );
                assert(names[i] == front[i]);
                assert(root == joined(directories[j], names[i]));
            } else {
                let j = k - before.len();
                assert(here[j] == root);
                assert(root == joined(directories[j], names[names.len() - 1]));
            }
        }
        if exists|i: int, j: int|
            0 <= i < names.len() && 0 <= j < directories.len() && root == joined(
                #[trigger] directories[j],
                #[trigger] names[i],
            ) {
            let (i, j) = choose|i: int, j: int|
                0 <= i < names.len() && 0 <= j < directories.len() && root == joined(
                    #[trigger] directories[j],
                    #[trigger] names[i],
                );
            if i < front.len() {
                assert(front[i] == names[i]);
                assert(before.contains(root));
                let k = choose|k: int| 0 <= k < before.len() && before[k] == root;
                assert(all[k] == root);
            } else {
                assert(here[j] == root);
                assert(all[before.len() + j] == root);
            }
        }
    }
}

/// An application keeps lasting data in its directories below those for data,
/// configuration and state.
pub proof fn lemma_permanent_root(
    target: Seq<char>,
    directories: Directories,
    name: Seq<char>,
    directory: String,
)
    requires
        directories.data == Some(directory) || directories.config == Some(directory)
            || directories.state == Some(directory),
        directory_names(target).contains(name),
    ensures
        permanent_roots(target, directories).contains(joined(directory@, name)),
{
    let names = directory_names(target);
    let d = present(directories.data);
    let c = present(directories.config);
    let all = d + c + present(directories.state);
    let i = choose|i: int| 0 <= i < names.len() && names[i] == name;
    let j: int = if directories.data == Some(directory) {
        0
    } else if directories.config == Some(directory) {
        d.len() as int
    } else {
        (d.len() + c.len()) as int
    };
    assert(all[j] == directory@);
    lemma_roots(names, all, joined(directory@, name));
    assert(joined(all[j], names[i]) == joined(directory@, name));
    let roots = roots_for(names, all);
    let k = choose|k: int| 0 <= k < roots.len() && roots[k] == joined(directory@, name);
    assert(permanent_roots(target, directories)[k] == joined(directory@, name));
}

/// It keeps temporary data in those below the cache and runtime directories.
pub proof fn lemma_temporary_root(
    target: Seq<char>,
    directories: Directories,
    name: Seq<char>,
    directory: String,
)
    requires
        directories.cache == Some(directory) || directories.runtime == Some(directory),
        directory_names(target).contains(name),
    ensures
        temporary_roots(target, directories).contains(joined(directory@, name)),
{
    let names = directory_names(target);
    let c = present(directories.cache);
    let all = c + present(directories.runtime);
    let i = choose|i: int| 0 <= i < names.len() && names[i] == name;
    let j: int = if directories.cache == Some(directory) {
        0
    } else {
        c.len() as int
    };
    assert(all[j] == directory@);
    lemma_roots(names, all, joined(directory@, name));
    assert(joined(all[j], names[i]) == joined(directory@, name));
    let roots = roots_for(names, all);
    let k = choose|k: int| 0 <= k < roots.len() && roots[k] == joined(directory@, name);
    assert(temporary_roots(target, directories)[k] == joined(directory@, name));
}

/// What Flatpak gives to the application counts too: configuration and data as
/// lasting, the cache as temporary.
pub proof fn lemma_flatpak_roots(target: Seq<char>, directories: Directories, home: String)
    requires
        directories.home == Some(home),
        home@.len() > 0,
        home@.last() != '/',
        target.len() > 0,
        target[0] != '/',
        is_free_of(target, '/'),
    ensures
        ({
            let own = home@ + "/.var/app/"@ + target;
            let small = home@ + "/.var/app/"@ + ascii_lowercase(target);
            let lasting = permanent_roots(target, directories);
            let temporary = temporary_roots(target, directories);
            &&& lasting.contains(own + "/config"@)
            &&& lasting.contains(own + "/data"@)
            &&& lasting.contains(small + "/config"@)
            &&& lasting.contains(small + "/data"@)
            &&& temporary.contains(own + "/cache"@)
            &&& temporary.contains(small + "/cache"@)
        }),
{
    let lower = ascii_lowercase(target);
    let lasting = permanent_roots(target, directories);
    let temporary = temporary_roots(target, directories);
    let n = lasting.len();
    let m = temporary.len();
    crate::text_laws::lemma_lowercase(target, target.len() - 1);
    crate::text_laws::lemma_lowercase(target, 0);
    crate::text_laws::lemma_same_letters(target, target);
    assert(target[target.len() - 1] != '/');
    lemma_flatpak(home@, target);
    lemma_flatpak(home@, lower);
    assert(lasting[n - 4] == home@ + "/.var/app/"@ + target + "/config"@);
    assert(lasting[n - 3] == home@ + "/.var/app/"@ + target + "/data"@);
    assert(lasting[n - 2] == home@ + "/.var/app/"@ + lower + "/config"@);
    assert(lasting[n - 1] == home@ + "/.var/app/"@ + lower + "/data"@);
    assert(temporary[m - 2] == home@ + "/.var/app/"@ + target + "/cache"@);
    assert(temporary[m - 1] == home@ + "/.var/app/"@ + lower + "/cache"@);
}

proof fn lemma_part(own: Seq<char>, part: Seq<char>, below: Seq<char>)
    requires
        own.len() > 0,
        own.last() != '/',
        part.len() > 0,
        part[0] != '/',
        below == "/"@ + part,
    ensures
        joined(own, part) == own + below,
{
    assert(own + "/"@ + part =~= own + ("/"@ + part));
}

proof fn lemma_flatpak(home: Seq<char>, name: Seq<char>)
    requires
        home.len() > 0,
        home.last() != '/',
        name.len() > 0,
        name[0] != '/',
        name.last() != '/',
    ensures
        crate::disk::flatpak_directory(home, name, "config"@) == home + "/.var/app/"@ + name
            + "/config"@,
        crate::disk::flatpak_directory(home, name, "data"@) == home + "/.var/app/"@ + name
            + "/data"@,
        crate::disk::flatpak_directory(home, name, "cache"@) == home + "/.var/app/"@ + name
            + "/cache"@,
{
    let base = joined(home, ".var/app"@);
    let own = joined(base, name);
    assert(base == home + "/"@ + ".var/app"@ && base.last() != '/' && base.len() > 0) by {
        reveal_strlit("/");
        reveal_strlit(".var/app");
        assert((home + "/"@ + ".var/app"@).last() == ".var/app"@[7]);
    }
    assert(own == home + "/.var/app/"@ + name) by {
        assert(own == base + "/"@ + name);
        assert("/.var/app/"@ =~= "/"@ + ".var/app"@ + "/"@) by {
            reveal_strlit("/");
            reveal_strlit(".var/app");
            reveal_strlit("/.var/app/");
        }
        assert(home + "/"@ + ".var/app"@ + "/"@ + name =~= home + ("/"@ + ".var/app"@ + "/"@) + name);
    }
    assert(own.last() == name.last());
    assert("/config"@ =~= "/"@ + "config"@ && "config"@.len() > 0 && "config"@[0] != '/') by {
        reveal_strlit("/");
        reveal_strlit("config");
        reveal_strlit("/config");
    }
    lemma_part(own, "config"@, "/config"@);
    assert("/data"@ =~= "/"@ + "data"@ && "data"@.len() > 0 && "data"@[0] != '/') by {
        reveal_strlit("/");
        reveal_strlit("data");
        reveal_strlit("/data");
    }
    lemma_part(own, "data"@, "/data"@);
    assert("/cache"@ =~= "/"@ + "cache"@ && "cache"@.len() > 0 && "cache"@[0] != '/') by {
        reveal_strlit("/");
        reveal_strlit("cache");
        reveal_strlit("/cache");
    }
    lemma_part(own, "cache"@, "/cache"@);
}

} // verus!
