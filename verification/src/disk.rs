//! Files on disk: which are temporary, which an application holds, and where an
//! application keeps its own.

use vstd::prelude::*;
use crate::metrics::{add_counter, capped, wide_product};
use crate::resources::{
    merge_disk_files, merge_files, DiskBreakdown, DiskFile, DiskFileId, ProcessFiles,
};
use crate::table::{lemma_push_contains, lemma_total_pairs, map_total, of_entry, seq_sum, Table};
use crate::text::{
    after_last, append, append_text, ascii_lowercase, begins_with, byte_len, chars_after_last,
    chars_of, copy_range, lower_chars, parse_decimal, parse_u64, pieces,
    prefix_bytes, same_chars, split_chars, split_on, starts_with, string_of, strip_prefix,
    strip_suffix, texts, trim_end_matches, without_endings, without_prefix, without_suffix,
};

verus! {

// ---------------------------------------------------------------------
// Paths

/// The parts of a path that name something.
pub open spec fn named(segments: Seq<Seq<char>>) -> Seq<Seq<char>>
    decreases segments.len(),
{
    if segments.len() == 0 {
        Seq::empty()
    } else {
        let before = named(segments.drop_last());
        if segments.last().len() == 0 || segments.last() == "."@ {
            before
        } else {
            before.push(segments.last())
        }
    }
}

/// The components of a path: its root if it is absolute, a leading dot, and the
/// names in it.
pub open spec fn components(path: Seq<char>) -> Seq<Seq<char>> {
    let segments = split_on(path, '/');
    let head = if path.len() > 0 && path[0] == '/' {
        seq!["/"@]
    } else if segments.len() > 0 && segments[0] == "."@ {
        seq!["."@]
    } else {
        Seq::empty()
    };
    head + named(segments)
}

/// The path is the root or lies below it.
pub open spec fn lies_under(path: Seq<Seq<char>>, root: Seq<Seq<char>>) -> bool {
    root.len() <= path.len() && path.take(root.len() as int) == root
}

fn path_components(path: &str) -> (parts: Vec<Vec<char>>)
    ensures
        pieces(parts@) == components(path@),
{
    let chars = chars_of(path);
    let segments = split_chars(chars.as_slice(), '/');
    let ghost all = pieces(segments@);
    let dot = chars_of(".");
    let mut parts: Vec<Vec<char>> = Vec::new();
    if chars.len() > 0 && chars[0] == '/' {
        parts.push(chars_of("/"));
    } else if segments.len() > 0 && same_chars(segments[0].as_slice(), dot.as_slice()) {
        assert(all[0] == segments@[0]@);
        parts.push(chars_of("."));
    }
    let ghost head = pieces(parts@);
    proof {
        if segments@.len() > 0 {
            assert(all[0] == segments@[0]@);
        }
        assert(head =~= (if path@.len() > 0 && path@[0] == '/' {
            seq!["/"@]
        } else if all.len() > 0 && all[0] == "."@ {
            seq!["."@]
        } else {
            Seq::empty()
        }));
        assert(head + named(all.take(0)) =~= head);
    }
    for i in 0..segments.len()
        invariant
            all == pieces(segments@),
            dot@ == "."@,
            pieces(parts@) == head + named(all.take(i as int)),
    {
        let ghost before = pieces(parts@);
        let segment = segments[i].as_slice();
        let length = segment.len();
        proof {
            assert(all.take(i + 1).drop_last() =~= all.take(i as int));
            assert(all.take(i + 1).last() == segment@);
        }
        if length > 0 && !same_chars(segment, dot.as_slice()) {
            let part = copy_range(segment, 0, length);
            assert(part@ =~= segment@);
            parts.push(part);
            assert(pieces(parts@) =~= before.push(segment@));
            assert(head + named(all.take(i + 1)) =~= (head + named(all.take(i as int))).push(
                segment@,
            ));
        }
    }
    assert(all.take(all.len() as int) =~= all);
    parts
}

/// How many components a path has.
pub fn component_count(path: &str) -> (n: usize)
    ensures
        n == components(path@).len(),
{
    let parts = path_components(path);
    assert(pieces(parts@).len() == parts@.len());
    parts.len()
}

fn under(path: &Vec<Vec<char>>, root: &Vec<Vec<char>>) -> (yes: bool)
    ensures
        yes == lies_under(pieces(path@), pieces(root@)),
{
    if root.len() > path.len() {
        return false;
    }
    let ghost p = pieces(path@);
    let ghost r = pieces(root@);
    for i in 0..root.len()
        invariant
            p == pieces(path@),
            r == pieces(root@),
            r.len() <= p.len(),
            forall|j: int| 0 <= j < i ==> p[j] == r[j],
    {
        assert(p[i as int] == path@[i as int]@ && r[i as int] == root@[i as int]@);
        if !same_chars(path[i].as_slice(), root[i].as_slice()) {
            assert(p.take(r.len() as int)[i as int] != r[i as int]);
            return false;
        }
    }
    assert(p.take(r.len() as int) =~= r);
    true
}

/// The places that the user's environment names.
#[derive(Debug)]
pub struct Places {
    pub home: Option<String>,
    pub runtime: Option<String>,
    pub cache: Option<String>,
}

pub open spec fn under_place(path: Seq<char>, place: Option<String>) -> bool {
    match place {
        Some(root) => lies_under(components(path), components(root@)),
        None => false,
    }
}

/// The path lies in a place for temporary files or caches.
pub open spec fn is_temporary(path: Seq<char>, places: Places) -> bool {
    let parts = components(path);
    ||| lies_under(parts, components("/tmp"@))
    ||| lies_under(parts, components("/var/tmp"@))
    ||| lies_under(parts, components("/dev/shm"@))
    ||| under_place(path, places.runtime)
    ||| under_place(path, places.cache)
    ||| match places.home {
        Some(home) => lies_under(parts, components(home@).push(".cache"@)),
        None => false,
    }
}

pub fn temporary_path(path: &str, places: &Places) -> (yes: bool)
    ensures
        yes == is_temporary(path@, *places),
{
    let parts = path_components(path);
    if under(&parts, &path_components("/tmp")) || under(&parts, &path_components("/var/tmp"))
        || under(&parts, &path_components("/dev/shm")) {
        return true;
    }
    if let Some(root) = &places.runtime {
        if under(&parts, &path_components(root.as_str())) {
            return true;
        }
    }
    if let Some(root) = &places.cache {
        if under(&parts, &path_components(root.as_str())) {
            return true;
        }
    }
    if let Some(home) = &places.home {
        let mut root = path_components(home.as_str());
        let ghost before = pieces(root@);
        root.push(chars_of(".cache"));
        assert(pieces(root@) =~= before.push(".cache"@));
        if under(&parts, &root) {
            return true;
        }
    }
    false
}

// ---------------------------------------------------------------------
// The files of a process

/// A file's identity and size in blocks of 512 bytes.
#[derive(Debug, Clone, Copy, PartialEq, Eq)]
pub struct FileSize {
    pub id: DiskFileId,
    pub blocks: u64,
}

/// A link to something a process has open or mapped. `file` is there for a
/// regular file.
#[derive(Debug)]
pub struct LinkedFile {
    pub link: String,
    pub file: Option<FileSize>,
}

/// The allocated bytes of a number of blocks.
pub open spec fn block_bytes(blocks: u64) -> u64 {
    capped((blocks * 512) as nat)
}

fn bytes_of_blocks(blocks: u64) -> (bytes: u64)
    ensures
        bytes == block_bytes(blocks),
{
    let product = wide_product(blocks, 512);
    if product > u64::MAX as u128 {
        u64::MAX
    } else {
        product as u64
    }
}

/// The regular files among the links; a later link to a file overrides an earlier one.
pub open spec fn linked_files(links: Seq<LinkedFile>, places: Places) -> Map<DiskFileId, DiskFile>
    decreases links.len(),
{
    if links.len() == 0 {
        Map::empty()
    } else {
        let before = linked_files(links.drop_last(), places);
        match links.last().file {
            Some(file) => before.insert(
                file.id,
                DiskFile {
                    bytes: block_bytes(file.blocks),
                    temporary: is_temporary(links.last().link@, places),
                },
            ),
            None => before,
        }
    }
}

/// The number of the socket that a link stands for.
pub open spec fn socket_number(link: Seq<char>) -> Option<nat> {
    match strip_prefix(link, "socket:["@) {
        None => None,
        Some(rest) => match strip_suffix(rest, "]"@) {
            None => None,
            Some(number) => parse_decimal(number, u64::MAX as nat),
        },
    }
}

pub fn socket_inode(link: &str) -> (inode: Option<u64>)
    ensures
        match inode {
            Some(n) => socket_number(link@) == Some(n as nat),
            None => socket_number(link@) is None,
        },
{
    let chars = chars_of(link);
    match without_prefix(chars.as_slice(), "socket:[") {
        None => None,
        Some(rest) => match without_suffix(rest, "]") {
            None => None,
            Some(number) => parse_u64(number),
        },
    }
}

fn collect_files(links: &Vec<LinkedFile>, places: &Places) -> (files: Table<DiskFileId, DiskFile>)
    ensures
        files.wf(),
        files@ == linked_files(links@, *places),
{
    let mut files: Table<DiskFileId, DiskFile> = Table::new();
    for i in 0..links.len()
        invariant
            files.wf(),
            files@ == linked_files(links@.take(i as int), *places),
    {
        assert(links@.take(i + 1).drop_last() =~= links@.take(i as int));
        if let Some(file) = links[i].file {
            let temporary = temporary_path(links[i].link.as_str(), places);
            let _ = files.insert(
                file.id,
                DiskFile { bytes: bytes_of_blocks(file.blocks), temporary },
            );
        }
    }
    assert(links@.take(links@.len() as int) =~= links@);
    files
}

pub open spec fn links_socket(links: Seq<LinkedFile>, socket: u64) -> bool {
    exists|i: int|
        0 <= i < links.len() && socket_number((#[trigger] links[i]).link@) == Some(socket as nat)
}

fn collect_sockets(links: &Vec<LinkedFile>) -> (sockets: Vec<u64>)
    ensures
        sockets@.no_duplicates(),
        forall|socket: u64| #[trigger]
            sockets@.contains(socket) == links_socket(links@, socket),
{
    let mut sockets: Vec<u64> = Vec::new();
    for i in 0..links.len()
        invariant
            sockets@.no_duplicates(),
            forall|socket: u64| #[trigger]
                sockets@.contains(socket) == links_socket(links@.take(i as int), socket),
    {
        let ghost before = sockets@;
        let ghost earlier = links@.take(i as int);
        let ghost now = links@.take(i + 1);
        let found = socket_inode(links[i].link.as_str());
        if let Some(inode) = found {
            let mut known = false;
            for j in 0..sockets.len()
                invariant
                    sockets@ == before,
                    known == exists|k: int| 0 <= k < j && before[k] == inode,
            {
                if sockets[j] == inode {
                    known = true;
                }
            }
            if !known {
                sockets.push(inode);
            }
            proof {
                assert forall|socket: u64| #[trigger] sockets@.contains(socket) == (before.contains(
                    socket,
                ) || socket == inode) by {
                    lemma_push_contains(before, inode);
                }
            }
        }
        proof {
            assert(now[i as int] == links@[i as int]);
            assert forall|socket: u64| #[trigger]
                sockets@.contains(socket) == links_socket(now, socket) by {
                if links_socket(earlier, socket) {
                    let k = choose|k: int|
                        0 <= k < earlier.len() && socket_number((#[trigger] earlier[k]).link@)
                            == Some(socket as nat);
                    assert(now[k] == earlier[k]);
                }
                if links_socket(now, socket) {
                    let k = choose|k: int|
                        0 <= k < now.len() && socket_number((#[trigger] now[k]).link@) == Some(
                            socket as nat,
                        );
                    if k < i {
                        assert(earlier[k] == now[k]);
                        assert(links_socket(earlier, socket));
                    }
                }
                assert(before.contains(socket) == links_socket(earlier, socket));
            }
        }
    }
    assert(links@.take(links@.len() as int) =~= links@);
    sockets
}

/// The files and sockets of a process, from what it has open and mapped.
/// Nothing is known where its open files could not be listed.
pub fn process_files(
    open: Option<&Vec<LinkedFile>>,
    mapped: &Vec<LinkedFile>,
    places: &Places,
) -> (files: ProcessFiles)
    ensures
        files.wf(),
        match open {
            None => {
                &&& files.open@ == Map::<DiskFileId, DiskFile>::empty()
                &&& files.referenced@ == Map::<DiskFileId, DiskFile>::empty()
                &&& files.sockets@.len() == 0
                &&& !files.fd_available
            },
            Some(links) => {
                &&& files.open@ == linked_files(links@, *places)
                &&& files.referenced@ == merge_files(
                    linked_files(links@, *places),
                    linked_files(mapped@, *places),
                )
                &&& files.sockets@.no_duplicates()
                &&& forall|socket: u64| #[trigger]
                    files.sockets@.contains(socket) == links_socket(links@, socket)
                &&& files.fd_available
            },
        },
{
    match open {
        None => ProcessFiles::unavailable(),
        Some(links) => {
            let open = collect_files(links, places);
            let mut referenced: Table<DiskFileId, DiskFile> = Table::new();
            merge_disk_files(&mut referenced, &open);
            assert(referenced@ =~= open@);
            merge_disk_files(&mut referenced, &collect_files(mapped, places));
            let sockets = collect_sockets(links);
            ProcessFiles { open, referenced, sockets, fd_available: true }
        },
    }
}

// ---------------------------------------------------------------------
// The directories of an application

/// Where applications of this user keep their files.
#[derive(Debug)]
pub struct Directories {
    pub home: Option<String>,
    pub data: Option<String>,
    pub config: Option<String>,
    pub state: Option<String>,
    pub cache: Option<String>,
    pub runtime: Option<String>,
}

/// A directory as the environment names it, or its place in the home directory.
pub fn xdg_directory(variable: Option<String>, home: &Option<String>, suffix: &str) -> (directory:
    Option<String>)
    ensures
        match variable {
            Some(value) => directory == Some(value),
            None => match *home {
                Some(root) => directory is Some && directory->0@ == joined(root@, suffix@),
                None => directory is None,
            },
        },
{
    match variable {
        Some(value) => Some(value),
        None => match home {
            Some(root) => Some(join(root.as_str(), suffix)),
            None => None,
        },
    }
}

/// A path below a directory; an absolute path stands for itself.
pub open spec fn joined(root: Seq<char>, path: Seq<char>) -> Seq<char> {
    if path.len() > 0 && path[0] == '/' {
        path
    } else if root.len() == 0 || root.last() == '/' {
        root + path
    } else {
        root + "/"@ + path
    }
}

pub fn join(root: &str, path: &str) -> (whole: String)
    ensures
        whole@ == joined(root@, path@),
{
    let chars = chars_of(path);
    if chars.len() > 0 && chars[0] == '/' {
        return string_of(chars.as_slice());
    }
    let mut whole = chars_of(root);
    let length = whole.len();
    if length > 0 && whole[length - 1] != '/' {
        append_text(&mut whole, "/");
    }
    append(&mut whole, chars.as_slice());
    string_of(whole.as_slice())
}

pub open spec fn with_name(names: Seq<Seq<char>>, name: Seq<char>) -> Seq<Seq<char>> {
    if names.contains(name) {
        names
    } else {
        names.push(name)
    }
}

/// With the part after the last dot, unless that is too short to tell an
/// application by.
pub open spec fn with_short(names: Seq<Seq<char>>, name: Seq<char>) -> Seq<Seq<char>> {
    let short = after_last(name, '.');
    if byte_len(short) >= 4 {
        with_name(names, short)
    } else {
        names
    }
}

/// The names that an application's directories may have.
pub open spec fn directory_names(target: Seq<char>) -> Seq<Seq<char>> {
    let lower = ascii_lowercase(target);
    with_short(with_short(with_name(seq![target], lower), target), lower)
}

/// Every name in every directory.
pub open spec fn roots_for(names: Seq<Seq<char>>, directories: Seq<Seq<char>>) -> Seq<Seq<char>>
    decreases names.len(),
{
    if names.len() == 0 {
        Seq::empty()
    } else {
        roots_for(names.drop_last(), directories) + directories.map_values(
            |directory: Seq<char>| joined(directory, names.last()),
        )
    }
}

pub open spec fn present(directory: Option<String>) -> Seq<Seq<char>> {
    match directory {
        Some(d) => seq![d@],
        None => Seq::empty(),
    }
}

/// A directory that Flatpak gives to an application.
pub open spec fn flatpak_directory(home: Seq<char>, name: Seq<char>, part: Seq<char>) -> Seq<char> {
    joined(joined(joined(home, ".var/app"@), name), part)
}

/// The directories in which an application keeps lasting data.
pub open spec fn permanent_roots(target: Seq<char>, directories: Directories) -> Seq<Seq<char>> {
    let lower = ascii_lowercase(target);
    roots_for(
        directory_names(target),
        present(directories.data) + present(directories.config) + present(directories.state),
    ) + match directories.home {
        Some(home) => seq![
            flatpak_directory(home@, target, "config"@),
            flatpak_directory(home@, target, "data"@),
            flatpak_directory(home@, lower, "config"@),
            flatpak_directory(home@, lower, "data"@),
        ],
        None => Seq::empty(),
    }
}

/// The directories in which an application keeps temporary data.
pub open spec fn temporary_roots(target: Seq<char>, directories: Directories) -> Seq<Seq<char>> {
    let lower = ascii_lowercase(target);
    roots_for(
        directory_names(target),
        present(directories.cache) + present(directories.runtime),
    ) + match directories.home {
        Some(home) => seq![
            flatpak_directory(home@, target, "cache"@),
            flatpak_directory(home@, lower, "cache"@),
        ],
        None => Seq::empty(),
    }
}

/// The directories of an application.
#[derive(Debug)]
pub struct DiskRoots {
    pub permanent: Vec<String>,
    pub temporary: Vec<String>,
}

fn include_name(names: &mut Vec<String>, name: &[char])
    ensures
        texts(final(names)@) == with_name(texts(old(names)@), name@),
{
    let ghost before = texts(names@);
    for i in 0..names.len()
        invariant
            before == texts(names@),
            names@ == old(names)@,
            forall|j: int| 0 <= j < i ==> before[j] != name@,
    {
        let known = chars_of(names[i].as_str());
        assert(before[i as int] == names@[i as int]@);
        if same_chars(known.as_slice(), name) {
            assert(before.contains(name@));
            return ;
        }
    }
    names.push(string_of(name));
    assert(texts(names@) =~= before.push(name@));
}

fn include_short(names: &mut Vec<String>, name: &[char])
    ensures
        texts(final(names)@) == with_short(texts(old(names)@), name@),
{
    let short = chars_after_last(name, '.');
    let length = short.len();
    assert(short@.take(length as int) =~= short@);
    if prefix_bytes(short, length) >= 4 {
        include_name(names, short);
    }
}

fn add_roots(roots: &mut Vec<String>, directories: &Vec<String>, name: &str)
    ensures
        texts(final(roots)@) == texts(old(roots)@) + texts(directories@).map_values(
            |directory: Seq<char>| joined(directory, name@),
        ),
{
    let ghost before = texts(roots@);
    let ghost f = |directory: Seq<char>| joined(directory, name@);
    let ghost all = texts(directories@);
    for i in 0..directories.len()
        invariant
            all == texts(directories@),
            f == (|directory: Seq<char>| joined(directory, name@)),
            texts(roots@) == before + all.take(i as int).map_values(f),
    {
        let ghost earlier = texts(roots@);
        let root = join(directories[i].as_str(), name);
        assert(all[i as int] == directories@[i as int]@);
        assert(root@ == f(all[i as int]));
        roots.push(root);
        assert(texts(roots@) =~= earlier.push(root@));
        assert(all.take(i + 1).map_values(f) =~= all.take(i as int).map_values(f).push(root@));
        assert(texts(roots@) =~= before + all.take(i + 1).map_values(f));
    }
    assert(all.take(all.len() as int) =~= all);
}

fn add_present(list: &mut Vec<String>, directory: &Option<String>)
    ensures
        texts(final(list)@) == texts(old(list)@) + present(*directory),
{
    let ghost before = texts(list@);
    if let Some(d) = directory {
        list.push(d.clone());
    }
    assert(texts(list@) =~= before + present(*directory));
}

fn flatpak_root(home: &str, name: &str, part: &str) -> (root: String)
    ensures
        root@ == flatpak_directory(home@, name@, part@),
{
    let apps = join(home, ".var/app");
    let app = join(apps.as_str(), name);
    join(app.as_str(), part)
}

/// The directories to measure for an application; `None` for a target that is
/// no installed application.
pub fn disk_roots(target_id: &str, directories: &Directories) -> (roots: Option<DiskRoots>)
    ensures
        ({
            let target = trim_end_matches(target_id@, ".desktop"@);
            match roots {
                None => target.len() == 0 || starts_with(target, "window-group:"@),
                Some(found) => {
                    &&& target.len() > 0
                    &&& !starts_with(target, "window-group:"@)
                    &&& texts(found.permanent@) == permanent_roots(target, *directories)
                    &&& texts(found.temporary@) == temporary_roots(target, *directories)
                },
            }
        }),
{
    let id = chars_of(target_id);
    let target = without_endings(id.as_slice(), ".desktop");
    let group = chars_of("window-group:");
    if target.len() == 0 || begins_with(target, group.as_slice()) {
        return None;
    }
    let lower = lower_chars(target);
    let mut names: Vec<String> = Vec::new();
    names.push(string_of(target));
    assert(texts(names@) =~= seq![target@]);
    include_name(&mut names, lower.as_slice());
    include_short(&mut names, target);
    include_short(&mut names, lower.as_slice());
    let mut lasting: Vec<String> = Vec::new();
    add_present(&mut lasting, &directories.data);
    add_present(&mut lasting, &directories.config);
    add_present(&mut lasting, &directories.state);
    let mut passing: Vec<String> = Vec::new();
    add_present(&mut passing, &directories.cache);
    add_present(&mut passing, &directories.runtime);
    assert(texts(lasting@) =~= present(directories.data) + present(directories.config) + present(
        directories.state,
    ));
    assert(texts(passing@) =~= present(directories.cache) + present(directories.runtime));
    let mut permanent: Vec<String> = Vec::new();
    let mut temporary: Vec<String> = Vec::new();
    let ghost all = texts(names@);
    assert(texts(permanent@) =~= roots_for(all.take(0), texts(lasting@)));
    assert(texts(temporary@) =~= roots_for(all.take(0), texts(passing@)));
    for i in 0..names.len()
        invariant
            all == texts(names@),
            texts(permanent@) == roots_for(all.take(i as int), texts(lasting@)),
            texts(temporary@) == roots_for(all.take(i as int), texts(passing@)),
    {
        assert(all.take(i + 1).drop_last() =~= all.take(i as int));
        assert(all.take(i + 1).last() == names@[i as int]@);
        add_roots(&mut permanent, &lasting, names[i].as_str());
        add_roots(&mut temporary, &passing, names[i].as_str());
    }
    assert(all.take(all.len() as int) =~= all);
    let ghost named_permanent = texts(permanent@);
    let ghost named_temporary = texts(temporary@);
    if let Some(home) = &directories.home {
        let exact = string_of(target);
        let small = string_of(lower.as_slice());
        permanent.push(flatpak_root(home.as_str(), exact.as_str(), "config"));
        permanent.push(flatpak_root(home.as_str(), exact.as_str(), "data"));
        permanent.push(flatpak_root(home.as_str(), small.as_str(), "config"));
        permanent.push(flatpak_root(home.as_str(), small.as_str(), "data"));
        temporary.push(flatpak_root(home.as_str(), exact.as_str(), "cache"));
        temporary.push(flatpak_root(home.as_str(), small.as_str(), "cache"));
    }
    proof {
        assert(texts(permanent@) =~= permanent_roots(target@, *directories));
        assert(texts(temporary@) =~= temporary_roots(target@, *directories));
    }
    Some(DiskRoots { permanent, temporary })
}

/// The allocated size of each file; the first sight of a file counts.
pub open spec fn first_sizes(files: Seq<FileSize>) -> Map<DiskFileId, u64>
    decreases files.len(),
{
    if files.len() == 0 {
        Map::empty()
    } else {
        let before = first_sizes(files.drop_last());
        if before.contains_key(files.last().id) {
            before
        } else {
            before.insert(files.last().id, block_bytes(files.last().blocks))
        }
    }
}

pub open spec fn own_size() -> spec_fn(DiskFileId, u64) -> nat {
    |id: DiskFileId, bytes: u64| bytes as nat
}

/// The allocated bytes of files found in directories, each file once however
/// many names it has.
pub fn allocated_bytes(files: &Vec<FileSize>) -> (bytes: u64)
    ensures
        bytes == capped(map_total(first_sizes(files@), own_size())),
{
    let mut sizes: Table<DiskFileId, u64> = Table::new();
    for i in 0..files.len()
        invariant
            sizes.wf(),
            sizes@ == first_sizes(files@.take(i as int)),
    {
        assert(files@.take(i + 1).drop_last() =~= files@.take(i as int));
        if !sizes.contains(&files[i].id) {
            let _ = sizes.insert(files[i].id, bytes_of_blocks(files[i].blocks));
        }
    }
    assert(files@.take(files@.len() as int) =~= files@);
    let ghost of_pair = of_entry::<DiskFileId, u64>(own_size());
    let mut total: u64 = 0;
    let count = sizes.len();
    for i in 0..count
        invariant
            count == sizes.pairs().len(),
            of_pair == of_entry::<DiskFileId, u64>(own_size()),
            total == capped(seq_sum(sizes.pairs().take(i as int), of_pair)),
    {
        assert(sizes.pairs().take(i + 1).drop_last() =~= sizes.pairs().take(i as int));
        add_counter(&mut total, *sizes.value_at(i));
    }
    proof {
        assert(sizes.pairs().take(count as int) =~= sizes.pairs());
        lemma_total_pairs(sizes.pairs(), own_size());
    }
    total
}

/// The disk space of an application from what its directories hold.
pub fn disk_breakdown(permanent: &Vec<FileSize>, temporary: &Vec<FileSize>) -> (disk: DiskBreakdown)
    ensures
        disk.permanent_bytes == capped(map_total(first_sizes(permanent@), own_size())),
        disk.temporary_bytes == capped(map_total(first_sizes(temporary@), own_size())),
        disk.total_bytes == capped((disk.permanent_bytes + disk.temporary_bytes) as nat),
{
    let permanent_bytes = allocated_bytes(permanent);
    let temporary_bytes = allocated_bytes(temporary);
    let mut total_bytes = permanent_bytes;
    add_counter(&mut total_bytes, temporary_bytes);
    DiskBreakdown { total_bytes, temporary_bytes, permanent_bytes }
}

} // verus!
