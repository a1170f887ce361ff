//! Where commands are found.

use vstd::prelude::*;
use crate::disk::{components, component_count, join, joined};
use crate::text::{chars_of, pieces, split_chars, split_on, string_of, texts};

verus! {

/// The files that a command may be: itself where it is a path, else the file of
/// that name in each directory of the search path.
pub open spec fn command_files(command: Seq<char>, path: Option<Seq<char>>) -> Seq<Seq<char>> {
    if components(command).len() > 1 {
        seq![command]
    } else {
        match path {
            None => Seq::empty(),
            Some(list) => split_on(list, ':').map_values(
                |directory: Seq<char>| joined(directory, command),
            ),
        }
    }
}

pub fn command_candidates(command: &str, path: &Option<String>) -> (files: Vec<String>)
    ensures
        texts(files@) == command_files(
            command@,
            match *path {
                Some(p) => Some(p@),
                None => None,
            },
        ),
{
    let mut files: Vec<String> = Vec::new();
    if component_count(command) > 1 {
        files.push(command.to_owned());
        assert(texts(files@) =~= seq![command@]);
        return files;
    }
    match path {
        None => {
            assert(texts(files@) =~= Seq::empty());
        },
        Some(list) => {
            let chars = chars_of(list.as_str());
            let directories = split_chars(chars.as_slice(), ':');
            let ghost f = |directory: Seq<char>| joined(directory, command@);
            let ghost all = pieces(directories@);
            assert(texts(files@) =~= all.take(0).map_values(f));
            for i in 0..directories.len()
                invariant
                    all == pieces(directories@),
                    f == (|directory: Seq<char>| joined(directory, command@)),
                    texts(files@) == all.take(i as int).map_values(f),
            {
                let ghost before = texts(files@);
                let directory = string_of(directories[i].as_slice());
                assert(all[i as int] == directories@[i as int]@);
                let file = join(directory.as_str(), command);
                files.push(file);
                assert(texts(files@) =~= before.push(file@));
                assert(all.take(i + 1).map_values(f) =~= before.push(f(all[i as int])));
            }
            assert(all.take(all.len() as int) =~= all);
        },
    }
    files
}

/// A regular file that someone may execute.
pub fn is_executable(regular: bool, mode: u32) -> (yes: bool)
    ensures
        yes == (regular && mode & 0o111 != 0),
{
    regular && mode & 0o111 != 0
}

} // verus!
