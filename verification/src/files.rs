//! The file accessor's logic: finding a name in a directory listing and
//! naming the file to write. Reading the directory and the files themselves
//! is left to the caller.

use crate::grammar::SLASH;
use crate::text::{append, bytes_eq};
use vstd::prelude::*;

verus! {

/// Whether `i` is the first position of `key` in `keys`.
pub open spec fn is_first_match(keys: Seq<Seq<u8>>, key: Seq<u8>, i: int) -> bool {
    &&& 0 <= i < keys.len()
    &&& keys[i] == key
    &&& forall|j: int| 0 <= j < i ==> #[trigger] keys[j] != key
}

/// The first position of `key` in `keys`, if it occurs there.
pub open spec fn first_match(keys: Seq<Seq<u8>>, key: Seq<u8>) -> Option<int> {
    if exists|i: int| is_first_match(keys, key, i) {
        Some(choose|i: int| is_first_match(keys, key, i))
    } else {
        None
    }
}

/// A first position is the first match.
pub proof fn lemma_first_match_found(keys: Seq<Seq<u8>>, key: Seq<u8>, i: int)
    requires
        is_first_match(keys, key, i),
    ensures
        first_match(keys, key) == Some(i),
{
    let k = choose|k: int| is_first_match(keys, key, k);
    if k < i {
        assert(keys[k] != key);
    }
    if i < k {
        assert(keys[i] != key);
    }
}

/// Where the key does not occur there is no match.
pub proof fn lemma_first_match_absent(keys: Seq<Seq<u8>>, key: Seq<u8>)
    requires
        forall|j: int| 0 <= j < keys.len() ==> #[trigger] keys[j] != key,
    ensures
        first_match(keys, key) is None,
{
    if exists|i: int| is_first_match(keys, key, i) {
        let k = choose|k: int| is_first_match(keys, key, k);
        assert(keys[k] != key);
    }
}

/// One entry of a directory listing.
#[derive(Clone, Debug, PartialEq, Eq)]
pub struct DirEntry {
    /// The file's name inside the directory.
    pub name: Vec<u8>,
    /// The path under which the file can be opened.
    pub path: Vec<u8>,
}

/// The names of a listing, in order.
pub open spec fn entry_names(entries: Seq<DirEntry>) -> Seq<Seq<u8>> {
    Seq::new(entries.len(), |i: int| entries[i].name@)
}

/// The paths of a listing, in order.
pub open spec fn entry_paths(entries: Seq<DirEntry>) -> Seq<Seq<u8>> {
    Seq::new(entries.len(), |i: int| entries[i].path@)
}

/// The path of the first entry of a listing named `name`.
pub open spec fn spec_search(names: Seq<Seq<u8>>, paths: Seq<Seq<u8>>, name: Seq<u8>) -> Option<
    Seq<u8>,
> {
    match first_match(names, name) {
        Some(i) => Some(paths[i]),
        None => None,
    }
}

/// Scans a directory listing from its start for an entry whose name is
/// exactly `target_filename`, and returns that entry's path.
pub fn search_directory_for_file(entries: &Vec<DirEntry>, target_filename: &[u8]) -> (r: Option<
    Vec<u8>,
>)
    ensures
        match spec_search(entry_names(entries@), entry_paths(entries@), target_filename@) {
            Some(path) => r matches Some(got) && got@ == path,
            None => r is None,
        },
{
    let ghost names = entry_names(entries@);
    let mut i: usize = 0;
    while i < entries.len()
        invariant
            i <= entries.len(),
            names == entry_names(entries@),
            forall|j: int| 0 <= j < i ==> #[trigger] names[j] != target_filename@,
        decreases entries.len() - i,
    {
        if bytes_eq(entries[i].name.as_slice(), target_filename) {
            proof {
                lemma_first_match_found(names, target_filename@, i as int);
            }
            return Some(entries[i].path.clone());
        }
        i += 1;
    }
    proof {
        lemma_first_match_absent(names, target_filename@);
    }
    None
}

/// The path of the file `name` in `directory`: the directory, a `/`, the
/// name.
pub open spec fn spec_file_path(directory: Seq<u8>, name: Seq<u8>) -> Seq<u8> {
    directory + seq![SLASH] + name
}

/// Names the file `name` in `directory`.
pub fn file_path(directory: &[u8], name: &[u8]) -> (r: Vec<u8>)
    ensures
        r@ == spec_file_path(directory@, name@),
{
    let mut out: Vec<u8> = Vec::new();
    append(&mut out, directory);
    out.push(SLASH);
    append(&mut out, name);
    out
}

} // verus!
