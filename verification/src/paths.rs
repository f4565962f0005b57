//! Canonical paths: the names from the root down to a file, escaped and
//! joined by slashes.

use vstd::prelude::*;
use vstd::string::*;
use crate::models::{strings_view, DirectoryView, FileEntity, FileView, Id};
use crate::store::{dir_pos, has_dir, lemma_positions, Store};
use crate::text::{escape_spaces, escaped, joined_reversed};

verus! {

/// The names of directory `id` and of those above it, nearest first, as far
/// as `fuel` steps reach.
pub open spec fn ancestor_names(dirs: Seq<DirectoryView>, id: Id, fuel: nat) -> Seq<Seq<char>>
    decreases fuel,
{
    if fuel == 0 || !has_dir(dirs, id) {
        Seq::empty()
    } else {
        let d = dirs[dir_pos(dirs, id)];
        match d.parent_id {
            Some(p) => seq![d.name] + ancestor_names(dirs, p, (fuel - 1) as nat),
            None => seq![d.name],
        }
    }
}

/// The names above a parent that may be absent.
pub open spec fn names_above(dirs: Seq<DirectoryView>, parent: Option<Id>, fuel: nat) -> Seq<
    Seq<char>,
> {
    match parent {
        Some(p) => ancestor_names(dirs, p, fuel),
        None => Seq::empty(),
    }
}

/// The canonical path of a file named `name` under `parent`, without a leading slash.
pub open spec fn canonical_path(dirs: Seq<DirectoryView>, name: Seq<char>, parent: Option<Id>) -> Seq<
    char,
> {
    let parts = seq![name] + names_above(dirs, parent, dirs.len());
    joined_reversed(parts, parts.len())
}

/// The key under which a file is certified: its canonical path behind a slash.
pub open spec fn certified_key(dirs: Seq<DirectoryView>, f: FileView) -> Seq<char> {
    seq!['/'] + canonical_path(dirs, f.name, f.parent_id)
}

/// `parts` from the last to the first, each escaped, joined by slashes.
pub fn join_reversed(parts: &Vec<String>) -> (r: String)
    ensures
        r@ == joined_reversed(strings_view(parts@), parts@.len()),
{
    let ghost p = strings_view(parts@);
    let mut out = String::new();
    let mut i: usize = parts.len();
    while i > 0
        invariant
            i <= parts@.len(),
            p == strings_view(parts@),
            out@ + joined_reversed(p, i as nat) == joined_reversed(p, parts@.len()),
        decreases i,
    {
        let piece = escape_spaces(&parts[i - 1]);
        let ghost before = out@;
        out.append(piece.as_str());
        if i > 1 {
            proof {
                reveal_strlit("/");
            }
            out.append("/");
            assert(out@ + joined_reversed(p, (i - 1) as nat) =~= before + (escaped(p[i - 1])
                + seq!['/'] + joined_reversed(p, (i - 1) as nat)));
        } else {
            assert(out@ + joined_reversed(p, 0) =~= before + escaped(p[0]));
        }
        i -= 1;
    }
    assert(out@ + Seq::<char>::empty() =~= out@);
    out
}

impl Store {
    /// Appends to `path` the names of directory `parent_id` and of those
    /// above it, nearest first.
    pub fn get_directory_path_recursive(&self, parent_id: Id, path: &mut Vec<String>)
        requires
            self@.ids_ordered(),
        ensures
            strings_view(final(path)@) == strings_view(old(path)@) + ancestor_names(
                self@.directories,
                parent_id,
                self@.directories.len(),
            ),
    {
        let ghost dirs = self@.directories;
        let ghost start = strings_view(path@);
        let mut cur: Option<Id> = Some(parent_id);
        let mut fuel: usize = self.directories.len();
        proof {
            lemma_positions(self@);
            assert(strings_view(path@) + names_above(dirs, cur, fuel as nat) =~= start
                + ancestor_names(dirs, parent_id, dirs.len()));
        }
        while fuel > 0 && cur.is_some()
            invariant
                dirs == self@.directories,
                self@.ids_ordered(),
                strings_view(path@) + names_above(dirs, cur, fuel as nat) == start
                    + ancestor_names(dirs, parent_id, dirs.len()),
            decreases fuel,
        {
            let id = cur.unwrap();
            proof {
                lemma_positions(self@);
            }
            match self.directory_index(id) {
                None => {
                    cur = None;
                    assert(strings_view(path@) + Seq::<Seq<char>>::empty() =~= strings_view(path@));
                },
                Some(i) => {
                    let ghost before = strings_view(path@);
                    path.push(self.directories[i].name.clone());
                    cur = self.directories[i].parent_id;
                    assert(strings_view(path@) =~= before.push(dirs[i as int].name));
                    assert(strings_view(path@) + names_above(dirs, cur, (fuel - 1) as nat)
                        =~= before + ancestor_names(dirs, id, fuel as nat));
                },
            }
            fuel -= 1;
        }
        assert(names_above(dirs, cur, fuel as nat) =~= Seq::<Seq<char>>::empty());
        assert(strings_view(path@) + Seq::<Seq<char>>::empty() =~= strings_view(path@));
    }

    /// The canonical path of `file`: the directory names from the root down
    /// and the file's name, each with its spaces escaped, joined by slashes.
    pub fn get_file_path(&self, file: &FileEntity) -> (r: String)
        requires
            self@.ids_ordered(),
        ensures
            r@ == canonical_path(self@.directories, file@.name, file@.parent_id),
    {
        let mut path: Vec<String> = Vec::new();
        path.push(file.name.clone());
        assert(strings_view(path@) =~= seq![file@.name]);
        match file.parent_id {
            Some(parent_id) => {
                self.get_directory_path_recursive(parent_id, &mut path);
            },
            None => {
                assert(strings_view(path@) =~= seq![file@.name] + Seq::<Seq<char>>::empty());
            },
        }
        join_reversed(&path)
    }

    /// The key under which `file` is certified.
    pub fn certified_path(&self, file: &FileEntity) -> (r: String)
        requires
            self@.ids_ordered(),
        ensures
            r@ == certified_key(self@.directories, file@),
    {
        proof {
            reveal_strlit("/");
        }
        let mut out = String::from_str("/");
        let p = self.get_file_path(file);
        out.append(p.as_str());
        assert(out@ =~= seq!['/'] + p@);
        out
    }
}

} // verus!
