//! Files by their project-relative paths.

use vstd::prelude::*;
use vstd::string::*;

use crate::text::same_text;

verus! {

/// A file: its path and its contents.
#[derive(Debug, PartialEq, Eq)]
pub struct ProjectFile {
    /// Project-relative path.
    pub path: String,
    /// Contents.
    pub contents: String,
}

/// The place, from `at` on, of the first file with a path.
pub open spec fn file_place(files: Seq<ProjectFile>, path: Seq<char>, at: int) -> int
    decreases files.len() - at,
{
    if at < 0 || at >= files.len() || files[at].path@ == path {
        at
    } else {
        file_place(files, path, at + 1)
    }
}

/// The contents of files by their paths.
pub open spec fn contents_by_path(files: Seq<ProjectFile>) -> Map<Seq<char>, Seq<char>> {
    Map::new(
        |path: Seq<char>| 0 <= file_place(files, path, 0) < files.len(),
        |path: Seq<char>| files[file_place(files, path, 0)].contents@,
    )
}

/// Whether no two files have the same path.
pub open spec fn distinct_paths(files: Seq<ProjectFile>) -> bool {
    forall|i: int, j: int|
        0 <= i < files.len() && 0 <= j < files.len() && i != j ==> (#[trigger] files[i]).path@ != (
        #[trigger] files[j]).path@
}

pub(crate) proof fn lemma_file_place(files: Seq<ProjectFile>, path: Seq<char>, at: int)
    requires
        0 <= at <= files.len(),
    ensures
        at <= file_place(files, path, at) <= files.len(),
        file_place(files, path, at) < files.len() ==> files[file_place(files, path, at)].path@
            == path,
        forall|i: int| at <= i < file_place(files, path, at) ==> (#[trigger] files[i]).path@ != path,
    decreases files.len() - at,
{
    if at < files.len() && files[at].path@ != path {
        lemma_file_place(files, path, at + 1);
    }
}

pub(crate) proof fn lemma_only_place(files: Seq<ProjectFile>, at: int)
    requires
        distinct_paths(files),
        0 <= at < files.len(),
    ensures
        file_place(files, files[at].path@, 0) == at,
{
    lemma_file_place(files, files[at].path@, 0);
    let place = file_place(files, files[at].path@, 0);
    if place > at {
        assert(files[at].path@ != files[at].path@);
    }
}

/// Files of which no two have the same path.
#[derive(Debug, PartialEq, Eq)]
pub struct FileMap {
    files: Vec<ProjectFile>,
}

impl FileMap {
    #[verifier::type_invariant]
    closed spec fn well_formed(self) -> bool {
        distinct_paths(self.files@)
    }

    /// The files in the order in which they are listed.
    pub closed spec fn listed(&self) -> Seq<ProjectFile> {
        self.files@
    }

    /// The contents of the files by their paths.
    pub open spec fn view(&self) -> Map<Seq<char>, Seq<char>> {
        contents_by_path(self.listed())
    }

    /// Returns the map without files.
    pub fn new() -> (result: Self)
        ensures
            result@ == Map::<Seq<char>, Seq<char>>::empty(),
            result.listed().len() == 0,
    {
        let result = FileMap { files: Vec::new() };
        assert(result@ =~= Map::<Seq<char>, Seq<char>>::empty());
        result
    }

    /// Returns the number of files.
    pub fn len(&self) -> (length: usize)
        ensures
            length == self.listed().len(),
    {
        self.files.len()
    }

    /// Returns the file listed at `index`.
    pub fn at(&self, index: usize) -> (file: &ProjectFile)
        requires
            index < self.listed().len(),
        ensures
            *file == self.listed()[index as int],
            self@.contains_key(file.path@),
            self@[file.path@] == file.contents@,
    {
        proof {
            use_type_invariant(self);
            lemma_only_place(self.files@, index as int);
        }
        &self.files[index]
    }

    /// Every path of the map is that of a listed file.
    pub fn use_listing(&self)
        ensures
            distinct_paths(self.listed()),
            forall|path: Seq<char>| #[trigger]
                self@.contains_key(path) <==> exists|i: int|
                    0 <= i < self.listed().len() && (#[trigger] self.listed()[i]).path@ == path,
    {
        proof {
            use_type_invariant(self);
            assert forall|path: Seq<char>| #[trigger]
                self@.contains_key(path) <==> exists|i: int|
                    0 <= i < self.listed().len() && (#[trigger] self.listed()[i]).path@ == path by {
                lemma_file_place(self.files@, path, 0);
                if exists|i: int|
                    0 <= i < self.listed().len() && (#[trigger] self.listed()[i]).path@ == path {
                    let i = choose|i: int|
                        0 <= i < self.listed().len() && (#[trigger] self.listed()[i]).path@ == path;
                    lemma_only_place(self.files@, i);
                }
            }
        }
    }

    /// Returns the contents of the file at a path.
    pub fn get(&self, path: &str) -> (contents: Option<&str>)
        ensures
            match contents {
                Some(text) => self@.contains_key(path@) && self@[path@] == text@,
                None => !self@.contains_key(path@),
            },
    {
        match self.find(path) {
            Some(index) => Some(self.files[index].contents.as_str()),
            None => None,
        }
    }

    /// Returns whether there is a file at a path.
    pub fn contains_key(&self, path: &str) -> (found: bool)
        ensures
            found == self@.contains_key(path@),
    {
        self.find(path).is_some()
    }

    fn find(&self, path: &str) -> (found: Option<usize>)
        ensures
            match found {
                Some(index) => index < self.listed().len() && index == file_place(
                    self.listed(),
                    path@,
                    0,
                ),
                None => file_place(self.listed(), path@, 0) == self.listed().len(),
            },
    {
        let mut index: usize = 0;
        while index < self.files.len()
            invariant
                index <= self.files@.len(),
                file_place(self.files@, path@, 0) == file_place(self.files@, path@, index as int),
            decreases self.files@.len() - index,
        {
            if same_text(self.files[index].path.as_str(), path) {
                return Some(index);
            }
            index += 1;
        }
        None
    }

    /// Puts a file at a path, in place of the one that is there.
    pub fn insert(&mut self, path: String, contents: String)
        ensures
            final(self)@ == old(self)@.insert(path@, contents@),
    {
        proof {
            use_type_invariant(&*self);
        }
        let ghost before = self.files@;
        let found = self.find(path.as_str());
        let mut files: Vec<ProjectFile> = Vec::new();
        core::mem::swap(&mut self.files, &mut files);
        let ghost key = path@;
        let ghost value = contents@;
        proof {
            lemma_file_place(before, key, 0);
        }
        match found {
            Some(index) => {
                files.set(index, ProjectFile { path, contents });
            },
            None => {
                files.push(ProjectFile { path, contents });
            },
        }
        proof {
            let place = file_place(before, key, 0);
            assert(distinct_paths(files@)) by {
                assert forall|i: int, j: int|
                    0 <= i < files@.len() && 0 <= j < files@.len() && i != j implies (
                #[trigger] files@[i]).path@ != (#[trigger] files@[j]).path@ by {
                    if i != place && j != place {
                        assert(before[i].path@ != before[j].path@);
                    } else if i == place {
                        if place < before.len() {
                            assert(before[j].path@ != before[place].path@);
                        } else {
                            assert(before[j].path@ != key);
                        }
                    } else {
                        if place < before.len() {
                            assert(before[i].path@ != before[place].path@);
                        } else {
                            assert(before[i].path@ != key);
                        }
                    }
                }
            }
            lemma_same_map_after(before, files@, key, value, place);
        }
        self.files = files;
    }

    /// Takes the file at a path away; returns whether there was one.
    pub fn remove(&mut self, path: &str) -> (removed: Option<String>)
        ensures
            final(self)@ == old(self)@.remove(path@),
            match removed {
                Some(contents) => old(self)@.contains_key(path@) && old(self)@[path@] == contents@,
                None => !old(self)@.contains_key(path@),
            },
    {
        proof {
            use_type_invariant(&*self);
        }
        let ghost before = self.files@;
        let found = self.find(path);
        let mut files: Vec<ProjectFile> = Vec::new();
        core::mem::swap(&mut self.files, &mut files);
        let mut removed: Option<String> = None;
        proof {
            lemma_file_place(before, path@, 0);
        }
        if let Some(index) = found {
            let file = files.remove(index);
            removed = Some(file.contents);
            proof {
                assert(distinct_paths(files@)) by {
                    assert forall|i: int, j: int|
                        0 <= i < files@.len() && 0 <= j < files@.len() && i != j implies (
                    #[trigger] files@[i]).path@ != (#[trigger] files@[j]).path@ by {
                        let a = if i < index {
                            i
                        } else {
                            i + 1
                        };
                        let b = if j < index {
                            j
                        } else {
                            j + 1
                        };
                        assert(before[a].path@ != before[b].path@);
                    }
                }
                lemma_map_without(before, files@, index as int);
            }
        } else {
            assert(contents_by_path(before) =~= contents_by_path(before).remove(path@));
        }
        self.files = files;
        removed
    }

    /// Returns the same files.
    pub fn duplicate(&self) -> (copy: Self)
        ensures
            copy@ == self@,
    {
        let mut files: Vec<ProjectFile> = Vec::new();
        let mut index: usize = 0;
        proof {
            use_type_invariant(self);
        }
        while index < self.files.len()
            invariant
                index <= self.files@.len(),
                files@.len() == index,
                forall|i: int|
                    0 <= i < index ==> (#[trigger] files@[i]).path@ == self.files@[i].path@
                        && files@[i].contents@ == self.files@[i].contents@,
            decreases self.files@.len() - index,
        {
            files.push(
                ProjectFile {
                    path: self.files[index].path.clone(),
                    contents: self.files[index].contents.clone(),
                },
            );
            index += 1;
        }
        proof {
            assert forall|i: int, j: int|
                0 <= i < files@.len() && 0 <= j < files@.len() && i != j implies (
            #[trigger] files@[i]).path@ != (#[trigger] files@[j]).path@ by {
                assert(self.files@[i].path@ != self.files@[j].path@);
            }
            assert forall|path: Seq<char>| #[trigger]
                file_place(files@, path, 0) == file_place(self.files@, path, 0) by {
                lemma_same_places(files@, self.files@, path, 0);
            }
            assert forall|path: Seq<char>|
                0 <= file_place(files@, path, 0) < files@.len() implies files@[#[trigger]
            file_place(files@, path, 0)].contents@ == self.files@[file_place(
                self.files@,
                path,
                0,
            )].contents@ by {}
            assert(contents_by_path(files@) =~= contents_by_path(self.files@));
        }
        FileMap { files }
    }
}

proof fn lemma_same_places(
    left: Seq<ProjectFile>,
    right: Seq<ProjectFile>,
    path: Seq<char>,
    at: int,
)
    requires
        left.len() == right.len(),
        0 <= at <= left.len(),
        forall|i: int| 0 <= i < left.len() ==> (#[trigger] left[i]).path@ == right[i].path@,
    ensures
        file_place(left, path, at) == file_place(right, path, at),
    decreases left.len() - at,
{
    if at < left.len() && left[at].path@ != path {
        lemma_same_places(left, right, path, at + 1);
    }
}

proof fn lemma_same_map_after(
    before: Seq<ProjectFile>,
    after: Seq<ProjectFile>,
    key: Seq<char>,
    value: Seq<char>,
    place: int,
)
    requires
        distinct_paths(before),
        distinct_paths(after),
        place == file_place(before, key, 0),
        0 <= place <= before.len(),
        place < before.len() ==> after.len() == before.len(),
        place == before.len() ==> after.len() == before.len() + 1,
        after[place].path@ == key,
        after[place].contents@ == value,
        forall|i: int| 0 <= i < before.len() && i != place ==> after[i] == #[trigger] before[i],
    ensures
        contents_by_path(after) == contents_by_path(before).insert(key, value),
{
    let wanted = contents_by_path(before).insert(key, value);
    let found = contents_by_path(after);
    lemma_file_place(before, key, 0);
    lemma_only_place(after, place);
    assert forall|path: Seq<char>| #[trigger]
        found.contains_key(path) <==> wanted.contains_key(path) by {
        lemma_file_place(before, path, 0);
        lemma_file_place(after, path, 0);
        if path != key {
            let old_place = file_place(before, path, 0);
            let new_place = file_place(after, path, 0);
            if old_place < before.len() {
                assert(after[old_place] == before[old_place]);
                lemma_only_place(after, old_place);
            }
            if new_place < after.len() {
                assert(new_place != place);
                assert(after[new_place] == before[new_place]);
                lemma_only_place(before, new_place);
            }
        }
    }
    assert forall|path: Seq<char>| found.contains_key(path) implies #[trigger] found[path]
        == wanted[path] by {
        lemma_file_place(after, path, 0);
        if path != key {
            let new_place = file_place(after, path, 0);
            assert(new_place != place);
            assert(after[new_place] == before[new_place]);
            lemma_only_place(before, new_place);
        }
    }
    assert(found =~= wanted);
}

proof fn lemma_map_without(before: Seq<ProjectFile>, after: Seq<ProjectFile>, index: int)
    requires
        distinct_paths(before),
        distinct_paths(after),
        0 <= index < before.len(),
        after == before.remove(index),
    ensures
        contents_by_path(after) == contents_by_path(before).remove(before[index].path@),
{
    let key = before[index].path@;
    let wanted = contents_by_path(before).remove(key);
    let found = contents_by_path(after);
    assert forall|path: Seq<char>| #[trigger]
        found.contains_key(path) <==> wanted.contains_key(path) by {
        lemma_file_place(before, path, 0);
        lemma_file_place(after, path, 0);
        let old_place = file_place(before, path, 0);
        let new_place = file_place(after, path, 0);
        if path != key && old_place < before.len() {
            let kept = if old_place < index {
                old_place
            } else {
                old_place - 1
            };
            assert(after[kept] == before[old_place]);
            lemma_only_place(after, kept);
        }
        if new_place < after.len() {
            let origin = if new_place < index {
                new_place
            } else {
                new_place + 1
            };
            assert(after[new_place] == before[origin]);
            assert(before[origin].path@ != before[index].path@);
            lemma_only_place(before, origin);
        }
    }
    assert forall|path: Seq<char>| found.contains_key(path) implies #[trigger] found[path]
        == wanted[path] by {
        lemma_file_place(after, path, 0);
        let new_place = file_place(after, path, 0);
        let origin = if new_place < index {
            new_place
        } else {
            new_place + 1
        };
        assert(after[new_place] == before[origin]);
        lemma_only_place(before, origin);
    }
    assert(found =~= wanted);
}

} // verus!
