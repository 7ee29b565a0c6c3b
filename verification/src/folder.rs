//! The folder tree that a new project is built from: folders, the files in
//! them, and the commands to run in them.

use vstd::prelude::*;
use crate::text::{lines, lines_of, views};

verus! {

/// What a `File` stands for.
pub struct FileView {
    pub filename: Seq<char>,
    pub lines: Seq<Seq<char>>,
}

/// What a `Folder` stands for.
pub struct FolderView {
    pub name: Seq<char>,
    pub files: Seq<FileView>,
    pub sub_folders: Seq<FolderView>,
    pub commands: Seq<Seq<char>>,
}

/// A file to create: its name and its lines.
#[derive(Debug, PartialEq, Eq)]
pub struct File {
    pub filename: String,
    pub lines_of_file: Vec<String>,
}

/// A folder to create, with what goes into it.
#[derive(Debug, PartialEq, Eq)]
pub struct Folder {
    pub name: String,
    pub files: Vec<File>,
    pub sub_folders: Vec<Folder>,
    pub commands: Vec<String>,
}

impl View for File {
    type V = FileView;

    open spec fn view(&self) -> FileView {
        FileView { filename: self.filename@, lines: views(self.lines_of_file@) }
    }
}

/// The views of a list of files.
pub open spec fn file_views(files: Seq<File>) -> Seq<FileView> {
    files.map_values(|f: File| f@)
}

impl Folder {
    /// The tree that this folder stands for.
    pub open spec fn tree(&self) -> FolderView
        decreases self,
    {
        FolderView {
            name: self.name@,
            files: file_views(self.files@),
            sub_folders: Seq::new(
                self.sub_folders@.len(),
                |i: int|
                    if 0 <= i < self.sub_folders@.len() {
                        self.sub_folders@[i].tree()
                    } else {
                        arbitrary()
                    },
            ),
            commands: views(self.commands@),
        }
    }
}

impl View for Folder {
    type V = FolderView;

    open spec fn view(&self) -> FolderView {
        self.tree()
    }
}

/// The views of a list of folders.
pub open spec fn folder_views(folders: Seq<Folder>) -> Seq<FolderView> {
    folders.map_values(|f: Folder| f@)
}

/// A folder's view lists the views of its sub-folders.
pub proof fn lemma_sub_folders(folder: Folder)
    ensures
        folder@.sub_folders == folder_views(folder.sub_folders@),
        folder@.name == folder.name@,
        folder@.files == file_views(folder.files@),
        folder@.commands == views(folder.commands@),
{
    assert(folder@.sub_folders =~= folder_views(folder.sub_folders@));
}

/// How deep a folder goes: 0 where it has no sub-folders, else one more than
/// the deepest of its sub-folders.
pub open spec fn depth(folder: FolderView) -> nat
    decreases folder, folder.sub_folders.len() + 1,
{
    if folder.sub_folders.len() == 0 {
        0
    } else {
        1 + depth_among(folder, folder.sub_folders.len())
    }
}

/// The greatest depth among the first `upto` sub-folders of `folder`.
pub open spec fn depth_among(folder: FolderView, upto: nat) -> nat
    decreases folder, upto,
{
    if upto == 0 || upto > folder.sub_folders.len() {
        0
    } else {
        let before = depth_among(folder, (upto - 1) as nat);
        let last = depth(folder.sub_folders[upto - 1]);
        if last > before {
            last
        } else {
            before
        }
    }
}

/// The place of the deepest among the first `upto` sub-folders of `folder`;
/// of several that go equally deep, the first.
pub open spec fn deepest_child(folder: FolderView, upto: nat) -> int
    decreases upto,
{
    if upto <= 1 || upto > folder.sub_folders.len() {
        0
    } else {
        let before = deepest_child(folder, (upto - 1) as nat);
        if depth(folder.sub_folders[upto - 1]) > depth(folder.sub_folders[before]) {
            upto - 1
        } else {
            before
        }
    }
}

/// The deepest sub-folder is as deep as any, and deeper than all that stand
/// before it.
pub proof fn lemma_deepest_child(folder: FolderView, upto: nat)
    requires
        1 <= upto <= folder.sub_folders.len(),
    ensures
        0 <= deepest_child(folder, upto) < upto,
        depth(folder.sub_folders[deepest_child(folder, upto)]) == depth_among(folder, upto),
        forall|i: int|
            0 <= i < upto ==> depth(#[trigger] folder.sub_folders[i]) <= depth_among(folder, upto),
        forall|i: int|
            0 <= i < deepest_child(folder, upto) ==> depth(#[trigger] folder.sub_folders[i])
                < depth_among(folder, upto),
    decreases upto,
{
    let before = depth_among(folder, (upto - 1) as nat);
    let last = depth(folder.sub_folders[upto - 1]);
    assert(depth_among(folder, upto) == if last > before {
        last
    } else {
        before
    });
    if upto > 1 {
        lemma_deepest_child(folder, (upto - 1) as nat);
    } else {
        assert(depth_among(folder, 0) == 0);
    }
}

/// The way to the deepest folder: the places of the sub-folders to enter, one
/// after the other, each the deepest of its folder and the first of those
/// that go equally deep.
pub open spec fn deepest_path(folder: FolderView) -> Seq<int>
    decreases folder,
{
    if folder.sub_folders.len() == 0 {
        Seq::empty()
    } else {
        let i = deepest_child(folder, folder.sub_folders.len());
        if 0 <= i < folder.sub_folders.len() {
            seq![i] + deepest_path(folder.sub_folders[i])
        } else {
            Seq::empty()
        }
    }
}

/// The way to the deepest folder is as long as the folder is deep.
pub proof fn lemma_deepest_path_len(folder: FolderView)
    ensures
        deepest_path(folder).len() == depth(folder),
    decreases folder,
{
    if folder.sub_folders.len() > 0 {
        lemma_deepest_child(folder, folder.sub_folders.len());
        let i = deepest_child(folder, folder.sub_folders.len());
        lemma_deepest_path_len(folder.sub_folders[i]);
    }
}

/// `folder` with `file` added to its deepest folder: to the folder itself
/// where it has no sub-folders, else to the deepest folder of its deepest
/// sub-folder, the first of those that go equally deep.
pub open spec fn with_file_in_deepest(folder: FolderView, file: FileView) -> FolderView
    decreases folder,
{
    if folder.sub_folders.len() == 0 {
        FolderView { files: folder.files.push(file), ..folder }
    } else {
        let i = deepest_child(folder, folder.sub_folders.len());
        if 0 <= i < folder.sub_folders.len() {
            FolderView {
                sub_folders: folder.sub_folders.update(
                    i,
                    with_file_in_deepest(folder.sub_folders[i], file),
                ),
                ..folder
            }
        } else {
            folder
        }
    }
}

/// The folder that a way leads to.
pub open spec fn folder_at(folder: FolderView, path: Seq<int>) -> FolderView
    decreases path.len(),
{
    if path.len() == 0 || !(0 <= path[0] < folder.sub_folders.len()) {
        folder
    } else {
        folder_at(folder.sub_folders[path[0]], path.drop_first())
    }
}

/// A file that is added to the deepest folder is the last file of the folder
/// at the end of the way to the deepest folder, which holds the files it held
/// before it; and the way is as long as the folder is deep.
pub proof fn lemma_file_lands_deepest(folder: FolderView, file: FileView)
    ensures
        folder_at(with_file_in_deepest(folder, file), deepest_path(folder)).files == folder_at(
            folder,
            deepest_path(folder),
        ).files.push(file),
        folder_at(folder, deepest_path(folder)).sub_folders.len() == 0,
        deepest_path(folder).len() == depth(folder),
    decreases folder,
{
    lemma_deepest_path_len(folder);
    if folder.sub_folders.len() > 0 {
        lemma_deepest_child(folder, folder.sub_folders.len());
        let i = deepest_child(folder, folder.sub_folders.len());
        let path = deepest_path(folder);
        lemma_file_lands_deepest(folder.sub_folders[i], file);
        assert(path[0] == i);
        assert(path.drop_first() =~= deepest_path(folder.sub_folders[i]));
    }
}

impl Clone for File {
    fn clone(&self) -> (copy: Self)
        ensures
            copy@ == self@,
    {
        let mut lines: Vec<String> = Vec::new();
        let mut i: usize = 0;
        while i < self.lines_of_file.len()
            invariant
                i <= self.lines_of_file.len(),
                views(lines@) == views(self.lines_of_file@).take(i as int),
            decreases self.lines_of_file.len() - i,
        {
            let ghost before = views(lines@);
            lines.push(self.lines_of_file[i].clone());
            assert(views(lines@) =~= before.push(self.lines_of_file@[i as int]@));
            assert(views(self.lines_of_file@).take(i + 1) =~= views(self.lines_of_file@).take(
                i as int,
            ).push(self.lines_of_file@[i as int]@));
            i = i + 1;
        }
        assert(views(self.lines_of_file@).take(i as int) == views(self.lines_of_file@));
        File { filename: self.filename.clone(), lines_of_file: lines }
    }
}

impl File {
    /// The file of that name whose lines are the lines of `contents`.
    pub fn from_text(filename: String, contents: &str) -> (file: File)
        ensures
            file@ == (FileView { filename: filename@, lines: lines_of(contents@) }),
    {
        File { filename, lines_of_file: lines(contents) }
    }
}

impl Folder {
    /// An empty folder with the given name.
    pub fn new(name: String) -> (folder: Folder)
        ensures
            folder@ == (FolderView {
                name: name@,
                files: Seq::empty(),
                sub_folders: Seq::empty(),
                commands: Seq::empty(),
            }),
    {
        let folder = Folder {
            name,
            files: Vec::new(),
            sub_folders: Vec::new(),
            commands: Vec::new(),
        };
        proof {
            lemma_sub_folders(folder);
            assert(folder@.files =~= Seq::empty());
            assert(folder@.sub_folders =~= Seq::empty());
            assert(folder@.commands =~= Seq::empty());
        }
        folder
    }

    /// Adds a sub-folder after those that are there.
    pub fn add_sub_folder(&mut self, folder: Folder)
        ensures
            final(self)@ == (FolderView {
                sub_folders: old(self)@.sub_folders.push(folder@),
                ..old(self)@
            }),
    {
        proof {
            lemma_sub_folders(*self);
        }
        self.sub_folders.push(folder);
        proof {
            lemma_sub_folders(*self);
            assert(folder_views(self.sub_folders@) =~= folder_views(old(self).sub_folders@).push(
                folder@,
            ));
        }
    }

    /// Adds a file after those that are there.
    pub fn add_file(&mut self, file: File)
        ensures
            final(self)@ == (FolderView { files: old(self)@.files.push(file@), ..old(self)@ }),
    {
        proof {
            lemma_sub_folders(*self);
        }
        self.files.push(file);
        proof {
            lemma_sub_folders(*self);
            assert(file_views(self.files@) =~= file_views(old(self).files@).push(file@));
        }
    }

    /// The way to the deepest folder: the places of the sub-folders to enter.
    pub fn deepest_path(&self) -> (path: Vec<usize>)
        ensures
            path@.map_values(|i: usize| i as int) == deepest_path(self@),
            path@.len() == depth(self@),
        decreases self,
    {
        proof {
            lemma_sub_folders(*self);
            lemma_deepest_path_len(self@);
        }
        let ghost subs = self@.sub_folders;
        if self.sub_folders.is_empty() {
            let path: Vec<usize> = Vec::new();
            assert(path@.map_values(|i: usize| i as int) =~= deepest_path(self@));
            return path;
        }
        let mut best: usize = 0;
        let mut best_path = self.sub_folders[0].deepest_path();
        assert(subs[0] == self.sub_folders@[0]@);
        let mut k: usize = 1;
        while k < self.sub_folders.len()
            invariant
                1 <= k <= self.sub_folders.len(),
                subs == self@.sub_folders,
                subs == folder_views(self.sub_folders@),
                best as int == deepest_child(self@, k as nat),
                best < k,
                best_path@.map_values(|i: usize| i as int) == deepest_path(subs[best as int]),
                best_path@.len() == depth(subs[best as int]),
            decreases self.sub_folders.len() - k,
        {
            assert(subs[k as int] == self.sub_folders@[k as int]@);
            let path = self.sub_folders[k].deepest_path();
            if path.len() > best_path.len() {
                best = k;
                best_path = path;
            }
            k = k + 1;
        }
        let ghost tail = best_path@.map_values(|i: usize| i as int);
        best_path.insert(0, best);
        assert(best_path@.map_values(|i: usize| i as int) =~= seq![best as int] + tail);
        best_path
    }

    /// Adds a file to the deepest folder: to this folder where it has no
    /// sub-folders, else to the deepest folder of its deepest sub-folder, the
    /// first of those that go equally deep.
    pub fn add_file_to_deepest_folder(&mut self, file: File)
        ensures
            final(self)@ == with_file_in_deepest(old(self)@, file@),
        decreases *old(self),
    {
        proof {
            lemma_sub_folders(*self);
        }
        if self.sub_folders.is_empty() {
            self.files.push(file);
            proof {
                lemma_sub_folders(*self);
                assert(file_views(self.files@) =~= file_views(old(self).files@).push(file@));
            }
        } else {
            let path = self.deepest_path();
            proof {
                lemma_deepest_child(self@, self@.sub_folders.len());
            }
            assert(path@.map_values(|i: usize| i as int)[0] == path@[0] as int);
            let i = path[0];
            let ghost chosen = self.sub_folders@[i as int];
            self.sub_folders[i].add_file_to_deepest_folder(file);
            proof {
                lemma_sub_folders(*self);
                assert(folder_views(self.sub_folders@) =~= folder_views(
                    old(self).sub_folders@,
                ).update(i as int, with_file_in_deepest(chosen@, file@)));
            }
        }
    }
}

/// A copy of a list of strings.
pub fn copy_strings(items: &Vec<String>) -> (out: Vec<String>)
    ensures
        views(out@) == views(items@),
{
    let mut out: Vec<String> = Vec::new();
    extend_strings(&mut out, items);
    assert(views(out@) =~= views(items@));
    out
}

/// Appends copies of `items` to `target`.
pub fn extend_strings(target: &mut Vec<String>, items: &Vec<String>)
    ensures
        views(final(target)@) == views(old(target)@) + views(items@),
{
    let mut i: usize = 0;
    assert(views(target@) =~= views(old(target)@) + views(items@).take(0));
    while i < items.len()
        invariant
            i <= items.len(),
            views(target@) == views(old(target)@) + views(items@).take(i as int),
        decreases items.len() - i,
    {
        let ghost before = views(target@);
        target.push(items[i].clone());
        assert(views(target@) =~= before.push(items@[i as int]@));
        assert(views(items@).take(i + 1) =~= views(items@).take(i as int).push(
            items@[i as int]@,
        ));
        i = i + 1;
    }
    assert(views(items@).take(i as int) == views(items@));
}

/// Appends copies of `items` to `target`.
pub fn extend_files(target: &mut Vec<File>, items: &Vec<File>)
    ensures
        file_views(final(target)@) == file_views(old(target)@) + file_views(items@),
{
    let mut i: usize = 0;
    assert(file_views(target@) =~= file_views(old(target)@) + file_views(items@).take(0));
    while i < items.len()
        invariant
            i <= items.len(),
            file_views(target@) == file_views(old(target)@) + file_views(items@).take(i as int),
        decreases items.len() - i,
    {
        let ghost before = file_views(target@);
        target.push(items[i].clone());
        assert(file_views(target@) =~= before.push(items@[i as int]@));
        assert(file_views(items@).take(i + 1) =~= file_views(items@).take(i as int).push(
            items@[i as int]@,
        ));
        i = i + 1;
    }
    assert(file_views(items@).take(i as int) == file_views(items@));
}

/// Appends copies of `items` to `target`.
pub fn extend_folders(target: &mut Vec<Folder>, items: &Vec<Folder>)
    ensures
        folder_views(final(target)@) == folder_views(old(target)@) + folder_views(items@),
    decreases items,
{
    let mut i: usize = 0;
    assert(folder_views(target@) =~= folder_views(old(target)@) + folder_views(items@).take(0));
    while i < items.len()
        invariant
            i <= items.len(),
            folder_views(target@) == folder_views(old(target)@) + folder_views(items@).take(
                i as int,
            ),
        decreases items.len() - i,
    {
        let ghost before = folder_views(target@);
        target.push(items[i].clone());
        assert(folder_views(target@) =~= before.push(items@[i as int]@));
        assert(folder_views(items@).take(i + 1) =~= folder_views(items@).take(i as int).push(
            items@[i as int]@,
        ));
        i = i + 1;
    }
    assert(folder_views(items@).take(i as int) == folder_views(items@));
}

impl Clone for Folder {
    fn clone(&self) -> (copy: Self)
        ensures
            copy@ == self@,
        decreases self,
    {
        let mut files: Vec<File> = Vec::new();
        extend_files(&mut files, &self.files);
        let mut sub_folders: Vec<Folder> = Vec::new();
        extend_folders(&mut sub_folders, &self.sub_folders);
        let copy = Folder {
            name: self.name.clone(),
            files,
            sub_folders,
            commands: copy_strings(&self.commands),
        };
        proof {
            lemma_sub_folders(copy);
            lemma_sub_folders(*self);
            assert(file_views(copy.files@) =~= file_views(self.files@));
            assert(folder_views(copy.sub_folders@) =~= folder_views(self.sub_folders@));
        }
        copy
    }
}

} // verus!
