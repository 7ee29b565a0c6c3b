//! Templates: named descriptions of folders, files and commands, and the
//! composition of several of them into one folder tree.

use vstd::prelude::*;
use vstd::set_lib::*;
use vstd::string::*;
use vstd::hash_map::StringHashMap;
use vstd::hash_set::StringHashSet;
use crate::settings::Settings;
use crate::folder::{File, FileView, Folder, FolderView, file_views, folder_views, with_file_in_deepest, lemma_sub_folders, extend_files, extend_folders, extend_strings, copy_strings};
use crate::text::{copy_opt, opt_view, views};

verus! {

/// What a `FilePointer` stands for.
pub struct FilePointerView {
    pub file_dir: Seq<char>,
    pub parent_folder: Option<FolderView>,
}

/// What a `Template` stands for.
pub struct TemplateView {
    pub folders: Seq<FolderView>,
    pub files: Seq<FileView>,
    pub commands: Seq<Seq<char>>,
    pub template_vars: Seq<Seq<char>>,
    pub includes: Seq<Seq<char>>,
    pub folder_pointer: Option<Seq<char>>,
    pub file_pointer: Option<FilePointerView>,
}

/// A template as the store holds it: the template, and what its pointers lead
/// to as far as that has been read.
pub struct EntryView {
    pub template: TemplateView,
    pub folder: Option<FolderView>,
    pub file: Option<FileView>,
}

/// How many templates of the store have not been visited.
pub open spec fn unvisited(store: Map<Seq<char>, EntryView>, seen: Set<Seq<char>>) -> nat {
    store.dom().difference(seen).len()
}

/// Visiting a known template that was not visited leaves fewer unvisited,
/// whatever else is visited with it.
pub proof fn lemma_unvisited_decreases(
    store: Map<Seq<char>, EntryView>,
    seen: Set<Seq<char>>,
    name: Seq<char>,
    more: Set<Seq<char>>,
)
    requires
        store.dom().finite(),
        store.contains_key(name),
        !seen.contains(name),
    ensures
        unvisited(store, seen.insert(name).union(more)) < unvisited(store, seen),
        unvisited(store, seen.insert(name)) < unvisited(store, seen),
{
    let before = store.dom().difference(seen);
    let after = store.dom().difference(seen.insert(name).union(more));
    assert(after.subset_of(before.remove(name)));
    lemma_len_subset(after, before.remove(name));
    let plain = store.dom().difference(seen.insert(name));
    assert(plain =~= before.remove(name));
}

/// Visiting names leaves no more unvisited than there were.
pub proof fn lemma_unvisited_monotone(
    store: Map<Seq<char>, EntryView>,
    seen: Set<Seq<char>>,
    more: Set<Seq<char>>,
)
    requires
        store.dom().finite(),
    ensures
        unvisited(store, seen.union(more)) <= unvisited(store, seen),
{
    let before = store.dom().difference(seen);
    let after = store.dom().difference(seen.union(more));
    assert(after.subset_of(before));
    lemma_len_subset(after, before);
}

/// The templates that are applied for a list of requested names, in the
/// order in which they are applied. Each name is taken once, the first time it
/// is met; `seen` holds the names met before. A template is followed at once
/// by the templates it names as included, and those by their own, before the next
/// requested name has its turn. A name that the store does not know stands in
/// the list like the others and leads to no other.
pub open spec fn visit_order(
    store: Map<Seq<char>, EntryView>,
    names: Seq<Seq<char>>,
    seen: Set<Seq<char>>,
) -> Seq<Seq<char>>
    decreases unvisited(store, seen), names.len(),
    when store.dom().finite()
{
    if names.len() == 0 {
        Seq::empty()
    } else {
        let first = names[0];
        let rest = names.drop_first();
        if seen.contains(first) {
            visit_order(store, rest, seen)
        } else if !store.contains_key(first) {
            proof {
                lemma_unvisited_monotone(store, seen, set![first]);
                assert(seen.union(set![first]) =~= seen.insert(first));
            }
            seq![first] + visit_order(store, rest, seen.insert(first))
        } else {
            proof {
                lemma_unvisited_decreases(store, seen, first, Set::empty());
            }
            let inner = visit_order(store, store[first].template.includes, seen.insert(first));
            proof {
                lemma_unvisited_decreases(store, seen, first, inner.to_set());
            }
            seq![first] + inner + visit_order(
                store,
                rest,
                seen.insert(first).union(inner.to_set()),
            )
        }
    }
}

/// No template is applied twice, and none that was met before: the order of
/// application holds each name once, and no name of `seen`.
pub proof fn lemma_visit_once(
    store: Map<Seq<char>, EntryView>,
    names: Seq<Seq<char>>,
    seen: Set<Seq<char>>,
)
    requires
        store.dom().finite(),
    ensures
        visit_order(store, names, seen).no_duplicates(),
        forall|i: int|
            0 <= i < visit_order(store, names, seen).len() ==> !seen.contains(
                #[trigger] visit_order(store, names, seen)[i],
            ),
    decreases unvisited(store, seen), names.len(),
{
    if names.len() > 0 {
        let first = names[0];
        let rest = names.drop_first();
        let order = visit_order(store, names, seen);
        if seen.contains(first) {
            lemma_visit_once(store, rest, seen);
        } else if !store.contains_key(first) {
            lemma_unvisited_monotone(store, seen, set![first]);
            assert(seen.union(set![first]) =~= seen.insert(first));
            lemma_visit_once(store, rest, seen.insert(first));
            let tail = visit_order(store, rest, seen.insert(first));
            assert(order =~= seq![first] + tail);
            assert forall|i: int, j: int| 0 <= i < j < order.len() implies order[i] != order[j] by {
                assert(order[j] == tail[j - 1]);
                if i > 0 {
                    assert(order[i] == tail[i - 1]);
                }
            }
            assert forall|i: int| 0 <= i < order.len() implies !seen.contains(
                #[trigger] order[i],
            ) by {
                if i > 0 {
                    assert(order[i] == tail[i - 1]);
                }
            }
        } else {
            let inner = visit_order(store, store[first].template.includes, seen.insert(first));
            lemma_unvisited_decreases(store, seen, first, Set::empty());
            lemma_unvisited_decreases(store, seen, first, inner.to_set());
            lemma_visit_once(store, store[first].template.includes, seen.insert(first));
            let later = seen.insert(first).union(inner.to_set());
            lemma_visit_once(store, rest, later);
            let tail = visit_order(store, rest, later);
            assert(order =~= seq![first] + inner + tail);
            let a = inner.len();
            assert forall|i: int| 0 <= i < order.len() implies !seen.contains(
                #[trigger] order[i],
            ) by {
                if 0 < i <= a {
                    assert(order[i] == inner[i - 1]);
                } else if i > a {
                    assert(order[i] == tail[i - 1 - a]);
                }
            }
            assert forall|i: int, j: int| 0 <= i < j < order.len() implies order[i] != order[j] by {
                if j <= a {
                    assert(order[j] == inner[j - 1]);
                    if i > 0 {
                        assert(order[i] == inner[i - 1]);
                    }
                } else {
                    assert(order[j] == tail[j - 1 - a]);
                    assert(!later.contains(tail[j - 1 - a]));
                    if i == 0 {
                    } else if i <= a {
                        assert(order[i] == inner[i - 1]);
                        assert(inner.to_set().contains(inner[i - 1]));
                    } else {
                        assert(order[i] == tail[i - 1 - a]);
                    }
                }
            }
        }
    }
}

/// Every requested template is applied, unless it was met before.
pub proof fn lemma_visit_all(
    store: Map<Seq<char>, EntryView>,
    names: Seq<Seq<char>>,
    seen: Set<Seq<char>>,
)
    requires
        store.dom().finite(),
    ensures
        forall|k: int|
            0 <= k < names.len() ==> seen.contains(#[trigger] names[k]) || visit_order(
                store,
                names,
                seen,
            ).contains(names[k]),
    decreases unvisited(store, seen), names.len(),
{
    if names.len() > 0 {
        let first = names[0];
        let rest = names.drop_first();
        let order = visit_order(store, names, seen);
        if seen.contains(first) {
            lemma_visit_all(store, rest, seen);
            assert forall|k: int| 0 <= k < names.len() implies seen.contains(#[trigger] names[k])
                || order.contains(names[k]) by {
                if k > 0 {
                    assert(names[k] == rest[k - 1]);
                }
            }
        } else {
            let later = if store.contains_key(first) {
                seen.insert(first).union(
                    visit_order(store, store[first].template.includes, seen.insert(first)).to_set(),
                )
            } else {
                seen.insert(first)
            };
            let head = if store.contains_key(first) {
                seq![first] + visit_order(
                    store,
                    store[first].template.includes,
                    seen.insert(first),
                )
            } else {
                seq![first]
            };
            if store.contains_key(first) {
                lemma_unvisited_decreases(
                    store,
                    seen,
                    first,
                    visit_order(store, store[first].template.includes, seen.insert(first)).to_set(),
                );
            } else {
                lemma_unvisited_monotone(store, seen, set![first]);
                assert(seen.union(set![first]) =~= seen.insert(first));
            }
            lemma_visit_all(store, rest, later);
            let tail = visit_order(store, rest, later);
            assert(order =~= head + tail);
            assert(order[0] == first);
            assert forall|k: int| 0 <= k < names.len() implies seen.contains(#[trigger] names[k])
                || order.contains(names[k]) by {
                if k > 0 {
                    assert(names[k] == rest[k - 1]);
                    if tail.contains(rest[k - 1]) {
                        let j = choose|j: int| 0 <= j < tail.len() && tail[j] == rest[k - 1];
                        assert(order[head.len() + j] == rest[k - 1]);
                    } else {
                        assert(later.contains(rest[k - 1]));
                        if rest[k - 1] == first {
                        } else if !seen.contains(rest[k - 1]) {
                            let inner = visit_order(
                                store,
                                store[first].template.includes,
                                seen.insert(first),
                            );
                            assert(inner.to_set().contains(rest[k - 1]));
                            let j = choose|j: int| 0 <= j < inner.len() && inner[j] == rest[k - 1];
                            assert(order[1 + j] == rest[k - 1]);
                        }
                    }
                }
            }
        }
    }
}

/// A project folder after one template has been added to it: the template's
/// folders, files and commands come after those that are there; then what
/// its folder pointer leads to, as far as that was handed in; then the file
/// that its file pointer leads to, inside the pointer's parent folder where it
/// names one.
pub open spec fn merged(
    project: FolderView,
    template: TemplateView,
    folder: Option<FolderView>,
    file: Option<FileView>,
) -> FolderView {
    let own = FolderView {
        sub_folders: project.sub_folders + template.folders,
        files: project.files + template.files,
        commands: project.commands + template.commands,
        ..project
    };
    let pointed = match (template.folder_pointer, folder) {
        (Some(_), Some(f)) => FolderView {
            sub_folders: own.sub_folders + f.sub_folders,
            files: own.files + f.files,
            ..own
        },
        _ => own,
    };
    match (template.file_pointer, file) {
        (Some(pointer), Some(f)) => match pointer.parent_folder {
            Some(parent) => FolderView {
                sub_folders: pointed.sub_folders.push(with_file_in_deepest(parent, f)),
                ..pointed
            },
            None => FolderView { files: pointed.files.push(f), ..pointed },
        },
        _ => pointed,
    }
}

/// A project folder after the templates of `order` have been added to it, one
/// after the other.
pub open spec fn applied(
    store: Map<Seq<char>, EntryView>,
    project: FolderView,
    order: Seq<Seq<char>>,
) -> FolderView
    decreases order.len(),
{
    if order.len() == 0 {
        project
    } else {
        let entry = store[order[0]];
        applied(
            store,
            merged(project, entry.template, entry.folder, entry.file),
            order.drop_first(),
        )
    }
}

/// Adding the templates of two lists, one list after the other, is adding
/// those of the joined list.
pub proof fn lemma_applied_concat(
    store: Map<Seq<char>, EntryView>,
    project: FolderView,
    a: Seq<Seq<char>>,
    b: Seq<Seq<char>>,
)
    ensures
        applied(store, project, a + b) == applied(store, applied(store, project, a), b),
    decreases a.len(),
{
    if a.len() == 0 {
        assert(a + b =~= b);
    } else {
        let entry = store[a[0]];
        let next = merged(project, entry.template, entry.folder, entry.file);
        assert((a + b).drop_first() =~= a.drop_first() + b);
        lemma_applied_concat(store, next, a.drop_first(), b);
    }
}

/// Adding templates keeps what a project folder holds: its name stays, and
/// its sub-folders, files and commands stay where they are, before all that
/// is added.
pub proof fn lemma_applied_extends(
    store: Map<Seq<char>, EntryView>,
    project: FolderView,
    order: Seq<Seq<char>>,
)
    ensures
        applied(store, project, order).name == project.name,
        project.sub_folders.is_prefix_of(applied(store, project, order).sub_folders),
        project.files.is_prefix_of(applied(store, project, order).files),
        project.commands.is_prefix_of(applied(store, project, order).commands),
    decreases order.len(),
{
    if order.len() > 0 {
        let entry = store[order[0]];
        let next = merged(project, entry.template, entry.folder, entry.file);
        lemma_applied_extends(store, next, order.drop_first());
        let last = applied(store, project, order);
        assert(project.sub_folders.is_prefix_of(next.sub_folders));
        assert(project.files.is_prefix_of(next.files));
        assert(project.commands.is_prefix_of(next.commands));
        assert(project.sub_folders =~= last.sub_folders.subrange(
            0,
            project.sub_folders.len() as int,
        )) by {
            assert(next.sub_folders =~= last.sub_folders.subrange(0, next.sub_folders.len() as int));
        }
        assert(project.files =~= last.files.subrange(0, project.files.len() as int)) by {
            assert(next.files =~= last.files.subrange(0, next.files.len() as int));
        }
        assert(project.commands =~= last.commands.subrange(0, project.commands.len() as int)) by {
            assert(next.commands =~= last.commands.subrange(0, next.commands.len() as int));
        }
    }
}

/// The variables that the templates applied for `names` ask for: those of the
/// templates that a template names as included come before its own.
pub open spec fn collected_vars(
    store: Map<Seq<char>, EntryView>,
    names: Seq<Seq<char>>,
    seen: Set<Seq<char>>,
) -> Seq<Seq<char>>
    decreases unvisited(store, seen), names.len(),
    when store.dom().finite()
{
    if names.len() == 0 {
        Seq::empty()
    } else {
        let first = names[0];
        let rest = names.drop_first();
        if seen.contains(first) {
            collected_vars(store, rest, seen)
        } else if !store.contains_key(first) {
            proof {
                lemma_unvisited_monotone(store, seen, set![first]);
                assert(seen.union(set![first]) =~= seen.insert(first));
            }
            collected_vars(store, rest, seen.insert(first))
        } else {
            let template = store[first].template;
            let inner = visit_order(store, template.includes, seen.insert(first));
            proof {
                lemma_unvisited_decreases(store, seen, first, inner.to_set());
            }
            collected_vars(store, template.includes, seen.insert(first)) + template.template_vars
                + collected_vars(store, rest, seen.insert(first).union(inner.to_set()))
        }
    }
}

/// The first name of `order` that the store does not know.
pub open spec fn first_unknown(store: Map<Seq<char>, EntryView>, order: Seq<Seq<char>>) -> Option<
    Seq<char>,
>
    decreases order.len(),
{
    if order.len() == 0 {
        None
    } else if !store.contains_key(order[0]) {
        Some(order[0])
    } else {
        first_unknown(store, order.drop_first())
    }
}

/// No name is unknown exactly where every name is known.
pub proof fn lemma_first_unknown(store: Map<Seq<char>, EntryView>, order: Seq<Seq<char>>)
    ensures
        first_unknown(store, order) is None <==> (forall|i: int|
            0 <= i < order.len() ==> store.contains_key(#[trigger] order[i])),
    decreases order.len(),
{
    if order.len() > 0 {
        lemma_first_unknown(store, order.drop_first());
        let rest = order.drop_first();
        if first_unknown(store, order) is None {
            assert forall|i: int| 0 <= i < order.len() implies store.contains_key(
                #[trigger] order[i],
            ) by {
                if i > 0 {
                    assert(order[i] == rest[i - 1]);
                }
            }
        }
        if forall|i: int| 0 <= i < order.len() ==> store.contains_key(#[trigger] order[i]) {
            assert(store.contains_key(order[0]));
            assert forall|i: int| 0 <= i < rest.len() implies store.contains_key(
                #[trigger] rest[i],
            ) by {
                assert(rest[i] == order[i + 1]);
            }
        }
    }
}

/// Whether the store knows every template that is applied for `names`.
pub open spec fn knows_all(
    store: Map<Seq<char>, EntryView>,
    names: Seq<Seq<char>>,
    seen: Set<Seq<char>>,
) -> bool {
    forall|i: int|
        0 <= i < visit_order(store, names, seen).len() ==> store.contains_key(
            #[trigger] visit_order(store, names, seen)[i],
        )
}

/// Whether what a template's pointers lead to is at hand: the folder where
/// the template has a folder pointer, the file where it has a file pointer.
pub open spec fn pointed_held(
    template: TemplateView,
    folder: Option<FolderView>,
    file: Option<FileView>,
) -> bool {
    &&& template.folder_pointer is Some ==> folder is Some
    &&& template.file_pointer is Some ==> file is Some
}

/// Whether the store holds what the pointers of a known template lead to.
pub open spec fn resolved(store: Map<Seq<char>, EntryView>, name: Seq<char>) -> bool {
    store.contains_key(name) ==> pointed_held(
        store[name].template,
        store[name].folder,
        store[name].file,
    )
}

/// Whether the store holds what the pointers lead to, for every template that
/// is applied for `names`.
pub open spec fn resolved_all(
    store: Map<Seq<char>, EntryView>,
    names: Seq<Seq<char>>,
    seen: Set<Seq<char>>,
) -> bool {
    forall|i: int|
        0 <= i < visit_order(store, names, seen).len() ==> resolved(
            store,
            #[trigger] visit_order(store, names, seen)[i],
        )
}

/// The first name of `order` whose template has a pointer that the store
/// does not hold the target of.
pub open spec fn first_unresolved(store: Map<Seq<char>, EntryView>, order: Seq<Seq<char>>) -> Option<
    Seq<char>,
>
    decreases order.len(),
{
    if order.len() == 0 {
        None
    } else if !resolved(store, order[0]) {
        Some(order[0])
    } else {
        first_unresolved(store, order.drop_first())
    }
}

/// No name is unresolved exactly where every name is resolved.
pub proof fn lemma_first_unresolved(store: Map<Seq<char>, EntryView>, order: Seq<Seq<char>>)
    ensures
        first_unresolved(store, order) is None <==> (forall|i: int|
            0 <= i < order.len() ==> resolved(store, #[trigger] order[i])),
    decreases order.len(),
{
    if order.len() > 0 {
        lemma_first_unresolved(store, order.drop_first());
        let rest = order.drop_first();
        if first_unresolved(store, order) is None {
            assert forall|i: int| 0 <= i < order.len() implies resolved(
                store,
                #[trigger] order[i],
            ) by {
                if i > 0 {
                    assert(order[i] == rest[i - 1]);
                }
            }
        }
        if forall|i: int| 0 <= i < order.len() ==> resolved(store, #[trigger] order[i]) {
            assert(resolved(store, order[0]));
            assert forall|i: int| 0 <= i < rest.len() implies resolved(store, #[trigger] rest[i]) by {
                assert(rest[i] == order[i + 1]);
            }
        }
    }
}

/// A path to a single file on disk, and the folder to put the file into.
#[derive(Debug, PartialEq, Eq)]
pub struct FilePointer {
    pub file_dir: String,
    pub parent_folder: Option<Folder>,
}

/// A named description of what a project starts with.
#[derive(Debug, PartialEq, Eq)]
pub struct Template {
    pub folders: Vec<Folder>,
    pub files: Vec<File>,
    pub commands: Vec<String>,
    pub template_vars: Vec<String>,
    pub includes: Vec<String>,
    pub folder_pointer: Option<String>,
    pub file_pointer: Option<FilePointer>,
}

/// The values that every template can refer to.
#[derive(Debug, PartialEq, Eq)]
pub struct TemplateVars {
    pub project_name: String,
}

/// The view of an optional folder.
pub open spec fn opt_folder_view(o: Option<Folder>) -> Option<FolderView> {
    match o {
        Some(f) => Some(f@),
        None => None,
    }
}

/// The view of an optional file.
pub open spec fn opt_file_view(o: Option<File>) -> Option<FileView> {
    match o {
        Some(f) => Some(f@),
        None => None,
    }
}

impl View for FilePointer {
    type V = FilePointerView;

    open spec fn view(&self) -> FilePointerView {
        FilePointerView {
            file_dir: self.file_dir@,
            parent_folder: opt_folder_view(self.parent_folder),
        }
    }
}

/// The view of an optional file pointer.
pub open spec fn opt_pointer_view(o: Option<FilePointer>) -> Option<FilePointerView> {
    match o {
        Some(p) => Some(p@),
        None => None,
    }
}

impl View for Template {
    type V = TemplateView;

    open spec fn view(&self) -> TemplateView {
        TemplateView {
            folders: folder_views(self.folders@),
            files: file_views(self.files@),
            commands: views(self.commands@),
            template_vars: views(self.template_vars@),
            includes: views(self.includes@),
            folder_pointer: opt_view(self.folder_pointer),
            file_pointer: opt_pointer_view(self.file_pointer),
        }
    }
}

/// A copy of an optional folder.
fn copy_opt_folder(o: &Option<Folder>) -> (copy: Option<Folder>)
    ensures
        opt_folder_view(copy) == opt_folder_view(*o),
{
    match o {
        Some(f) => Some(f.clone()),
        None => None,
    }
}

/// A copy of an optional file.
fn copy_opt_file(o: &Option<File>) -> (copy: Option<File>)
    ensures
        opt_file_view(copy) == opt_file_view(*o),
{
    match o {
        Some(f) => Some(f.clone()),
        None => None,
    }
}

impl Clone for FilePointer {
    fn clone(&self) -> (copy: Self)
        ensures
            copy@ == self@,
    {
        FilePointer {
            file_dir: self.file_dir.clone(),
            parent_folder: copy_opt_folder(&self.parent_folder),
        }
    }
}

impl Clone for Template {
    fn clone(&self) -> (copy: Self)
        ensures
            copy@ == self@,
    {
        let mut folders: Vec<Folder> = Vec::new();
        extend_folders(&mut folders, &self.folders);
        let mut files: Vec<File> = Vec::new();
        extend_files(&mut files, &self.files);
        let file_pointer = match &self.file_pointer {
            Some(p) => Some(p.clone()),
            None => None,
        };
        let copy = Template {
            folders,
            files,
            commands: copy_strings(&self.commands),
            template_vars: copy_strings(&self.template_vars),
            includes: copy_strings(&self.includes),
            folder_pointer: copy_opt(&self.folder_pointer),
            file_pointer,
        };
        proof {
            assert(folder_views(copy.folders@) =~= folder_views(self.folders@));
            assert(file_views(copy.files@) =~= file_views(self.files@));
        }
        copy
    }
}

/// Adds one template to a project folder, with what its pointers lead to.
pub fn merge_template(
    project: &mut Folder,
    template: &Template,
    folder: &Option<Folder>,
    file: &Option<File>,
)
    requires
        pointed_held(template@, opt_folder_view(*folder), opt_file_view(*file)),
    ensures
        final(project)@ == merged(
            old(project)@,
            template@,
            opt_folder_view(*folder),
            opt_file_view(*file),
        ),
{
    proof {
        lemma_sub_folders(*project);
    }
    extend_folders(&mut project.sub_folders, &template.folders);
    extend_files(&mut project.files, &template.files);
    extend_strings(&mut project.commands, &template.commands);
    if template.folder_pointer.is_some() {
        match folder {
            Some(f) => {
                proof {
                    lemma_sub_folders(*f);
                }
                extend_folders(&mut project.sub_folders, &f.sub_folders);
                extend_files(&mut project.files, &f.files);
            },
            None => {},
        }
    }
    match &template.file_pointer {
        Some(pointer) => {
            match file {
                Some(f) => {
                    match &pointer.parent_folder {
                        Some(parent) => {
                            let mut parent_folder = parent.clone();
                            parent_folder.add_file_to_deepest_folder(f.clone());
                            let ghost before = folder_views(project.sub_folders@);
                            project.sub_folders.push(parent_folder);
                            assert(folder_views(project.sub_folders@) =~= before.push(
                                parent_folder@,
                            ));
                        },
                        None => {
                            let ghost before = file_views(project.files@);
                            let copy = f.clone();
                            project.files.push(copy);
                            assert(file_views(project.files@) =~= before.push(copy@));
                        },
                    }
                },
                None => {},
            }
        },
        None => {},
    }
    proof {
        lemma_sub_folders(*project);
    }
}

/// Adds a template to a project folder and hands back the variables that the
/// template asks for. `folder` and `file` are what the template's pointers
/// lead to, and are there where the template has the pointer; what is handed
/// in for a pointer that the template does not have is left aside.
pub fn load_template(
    project: &mut Folder,
    template: Template,
    folder: Option<Folder>,
    file: Option<File>,
) -> (vars: Vec<String>)
    requires
        pointed_held(template@, opt_folder_view(folder), opt_file_view(file)),
    ensures
        final(project)@ == merged(
            old(project)@,
            template@,
            opt_folder_view(folder),
            opt_file_view(file),
        ),
        views(vars@) == template@.template_vars,
{
    merge_template(project, &template, &folder, &file);
    template.template_vars
}

/// A template as the store holds it, with what its pointers lead to.
struct Entry {
    template: Template,
    folder: Option<Folder>,
    file: Option<File>,
}

impl View for Entry {
    type V = EntryView;

    closed spec fn view(&self) -> EntryView {
        EntryView {
            template: self.template@,
            folder: opt_folder_view(self.folder),
            file: opt_file_view(self.file),
        }
    }
}

/// The templates of one template directory, by name.
pub struct Templates {
    templates: StringHashMap<Entry>,
    template_dir: String,
}

impl View for Templates {
    type V = Map<Seq<char>, EntryView>;

    closed spec fn view(&self) -> Map<Seq<char>, EntryView> {
        Map::new(
            |name: Seq<char>| self.templates@.contains_key(name),
            |name: Seq<char>| self.templates@[name]@,
        )
    }
}

impl Templates {
    /// The store is well formed: it holds finitely many templates.
    pub closed spec fn wf(&self) -> bool {
        self.templates@.dom().finite()
    }

    /// The directory that the templates come from.
    pub closed spec fn dir(&self) -> Seq<char> {
        self.template_dir@
    }

    /// A well-formed store holds finitely many templates.
    pub proof fn lemma_finite(&self)
        requires
            self.wf(),
        ensures
            self@.dom().finite(),
    {
        assert(self@.dom() =~= self.templates@.dom());
    }

    /// An empty store for the template directory of the settings.
    pub fn new(settings: &Settings) -> (store: Templates)
        requires
            settings.template_dir is Some,
        ensures
            store.wf(),
            store@ == Map::<Seq<char>, EntryView>::empty(),
            store.dir() == settings.template_dir->Some_0@,
    {
        let template_dir = match &settings.template_dir {
            Some(dir) => dir.clone(),
            None => String::new(),
        };
        let store = Templates { templates: StringHashMap::new(), template_dir };
        assert(store@ =~= Map::<Seq<char>, EntryView>::empty());
        store
    }

    /// The directory that the templates come from.
    pub fn template_dir(&self) -> (dir: String)
        ensures
            dir@ == self.dir(),
    {
        self.template_dir.clone()
    }

    /// Puts a template into the store under a name. A template that was there
    /// under that name is replaced. Its pointers are not followed yet.
    pub fn insert(&mut self, name: String, template: Template)
        requires
            old(self).wf(),
        ensures
            final(self).wf(),
            final(self)@ == old(self)@.insert(
                name@,
                EntryView { template: template@, folder: None, file: None },
            ),
            final(self).dir() == old(self).dir(),
    {
        let entry = Entry { template, folder: None, file: None };
        self.templates.insert(name, entry);
        assert(self@ =~= old(self)@.insert(name@, entry@));
    }

    /// Whether the store holds a template of that name.
    pub fn contains(&self, name: &str) -> (known: bool)
        ensures
            known == self@.contains_key(name@),
    {
        self.templates.contains_key(name)
    }

    /// The template of that name.
    pub fn get(&self, name: &str) -> (found: Option<&Template>)
        ensures
            match found {
                Some(template) => self@.contains_key(name@) && template@ == self@[name@].template,
                None => !self@.contains_key(name@),
            },
    {
        match self.templates.get(name) {
            Some(entry) => Some(&entry.template),
            None => None,
        }
    }

    /// Records what the pointers of the template `name` lead to. A store that
    /// has no such template stays as it is.
    pub fn resolve(&mut self, name: &str, folder: Option<Folder>, file: Option<File>)
        requires
            old(self).wf(),
        ensures
            final(self).wf(),
            final(self)@ == if old(self)@.contains_key(name@) {
                old(self)@.insert(
                    name@,
                    EntryView {
                        template: old(self)@[name@].template,
                        folder: opt_folder_view(folder),
                        file: opt_file_view(file),
                    },
                )
            } else {
                old(self)@
            },
            final(self).dir() == old(self).dir(),
    {
        let template = match self.templates.get(name) {
            Some(entry) => Some(entry.template.clone()),
            None => None,
        };
        match template {
            Some(template) => {
                let entry = Entry { template, folder, file };
                self.templates.insert(String::from_str(name), entry);
                assert(self@ =~= old(self)@.insert(name@, entry@));
            },
            None => {},
        }
    }

    /// Visits the templates for `names` and writes down their order and the
    /// variables they ask for.
    fn walk(
        &self,
        names: &Vec<String>,
        seen: &mut StringHashSet,
        order: &mut Vec<String>,
        vars: &mut Vec<String>,
    )
        requires
            self.wf(),
        ensures
            views(final(order)@) == views(old(order)@) + visit_order(
                self@,
                views(names@),
                old(seen)@,
            ),
            views(final(vars)@) == views(old(vars)@) + collected_vars(
                self@,
                views(names@),
                old(seen)@,
            ),
            final(seen)@ == old(seen)@.union(
                visit_order(self@, views(names@), old(seen)@).to_set(),
            ),
        decreases unvisited(self@, old(seen)@), names.len(),
    {
        proof {
            self.lemma_finite();
        }
        let ghost store = self@;
        let ghost all = views(names@);
        let ghost seen0 = seen@;
        let ghost done = Seq::<Seq<char>>::empty();
        let ghost asked = Seq::<Seq<char>>::empty();
        let mut i: usize = 0;
        assert(all.skip(0) == all);
        assert(seen@ =~= seen0.union(done.to_set()));
        assert(views(order@) =~= views(old(order)@) + done);
        assert(views(vars@) =~= views(old(vars)@) + asked);
        while i < names.len()
            invariant
                i <= names.len(),
                self.wf(),
                store == self@,
                store.dom().finite(),
                all == views(names@),
                seen0 == old(seen)@,
                views(order@) == views(old(order)@) + done,
                views(vars@) == views(old(vars)@) + asked,
                visit_order(store, all, seen0) == done + visit_order(store, all.skip(i as int), seen@),
                collected_vars(store, all, seen0) == asked + collected_vars(
                    store,
                    all.skip(i as int),
                    seen@,
                ),
                seen@ == seen0.union(done.to_set()),
                unvisited(store, seen@) <= unvisited(store, seen0),
            decreases names.len() - i,
        {
            let ghost here = all.skip(i as int);
            let ghost first = here[0];
            let ghost seen_here = seen@;
            assert(first == names@[i as int]@);
            assert(here.drop_first() == all.skip(i + 1));
            if !seen.contains(names[i].as_str()) {
                match self.templates.get(names[i].as_str()) {
                    Some(entry) => {
                        let ghost inner = visit_order(
                            store,
                            store[first].template.includes,
                            seen_here.insert(first),
                        );
                        let ghost inner_vars = collected_vars(
                            store,
                            store[first].template.includes,
                            seen_here.insert(first),
                        );
                        proof {
                            lemma_unvisited_decreases(store, seen_here, first, inner.to_set());
                        }
                        seen.insert(names[i].clone());
                        let ghost order_before = views(order@);
                        order.push(names[i].clone());
                        assert(views(order@) =~= order_before.push(first));
                        self.walk(&entry.template.includes, seen, order, vars);
                        extend_strings(vars, &entry.template.template_vars);
                        proof {
                            let grown = done + seq![first] + inner;
                            assert(grown.to_set() =~= done.to_set().union(
                                set![first].union(inner.to_set()),
                            )) by {
                                assert forall|x: Seq<char>|
                                    grown.contains(x) <==> (done.contains(x) || x == first
                                        || inner.contains(x)) by {
                                    if grown.contains(x) {
                                        let k = choose|k: int| 0 <= k < grown.len() && grown[k] == x;
                                        assert(grown[k] == x);
                                        if k < done.len() {
                                            assert(done[k] == x);
                                        } else if k == done.len() {
                                        } else {
                                            assert(inner[k - done.len() - 1] == x);
                                        }
                                    }
                                    if done.contains(x) {
                                        let k = choose|k: int| 0 <= k < done.len() && done[k] == x;
                                        assert(grown[k] == x);
                                    }
                                    if x == first {
                                        assert(grown[done.len() as int] == x);
                                    }
                                    if inner.contains(x) {
                                        let k = choose|k: int|
                                            0 <= k < inner.len() && inner[k] == x;
                                        assert(grown[done.len() + 1 + k] == x);
                                    }
                                }
                            }
                            assert(seen@ =~= seen0.union(grown.to_set()));
                            assert(seen@ =~= seen_here.insert(first).union(inner.to_set()));
                            done = grown;
                            asked = asked + inner_vars + store[first].template.template_vars;
                            assert(views(order@) =~= views(old(order)@) + done);
                            assert(views(vars@) =~= views(old(vars)@) + asked);
                        }
                    },
                    None => {
                        proof {
                            lemma_unvisited_monotone(store, seen_here, set![first]);
                            assert(seen_here.union(set![first]) =~= seen_here.insert(first));
                        }
                        seen.insert(names[i].clone());
                        let ghost order_before = views(order@);
                        order.push(names[i].clone());
                        assert(views(order@) =~= order_before.push(first));
                        proof {
                            let grown = done.push(first);
                            assert(grown.to_set() =~= done.to_set().insert(first)) by {
                                assert forall|x: Seq<char>|
                                    grown.contains(x) <==> (done.contains(x) || x == first) by {
                                    if grown.contains(x) {
                                        let k = choose|k: int| 0 <= k < grown.len() && grown[k] == x;
                                        assert(grown[k] == x);
                                        if k < done.len() {
                                            assert(done[k] == x);
                                        }
                                    }
                                    if done.contains(x) {
                                        let k = choose|k: int| 0 <= k < done.len() && done[k] == x;
                                        assert(grown[k] == x);
                                    }
                                    if x == first {
                                        assert(grown[done.len() as int] == x);
                                    }
                                }
                            }
                            assert(seen@ =~= seen0.union(grown.to_set()));
                            done = grown;
                            assert(views(order@) =~= views(old(order)@) + done);
                        }
                    },
                }
            }
            i = i + 1;
        }
        assert(all.skip(names.len() as int) =~= Seq::<Seq<char>>::empty());
    }
}

impl Templates {
    /// The names of the templates that are applied for the requested ones, in
    /// the order in which they are applied. Names that the store does not know
    /// are among them.
    pub fn plan(&self, templates: &Vec<String>) -> (order: Vec<String>)
        requires
            self.wf(),
        ensures
            self@.dom().finite(),
            views(order@) == visit_order(self@, views(templates@), Set::empty()),
    {
        proof {
            self.lemma_finite();
        }
        let mut seen = StringHashSet::new();
        let mut order: Vec<String> = Vec::new();
        let mut vars: Vec<String> = Vec::new();
        self.walk(templates, &mut seen, &mut order, &mut vars);
        assert(views(order@) =~= visit_order(self@, views(templates@), Set::empty()));
        order
    }

    /// The first template, in the order of application, that is asked for
    /// and that the store does not know; none where it knows them all.
    pub fn missing(&self, templates: &Vec<String>) -> (unknown: Option<String>)
        requires
            self.wf(),
        ensures
            self@.dom().finite(),
            opt_view(unknown) == first_unknown(
                self@,
                visit_order(self@, views(templates@), Set::empty()),
            ),
            unknown is None <==> knows_all(self@, views(templates@), Set::empty()),
    {
        let order = self.plan(templates);
        let ghost all = visit_order(self@, views(templates@), Set::empty());
        let mut k: usize = 0;
        assert(all.skip(0) == all);
        proof {
            lemma_first_unknown(self@, all);
        }
        while k < order.len()
            invariant
                k <= order.len(),
                views(order@) == all,
                self@.dom().finite(),
                all == visit_order(self@, views(templates@), Set::empty()),
                first_unknown(self@, all) is None <==> knows_all(
                    self@,
                    views(templates@),
                    Set::empty(),
                ),
                first_unknown(self@, all) == first_unknown(self@, all.skip(k as int)),
            decreases order.len() - k,
        {
            assert(all.skip(k as int)[0] == order@[k as int]@);
            assert(all.skip(k as int).drop_first() == all.skip(k + 1));
            if !self.contains(order[k].as_str()) {
                return Some(order[k].clone());
            }
            k = k + 1;
        }
        None
    }

    /// The first template, in the order of application, that has a pointer
    /// of which the store does not hold the target; none where it holds them
    /// all. `resolve` hands the targets to the store.
    pub fn unresolved(&self, templates: &Vec<String>) -> (open: Option<String>)
        requires
            self.wf(),
        ensures
            self@.dom().finite(),
            opt_view(open) == first_unresolved(
                self@,
                visit_order(self@, views(templates@), Set::empty()),
            ),
            open is None <==> resolved_all(self@, views(templates@), Set::empty()),
    {
        let order = self.plan(templates);
        let ghost all = visit_order(self@, views(templates@), Set::empty());
        let mut k: usize = 0;
        assert(all.skip(0) == all);
        proof {
            lemma_first_unresolved(self@, all);
        }
        while k < order.len()
            invariant
                k <= order.len(),
                views(order@) == all,
                self@.dom().finite(),
                all == visit_order(self@, views(templates@), Set::empty()),
                first_unresolved(self@, all) is None <==> resolved_all(
                    self@,
                    views(templates@),
                    Set::empty(),
                ),
                first_unresolved(self@, all) == first_unresolved(self@, all.skip(k as int)),
            decreases order.len() - k,
        {
            assert(all.skip(k as int)[0] == order@[k as int]@);
            assert(all.skip(k as int).drop_first() == all.skip(k + 1));
            match self.templates.get(order[k].as_str()) {
                Some(entry) => {
                    let folder_open = entry.template.folder_pointer.is_some()
                        && entry.folder.is_none();
                    let file_open = entry.template.file_pointer.is_some() && entry.file.is_none();
                    if folder_open || file_open {
                        return Some(order[k].clone());
                    }
                },
                None => {},
            }
            k = k + 1;
        }
        None
    }

    /// Adds the requested templates to a project folder, with the templates
    /// that they name as included. Each template is added once, the first time
    /// it is met, and the names in `added_templates` count as met before. The
    /// store knows every template that is added, and holds what its pointers
    /// lead to. The result lists the variables that the added templates ask
    /// for.
    pub fn load_templates_helper(
        &self,
        templates: Vec<String>,
        project: &mut Folder,
        added_templates: &mut StringHashSet,
    ) -> (template_vars: Vec<String>)
        requires
            self.wf(),
            knows_all(self@, views(templates@), old(added_templates)@),
            resolved_all(self@, views(templates@), old(added_templates)@),
        ensures
            self@.dom().finite(),
            final(project)@ == applied(
                self@,
                old(project)@,
                visit_order(self@, views(templates@), old(added_templates)@),
            ),
            views(template_vars@) == collected_vars(
                self@,
                views(templates@),
                old(added_templates)@,
            ),
            final(added_templates)@ == old(added_templates)@.union(
                visit_order(self@, views(templates@), old(added_templates)@).to_set(),
            ),
    {
        proof {
            self.lemma_finite();
        }
        let ghost all = visit_order(self@, views(templates@), old(added_templates)@);
        let mut order: Vec<String> = Vec::new();
        let mut template_vars: Vec<String> = Vec::new();
        self.walk(&templates, added_templates, &mut order, &mut template_vars);
        assert(views(order@) =~= all);
        assert(views(template_vars@) =~= collected_vars(
            self@,
            views(templates@),
            old(added_templates)@,
        ));
        let mut k: usize = 0;
        assert(all.take(0) =~= Seq::<Seq<char>>::empty());
        while k < order.len()
            invariant
                k <= order.len(),
                views(order@) == all,
                forall|j: int| 0 <= j < all.len() ==> self@.contains_key(#[trigger] all[j]),
                forall|j: int| 0 <= j < all.len() ==> resolved(self@, #[trigger] all[j]),
                project@ == applied(self@, old(project)@, all.take(k as int)),
            decreases order.len() - k,
        {
            let ghost name = all[k as int];
            assert(name == order@[k as int]@);
            assert(resolved(self@, name));
            match self.templates.get(order[k].as_str()) {
                Some(entry) => {
                    let ghost before = project@;
                    merge_template(project, &entry.template, &entry.folder, &entry.file);
                    proof {
                        assert(all.take(k + 1) =~= all.take(k as int) + seq![name]);
                        lemma_applied_concat(self@, old(project)@, all.take(k as int), seq![name]);
                        assert(seq![name].drop_first() =~= Seq::<Seq<char>>::empty());
                        assert(applied(self@, before, seq![name]) == applied(
                            self@,
                            merged(
                                before,
                                self@[name].template,
                                self@[name].folder,
                                self@[name].file,
                            ),
                            seq![name].drop_first(),
                        ));
                    }
                },
                None => {},
            }
            k = k + 1;
        }
        assert(all.take(order.len() as int) =~= all);
        template_vars
    }

    /// Adds the requested templates to a project folder, with the templates
    /// that they name as included, each of them once. The store knows every
    /// template that is added, and holds what its pointers lead to. The result
    /// lists the variables that the added templates ask for.
    pub fn load_templates(&self, templates: Vec<String>, project: &mut Folder) -> (template_vars:
        Vec<String>)
        requires
            self.wf(),
            knows_all(self@, views(templates@), Set::empty()),
            resolved_all(self@, views(templates@), Set::empty()),
        ensures
            self@.dom().finite(),
            final(project)@ == applied(
                self@,
                old(project)@,
                visit_order(self@, views(templates@), Set::empty()),
            ),
            views(template_vars@) == collected_vars(self@, views(templates@), Set::empty()),
    {
        let mut added_templates = StringHashSet::new();
        self.load_templates_helper(templates, project, &mut added_templates)
    }
}

/// The name of the template that a file of the template directory holds:
/// the file's name without its ending, where that is `.yaml` or `.yml` and
/// something stands before it. Other files hold no template.
pub open spec fn template_name_of(file_name: Seq<char>) -> Option<Seq<char>> {
    let long = ".yaml"@;
    let short = ".yml"@;
    if file_name.len() > long.len() && file_name.subrange(
        file_name.len() - long.len(),
        file_name.len() as int,
    ) == long {
        Some(file_name.subrange(0, file_name.len() - long.len()))
    } else if file_name.len() > short.len() && file_name.subrange(
        file_name.len() - short.len(),
        file_name.len() as int,
    ) == short {
        Some(file_name.subrange(0, file_name.len() - short.len()))
    } else {
        None
    }
}

/// `text` without `ending` at its end, where it ends so and is longer.
fn without_ending(text: &str, ending: &str) -> (stem: Option<String>)
    ensures
        opt_view(stem) == if text@.len() > ending@.len() && text@.subrange(
            text@.len() - ending@.len(),
            text@.len() as int,
        ) == ending@ {
            Some(text@.subrange(0, text@.len() - ending@.len()))
        } else {
            None
        },
{
    let n = text.unicode_len();
    let m = ending.unicode_len();
    if n > m {
        let tail = String::from_str(text.substring_char(n - m, n));
        if tail == String::from_str(ending) {
            return Some(String::from_str(text.substring_char(0, n - m)));
        }
    }
    None
}

/// The name of the template that a file of the template directory holds.
pub fn template_name(file_name: &str) -> (name: Option<String>)
    ensures
        opt_view(name) == template_name_of(file_name@),
{
    match without_ending(file_name, ".yaml") {
        Some(stem) => Some(stem),
        None => without_ending(file_name, ".yml"),
    }
}

} // verus!
