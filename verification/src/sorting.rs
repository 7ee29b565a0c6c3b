//! Putting things in order: the list of projects as it is written out, sorted
//! and with one project of each name and directory, and the tags of a project.

use vstd::prelude::*;
use crate::project::{Project, ProjectView, project_views};
use crate::reconcile::{marked, same_key};
use vstd::seq_lib::{to_multiset_build, to_multiset_insert};
use crate::text::{less, lex_lt, opt_view, same_opt, views};

verus! {

/// Nothing comes before itself.
pub proof fn lemma_lex_irreflexive(a: Seq<char>)
    ensures
        !lex_lt(a, a),
    decreases a.len(),
{
    if a.len() > 0 {
        lemma_lex_irreflexive(a.drop_first());
    }
}

/// Of two different texts, one comes before the other.
pub proof fn lemma_lex_total(a: Seq<char>, b: Seq<char>)
    ensures
        a == b || lex_lt(a, b) || lex_lt(b, a),
    decreases a.len(),
{
    if a.len() == 0 || b.len() == 0 {
        if a.len() == 0 && b.len() == 0 {
            assert(a =~= b);
        }
    } else if a[0] == b[0] {
        lemma_lex_total(a.drop_first(), b.drop_first());
        if a.drop_first() == b.drop_first() {
            assert(a =~= seq![a[0]] + a.drop_first());
            assert(b =~= seq![b[0]] + b.drop_first());
        }
    }
}

/// What comes before a text comes before all that the text comes before.
pub proof fn lemma_lex_transitive(a: Seq<char>, b: Seq<char>, c: Seq<char>)
    requires
        lex_lt(a, b),
        lex_lt(b, c),
    ensures
        lex_lt(a, c),
    decreases a.len(),
{
    if a.len() > 0 && a[0] == b[0] && b[0] == c[0] {
        lemma_lex_transitive(a.drop_first(), b.drop_first(), c.drop_first());
    }
}

/// The order of optional texts: a missing text comes before every text.
pub open spec fn opt_lt(a: Option<Seq<char>>, b: Option<Seq<char>>) -> bool {
    match (a, b) {
        (None, Some(_)) => true,
        (Some(x), Some(y)) => lex_lt(x, y),
        _ => false,
    }
}

/// The order of projects: by name, then by directory, then by category, then
/// by type.
pub open spec fn project_lt(a: ProjectView, b: ProjectView) -> bool {
    if a.name != b.name {
        lex_lt(a.name, b.name)
    } else if a.directory != b.directory {
        lex_lt(a.directory, b.directory)
    } else if a.category != b.category {
        opt_lt(a.category, b.category)
    } else {
        opt_lt(a.p_type, b.p_type)
    }
}

/// No project comes before itself.
pub proof fn lemma_project_irreflexive(a: ProjectView)
    ensures
        !project_lt(a, a),
{
    if a.p_type is Some {
        lemma_lex_irreflexive(a.p_type->Some_0);
    }
}

/// Of two different projects, one comes before the other.
pub proof fn lemma_project_total(a: ProjectView, b: ProjectView)
    ensures
        a == b || project_lt(a, b) || project_lt(b, a),
{
    lemma_lex_total(a.name, b.name);
    lemma_lex_total(a.directory, b.directory);
    if a.category is Some && b.category is Some {
        lemma_lex_total(a.category->Some_0, b.category->Some_0);
    }
    if a.p_type is Some && b.p_type is Some {
        lemma_lex_total(a.p_type->Some_0, b.p_type->Some_0);
    }
}

/// The order of optional texts is transitive.
pub proof fn lemma_opt_transitive(a: Option<Seq<char>>, b: Option<Seq<char>>, c: Option<Seq<char>>)
    requires
        opt_lt(a, b),
        opt_lt(b, c),
    ensures
        opt_lt(a, c),
{
    if a is Some {
        lemma_lex_transitive(a->Some_0, b->Some_0, c->Some_0);
    }
}

/// The order of projects is transitive.
pub proof fn lemma_project_transitive(a: ProjectView, b: ProjectView, c: ProjectView)
    requires
        project_lt(a, b),
        project_lt(b, c),
    ensures
        project_lt(a, c),
{
    lemma_lex_irreflexive(a.name);
    lemma_lex_irreflexive(a.directory);
    if a.name != b.name && b.name != c.name {
        lemma_lex_transitive(a.name, b.name, c.name);
    } else if a.name == b.name && b.name == c.name {
        if a.directory != b.directory && b.directory != c.directory {
            lemma_lex_transitive(a.directory, b.directory, c.directory);
        } else if a.directory == b.directory && b.directory == c.directory {
            if a.category is Some {
                lemma_lex_irreflexive(a.category->Some_0);
            }
            if a.category != b.category && b.category != c.category {
                lemma_opt_transitive(a.category, b.category, c.category);
            } else if a.category == b.category && b.category == c.category {
                lemma_opt_transitive(a.p_type, b.p_type, c.p_type);
            }
        }
    }
}

/// Whether each project of the list comes before all that follow it. Such a
/// list holds no project twice.
pub open spec fn strictly_sorted(projects: Seq<ProjectView>) -> bool {
    forall|i: int, j: int|
        0 <= i < j < projects.len() ==> project_lt(#[trigger] projects[i], #[trigger] projects[j])
}

/// Whether `a` comes before `b` in the order of optional texts.
fn opt_less(a: &Option<String>, b: &Option<String>) -> (r: bool)
    ensures
        r == opt_lt(opt_view(*a), opt_view(*b)),
{
    match b {
        Some(y) => match a {
            Some(x) => less(x.as_str(), y.as_str()),
            None => true,
        },
        None => false,
    }
}

/// Whether `a` comes before `b` in the order of projects.
pub fn project_less(a: &Project, b: &Project) -> (r: bool)
    ensures
        r == project_lt(a@, b@),
{
    if a.name != b.name {
        less(a.name.as_str(), b.name.as_str())
    } else if a.directory != b.directory {
        less(a.directory.as_str(), b.directory.as_str())
    } else if !same_opt(&a.category, &b.category) {
        opt_less(&a.category, &b.category)
    } else {
        opt_less(&a.p_type, &b.p_type)
    }
}

/// The order of projects by what tells them apart in the database: by name,
/// then by directory.
pub open spec fn key_lt(a: ProjectView, b: ProjectView) -> bool {
    if a.name != b.name {
        lex_lt(a.name, b.name)
    } else {
        lex_lt(a.directory, b.directory)
    }
}

/// Whether each project of the list comes before all that follow it, by name
/// and directory. Such a list holds no two projects of one name and
/// directory.
pub open spec fn key_sorted(projects: Seq<ProjectView>) -> bool {
    forall|i: int, j: int|
        0 <= i < j < projects.len() ==> key_lt(#[trigger] projects[i], #[trigger] projects[j])
}

/// Of each name and directory the first project of the list that has them,
/// in the order of the list.
pub open spec fn first_of_each(projects: Seq<ProjectView>) -> Seq<ProjectView>
    decreases projects.len(),
{
    if projects.len() == 0 {
        Seq::empty()
    } else if marked(projects.drop_last(), projects.last()) {
        first_of_each(projects.drop_last())
    } else {
        first_of_each(projects.drop_last()).push(projects.last())
    }
}

/// Every name and directory of the list is still there when only the first
/// project of each is kept, and no other.
pub proof fn lemma_first_of_each_keys(projects: Seq<ProjectView>, p: ProjectView)
    ensures
        marked(first_of_each(projects), p) <==> marked(projects, p),
    decreases projects.len(),
{
    if projects.len() > 0 {
        let init = projects.drop_last();
        let last = projects.last();
        let firsts = first_of_each(projects);
        lemma_first_of_each_keys(init, p);
        lemma_first_of_each_keys(init, last);
        if marked(projects, p) {
            let i = choose|i: int| 0 <= i < projects.len() && same_key(#[trigger] projects[i], p);
            if i < init.len() {
                assert(same_key(init[i], p));
                let j = choose|j: int|
                    0 <= j < first_of_each(init).len() && same_key(
                        #[trigger] first_of_each(init)[j],
                        p,
                    );
                assert(same_key(firsts[j], p));
            } else if marked(init, last) {
                let j = choose|j: int|
                    0 <= j < first_of_each(init).len() && same_key(
                        #[trigger] first_of_each(init)[j],
                        last,
                    );
                assert(same_key(firsts[j], p));
            } else {
                assert(same_key(firsts[firsts.len() - 1], p));
            }
        }
        if marked(firsts, p) {
            let j = choose|j: int| 0 <= j < firsts.len() && same_key(#[trigger] firsts[j], p);
            if j < first_of_each(init).len() {
                assert(same_key(first_of_each(init)[j], p));
                let i = choose|i: int| 0 <= i < init.len() && same_key(#[trigger] init[i], p);
                assert(same_key(projects[i], p));
            } else {
                assert(same_key(projects[projects.len() - 1], p));
            }
        }
    }
}

/// A list in the order of names and directories is in the order of projects.
pub proof fn lemma_key_sorted(projects: Seq<ProjectView>)
    requires
        key_sorted(projects),
    ensures
        strictly_sorted(projects),
        forall|i: int, j: int|
            0 <= i < j < projects.len() ==> !same_key(#[trigger] projects[i], #[trigger] projects[j]),
{
    assert forall|i: int, j: int| 0 <= i < j < projects.len() implies project_lt(
        #[trigger] projects[i],
        #[trigger] projects[j],
    ) && !same_key(projects[i], projects[j]) by {
        assert(key_lt(projects[i], projects[j]));
        lemma_lex_irreflexive(projects[i].directory);
    }
}

/// Of two projects that differ in name or directory, one comes before the
/// other.
pub proof fn lemma_key_total(a: ProjectView, b: ProjectView)
    ensures
        same_key(a, b) || key_lt(a, b) || key_lt(b, a),
{
    lemma_lex_total(a.name, b.name);
    lemma_lex_total(a.directory, b.directory);
}

/// The order by name and directory is transitive.
pub proof fn lemma_key_transitive(a: ProjectView, b: ProjectView, c: ProjectView)
    requires
        key_lt(a, b),
        key_lt(b, c),
    ensures
        key_lt(a, c),
{
    lemma_lex_irreflexive(a.name);
    if a.name != b.name && b.name != c.name {
        lemma_lex_transitive(a.name, b.name, c.name);
    } else if a.name == b.name && b.name == c.name {
        lemma_lex_transitive(a.directory, b.directory, c.directory);
    }
}

/// Whether `a` comes before `b` by name and directory.
pub fn key_less(a: &Project, b: &Project) -> (r: bool)
    ensures
        r == key_lt(a@, b@),
{
    if a.name != b.name {
        less(a.name.as_str(), b.name.as_str())
    } else {
        less(a.directory.as_str(), b.directory.as_str())
    }
}

/// The list as it is written out: of each name and directory the first
/// project of the list that has them, and these in the order of their names
/// and directories.
pub fn normalized(projects: &Vec<Project>) -> (out: Vec<Project>)
    ensures
        key_sorted(project_views(out@)),
        forall|p: ProjectView|
            project_views(out@).contains(p) <==> first_of_each(project_views(projects@)).contains(
                p,
            ),
{
    let ghost all = project_views(projects@);
    let mut out: Vec<Project> = Vec::new();
    let mut i: usize = 0;
    assert(all.take(0) =~= Seq::empty());
    while i < projects.len()
        invariant
            i <= projects.len(),
            all == project_views(projects@),
            key_sorted(project_views(out@)),
            forall|p: ProjectView|
                project_views(out@).contains(p) <==> first_of_each(all.take(i as int)).contains(p),
        decreases projects.len() - i,
    {
        let ghost sorted = project_views(out@);
        let ghost item = projects@[i as int]@;
        let ghost seen = all.take(i as int);
        let ghost firsts = first_of_each(seen);
        assert(all[i as int] == item);
        assert(all.take(i + 1).drop_last() =~= seen);
        assert(all.take(i + 1).last() == item);
        let mut k: usize = 0;
        while k < out.len() && key_less(&out[k], &projects[i])
            invariant
                k <= out.len(),
                i < projects.len(),
                sorted == project_views(out@),
                item == projects@[i as int]@,
                forall|j: int| 0 <= j < k ==> key_lt(#[trigger] sorted[j], item),
            decreases out.len() - k,
        {
            assert(sorted[k as int] == out@[k as int]@);
            k = k + 1;
        }
        assert(k < out.len() ==> sorted[k as int] == out@[k as int]@);
        let present = k < out.len() && out[k].name == projects[i].name && out[k].directory
            == projects[i].directory;
        proof {
            lemma_first_of_each_keys(seen, item);
            if k < sorted.len() {
                lemma_key_total(sorted[k as int], item);
            }
            // A project of the same name and directory is among those kept
            // exactly where it stands at place `k`.
            if marked(firsts, item) {
                let j = choose|j: int| 0 <= j < firsts.len() && same_key(#[trigger] firsts[j], item);
                assert(firsts.contains(firsts[j]));
                assert(sorted.contains(firsts[j]));
                let m = choose|m: int| 0 <= m < sorted.len() && sorted[m] == firsts[j];
                lemma_lex_irreflexive(item.name);
                lemma_lex_irreflexive(item.directory);
                if m < k {
                    assert(key_lt(sorted[m], item));
                } else if m > k {
                    assert(key_lt(sorted[k as int], sorted[m]));
                }
                assert(m == k);
            }
            if present {
                assert(sorted.contains(sorted[k as int]));
                assert(firsts.contains(sorted[k as int]));
                let j = choose|j: int| 0 <= j < firsts.len() && firsts[j] == sorted[k as int];
                assert(same_key(firsts[j], item));
            }
            assert(present <==> marked(seen, item));
        }
        if !present {
            out.insert(k, projects[i].clone());
            proof {
                let grown = project_views(out@);
                assert(grown =~= sorted.insert(k as int, item));
                assert forall|a: int, b: int| 0 <= a < b < grown.len() implies key_lt(
                    #[trigger] grown[a],
                    #[trigger] grown[b],
                ) by {
                    if a == k {
                        assert(grown[b] == sorted[b - 1]);
                        if b - 1 > k {
                            lemma_key_transitive(item, sorted[k as int], sorted[b - 1]);
                        }
                    } else if b == k {
                        assert(grown[a] == sorted[a]);
                    } else if a < k && b > k {
                        assert(grown[a] == sorted[a] && grown[b] == sorted[b - 1]);
                    } else if a < k {
                        assert(grown[a] == sorted[a] && grown[b] == sorted[b]);
                    } else {
                        assert(grown[a] == sorted[a - 1] && grown[b] == sorted[b - 1]);
                    }
                }
                assert forall|p: ProjectView| grown.contains(p) <==> first_of_each(
                    all.take(i + 1),
                ).contains(p) by {
                    lemma_contains_insert(sorted, k as int, item, p);
                    lemma_contains_push(firsts, item, p);
                }
            }
        }
        i = i + 1;
    }
    assert(all.take(projects.len() as int) =~= all);
    out
}

/// What is written out holds no two projects of one name and directory, and
/// holds a project of a name and directory exactly where the list holds one.
pub proof fn lemma_written_once(projects: Seq<ProjectView>, out: Seq<ProjectView>)
    requires
        key_sorted(out),
        forall|p: ProjectView| out.contains(p) <==> first_of_each(projects).contains(p),
    ensures
        forall|i: int, j: int|
            0 <= i < j < out.len() ==> !same_key(#[trigger] out[i], #[trigger] out[j]),
        forall|p: ProjectView| marked(out, p) <==> marked(projects, p),
{
    lemma_key_sorted(out);
    let firsts = first_of_each(projects);
    assert forall|p: ProjectView| marked(out, p) <==> marked(projects, p) by {
        lemma_first_of_each_keys(projects, p);
        if marked(out, p) {
            let i = choose|i: int| 0 <= i < out.len() && same_key(#[trigger] out[i], p);
            assert(out.contains(out[i]));
            assert(firsts.contains(out[i]));
            let j = choose|j: int| 0 <= j < firsts.len() && firsts[j] == out[i];
            assert(same_key(firsts[j], p));
        }
        if marked(firsts, p) {
            let j = choose|j: int| 0 <= j < firsts.len() && same_key(#[trigger] firsts[j], p);
            assert(firsts.contains(firsts[j]));
            assert(out.contains(firsts[j]));
            let i = choose|i: int| 0 <= i < out.len() && out[i] == firsts[j];
            assert(same_key(out[i], p));
        }
    }
}

/// What a list holds after one item has been added at its end.
pub proof fn lemma_contains_push(s: Seq<ProjectView>, item: ProjectView, p: ProjectView)
    ensures
        s.push(item).contains(p) <==> (p == item || s.contains(p)),
{
    let grown = s.push(item);
    if grown.contains(p) {
        let j = choose|j: int| 0 <= j < grown.len() && grown[j] == p;
        if j < s.len() {
            assert(s[j] == p);
        }
    }
    if p == item {
        assert(grown[s.len() as int] == p);
    }
    if s.contains(p) {
        let j = choose|j: int| 0 <= j < s.len() && s[j] == p;
        assert(grown[j] == p);
    }
}

/// What a list holds after one item has been put into it.
pub proof fn lemma_contains_insert(s: Seq<ProjectView>, k: int, item: ProjectView, p: ProjectView)
    requires
        0 <= k <= s.len(),
    ensures
        s.insert(k, item).contains(p) <==> (p == item || s.contains(p)),
{
    let grown = s.insert(k, item);
    if grown.contains(p) {
        let j = choose|j: int| 0 <= j < grown.len() && grown[j] == p;
        if j < k {
            assert(s[j] == p);
        } else if j > k {
            assert(s[j - 1] == p);
        }
    }
    if p == item {
        assert(grown[k] == p);
    }
    if s.contains(p) {
        let j = choose|j: int| 0 <= j < s.len() && s[j] == p;
        if j < k {
            assert(grown[j] == p);
        } else {
            assert(grown[j + 1] == p);
        }
    }
}

/// There is one list only that is sorted and holds given projects, each of
/// them once: two such lists of the same projects are the same list.
pub proof fn lemma_sorted_unique(a: Seq<ProjectView>, b: Seq<ProjectView>)
    requires
        strictly_sorted(a),
        strictly_sorted(b),
        forall|p: ProjectView| a.contains(p) <==> b.contains(p),
    ensures
        a == b,
    decreases a.len(),
{
    if a.len() == 0 {
        if b.len() > 0 {
            assert(b.contains(b[0]));
        }
        assert(a =~= b);
    } else {
        assert(a.contains(a[0]));
        let j = choose|j: int| 0 <= j < b.len() && b[j] == a[0];
        assert(b.contains(b[0]));
        let i = choose|i: int| 0 <= i < a.len() && a[i] == b[0];
        lemma_project_irreflexive(a[0]);
        if i > 0 {
            if j > 0 {
                lemma_project_transitive(a[0], a[i], b[j]);
            }
        }
        assert(a[0] == b[0]);
        let ta = a.drop_first();
        let tb = b.drop_first();
        assert forall|p: ProjectView| ta.contains(p) <==> tb.contains(p) by {
            if ta.contains(p) {
                let k = choose|k: int| 0 <= k < ta.len() && ta[k] == p;
                assert(a[k + 1] == p);
                lemma_project_irreflexive(p);
                assert(a.contains(p));
                let m = choose|m: int| 0 <= m < b.len() && b[m] == p;
                assert(m > 0);
                assert(tb[m - 1] == p);
            }
            if tb.contains(p) {
                let k = choose|k: int| 0 <= k < tb.len() && tb[k] == p;
                assert(b[k + 1] == p);
                lemma_project_irreflexive(p);
                assert(b.contains(p));
                let m = choose|m: int| 0 <= m < a.len() && a[m] == p;
                assert(m > 0);
                assert(ta[m - 1] == p);
            }
        }
        assert forall|x: int, y: int| 0 <= x < y < ta.len() implies project_lt(
            #[trigger] ta[x],
            #[trigger] ta[y],
        ) by {
            assert(ta[x] == a[x + 1] && ta[y] == a[y + 1]);
        }
        assert forall|x: int, y: int| 0 <= x < y < tb.len() implies project_lt(
            #[trigger] tb[x],
            #[trigger] tb[y],
        ) by {
            assert(tb[x] == b[x + 1] && tb[y] == b[y + 1]);
        }
        lemma_sorted_unique(ta, tb);
        assert(a =~= seq![a[0]] + ta);
        assert(b =~= seq![b[0]] + tb);
    }
}

/// Whether no text of the list comes before one that stands earlier.
pub open spec fn sorted(items: Seq<Seq<char>>) -> bool {
    forall|i: int, j: int| 0 <= i < j < items.len() ==> !lex_lt(#[trigger] items[j], #[trigger] items[i])
}

/// The texts of the list in dictionary order.
pub fn sorted_strings(items: &Vec<String>) -> (out: Vec<String>)
    ensures
        sorted(views(out@)),
        views(out@).to_multiset() == views(items@).to_multiset(),
{
    let ghost all = views(items@);
    let mut out: Vec<String> = Vec::new();
    let mut i: usize = 0;
    assert(views(out@) =~= all.take(0));
    while i < items.len()
        invariant
            i <= items.len(),
            all == views(items@),
            sorted(views(out@)),
            views(out@).to_multiset() == all.take(i as int).to_multiset(),
        decreases items.len() - i,
    {
        let ghost before = views(out@);
        let ghost item = items@[i as int]@;
        assert(all[i as int] == item);
        let mut k: usize = 0;
        while k < out.len() && !less(items[i].as_str(), out[k].as_str())
            invariant
                k <= out.len(),
                i < items.len(),
                before == views(out@),
                item == items@[i as int]@,
                forall|j: int| 0 <= j < k ==> !lex_lt(item, #[trigger] before[j]),
            decreases out.len() - k,
        {
            assert(before[k as int] == out@[k as int]@);
            k = k + 1;
        }
        assert(k < out.len() ==> before[k as int] == out@[k as int]@);
        out.insert(k, items[i].clone());
        proof {
            let grown = views(out@);
            assert(grown =~= before.insert(k as int, item));
            assert forall|a: int, b: int| 0 <= a < b < grown.len() implies !lex_lt(
                #[trigger] grown[b],
                #[trigger] grown[a],
            ) by {
                if a == k {
                    assert(grown[b] == before[b - 1]);
                    if lex_lt(before[b - 1], item) {
                        if b - 1 > k {
                            assert(!lex_lt(before[b - 1], before[k as int]));
                            lemma_lex_total(before[b - 1], before[k as int]);
                            if before[b - 1] != before[k as int] {
                                lemma_lex_transitive(item, before[k as int], before[b - 1]);
                            }
                        }
                        lemma_lex_transitive(item, before[b - 1], item);
                        lemma_lex_irreflexive(item);
                    }
                } else if b == k {
                    assert(grown[a] == before[a]);
                } else if a < k && b > k {
                    assert(grown[a] == before[a] && grown[b] == before[b - 1]);
                } else if a < k {
                    assert(grown[a] == before[a] && grown[b] == before[b]);
                } else {
                    assert(grown[a] == before[a - 1] && grown[b] == before[b - 1]);
                }
            }
            to_multiset_insert(before, k as int, item);
            assert(all.take(i + 1) =~= all.take(i as int).push(item));
            to_multiset_build(all.take(i as int), item);
        }
        i = i + 1;
    }
    assert(all.take(items.len() as int) =~= all);
    out
}

/// Adds a tag to the tags of a project and puts them all in dictionary
/// order.
pub fn add_tag(tags: &mut Vec<String>, tag: String)
    ensures
        sorted(views(final(tags)@)),
        views(final(tags)@).to_multiset() == views(old(tags)@).push(tag@).to_multiset(),
{
    let ghost before = views(tags@);
    tags.push(tag);
    assert(views(tags@) =~= before.push(tag@));
    let ordered = sorted_strings(tags);
    *tags = ordered;
}

} // verus!
