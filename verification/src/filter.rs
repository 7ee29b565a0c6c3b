//! Listing the names of projects, all of them or those that a regular
//! expression finds.

use vstd::prelude::*;
use crate::project::{names_of, project_views, Project};
use crate::text::{opt_view, views};

verus! {

/// `regex::Regex`, a compiled regular expression. Nothing is said of what
/// it holds.
#[verifier::external_type_specification]
#[verifier::external_body]
pub struct ExRegex(regex::Regex);

/// Whether `regex::Regex::new` accepts the pattern.
pub uninterp spec fn regex_valid(pattern: Seq<char>) -> bool;

/// Whether the regular expression of that pattern has a match somewhere in
/// `text`: what `regex::Regex::is_match` answers.
pub uninterp spec fn regex_found(pattern: Seq<char>, text: Seq<char>) -> bool;

/// A regular expression to hold names against, with the pattern it was made
/// from.
struct NameFilter {
    pattern: String,
    regex: regex::Regex,
}

impl NameFilter {
    /// The pattern of the filter.
    spec fn pattern(&self) -> Seq<char> {
        self.pattern@
    }

    /// Calls `Regex::new`, which fails on a pattern that is no regular
    /// expression or that makes too large a program; whether it does depends
    /// on the pattern alone. The filter keeps the pattern beside what came
    /// back.
    #[verifier::external_body]
    fn compile(pattern: &str) -> (filter: Option<NameFilter>)
        ensures
            filter is Some <==> regex_valid(pattern@),
            filter is Some ==> filter->Some_0.pattern() == pattern@,
    {
        match regex::Regex::new(pattern) {
            Ok(regex) => Some(NameFilter { pattern: pattern.to_string(), regex }),
            Err(_) => None,
        }
    }

    /// Calls `Regex::is_match`, which tells whether the expression has a
    /// match anywhere in the text; the answer depends on the pattern and the
    /// text alone.
    #[verifier::external_body]
    fn found_in(&self, text: &str) -> (found: bool)
        ensures
            found == regex_found(self.pattern(), text@),
    {
        self.regex.is_match(text)
    }
}

/// The names in which the pattern is found, in their order.
pub open spec fn names_found(pattern: Seq<char>, names: Seq<Seq<char>>) -> Seq<Seq<char>>
    decreases names.len(),
{
    if names.len() == 0 {
        Seq::empty()
    } else if regex_found(pattern, names.last()) {
        names_found(pattern, names.drop_last()).push(names.last())
    } else {
        names_found(pattern, names.drop_last())
    }
}

/// The names to list: all of them where there is no filter, else those in
/// which the filter is found; nothing where the filter is no regular
/// expression.
pub open spec fn listed(names: Seq<Seq<char>>, filter: Option<Seq<char>>) -> Option<
    Seq<Seq<char>>,
> {
    match filter {
        None => Some(names),
        Some(pattern) => if regex_valid(pattern) {
            Some(names_found(pattern, names))
        } else {
            None
        },
    }
}

/// The views of an optional list of strings.
pub open spec fn opt_names(o: Option<Vec<String>>) -> Option<Seq<Seq<char>>> {
    match o {
        Some(v) => Some(views(v@)),
        None => None,
    }
}

/// The names of the projects to list, in the order of the projects.
pub fn list_names(projects: &Vec<Project>, filter: &Option<String>) -> (names: Option<Vec<String>>)
    ensures
        opt_names(names) == listed(
            names_of(project_views(projects@)),
            opt_view(*filter),
        ),
{
    let ghost all = names_of(project_views(projects@));
    match filter {
        Some(pattern) => {
            match NameFilter::compile(pattern.as_str()) {
                Some(compiled) => {
                    let mut names: Vec<String> = Vec::new();
                    let mut i: usize = 0;
                    assert(all.take(0) =~= Seq::empty());
                    assert(views(names@) =~= names_found(pattern@, all.take(0)));
                    while i < projects.len()
                        invariant
                            i <= projects.len(),
                            all == names_of(project_views(projects@)),
                            compiled.pattern() == pattern@,
                            views(names@) == names_found(pattern@, all.take(i as int)),
                        decreases projects.len() - i,
                    {
                        assert(all.take(i + 1).drop_last() =~= all.take(i as int));
                        assert(all.take(i + 1).last() == projects@[i as int].name@);
                        if compiled.found_in(projects[i].name.as_str()) {
                            let ghost before = views(names@);
                            names.push(projects[i].name.clone());
                            assert(views(names@) =~= before.push(projects@[i as int].name@));
                        }
                        i = i + 1;
                    }
                    assert(all.take(projects.len() as int) =~= all);
                    Some(names)
                },
                None => None,
            }
        },
        None => {
            let mut names: Vec<String> = Vec::new();
            let mut i: usize = 0;
            assert(views(names@) =~= all.take(0));
            while i < projects.len()
                invariant
                    i <= projects.len(),
                    all == names_of(project_views(projects@)),
                    views(names@) == all.take(i as int),
                decreases projects.len() - i,
            {
                let ghost before = views(names@);
                names.push(projects[i].name.clone());
                assert(views(names@) =~= before.push(projects@[i as int].name@));
                assert(all.take(i + 1) =~= all.take(i as int).push(projects@[i as int].name@));
                i = i + 1;
            }
            assert(all.take(projects.len() as int) =~= all);
            Some(names)
        },
    }
}

} // verus!
