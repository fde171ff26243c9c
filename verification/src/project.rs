//! The list of projects that the user added by hand.

use crate::chars::str_eq;
use crate::paths::{join_path, under};
use vstd::prelude::*;

verus! {

/// A project of the list.
#[derive(Debug, PartialEq)]
pub struct ProjectMeta {
    pub path: String,
    pub added_at: u64,
}

/// What a `ProjectMeta` says.
#[verifier::ext_equal]
pub struct ProjectMetaV {
    pub path: Seq<char>,
    pub added_at: u64,
}

impl View for ProjectMeta {
    type V = ProjectMetaV;

    open spec fn view(&self) -> ProjectMetaV {
        ProjectMetaV { path: self.path@, added_at: self.added_at }
    }
}

/// What each project of a list says.
pub open spec fn projects_say(v: Seq<ProjectMeta>) -> Seq<ProjectMetaV> {
    v.map_values(|p: ProjectMeta| p@)
}

/// Whether a project of that path is listed.
pub open spec fn listed(v: Seq<ProjectMetaV>, path: Seq<char>) -> bool {
    exists|i: int| 0 <= i < v.len() && (#[trigger] v[i]).path == path
}

/// The list with a project at its end; unchanged where it is listed already.
pub open spec fn with_project(v: Seq<ProjectMetaV>, path: Seq<char>, now: u64) -> Seq<
    ProjectMetaV,
> {
    if listed(v, path) {
        v
    } else {
        v.push(ProjectMetaV { path, added_at: now })
    }
}

/// The projects of other paths.
pub open spec fn without_project(v: Seq<ProjectMetaV>, path: Seq<char>) -> Seq<ProjectMetaV>
    decreases v.len(),
{
    if v.len() == 0 {
        v
    } else if v.last().path == path {
        without_project(v.drop_last(), path)
    } else {
        without_project(v.drop_last(), path).push(v.last())
    }
}

/// The list and the file in which it is kept.
#[derive(Debug)]
pub struct ProjectStore {
    pub path: String,
    pub projects: Vec<ProjectMeta>,
}

impl ProjectStore {
    /// The list as it was found; empty where it could not be read.
    pub fn load(data_dir: &str, saved: Option<Vec<ProjectMeta>>) -> (r: Self)
        ensures
            r.path@ == under(data_dir@, "projects.json"@),
            projects_say(r.projects@) == match saved {
                Some(v) => projects_say(v@),
                None => Seq::empty(),
            },
    {
        let projects = match saved {
            Some(v) => v,
            None => Vec::new(),
        };
        proof {
            if saved is None {
                assert(projects_say(projects@) =~= Seq::<ProjectMetaV>::empty());
            }
        }
        ProjectStore { path: join_path(data_dir, "projects.json"), projects }
    }

    /// Adds a project, unless it is listed. Says whether the list is to be
    /// written.
    pub fn add(&mut self, path: String, now: u64) -> (r: bool)
        ensures
            final(self).path == old(self).path,
            projects_say(final(self).projects@) == with_project(
                projects_say(old(self).projects@),
                path@,
                now,
            ),
            r == !listed(projects_say(old(self).projects@), path@),
    {
        let ghost before = projects_say(self.projects@);
        let mut i: usize = 0;
        while i < self.projects.len()
            invariant
                before == projects_say(self.projects@),
                self.projects@ == old(self).projects@,
                self.path == old(self).path,
                i <= self.projects@.len(),
                forall|k: int| 0 <= k < i ==> (#[trigger] before[k]).path != path@,
            decreases self.projects@.len() - i,
        {
            if str_eq(self.projects[i].path.as_str(), path.as_str()) {
                proof {
                    assert(before[i as int].path == path@);
                }
                return false;
            }
            i = i + 1;
        }
        let ghost pv = path@;
        self.projects.push(ProjectMeta { path, added_at: now });
        proof {
            assert(projects_say(self.projects@) =~= before.push(
                ProjectMetaV { path: pv, added_at: now },
            ));
        }
        true
    }

    /// Takes a project off the list.
    pub fn remove(&mut self, path: &str)
        ensures
            final(self).path == old(self).path,
            projects_say(final(self).projects@) == without_project(
                projects_say(old(self).projects@),
                path@,
            ),
    {
        let ghost all = projects_say(self.projects@);
        let mut kept: Vec<ProjectMeta> = Vec::new();
        proof {
            assert(projects_say(kept@) =~= without_project(all.take(0), path@));
        }
        for i in 0..self.projects.len()
            invariant
                all == projects_say(self.projects@),
                self.path == old(self).path,
                projects_say(kept@) == without_project(all.take(i as int), path@),
        {
            let ghost before = projects_say(kept@);
            proof {
                assert(all.take(i as int + 1).drop_last() =~= all.take(i as int));
                assert(all.take(i as int + 1).last() == self.projects@[i as int]@);
            }
            let p = &self.projects[i];
            if !str_eq(p.path.as_str(), path) {
                kept.push(ProjectMeta { path: p.path.clone(), added_at: p.added_at });
                proof {
                    assert(projects_say(kept@) =~= before.push(self.projects@[i as int]@));
                }
            }
        }
        proof {
            assert(all.take(self.projects@.len() as int) =~= all);
        }
        self.projects = kept;
    }
}

// ---------------------------------------------------------------------------
// Laws
// ---------------------------------------------------------------------------

/// What was added is listed, and adding it again changes nothing.
pub proof fn law_add_twice(v: Seq<ProjectMetaV>, path: Seq<char>, now: u64, later: u64)
    ensures
        listed(with_project(v, path, now), path),
        with_project(with_project(v, path, now), path, later) == with_project(v, path, now),
{
    if !listed(v, path) {
        assert(with_project(v, path, now)[v.len() as int].path == path);
    }
}

/// What was removed is not listed; every other project still is, once for each
/// time that it was.
pub proof fn law_remove(v: Seq<ProjectMetaV>, path: Seq<char>, other: ProjectMetaV)
    ensures
        !listed(without_project(v, path), path),
        other.path != path ==> without_project(v, path).to_multiset().count(other)
            == v.to_multiset().count(other),
    decreases v.len(),
{
    broadcast use vstd::seq_lib::group_to_multiset_ensures;

    if v.len() > 0 {
        law_remove(v.drop_last(), path, other);
        let w = without_project(v.drop_last(), path);
        assert(v =~= v.drop_last().push(v.last()));
        if v.last().path != path {
            let r = w.push(v.last());
            assert forall|i: int| 0 <= i < r.len() implies (#[trigger] r[i]).path != path by {
                if i < w.len() {
                    assert(w[i].path != path);
                }
            }
        }
    }
}

/// Taking a project out of the list leaves all others, in their order.
pub proof fn law_other_projects_stay(v: Seq<ProjectMetaV>, path: Seq<char>)
    ensures
        without_project(v, path) == v.filter(|p: ProjectMetaV| p.path != path),
    decreases v.len(),
{
    reveal(Seq::filter);
    if v.len() > 0 {
        law_other_projects_stay(v.drop_last(), path);
    } else {
        assert(v.filter(|p: ProjectMetaV| p.path != path) =~= v);
    }
}

} // verus!
