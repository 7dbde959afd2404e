//! Project discovery and layout.
//!
//! A package project is rooted at the nearest ancestor `.ptah` of the
//! invocation directory that carries `config.toml` or `pesde.toml` — so
//! package commands work from any subdirectory inside a project and stop
//! at the filesystem root. The filesystem probes are the caller's: it
//! reports, for each ancestor in `paths::ancestors` order, whether that
//! ancestor's `.ptah/` holds either file.

use vstd::prelude::*;

use crate::package::error::Error;
use crate::paths::{ancestors, join_path, pad_marks, padded_marks, path_ancestors, path_join};
use crate::text::{chars_of, string_of};

verus! {

/// The first marked candidate, if any.
pub open spec fn first_marked_root(candidates: Seq<Seq<char>>, marked: Seq<bool>) -> Option<Seq<char>>
    decreases candidates.len(),
{
    if candidates.len() == 0 {
        None
    } else if marked[0] {
        Some(candidates[0])
    } else {
        first_marked_root(candidates.drop_first(), marked.drop_first())
    }
}

proof fn lemma_first_marked_root(candidates: Seq<Seq<char>>, marked: Seq<bool>)
    requires
        marked.len() == candidates.len(),
    ensures
        match first_marked_root(candidates, marked) {
            Some(r) => exists|i: int|
                0 <= i < candidates.len() && #[trigger] marked[i] && r == candidates[i] && forall|j: int|
                    0 <= j < i ==> !marked[j],
            None => forall|i: int| 0 <= i < candidates.len() ==> !marked[i],
        },
    decreases candidates.len(),
{
    if candidates.len() > 0 && !marked[0] {
        let c1 = candidates.drop_first();
        let m1 = marked.drop_first();
        lemma_first_marked_root(c1, m1);
        match first_marked_root(c1, m1) {
            Some(r) => {
                let k = choose|i: int|
                    0 <= i < c1.len() && #[trigger] m1[i] && r == c1[i] && forall|j: int| 0 <= j < i ==> !m1[j];
                assert(marked[k + 1] && r == candidates[k + 1]);
                assert forall|j: int| 0 <= j < k + 1 implies !marked[j] by {
                    if j > 0 {
                        assert(marked[j] == m1[j - 1]);
                    }
                }
            },
            None => {
                assert forall|i: int| 0 <= i < candidates.len() implies !marked[i] by {
                    if i > 0 {
                        assert(marked[i] == m1[i - 1]);
                    }
                }
            },
        }
    }
}

/// The project root found from `start` is the nearest marked ancestor: the
/// i-th ancestor (`start` itself first) whose probe is true while every
/// nearer one's is false; there is none exactly when no ancestor is marked.
/// (A missing probe counts as false.)
pub proof fn project_root_is_the_nearest_marked_ancestor(start: Seq<char>, marked: Seq<bool>)
    ensures
        ({
            let anc = ancestors(start);
            let m = padded_marks(marked, anc.len());
            match first_marked_root(anc, m) {
                Some(r) => exists|i: int|
                    0 <= i < anc.len() && i < marked.len() && #[trigger] marked[i] && r == anc[i]
                        && forall|j: int| 0 <= j < i && j < marked.len() ==> !marked[j],
                None => forall|i: int| 0 <= i < anc.len() && i < marked.len() ==> !#[trigger] marked[i],
            }
        }),
{
    let anc = ancestors(start);
    let m = padded_marks(marked, anc.len());
    lemma_first_marked_root(anc, m);
    match first_marked_root(anc, m) {
        Some(r) => {
            let k = choose|i: int|
                0 <= i < anc.len() && #[trigger] m[i] && r == anc[i] && forall|j: int| 0 <= j < i ==> !m[j];
            assert(k < marked.len() && marked[k]);
            assert forall|j: int| 0 <= j < k && j < marked.len() implies !marked[j] by {
                assert(!m[j]);
            }
        },
        None => {
            assert forall|i: int| 0 <= i < anc.len() && i < marked.len() implies !#[trigger] marked[i] by {
                assert(!m[i]);
            }
        },
    }
}

/// Nearest ancestor of `start` (inclusive) whose `.ptah/` contains
/// `config.toml` or `pesde.toml` (`marked[i]` for the i-th ancestor; an
/// ancestor without a probe counts as unmarked). Stops at the filesystem
/// root.
pub fn find_project_root(start: &str, marked: &Vec<bool>) -> (root: Option<String>)
    ensures
        crate::text::opt_string_view(root) == first_marked_root(
            ancestors(start@),
            padded_marks(marked@, ancestors(start@).len()),
        ),
{
    let anc = path_ancestors(start);
    let ghost target = padded_marks(marked@, ancestors(start@).len());
    assert(anc@.map_values(|s: String| s@).len() == anc.len());
    let marks = pad_marks(marked, anc.len());
    assert(marks@ == target);
    let ghost av = anc@.map_values(|s: String| s@);
    let mut i: usize = 0;
    assert(av.skip(0) =~= av);
    assert(marks@.skip(0) =~= marks@);
    while i < anc.len()
        invariant
            i <= anc.len() == marks.len(),
            av == anc@.map_values(|s: String| s@),
            av == ancestors(start@),
            marks@ == padded_marks(marked@, av.len()),
            first_marked_root(av, marks@) == first_marked_root(av.skip(i as int), marks@.skip(i as int)),
        decreases anc.len() - i,
    {
        assert(av.skip(i as int)[0] == av[i as int]);
        assert(marks@.skip(i as int)[0] == marks@[i as int]);
        if marks[i] {
            let r = anc[i].clone();
            assert(r@ == av[i as int]);
            return Some(r);
        }
        assert(av.skip(i as int).drop_first() =~= av.skip(i as int + 1));
        assert(marks@.skip(i as int).drop_first() =~= marks@.skip(i as int + 1));
        i += 1;
    }
    assert(av.skip(anc.len() as int).len() == 0);
    None
}

/// Discover the project root for an invocation directory; no marked
/// ancestor is the usage error naming where the search started.
pub fn discover_root(start: &str, marked: &Vec<bool>) -> (r: Result<String, Error>)
    ensures
        match first_marked_root(ancestors(start@), padded_marks(marked@, ancestors(start@).len())) {
            Some(root) => r matches Ok(s) && s@ == root,
            None => r matches Err(Error::NoProject { searched_from }) && searched_from@ == start@,
        },
{
    match find_project_root(start, marked) {
        Some(root) => Ok(root),
        None => Err(Error::NoProject { searched_from: string_of(&chars_of(start)) }),
    }
}

/// Where a project keeps its package state: the `.ptah/` package dir,
/// Pesde's general data (index clones, git dependency repos) under
/// `.ptah/.pesde/.data`, and the content-addressable store under
/// `.ptah/.pesde/.cas` — on the same filesystem as the packages it
/// hard-links into. The dot-prefixed names survive pesde's sweep of
/// unused scripts-link entries.
#[derive(Debug)]
pub struct ProjectDirs {
    pub ptah_dir: String,
    pub data_dir: String,
    pub cas_dir: String,
}

/// `<root>/.ptah`.
pub open spec fn ptah_dir_of(root: Seq<char>) -> Seq<char> {
    path_join(root, ".ptah"@)
}

/// The package directories of the project rooted at `root`.
pub fn project_dirs(root: &str) -> (d: ProjectDirs)
    ensures
        d.ptah_dir@ == ptah_dir_of(root@),
        d.data_dir@ == path_join(path_join(ptah_dir_of(root@), ".pesde"@), ".data"@),
        d.cas_dir@ == path_join(path_join(ptah_dir_of(root@), ".pesde"@), ".cas"@),
{
    let ptah_dir = join_path(root, ".ptah");
    let pesde = join_path(ptah_dir.as_str(), ".pesde");
    let data_dir = join_path(pesde.as_str(), ".data");
    let cas_dir = join_path(pesde.as_str(), ".cas");
    ProjectDirs { ptah_dir, data_dir, cas_dir }
}

} // verus!
