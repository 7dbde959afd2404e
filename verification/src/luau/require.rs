//! Relative and alias module resolution for ptah scripts: the navigator's
//! position and its directory rules.
//!
//! `require("./lib/util")` resolves relative to the requiring file, with
//! no boundary: relative paths may walk out of the entry script's
//! directory. Alias requires are resolved by the Luau navigator walking up
//! to the nearest `.luaurc`; an alias whose target is not `./`- or
//! `../`-relative is rejected. Which candidate files exist is the
//! embedding program's question; the positions here are lexical.

use vstd::prelude::*;

use crate::paths::{
    components, from_components, is_absolute, normal_components, normalize, normalize_components,
    normalized, path_components, path_is_absolute, path_join, build_path, join_path,
};
use crate::text::{chars_of, push_str_chars, string_of};

verus! {

/// Why a navigation step failed.
#[derive(Debug)]
pub enum NavigateFailure {
    /// Nothing is there (the navigator tries its next option).
    NotFound,
    /// A failure reported to the script with this message.
    Other(String),
}

/// A requirer rooted at the entry script's directory.
#[derive(Debug)]
pub struct ScriptRequirer {
    /// Absolute directory of the entry script; relative chunk names are
    /// joined onto it.
    root: String,
    /// Absolute path (file or dir) the navigation currently points at.
    current: String,
}

/// The index of the last `:`, if any.
pub open spec fn last_colon(s: Seq<char>) -> Option<int>
    decreases s.len(),
{
    if s.len() == 0 {
        None
    } else if s.last() == ':' {
        Some(s.len() - 1)
    } else {
        last_colon(s.drop_last())
    }
}

/// The text before the last `:` (a chunk's line suffix), or all of it.
pub open spec fn before_last_colon(s: Seq<char>) -> Seq<char> {
    match last_colon(s) {
        Some(k) => s.take(k),
        None => s,
    }
}

/// The position a chunk name resets the navigator to: the name without
/// its `@` and line suffix, normalized, joined onto the root when
/// relative. `None` when the name does not start with `@`.
pub open spec fn reset_target(root: Seq<char>, chunk: Seq<char>) -> Option<Seq<char>> {
    if chunk.len() > 0 && chunk[0] == '@' {
        let p = normalized(before_last_colon(chunk.drop_first()));
        Some(if is_absolute(p) { p } else { path_join(root, p) })
    } else {
        None
    }
}

/// A relative path that starts with a `.` component (`.` or `./…`).
pub open spec fn starts_with_cur_dir(p: Seq<char>) -> bool {
    p == seq!['.'] || (p.len() >= 2 && p[0] == '.' && p[1] == '/')
}

/// The parent position (normalized), `None` at a root or an empty path.
pub open spec fn parent_position(p: Seq<char>) -> Option<Seq<char>> {
    let c = components(p);
    if c.len() > 0 {
        Some(from_components(is_absolute(p), normalize_components(c.drop_last())))
    } else if starts_with_cur_dir(p) {
        Some(Seq::empty())
    } else {
        None
    }
}

/// The child position `name` below `p`, normalized.
pub open spec fn child_position(p: Seq<char>, name: Seq<char>) -> Seq<char> {
    normalized(if is_absolute(name) { name } else { path_join(p, name) })
}

/// The message for an alias target that is not relative to its
/// configuration file.
pub open spec fn alias_target_message(path: Seq<char>) -> Seq<char> {
    "alias target is not relative to the configuration file: `"@ + path
        + "` (only \"./\" and \"../\" targets are allowed)"@
}

fn copy_str(s: &str) -> (r: String)
    ensures
        r@ == s@,
{
    string_of(&chars_of(s))
}

impl ScriptRequirer {
    /// The entry script's directory.
    pub closed spec fn root_view(&self) -> Seq<char> {
        self.root@
    }

    /// Where the navigation points.
    pub closed spec fn current_view(&self) -> Seq<char> {
        self.current@
    }

    /// A requirer at the entry script's directory.
    pub fn new(root: String) -> (r: ScriptRequirer)
        ensures
            r.root_view() == root@,
            r.current_view() == root@,
    {
        let current = copy_str(root.as_str());
        ScriptRequirer { root, current }
    }

    /// The position the navigation points at.
    pub fn current(&self) -> (s: &str)
        ensures
            s@ == self.current_view(),
    {
        self.current.as_str()
    }

    /// Only chunks loaded from files (`@`-named) may require.
    pub fn is_require_allowed(&self, chunk_name: &str) -> (b: bool)
        ensures
            b == (chunk_name@.len() > 0 && chunk_name@[0] == '@'),
    {
        let v = chars_of(chunk_name);
        v.len() > 0 && v[0] == '@'
    }

    /// Point the navigation at the requiring chunk: its file path without
    /// the `@` and any `:line` suffix, normalized, anchored at the root
    /// when relative.
    pub fn reset(&mut self, chunk_name: &str) -> (r: Result<(), NavigateFailure>)
        ensures
            final(self).root_view() == old(self).root_view(),
            match reset_target(old(self).root_view(), chunk_name@) {
                Some(p) => r is Ok && final(self).current_view() == p,
                None => r matches Err(NavigateFailure::NotFound) && final(self).current_view()
                    == old(self).current_view(),
            },
    {
        let v = chars_of(chunk_name);
        if v.len() == 0 || v[0] != '@' {
            return Err(NavigateFailure::NotFound);
        }
        let ghost rest = chunk_name@.drop_first();
        let n = v.len() - 1;
        // Find the last ':' after the '@'.
        let mut k: usize = n;
        assert(rest.take(n as int) =~= rest);
        while k > 0 && v[k] != ':'
            invariant
                k <= n == rest.len(),
                n + 1 == v.len(),
                v@ == chunk_name@,
                rest == chunk_name@.drop_first(),
                last_colon(rest) == last_colon(rest.take(k as int)),
            decreases k,
        {
            assert(rest.take(k as int).drop_last() =~= rest.take(k - 1));
            assert(rest.take(k as int).last() == v@[k as int]);
            k -= 1;
        }
        let cut: usize = if k > 0 { k - 1 } else { n };
        proof {
            if k > 0 {
                assert(rest.take(k as int).last() == ':');
                assert(last_colon(rest) == Some(k - 1));
            } else {
                assert(last_colon(rest.take(0)).is_none());
            }
        }
        let mut raw: Vec<char> = Vec::new();
        let mut j: usize = 0;
        while j < cut
            invariant
                j <= cut <= n,
                n + 1 == v.len(),
                raw@ == v@.subrange(1, j + 1),
            decreases cut - j,
        {
            raw.push(v[j + 1]);
            j += 1;
            assert(v@.subrange(1, j + 1) =~= v@.subrange(1, j as int).push(v@[j as int]));
        }
        assert(raw@ =~= before_last_colon(rest));
        let raw_text = string_of(&raw);
        let p = normalize(raw_text.as_str());
        if path_is_absolute(p.as_str()) {
            self.current = p;
        } else {
            self.current = join_path(self.root.as_str(), p.as_str());
        }
        Ok(())
    }

    /// Alias targets that are neither `./`-relative nor further aliases do
    /// not anchor to the configuration file's directory and are not
    /// supported.
    pub fn jump_to_alias(&mut self, path: &str) -> (r: Result<(), NavigateFailure>)
        ensures
            *final(self) == *old(self),
            r matches Err(NavigateFailure::Other(m)) && m@ == alias_target_message(path@),
    {
        let mut m = String::new();
        push_str_chars(&mut m, "alias target is not relative to the configuration file: `");
        push_str_chars(&mut m, path);
        push_str_chars(&mut m, "` (only \"./\" and \"../\" targets are allowed)");
        Err(NavigateFailure::Other(m))
    }

    /// Move to the parent of the current position; at a root (or an empty
    /// path) there is none.
    pub fn to_parent(&mut self) -> (r: Result<(), NavigateFailure>)
        ensures
            final(self).root_view() == old(self).root_view(),
            match parent_position(old(self).current_view()) {
                Some(p) => r is Ok && final(self).current_view() == p,
                None => r matches Err(NavigateFailure::NotFound) && final(self).current_view()
                    == old(self).current_view(),
            },
    {
        let comps = path_components(self.current.as_str());
        let ghost cv = comps@.map_values(|s: String| s@);
        if comps.len() > 0 {
            let abs = path_is_absolute(self.current.as_str());
            let kept = crate::paths::normalize_component_list(&comps, comps.len() - 1);
            assert(cv.take(cv.len() - 1) =~= cv.drop_last());
            let p = build_path(abs, &kept, kept.len());
            assert(kept@.map_values(|s: String| s@).take(kept.len() as int) =~= kept@.map_values(
                |s: String| s@,
            ));
            self.current = p;
            return Ok(());
        }
        let v = chars_of(self.current.as_str());
        if (v.len() == 1 && v[0] == '.') || (v.len() >= 2 && v[0] == '.' && v[1] == '/') {
            assert(starts_with_cur_dir(v@)) by {
                if v.len() == 1 {
                    assert(v@ =~= seq!['.']);
                }
            }
            self.current = String::new();
            return Ok(());
        }
        assert(!starts_with_cur_dir(v@)) by {
            if v@ == seq!['.'] {
                assert(v@.len() == 1);
            }
        }
        Err(NavigateFailure::NotFound)
    }

    /// The position a child step would move to.
    pub fn child_candidate(&self, name: &str) -> (p: String)
        ensures
            p@ == child_position(self.current_view(), name@),
    {
        let joined = if path_is_absolute(name) {
            copy_str(name)
        } else {
            join_path(self.current.as_str(), name)
        };
        normalize(joined.as_str())
    }

    /// Move to the child `name`, given whether a module or a directory is
    /// there (the caller's probe of `child_candidate`). A child that is
    /// neither cannot be part of any deeper resolution: the failure names
    /// the path.
    pub fn to_child(&mut self, name: &str, present: bool) -> (r: Result<(), NavigateFailure>)
        ensures
            final(self).root_view() == old(self).root_view(),
            present ==> (r is Ok && final(self).current_view() == child_position(old(self).current_view(), name@)),
            !present ==> (r matches Err(NavigateFailure::Other(m)) && m@ == "module not found: "@
                + child_position(old(self).current_view(), name@) && final(self).current_view()
                == old(self).current_view()),
    {
        let p = self.child_candidate(name);
        if !present {
            let mut m = String::new();
            push_str_chars(&mut m, "module not found: ");
            push_str_chars(&mut m, p.as_str());
            return Err(NavigateFailure::Other(m));
        }
        self.current = p;
        Ok(())
    }
}

} // verus!
