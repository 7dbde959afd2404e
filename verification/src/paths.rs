//! Lexical path handling over `/`-separated text: components, joining,
//! prefix stripping, ancestors and `.`/`..` normalization. Nothing here
//! touches the filesystem.

use vstd::prelude::*;

use crate::text::{
    chars_of, join, lemma_join_push, lemma_views_push, push_chars, push_str_chars, split_on,
    string_of,
};

verus! {

/// A path is absolute when it starts at the root.
pub open spec fn is_absolute(p: Seq<char>) -> bool {
    p.len() > 0 && p[0] == '/'
}

/// The kept segments of a list of `/`-pieces: empty pieces (repeated or
/// trailing separators) and `.` pieces are dropped.
pub open spec fn keep_segments(pieces: Seq<Seq<char>>) -> Seq<Seq<char>>
    decreases pieces.len(),
{
    if pieces.len() == 0 {
        Seq::<Seq<char>>::empty()
    } else {
        let init = keep_segments(pieces.drop_last());
        let s = pieces.last();
        if s.len() == 0 || s == seq!['.'] {
            init
        } else {
            init.push(s)
        }
    }
}

/// The named components of a path (root, empty and `.` components
/// dropped).
pub open spec fn components(p: Seq<char>) -> Seq<Seq<char>> {
    keep_segments(split_on(p, '/'))
}

/// A path rebuilt from its root flag and components.
pub open spec fn from_components(absolute: bool, comps: Seq<Seq<char>>) -> Seq<char> {
    if absolute {
        seq!['/'] + join(comps, seq!['/'])
    } else {
        join(comps, seq!['/'])
    }
}

/// `base.join(name)` for a relative `name`.
pub open spec fn path_join(base: Seq<char>, name: Seq<char>) -> Seq<char> {
    if base.len() == 0 || base.last() == '/' {
        base + name
    } else {
        base + seq!['/'] + name
    }
}

/// `Path::strip_prefix`: the components of `path` after those of `base`
/// when `base` is a component-wise prefix of `path` with the same root.
pub open spec fn strip_prefix(path: Seq<char>, base: Seq<char>) -> Option<Seq<Seq<char>>> {
    let pc = components(path);
    let bc = components(base);
    if is_absolute(path) == is_absolute(base) && bc.len() <= pc.len() && pc.take(bc.len() as int)
        == bc {
        Some(pc.skip(bc.len() as int))
    } else {
        None
    }
}

/// A `/`-piece that names a component (not empty, not `.`).
pub open spec fn names_component(piece: Seq<char>) -> bool {
    piece.len() > 0 && piece != seq!['.']
}

/// The pieces left after the first `k` component-naming pieces and
/// everything before them.
pub open spec fn drop_components(pieces: Seq<Seq<char>>, k: nat) -> Seq<Seq<char>>
    decreases pieces.len(),
{
    if k == 0 || pieces.len() == 0 {
        pieces
    } else if names_component(pieces[0]) {
        drop_components(pieces.drop_first(), (k - 1) as nat)
    } else {
        drop_components(pieces.drop_first(), k)
    }
}

/// Leading pieces that name no component removed.
pub open spec fn trim_front_pieces(pieces: Seq<Seq<char>>) -> Seq<Seq<char>>
    decreases pieces.len(),
{
    if pieces.len() > 0 && !names_component(pieces[0]) {
        trim_front_pieces(pieces.drop_first())
    } else {
        pieces
    }
}

/// Trailing pieces that name no component removed.
pub open spec fn trim_back_pieces(pieces: Seq<Seq<char>>) -> Seq<Seq<char>>
    decreases pieces.len(),
{
    if pieces.len() > 0 && !names_component(pieces.last()) {
        trim_back_pieces(pieces.drop_last())
    } else {
        pieces
    }
}

/// The text of `path` after its first `k` components, as
/// `Components::as_path` gives it: the path's own text from there on,
/// without separators and `.` pieces at either end (inner `//` and `/./`
/// are kept).
pub open spec fn rest_text(path: Seq<char>, k: nat) -> Seq<char> {
    join(trim_back_pieces(trim_front_pieces(drop_components(split_on(path, '/'), k))), seq!['/'])
}

proof fn lemma_drop_components_skip(pieces: Seq<Seq<char>>, i: int, k: nat)
    requires
        0 <= i < pieces.len(),
        k > 0,
    ensures
        drop_components(pieces.skip(i), k) == if names_component(pieces[i]) {
            drop_components(pieces.skip(i + 1), (k - 1) as nat)
        } else {
            drop_components(pieces.skip(i + 1), k)
        },
{
    assert(pieces.skip(i).drop_first() =~= pieces.skip(i + 1));
}

fn piece_names_component(piece: &str) -> (r: bool)
    ensures
        r == names_component(piece@),
{
    let v = chars_of(piece);
    let empty_or_dot = v.len() == 0 || (v.len() == 1 && v[0] == '.');
    assert(empty_or_dot == !names_component(piece@)) by {
        if v.len() == 1 && v[0] == '.' {
            assert(v@ =~= seq!['.']);
        }
        if v.len() != 1 {
            assert(v@.len() != seq!['.'].len());
        }
    }
    !empty_or_dot
}

/// The text of `path` after its first `k` components.
pub(crate) fn path_rest(path: &str, k: usize) -> (r: String)
    ensures
        r@ == rest_text(path@, k as nat),
{
    let pieces = crate::text::split_chars(path, '/');
    let ghost pv = pieces@.map_values(|s: String| s@);
    let n = pieces.len();
    assert(pv.skip(0) =~= pv);
    let mut i: usize = 0;
    let mut need: usize = k;
    while i < n && need > 0
        invariant
            i <= n == pieces.len(),
            pv == pieces@.map_values(|s: String| s@),
            drop_components(pv, k as nat) == drop_components(pv.skip(i as int), need as nat),
        decreases n - i,
    {
        assert(pieces@[i as int]@ == pv[i as int]);
        let named = piece_names_component(pieces[i].as_str());
        proof {
            lemma_drop_components_skip(pv, i as int, need as nat);
        }
        if named {
            need -= 1;
        }
        i += 1;
    }
    assert(drop_components(pv, k as nat) == pv.skip(i as int)) by {
        if i == n {
            assert(pv.skip(i as int).len() == 0);
        }
    }
    let mut lo: usize = i;
    while lo < n && !piece_names_component(pieces[lo].as_str())
        invariant
            i <= lo <= n == pieces.len(),
            pv == pieces@.map_values(|s: String| s@),
            trim_front_pieces(pv.skip(i as int)) == trim_front_pieces(pv.skip(lo as int)),
        decreases n - lo,
    {
        assert(pv.skip(lo as int).drop_first() =~= pv.skip(lo + 1));
        lo += 1;
    }
    assert(trim_front_pieces(pv.skip(lo as int)) == pv.skip(lo as int));
    let mut hi: usize = n;
    assert(pv.skip(lo as int) =~= pv.subrange(lo as int, hi as int));
    while hi > lo && !piece_names_component(pieces[hi - 1].as_str())
        invariant
            lo <= hi <= n == pieces.len(),
            pv == pieces@.map_values(|s: String| s@),
            trim_back_pieces(pv.skip(lo as int)) == trim_back_pieces(pv.subrange(lo as int, hi as int)),
        decreases hi - lo,
    {
        assert(pv.subrange(lo as int, hi as int).drop_last() =~= pv.subrange(lo as int, hi - 1));
        hi -= 1;
    }
    let ghost kept = pv.subrange(lo as int, hi as int);
    assert(trim_back_pieces(kept) == kept);
    let mut mid: Vec<String> = Vec::new();
    let mut j: usize = lo;
    while j < hi
        invariant
            lo <= j <= hi <= n == pieces.len(),
            pv == pieces@.map_values(|s: String| s@),
            mid@.map_values(|s: String| s@) == pv.subrange(lo as int, j as int),
        decreases hi - j,
    {
        let s = pieces[j].clone();
        let ghost before = mid@;
        mid.push(s);
        proof {
            lemma_views_push(before, s);
            assert(pv.subrange(lo as int, j + 1) =~= pv.subrange(lo as int, j as int).push(pv[j as int]));
        }
        j += 1;
    }
    assert(mid@.map_values(|s: String| s@).take(mid.len() as int) =~= kept);
    build_path(false, &mid, mid.len())
}

/// Probe results stretched to `n` entries: a probe the caller did not
/// supply counts as unmarked, and extra ones are ignored.
pub open spec fn padded_marks(marks: Seq<bool>, n: nat) -> Seq<bool> {
    Seq::new(n, |i: int| i < marks.len() && marks[i])
}

/// `padded_marks`, computed.
pub(crate) fn pad_marks(marks: &Vec<bool>, n: usize) -> (out: Vec<bool>)
    ensures
        out@ == padded_marks(marks@, n as nat),
{
    let mut out: Vec<bool> = Vec::new();
    let mut i: usize = 0;
    while i < n
        invariant
            i <= n,
            out@ == padded_marks(marks@, n as nat).take(i as int),
        decreases n - i,
    {
        let b = i < marks.len() && marks[i];
        out.push(b);
        i += 1;
        assert(out@ =~= padded_marks(marks@, n as nat).take(i as int));
    }
    assert(out@ =~= padded_marks(marks@, n as nat));
    out
}

/// `..` pops the last component (a no-op at the root or on an empty
/// relative path); every other component is pushed.
pub open spec fn normalize_components(comps: Seq<Seq<char>>) -> Seq<Seq<char>>
    decreases comps.len(),
{
    if comps.len() == 0 {
        Seq::<Seq<char>>::empty()
    } else {
        let init = normalize_components(comps.drop_last());
        if comps.last() == seq!['.', '.'] {
            if init.len() > 0 {
                init.drop_last()
            } else {
                init
            }
        } else {
            init.push(comps.last())
        }
    }
}

/// A lexically normalized path: `.` dropped, `..` resolved against the
/// preceding component, root kept.
pub open spec fn normalized(p: Seq<char>) -> Seq<char> {
    from_components(is_absolute(p), normalize_components(components(p)))
}

/// The ancestors of a path, nearest first: the path itself, then each
/// path with one more trailing component removed, down to the root (or
/// the empty path for a relative one).
pub open spec fn ancestors(p: Seq<char>) -> Seq<Seq<char>> {
    let c = components(p);
    seq![p] + Seq::new(
        c.len(),
        |i: int| from_components(is_absolute(p), c.take(c.len() - 1 - i)),
    )
}

/// The named components of a path.
pub fn path_components(p: &str) -> (comps: Vec<String>)
    ensures
        comps@.map_values(|s: String| s@) == components(p@),
{
    let pieces = crate::text::split_chars(p, '/');
    let ghost pv = pieces@.map_values(|s: String| s@);
    let mut comps: Vec<String> = Vec::new();
    let mut i: usize = 0;
    while i < pieces.len()
        invariant
            i <= pieces.len(),
            pv == pieces@.map_values(|s: String| s@),
            pv == split_on(p@, '/'),
            comps@.map_values(|s: String| s@) == keep_segments(pv.take(i as int)),
        decreases pieces.len() - i,
    {
        let v = chars_of(pieces[i].as_str());
        assert(v@ == pv[i as int]);
        assert(pv.take(i as int + 1).drop_last() =~= pv.take(i as int));
        if v.len() == 0 || (v.len() == 1 && v[0] == '.') {
            assert(v@ == seq!['.'] || v@.len() == 0) by {
                if v.len() == 1 {
                    assert(v@ =~= seq!['.']);
                }
            }
        } else {
            assert(v@ != seq!['.']);
            let s = pieces[i].clone();
            let ghost before = comps@;
            comps.push(s);
            proof {
                lemma_views_push(before, s);
            }
        }
        i += 1;
    }
    assert(pv.take(pieces.len() as int) =~= pv);
    comps
}

/// Whether a path text starts at the root.
pub fn path_is_absolute(p: &str) -> (b: bool)
    ensures
        b == is_absolute(p@),
{
    let v = chars_of(p);
    v.len() > 0 && v[0] == '/'
}

/// Rebuild a path from its root flag and the first `n` components.
pub fn build_path(absolute: bool, comps: &Vec<String>, n: usize) -> (p: String)
    requires
        n <= comps.len(),
    ensures
        p@ == from_components(absolute, comps@.map_values(|s: String| s@).take(n as int)),
{
    let ghost cv = comps@.map_values(|s: String| s@);
    let mut p = String::new();
    if absolute {
        p.push('/');
    }
    let ghost root = p@;
    let mut i: usize = 0;
    while i < n
        invariant
            i <= n <= comps.len(),
            cv == comps@.map_values(|s: String| s@),
            p@ == root + join(cv.take(i as int), seq!['/']),
        decreases n - i,
    {
        let ghost before = p@;
        if i > 0 {
            p.push('/');
        }
        push_str_chars(&mut p, comps[i].as_str());
        proof {
            assert(comps@[i as int]@ == cv[i as int]);
            lemma_join_push(cv.take(i as int), seq!['/'], cv[i as int]);
            assert(cv.take(i as int + 1) =~= cv.take(i as int).push(cv[i as int]));
            if i > 0 {
                assert(p@ =~= root + (join(cv.take(i as int), seq!['/']) + seq!['/'] + cv[i as int]));
            } else {
                assert(cv.take(0) =~= Seq::<Seq<char>>::empty());
                assert(p@ =~= root + cv[i as int]);
            }
        }
        i += 1;
    }
    proof {
        if !absolute {
            assert(root =~= Seq::<char>::empty());
            assert(p@ =~= join(cv.take(n as int), seq!['/']));
        }
    }
    p
}

/// `base.join(name)` for a relative `name`.
pub fn join_path(base: &str, name: &str) -> (p: String)
    ensures
        p@ == path_join(base@, name@),
{
    let v = chars_of(base);
    let mut p = string_of(&v);
    if v.len() > 0 && v[v.len() - 1] != '/' {
        p.push('/');
    }
    push_str_chars(&mut p, name);
    p
}

/// The first `n` components after `.`/`..` resolution.
pub fn normalize_component_list(comps: &Vec<String>, n: usize) -> (kept: Vec<String>)
    requires
        n <= comps.len(),
    ensures
        kept@.map_values(|s: String| s@) == normalize_components(comps@.map_values(|s: String| s@).take(n as int)),
{
    let ghost cv = comps@.map_values(|s: String| s@);
    let mut kept: Vec<String> = Vec::new();
    let mut i: usize = 0;
    while i < n
        invariant
            i <= n <= comps.len(),
            cv == comps@.map_values(|s: String| s@),
            kept@.map_values(|s: String| s@) == normalize_components(cv.take(i as int)),
        decreases n - i,
    {
        let v = chars_of(comps[i].as_str());
        assert(v@ == cv[i as int]);
        assert(cv.take(i as int + 1).drop_last() =~= cv.take(i as int));
        if v.len() == 2 && v[0] == '.' && v[1] == '.' {
            assert(v@ =~= seq!['.', '.']);
            if kept.len() > 0 {
                let ghost before = kept@;
                kept.pop();
                assert(kept@.map_values(|s: String| s@) =~= before.map_values(|s: String| s@).drop_last());
            }
        } else {
            assert(v@ != seq!['.', '.']);
            let s = comps[i].clone();
            let ghost before = kept@;
            kept.push(s);
            proof {
                lemma_views_push(before, s);
            }
        }
        i += 1;
    }
    kept
}

/// The components of a path after `.`/`..` resolution (`..` pops the
/// preceding component, or nothing at the start).
pub fn normal_components(path: &str) -> (kept: Vec<String>)
    ensures
        kept@.map_values(|s: String| s@) == normalize_components(components(path@)),
{
    let comps = path_components(path);
    let kept = normalize_component_list(&comps, comps.len());
    assert(comps@.map_values(|s: String| s@).take(comps.len() as int) =~= comps@.map_values(|s: String| s@));
    kept
}

/// Lexically normalize a path: resolve `.`/`..` components without
/// touching the filesystem (`..` at the root pops nothing).
pub fn normalize(path: &str) -> (out: String)
    ensures
        out@ == normalized(path@),
{
    let kept = normal_components(path);
    let abs = path_is_absolute(path);
    let out = build_path(abs, &kept, kept.len());
    assert(kept@.map_values(|s: String| s@).take(kept.len() as int) =~= kept@.map_values(
        |s: String| s@,
    ));
    out
}

/// The ancestors of a path, nearest first (`Path::ancestors`).
pub fn path_ancestors(p: &str) -> (out: Vec<String>)
    ensures
        out@.map_values(|s: String| s@) == ancestors(p@),
{
    let comps = path_components(p);
    let ghost cv = comps@.map_values(|s: String| s@);
    let abs = path_is_absolute(p);
    let mut out: Vec<String> = Vec::new();
    out.push(string_of(&chars_of(p)));
    let n = comps.len();
    let ghost tail = Seq::new(cv.len(), |i: int| from_components(is_absolute(p@), cv.take(cv.len() - 1 - i)));
    assert(out@.map_values(|s: String| s@) =~= seq![p@] + tail.take(0));
    let mut k: usize = 0;
    while k < n
        invariant
            k <= n == comps.len(),
            cv == comps@.map_values(|s: String| s@),
            abs == is_absolute(p@),
            tail == Seq::new(cv.len(), |i: int| from_components(is_absolute(p@), cv.take(cv.len() - 1 - i))),
            out@.map_values(|s: String| s@) == seq![p@] + tail.take(k as int),
        decreases n - k,
    {
        let a = build_path(abs, &comps, n - 1 - k);
        let ghost before = out@;
        out.push(a);
        proof {
            lemma_views_push(before, a);
            assert(seq![p@] + tail.take(k as int + 1) =~= (seq![p@] + tail.take(k as int)).push(tail[k as int]));
        }
        k += 1;
    }
    assert(tail.take(n as int) =~= tail);
    out
}

} // verus!
