//! Character-level text helpers shared by the renderers and the package
//! tooling: whitespace classification, splitting, joining, whitespace
//! collapse, visible-width truncation and decimal formatting.

use vstd::prelude::*;

verus! {

/// `String::push` appends one character.
pub assume_specification[ String::push ](s: &mut String, ch: char)
    ensures
        final(s)@ == old(s)@.push(ch),
;

/// The visible-character budget shared by one-line previews (prompt
/// lines, exec lines, tool peeks).
pub const LINE_BUDGET: usize = 120;

/// Unicode `White_Space`, the class `char::is_whitespace`, `str::trim`
/// and `str::split_whitespace` use.
pub open spec fn is_space(c: char) -> bool {
    ||| ('\u{9}' <= c && c <= '\u{d}')
    ||| c == ' '
    ||| c == '\u{85}'
    ||| c == '\u{a0}'
    ||| c == '\u{1680}'
    ||| ('\u{2000}' <= c && c <= '\u{200a}')
    ||| c == '\u{2028}'
    ||| c == '\u{2029}'
    ||| c == '\u{202f}'
    ||| c == '\u{205f}'
    ||| c == '\u{3000}'
}

/// Executable whitespace test.
pub fn char_is_space(c: char) -> (b: bool)
    ensures
        b == is_space(c),
{
    ('\u{9}' <= c && c <= '\u{d}') || c == ' ' || c == '\u{85}' || c == '\u{a0}' || c
        == '\u{1680}' || ('\u{2000}' <= c && c <= '\u{200a}') || c == '\u{2028}' || c
        == '\u{2029}' || c == '\u{202f}' || c == '\u{205f}' || c == '\u{3000}'
}

/// A text is blank when every character is whitespace (the empty text
/// included): `text.trim().is_empty()`.
pub open spec fn is_blank(s: Seq<char>) -> bool {
    forall|i: int| 0 <= i < s.len() ==> is_space(#[trigger] s[i])
}

/// The pieces of `s` between occurrences of `sep` (`str::split`): one more
/// piece than there are separators; empty pieces are kept.
pub open spec fn split_on(s: Seq<char>, sep: char) -> Seq<Seq<char>>
    decreases s.len(),
{
    if s.len() == 0 {
        seq![Seq::<char>::empty()]
    } else {
        let init = split_on(s.drop_last(), sep);
        if s.last() == sep {
            init.push(Seq::<char>::empty())
        } else {
            init.update(init.len() - 1, init.last().push(s.last()))
        }
    }
}

/// `split_on` always yields at least one piece.
pub proof fn lemma_split_on_nonempty(s: Seq<char>, sep: char)
    ensures
        split_on(s, sep).len() >= 1,
    decreases s.len(),
{
    if s.len() > 0 {
        lemma_split_on_nonempty(s.drop_last(), sep);
    }
}

/// The last piece of a split holds no separator.
proof fn lemma_split_last_no_sep(s: Seq<char>, sep: char)
    ensures
        !split_on(s, sep).last().contains(sep),
    decreases s.len(),
{
    if s.len() > 0 {
        lemma_split_last_no_sep(s.drop_last(), sep);
        lemma_split_on_nonempty(s.drop_last(), sep);
        let init = split_on(s.drop_last(), sep);
        if s.last() != sep {
            let l = init.last().push(s.last());
            assert(split_on(s, sep).last() == l);
            assert forall|i: int| 0 <= i < l.len() implies l[i] != sep by {
                if i < init.last().len() {
                    assert(l[i] == init.last()[i]);
                    assert(!init.last().contains(sep));
                }
            }
        }
    }
}

/// A text without the separator splits into itself alone.
proof fn lemma_split_no_sep(s: Seq<char>, sep: char)
    requires
        !s.contains(sep),
    ensures
        split_on(s, sep) == seq![s],
    decreases s.len(),
{
    if s.len() > 0 {
        let t = s.drop_last();
        assert(!t.contains(sep)) by {
            if t.contains(sep) {
                let i = choose|i: int| 0 <= i < t.len() && t[i] == sep;
                assert(s[i] == sep);
            }
        }
        lemma_split_no_sep(t, sep);
        assert(s.last() != sep) by {
            assert(s[s.len() - 1] == s.last());
        }
        assert(t.push(s.last()) =~= s);
        let init = split_on(t, sep);
        assert(init.len() == 1 && init.last() == t);
        assert(split_on(s, sep) == init.update(0, t.push(s.last())));
        assert(seq![t].update(0, t.push(s.last())) =~= seq![s]);
    } else {
        assert(s =~= Seq::<char>::empty());
    }
}

/// Splitting a concatenation: the complete pieces of the first text, then
/// the split of its unfinished last piece followed by the second text.
pub proof fn lemma_split_concat(a: Seq<char>, b: Seq<char>, sep: char)
    ensures
        split_on(a + b, sep) == split_on(a, sep).drop_last() + split_on(split_on(a, sep).last() + b, sep),
    decreases b.len(),
{
    let pa = split_on(a, sep);
    let d = pa.drop_last();
    let r = pa.last();
    lemma_split_on_nonempty(a, sep);
    if b.len() == 0 {
        assert(a + b =~= a);
        assert(r + b =~= r);
        lemma_split_last_no_sep(a, sep);
        lemma_split_no_sep(r, sep);
        assert(d + seq![r] =~= pa);
    } else {
        let b1 = b.drop_last();
        let c = b.last();
        lemma_split_concat(a, b1, sep);
        assert((a + b).drop_last() =~= a + b1);
        assert((a + b).last() == c);
        assert((r + b).drop_last() =~= r + b1);
        assert((r + b).last() == c);
        assert((a + b).len() > 0 && (r + b).len() > 0);
        let x = split_on(r + b1, sep);
        lemma_split_on_nonempty(r + b1, sep);
        if c == sep {
            assert(d + x.push(Seq::<char>::empty()) =~= (d + x).push(Seq::<char>::empty()));
        } else {
            assert((d + x).last() == x.last());
            assert(d + x.update(x.len() - 1, x.last().push(c)) =~= (d + x).update(
                (d + x).len() - 1,
                (d + x).last().push(c),
            ));
        }
    }
}

/// Pieces joined with a separator (`[T]::join`).
pub open spec fn join(parts: Seq<Seq<char>>, sep: Seq<char>) -> Seq<char>
    decreases parts.len(),
{
    if parts.len() == 0 {
        Seq::<char>::empty()
    } else if parts.len() == 1 {
        parts[0]
    } else {
        join(parts.drop_last(), sep) + sep + parts.last()
    }
}

/// Joining after a push appends the separator and the new piece.
pub proof fn lemma_join_push(parts: Seq<Seq<char>>, sep: Seq<char>, x: Seq<char>)
    ensures
        join(parts.push(x), sep) == if parts.len() == 0 {
            x
        } else {
            join(parts, sep) + sep + x
        },
{
    assert(parts.push(x).drop_last() =~= parts);
}

/// Extending the last piece by one character extends the join by it.
pub proof fn lemma_join_extend_last(parts: Seq<Seq<char>>, sep: Seq<char>, c: char)
    requires
        parts.len() > 0,
    ensures
        join(parts.update(parts.len() - 1, parts.last().push(c)), sep) == join(parts, sep).push(c),
{
    let q = parts.update(parts.len() - 1, parts.last().push(c));
    if parts.len() == 1 {
        assert(q[0] == parts[0].push(c));
    } else {
        assert(q.drop_last() =~= parts.drop_last());
        assert(join(q, sep) == join(parts.drop_last(), sep) + sep + parts.last().push(c));
        assert((join(parts.drop_last(), sep) + sep + parts.last()).push(c) =~= join(
            parts.drop_last(),
            sep,
        ) + sep + parts.last().push(c));
    }
}

/// Splitting at a separator and joining back with it gives the text
/// back.
pub proof fn lemma_join_split(s: Seq<char>, sep: char)
    ensures
        join(split_on(s, sep), seq![sep]) == s,
    decreases s.len(),
{
    if s.len() > 0 {
        let init = split_on(s.drop_last(), sep);
        lemma_join_split(s.drop_last(), sep);
        lemma_split_on_nonempty(s.drop_last(), sep);
        if s.last() == sep {
            lemma_join_push(init, seq![sep], Seq::<char>::empty());
            assert(s.drop_last() + seq![sep] + Seq::<char>::empty() =~= s);
        } else {
            lemma_join_extend_last(init, seq![sep], s.last());
            assert(s.drop_last().push(s.last()) =~= s);
        }
    }
}

/// Lexicographic order of texts by character — the order of `str`'s
/// `Ord` (UTF-8 bytes compare as their code points do).
pub open spec fn text_less(a: Seq<char>, b: Seq<char>) -> bool
    decreases a.len(),
{
    if a.len() == 0 {
        b.len() > 0
    } else if b.len() == 0 {
        false
    } else if a[0] != b[0] {
        a[0] < b[0]
    } else {
        text_less(a.drop_first(), b.drop_first())
    }
}

/// `text_less` is a strict total order.
pub proof fn lemma_text_less_total(a: Seq<char>, b: Seq<char>)
    ensures
        !text_less(a, a),
        !(text_less(a, b) && text_less(b, a)),
        a != b ==> text_less(a, b) || text_less(b, a),
    decreases a.len(),
{
    if a.len() > 0 && b.len() > 0 {
        lemma_text_less_total(a.drop_first(), b.drop_first());
        lemma_text_less_total(a.drop_first(), a.drop_first());
        if a != b && a[0] == b[0] {
            assert(a.drop_first() != b.drop_first()) by {
                if a.drop_first() == b.drop_first() {
                    assert(a =~= seq![a[0]] + a.drop_first());
                    assert(b =~= seq![b[0]] + b.drop_first());
                }
            }
        }
    } else if a.len() > 0 {
        lemma_text_less_total(a.drop_first(), a.drop_first());
    } else if b.len() == 0 {
        assert(a =~= b);
    }
}

/// `text_less` is transitive.
pub proof fn lemma_text_less_trans(a: Seq<char>, b: Seq<char>, c: Seq<char>)
    requires
        text_less(a, b),
        text_less(b, c),
    ensures
        text_less(a, c),
    decreases a.len(),
{
    if a.len() > 0 && a[0] == b[0] && b[0] == c[0] {
        lemma_text_less_trans(a.drop_first(), b.drop_first(), c.drop_first());
    }
}

/// `a < b` for texts.
pub fn text_lt(a: &str, b: &str) -> (r: bool)
    ensures
        r == text_less(a@, b@),
{
    let x = chars_of(a);
    let y = chars_of(b);
    let mut i: usize = 0;
    assert(x@.skip(0) =~= x@);
    assert(y@.skip(0) =~= y@);
    while i < x.len() && i < y.len()
        invariant
            i <= x.len(),
            i <= y.len(),
            x@ == a@,
            y@ == b@,
            text_less(a@, b@) == text_less(x@.skip(i as int), y@.skip(i as int)),
        decreases x.len() - i,
    {
        let ghost xs = x@.skip(i as int);
        let ghost ys = y@.skip(i as int);
        assert(xs[0] == x@[i as int] && ys[0] == y@[i as int]);
        if x[i] != y[i] {
            return x[i] < y[i];
        }
        assert(xs.drop_first() =~= x@.skip(i + 1));
        assert(ys.drop_first() =~= y@.skip(i + 1));
        i += 1;
    }
    i < y.len()
}

/// The whitespace-separated words of `s` (`str::split_whitespace`).
pub open spec fn words(s: Seq<char>) -> Seq<Seq<char>>
    decreases s.len(),
{
    if s.len() == 0 {
        Seq::<Seq<char>>::empty()
    } else {
        let init = words(s.drop_last());
        if is_space(s.last()) {
            init
        } else if s.len() >= 2 && !is_space(s[s.len() - 2]) && init.len() > 0 {
            init.update(init.len() - 1, init.last().push(s.last()))
        } else {
            init.push(seq![s.last()])
        }
    }
}

/// A text whose last character is not whitespace has at least one word.
pub proof fn lemma_words_nonempty(s: Seq<char>)
    requires
        s.len() > 0,
        !is_space(s.last()),
    ensures
        words(s).len() > 0,
{
}

/// Whitespace runs collapsed to single spaces, leading and trailing
/// whitespace dropped: `split_whitespace().collect::<Vec<_>>().join(" ")`.
pub open spec fn collapse_ws(s: Seq<char>) -> Seq<char> {
    join(words(s), seq![' '])
}

/// The ellipsis that marks a truncated preview.
pub open spec fn ellipsis() -> char {
    '\u{2026}'
}

/// A text cut to `budget` visible characters, with a trailing `…` when
/// anything was cut.
pub open spec fn truncated(s: Seq<char>, budget: nat) -> Seq<char> {
    if s.len() <= budget {
        s
    } else {
        s.take(budget as int).push(ellipsis())
    }
}

/// The view of an optional string slice.
pub open spec fn opt_view(o: Option<&str>) -> Option<Seq<char>> {
    match o {
        Some(s) => Some(s@),
        None => None,
    }
}

/// The view of an optional string.
pub open spec fn opt_string_view(o: Option<String>) -> Option<Seq<char>> {
    match o {
        Some(s) => Some(s@),
        None => None,
    }
}

/// Borrow an optional string as an optional string slice.
pub fn opt_as_str(o: &Option<String>) -> (r: Option<&str>)
    ensures
        opt_view(r) == opt_string_view(*o),
{
    match o {
        Some(s) => Some(s.as_str()),
        None => None,
    }
}

/// The views of a vector of strings after a push.
pub proof fn lemma_views_push(s: Seq<String>, x: String)
    ensures
        s.push(x).map_values(|r: String| r@) == s.map_values(|r: String| r@).push(x@),
{
    assert(s.push(x).map_values(|r: String| r@) =~= s.map_values(|r: String| r@).push(x@));
}

/// The characters of `s`, in order.
pub fn chars_of(s: &str) -> (v: Vec<char>)
    ensures
        v@ == s@,
{
    let mut v: Vec<char> = Vec::new();
    for c in it: s.chars()
        invariant
            v@ == it.seq().take(it.index()),
    {
        v.push(c);
    }
    v
}

/// A `String` holding exactly the given characters.
pub fn string_of(v: &Vec<char>) -> (s: String)
    ensures
        s@ == v@,
{
    let mut s = String::new();
    let mut i: usize = 0;
    while i < v.len()
        invariant
            i <= v.len(),
            s@ == v@.take(i as int),
        decreases v.len() - i,
    {
        s.push(v[i]);
        i += 1;
        assert(v@.take(i as int) =~= v@.take((i - 1) as int).push(v@[i - 1]));
    }
    assert(v@.take(v.len() as int) =~= v@);
    s
}

/// Append a string slice.
pub fn push_str_chars(out: &mut String, s: &str)
    ensures
        final(out)@ == old(out)@ + s@,
{
    let v = chars_of(s);
    push_chars(out, &v);
}

/// Append a sequence of characters held in a vector.
pub fn push_chars(out: &mut String, v: &Vec<char>)
    ensures
        final(out)@ == old(out)@ + v@,
{
    let ghost start = out@;
    let mut i: usize = 0;
    while i < v.len()
        invariant
            i <= v.len(),
            out@ == start + v@.take(i as int),
        decreases v.len() - i,
    {
        out.push(v[i]);
        i += 1;
        assert(v@.take(i as int) =~= v@.take((i - 1) as int).push(v@[i - 1]));
    }
    assert(v@.take(v.len() as int) =~= v@);
}

/// Character-wise equality of two texts.
pub fn text_eq(a: &str, b: &str) -> (r: bool)
    ensures
        r == (a@ == b@),
{
    let x = chars_of(a);
    let y = chars_of(b);
    if x.len() != y.len() {
        return false;
    }
    let mut i: usize = 0;
    while i < x.len()
        invariant
            i <= x.len() == y.len(),
            x@ == a@,
            y@ == b@,
            forall|j: int| 0 <= j < i ==> x@[j] == y@[j],
        decreases x.len() - i,
    {
        if x[i] != y[i] {
            return false;
        }
        i += 1;
    }
    assert(x@ =~= y@);
    true
}

/// `text.trim().is_empty()`.
pub fn text_is_blank(text: &str) -> (b: bool)
    ensures
        b == is_blank(text@),
{
    let v = chars_of(text);
    let mut i: usize = 0;
    while i < v.len()
        invariant
            i <= v.len(),
            v@ == text@,
            forall|j: int| 0 <= j < i ==> is_space(#[trigger] v@[j]),
        decreases v.len() - i,
    {
        if !char_is_space(v[i]) {
            return false;
        }
        i += 1;
    }
    true
}

/// Split on a separator character, keeping empty pieces.
pub fn split_chars(s: &str, sep: char) -> (parts: Vec<String>)
    ensures
        parts@.map_values(|p: String| p@) == split_on(s@, sep),
{
    let v = chars_of(s);
    let mut parts: Vec<String> = Vec::new();
    let mut cur = String::new();
    let mut i: usize = 0;
    while i < v.len()
        invariant
            i <= v.len(),
            v@ == s@,
            parts@.map_values(|p: String| p@).push(cur@) == split_on(s@.take(i as int), sep),
        decreases v.len() - i,
    {
        let c = v[i];
        let ghost prev = parts@.map_values(|p: String| p@).push(cur@);
        assert(s@.take(i as int + 1).drop_last() =~= s@.take(i as int));
        if c == sep {
            let done = cur;
            parts.push(done);
            cur = String::new();
            assert(parts@.map_values(|p: String| p@).push(cur@) =~= prev.push(
                Seq::<char>::empty(),
            ));
        } else {
            cur.push(c);
            assert(parts@.map_values(|p: String| p@).push(cur@) =~= prev.update(
                prev.len() - 1,
                prev.last().push(c),
            ));
        }
        i += 1;
    }
    assert(s@.take(v.len() as int) =~= s@);
    parts.push(cur);
    parts
}

/// `split_whitespace().collect::<Vec<_>>().join(" ")`.
pub fn collapse_whitespace(s: &str) -> (out: String)
    ensures
        out@ == collapse_ws(s@),
{
    let v = chars_of(s);
    let mut out = String::new();
    let mut i: usize = 0;
    let mut prev_space = true;
    let mut have_word = false;
    while i < v.len()
        invariant
            i <= v.len(),
            v@ == s@,
            out@ == join(words(s@.take(i as int)), seq![' ']),
            prev_space == (i == 0 || is_space(v@[i - 1])),
            have_word == (words(s@.take(i as int)).len() > 0),
        decreases v.len() - i,
    {
        let c = v[i];
        let ghost pre = s@.take(i as int);
        let ghost now = s@.take(i as int + 1);
        assert(now.drop_last() =~= pre);
        assert(now.last() == c);
        if char_is_space(c) {
            prev_space = true;
        } else {
            if prev_space {
                proof {
                    lemma_join_push(words(pre), seq![' '], seq![c]);
                    assert(words(now) == words(pre).push(seq![c]));
                }
                if have_word {
                    out.push(' ');
                }
                out.push(c);
                proof {
                    if words(pre).len() > 0 {
                        assert(out@ =~= join(words(pre), seq![' ']) + seq![' '] + seq![c]);
                    } else {
                        assert(out@ =~= seq![c]);
                    }
                }
            } else {
                proof {
                    assert(i >= 1 && !is_space(pre.last()));
                    lemma_words_nonempty(pre);
                    lemma_join_extend_last(words(pre), seq![' '], c);
                }
                out.push(c);
            }
            prev_space = false;
            have_word = true;
        }
        i += 1;
    }
    assert(s@.take(v.len() as int) =~= s@);
    out
}

/// A join of pieces whose first piece is non-empty is non-empty; more
/// generally, a join of word lists is non-empty when there is a word.
pub proof fn lemma_join_nonempty(parts: Seq<Seq<char>>, sep: Seq<char>)
    requires
        parts.len() > 0,
        parts[0].len() > 0,
    ensures
        join(parts, sep).len() > 0,
    decreases parts.len(),
{
    if parts.len() > 1 {
        lemma_join_nonempty(parts.drop_last(), sep);
    }
}

/// Truncate to `budget` characters with a trailing `…` when cut.
pub fn truncate_visible(s: &str, budget: usize) -> (out: String)
    ensures
        out@ == truncated(s@, budget as nat),
{
    let v = chars_of(s);
    if v.len() <= budget {
        return string_of(&v);
    }
    let mut out = String::new();
    let mut i: usize = 0;
    while i < budget
        invariant
            i <= budget < v.len(),
            v@ == s@,
            out@ == v@.take(i as int),
        decreases budget - i,
    {
        out.push(v[i]);
        i += 1;
        assert(v@.take(i as int) =~= v@.take((i - 1) as int).push(v@[i - 1]));
    }
    out.push('\u{2026}');
    out
}

/// One decimal digit.
pub open spec fn digit_char(d: nat) -> char {
    if d == 0 {
        '0'
    } else if d == 1 {
        '1'
    } else if d == 2 {
        '2'
    } else if d == 3 {
        '3'
    } else if d == 4 {
        '4'
    } else if d == 5 {
        '5'
    } else if d == 6 {
        '6'
    } else if d == 7 {
        '7'
    } else if d == 8 {
        '8'
    } else {
        '9'
    }
}

/// The decimal digits of `n`, most significant first, no leading zeros
/// (`0` renders as `"0"`).
pub open spec fn dec(n: nat) -> Seq<char>
    decreases n,
{
    if n < 10 {
        seq![digit_char(n)]
    } else {
        dec(n / 10).push(digit_char(n % 10))
    }
}

/// `n` rendered with at least `width` digits, left-padded with zeros
/// (`{:0width$}` for a non-negative number).
pub open spec fn dec_padded(n: nat, width: nat) -> Seq<char> {
    let d = dec(n);
    if d.len() >= width {
        d
    } else {
        Seq::new((width - d.len()) as nat, |i: int| '0') + d
    }
}

/// A signed number in decimal, with a leading `-` when negative.
pub open spec fn dec_signed(n: int) -> Seq<char> {
    if n < 0 {
        seq!['-'] + dec((-n) as nat)
    } else {
        dec(n as nat)
    }
}

/// The character of one decimal digit.
pub fn digit(d: u64) -> (c: char)
    requires
        d < 10,
    ensures
        c == digit_char(d as nat),
{
    if d == 0 {
        '0'
    } else if d == 1 {
        '1'
    } else if d == 2 {
        '2'
    } else if d == 3 {
        '3'
    } else if d == 4 {
        '4'
    } else if d == 5 {
        '5'
    } else if d == 6 {
        '6'
    } else if d == 7 {
        '7'
    } else if d == 8 {
        '8'
    } else {
        '9'
    }
}

/// Append the decimal digits of `n`.
pub fn push_dec(out: &mut String, n: u64)
    ensures
        final(out)@ == old(out)@ + dec(n as nat),
    decreases n,
{
    if n >= 10 {
        push_dec(out, n / 10);
    }
    out.push(digit(n % 10));
    proof {
        if n >= 10 {
            assert(dec(n as nat) == dec((n / 10) as nat).push(digit_char((n % 10) as nat)));
        }
    }
}

/// The number of decimal digits of `n`.
pub proof fn lemma_dec_len(n: nat)
    ensures
        dec(n).len() >= 1,
        n < 10 ==> dec(n).len() == 1,
        10 <= n < 100 ==> dec(n).len() == 2,
        100 <= n < 1000 ==> dec(n).len() == 3,
        1000 <= n < 10000 ==> dec(n).len() == 4,
    decreases n,
{
    if n >= 10 {
        lemma_dec_len(n / 10);
    }
}

/// Append `n` zero-padded to `width` digits.
pub fn push_dec_padded(out: &mut String, n: u64, width: usize)
    ensures
        final(out)@ == old(out)@ + dec_padded(n as nat, width as nat),
{
    let mut digits = String::new();
    push_dec(&mut digits, n);
    let len = digits.as_str().unicode_len();
    let ghost start = out@;
    if len < width {
        let mut k: usize = 0;
        while k < width - len
            invariant
                k <= width - len,
                len < width,
                out@ == start + Seq::new(k as nat, |i: int| '0'),
            decreases width - len - k,
        {
            out.push('0');
            k += 1;
            assert(start + Seq::new(k as nat, |i: int| '0') =~= (start + Seq::new(
                (k - 1) as nat,
                |i: int| '0',
            )).push('0'));
        }
    }
    push_str_chars(out, digits.as_str());
    proof {
        assert(digits@ == dec(n as nat));
        if len < width {
            assert(out@ =~= start + (Seq::new((width - len) as nat, |i: int| '0') + dec(
                n as nat,
            )));
        }
    }
}

/// Append a signed decimal number.
pub fn push_dec_signed(out: &mut String, n: i64)
    ensures
        final(out)@ == old(out)@ + dec_signed(n as int),
{
    if n < 0 {
        out.push('-');
        let m: u64 = if n == i64::MIN {
            9223372036854775808u64
        } else {
            (-n) as u64
        };
        let ghost mid = out@;
        push_dec(out, m);
        assert(out@ =~= old(out)@ + (seq!['-'] + dec((-(n as int)) as nat)));
    } else {
        push_dec(out, n as u64);
    }
}

} // verus!
