//! The block splitter: cuts the raw export text into candidate annotation
//! blocks at delimiter lines of exactly ten `=` characters, tolerating blank
//! lines around the delimiter and both line-feed and carriage-return/line-feed
//! line endings.

use vstd::prelude::*;

use crate::text::{
    char_views, copy_range, extend_chars, is_space_char, spec_trim, spec_trim_end,
    spec_trim_start, str_to_chars, string_views, chars_to_string, trim_chars,
};

verus! {

/// `l` without a single trailing carriage return, as left over when a text
/// with carriage-return/line-feed endings is cut at the line feeds.
pub open spec fn strip_cr(l: Seq<char>) -> Seq<char> {
    if l.len() > 0 && l.last() == '\r' {
        l.drop_last()
    } else {
        l
    }
}

/// The position of the first line feed at or after `i`, or `s.len()` when
/// there is none.
pub open spec fn spec_first_nl(s: Seq<char>, i: int) -> int
    decreases s.len() - i,
{
    if i < 0 || i >= s.len() {
        s.len() as int
    } else if s[i] == '\n' {
        i
    } else {
        spec_first_nl(s, i + 1)
    }
}

pub proof fn lemma_first_nl_bounds(s: Seq<char>, i: int)
    requires
        0 <= i <= s.len(),
    ensures
        i <= spec_first_nl(s, i) <= s.len(),
    decreases s.len() - i,
{
    if i < s.len() && s[i] != '\n' {
        lemma_first_nl_bounds(s, i + 1);
    }
}

/// The lines of `s[i..]`: the text cut at every line feed, each piece with a
/// single trailing carriage return removed.
pub open spec fn spec_lines_from(s: Seq<char>, i: int) -> Seq<Seq<char>>
    decreases s.len() - i,
    when 0 <= i <= s.len()
    via spec_lines_from_decreases
{
    let n = spec_first_nl(s, i);
    if n >= s.len() {
        seq![strip_cr(s.subrange(i, s.len() as int))]
    } else {
        seq![strip_cr(s.subrange(i, n))] + spec_lines_from(s, n + 1)
    }
}

#[via_fn]
proof fn spec_lines_from_decreases(s: Seq<char>, i: int) {
    lemma_first_nl_bounds(s, i);
}

/// The lines of `s`.
pub open spec fn spec_lines(s: Seq<char>) -> Seq<Seq<char>> {
    spec_lines_from(s, 0)
}

/// Finds the first line feed at or after `from`; executable twin of
/// [`spec_first_nl`].
fn find_newline(v: &Vec<char>, from: usize) -> (r: usize)
    requires
        from <= v@.len(),
    ensures
        r == spec_first_nl(v@, from as int),
        from <= r <= v@.len(),
{
    let n = v.len();
    let mut j: usize = from;
    while j < n && v[j] != '\n'
        invariant
            from <= j <= n == v@.len(),
            spec_first_nl(v@, from as int) == spec_first_nl(v@, j as int),
        decreases n - j,
    {
        j = j + 1;
    }
    j
}

/// Copies `v[lo..hi]` as one line, dropping a single trailing carriage
/// return.
fn copy_line(v: &Vec<char>, lo: usize, hi: usize) -> (r: Vec<char>)
    requires
        lo <= hi <= v@.len(),
    ensures
        r@ == strip_cr(v@.subrange(lo as int, hi as int)),
{
    proof {
        if hi > lo {
            assert(v@.subrange(lo as int, hi as int).last() == v@[hi as int - 1]);
            assert(v@.subrange(lo as int, hi as int).drop_last() =~= v@.subrange(
                lo as int,
                hi as int - 1,
            ));
        }
    }
    if hi > lo && v[hi - 1] == '\r' {
        copy_range(v, lo, hi - 1)
    } else {
        copy_range(v, lo, hi)
    }
}

/// Cuts `v` into lines; executable twin of [`spec_lines`].
pub fn split_lines(v: &Vec<char>) -> (r: Vec<Vec<char>>)
    ensures
        char_views(r@) == spec_lines(v@),
{
    let n = v.len();
    let mut r: Vec<Vec<char>> = Vec::new();
    let mut pos: usize = 0;
    loop
        invariant
            pos <= n == v@.len(),
            char_views(r@) + spec_lines_from(v@, pos as int) =~= spec_lines(v@),
        decreases n - pos,
    {
        let nl = find_newline(v, pos);
        let line = copy_line(v, pos, nl);
        let ghost prev = char_views(r@);
        r.push(line);
        proof {
            assert(char_views(r@) =~= prev.push(line@));
        }
        if nl == n {
            proof {
                assert(char_views(r@) =~= spec_lines(v@));
            }
            return r;
        }
        pos = nl + 1;
    }
}

/// Joining a sequence of lines with a line feed between each two.
pub open spec fn spec_unlines(ls: Seq<Seq<char>>) -> Seq<char>
    decreases ls.len(),
{
    if ls.len() == 0 {
        Seq::empty()
    } else if ls.len() == 1 {
        ls[0]
    } else {
        ls[0] + seq!['\n'] + spec_unlines(ls.drop_first())
    }
}

proof fn lemma_unlines_push(ls: Seq<Seq<char>>, l: Seq<char>)
    requires
        ls.len() >= 1,
    ensures
        spec_unlines(ls.push(l)) == spec_unlines(ls) + seq!['\n'] + l,
    decreases ls.len(),
{
    if ls.len() == 1 {
        let p = ls.push(l);
        assert(p.drop_first() =~= seq![l]);
        assert(spec_unlines(p.drop_first()) == l);
        assert(spec_unlines(p) == p[0] + seq!['\n'] + spec_unlines(p.drop_first()));
        assert(spec_unlines(p) =~= spec_unlines(ls) + seq!['\n'] + l);
    } else {
        lemma_unlines_push(ls.drop_first(), l);
        assert(ls.push(l).drop_first() =~= ls.drop_first().push(l));
        assert(spec_unlines(ls.push(l)) =~= spec_unlines(ls) + seq!['\n'] + l);
    }
}

/// Joins lines back into one text; executable twin of [`spec_unlines`].
pub fn join_lines(g: &Vec<Vec<char>>) -> (r: Vec<char>)
    ensures
        r@ == spec_unlines(char_views(g@)),
{
    let mut r: Vec<char> = Vec::new();
    let mut i: usize = 0;
    while i < g.len()
        invariant
            i <= g@.len(),
            r@ == spec_unlines(char_views(g@).subrange(0, i as int)),
        decreases g@.len() - i,
    {
        if i > 0 {
            r.push('\n');
        }
        extend_chars(&mut r, &g[i]);
        i = i + 1;
        proof {
            let pre = char_views(g@).subrange(0, i as int - 1);
            let cur = char_views(g@).subrange(0, i as int);
            assert(cur =~= pre.push(g@[i as int - 1]@));
            if pre.len() >= 1 {
                lemma_unlines_push(pre, g@[i as int - 1]@);
                assert(r@ =~= spec_unlines(pre) + seq!['\n'] + g@[i as int - 1]@);
            } else {
                assert(cur =~= seq![g@[i as int - 1]@]);
                assert(r@ =~= g@[i as int - 1]@);
            }
        }
    }
    proof {
        assert(char_views(g@).subrange(0, g@.len() as int) =~= char_views(g@));
    }
    r
}

/// The delimiter between two annotation blocks: exactly ten `=` characters.
pub open spec fn delim_chars() -> Seq<char> {
    seq!['=', '=', '=', '=', '=', '=', '=', '=', '=', '=']
}

/// A line that separates two blocks: the ten-`=` delimiter, tolerating
/// surrounding whitespace on the line.
pub open spec fn is_delim_line(l: Seq<char>) -> bool {
    spec_trim(l) =~= delim_chars()
}

/// A line with no visible content.
pub open spec fn is_blank_line(l: Seq<char>) -> bool {
    spec_trim(l).len() == 0
}

/// Whether the trimmed `l` is exactly the ten-`=` delimiter; executable twin
/// of [`is_delim_line`].
pub fn is_delim(l: &Vec<char>) -> (r: bool)
    ensures
        r == is_delim_line(l@),
{
    let t = trim_chars(l);
    if t.len() != 10 {
        proof {
            assert(!(spec_trim(l@) =~= delim_chars()));
        }
        return false;
    }
    let mut i: usize = 0;
    while i < 10
        invariant
            i <= 10,
            t@ == spec_trim(l@),
            t@.len() == 10,
            forall|k: int| 0 <= k < i ==> t@[k] == '=',
        decreases 10 - i,
    {
        if t[i] != '=' {
            proof {
                assert(!(spec_trim(l@) =~= delim_chars()));
            }
            return false;
        }
        i = i + 1;
    }
    proof {
        assert(spec_trim(l@) =~= delim_chars());
    }
    true
}

/// Whether `l` is blank; executable twin of [`is_blank_line`].
pub fn is_blank(l: &Vec<char>) -> (r: bool)
    ensures
        r == is_blank_line(l@),
{
    let t = trim_chars(l);
    t.len() == 0
}

/// The groups of lines between delimiter lines, in file order, one more
/// group than there are delimiter lines; a group may be empty.
pub open spec fn spec_raw_groups(ls: Seq<Seq<char>>) -> Seq<Seq<Seq<char>>>
    decreases ls.len(),
{
    if ls.len() == 0 {
        seq![Seq::<Seq<char>>::empty()]
    } else if is_delim_line(ls[0]) {
        seq![Seq::<Seq<char>>::empty()] + spec_raw_groups(ls.drop_first())
    } else {
        let r = spec_raw_groups(ls.drop_first());
        seq![seq![ls[0]] + r[0]] + r.drop_first()
    }
}

pub proof fn lemma_raw_groups_nonempty(ls: Seq<Seq<char>>)
    ensures
        spec_raw_groups(ls).len() >= 1,
    decreases ls.len(),
{
    if ls.len() > 0 {
        lemma_raw_groups_nonempty(ls.drop_first());
    }
}

/// Clones a vector of characters.
fn clone_chars(l: &Vec<char>) -> (r: Vec<char>)
    ensures
        r@ == l@,
{
    let r = copy_range(l, 0, l.len());
    proof {
        assert(l@.subrange(0, l@.len() as int) =~= l@);
    }
    r
}

/// Cuts a sequence of lines into the groups between delimiter lines;
/// executable twin of [`spec_raw_groups`].
pub fn split_groups(lines: &Vec<Vec<char>>) -> (r: Vec<Vec<Vec<char>>>)
    ensures
        r@.map_values(|g: Vec<Vec<char>>| char_views(g@)) == spec_raw_groups(char_views(lines@)),
{
    let ghost all = char_views(lines@);
    let n = lines.len();
    let mut done: Vec<Vec<Vec<char>>> = Vec::new();
    let mut cur: Vec<Vec<char>> = Vec::new();
    let mut i: usize = 0;
    proof {
        assert(char_views(lines@).skip(0) =~= all);
    }
    while i < n
        invariant
            i <= n == lines@.len(),
            all == char_views(lines@),
            spec_raw_groups(all.skip(i as int)).len() >= 1,
            spec_raw_groups(all) =~= done@.map_values(|g: Vec<Vec<char>>| char_views(g@)) + seq![
                char_views(cur@) + spec_raw_groups(all.skip(i as int))[0],
            ] + spec_raw_groups(all.skip(i as int)).drop_first(),
        decreases n - i,
    {
        let ghost rest = all.skip(i as int);
        let ghost rest2 = all.skip(i as int + 1);
        proof {
            assert(rest[0] == all[i as int]);
            assert(rest.drop_first() =~= rest2);
            lemma_raw_groups_nonempty(rest2);
        }
        if is_delim(&lines[i]) {
            let group = cur;
            cur = Vec::new();
            let ghost dprev = done@.map_values(|g: Vec<Vec<char>>| char_views(g@));
            done.push(group);
            proof {
                assert(done@.map_values(|g: Vec<Vec<char>>| char_views(g@)) =~= dprev.push(
                    char_views(group@),
                ));
                assert(spec_raw_groups(rest) =~= seq![Seq::<Seq<char>>::empty()]
                    + spec_raw_groups(rest2));
                assert(char_views(cur@) =~= Seq::<Seq<char>>::empty());
                assert(char_views(group@) + spec_raw_groups(rest)[0] =~= char_views(group@));
                assert(spec_raw_groups(all) =~= done@.map_values(
                    |g: Vec<Vec<char>>| char_views(g@),
                ) + seq![char_views(cur@) + spec_raw_groups(rest2)[0]] + spec_raw_groups(
                    rest2,
                ).drop_first());
            }
        } else {
            let line = clone_chars(&lines[i]);
            let ghost cprev = char_views(cur@);
            cur.push(line);
            proof {
                assert(char_views(cur@) =~= cprev.push(all[i as int]));
                let r2 = spec_raw_groups(rest2);
                assert(spec_raw_groups(rest) =~= seq![seq![all[i as int]] + r2[0]]
                    + r2.drop_first());
                assert(spec_raw_groups(rest)[0] =~= seq![all[i as int]] + r2[0]);
                assert(cprev + spec_raw_groups(rest)[0] =~= char_views(cur@) + r2[0]);
                assert(spec_raw_groups(rest).drop_first() =~= r2.drop_first());
                assert(spec_raw_groups(all) =~= done@.map_values(
                    |g: Vec<Vec<char>>| char_views(g@),
                ) + seq![char_views(cur@) + r2[0]] + r2.drop_first());
            }
        }
        i = i + 1;
    }
    proof {
        assert(all.skip(n as int) =~= Seq::<Seq<char>>::empty());
        assert(spec_raw_groups(all.skip(n as int)) =~= seq![Seq::<Seq<char>>::empty()]);
    }
    let ghost dprev = done@.map_values(|g: Vec<Vec<char>>| char_views(g@));
    done.push(cur);
    proof {
        assert(done@.map_values(|g: Vec<Vec<char>>| char_views(g@)) =~= dprev.push(
            char_views(cur@),
        ));
        assert(char_views(cur@) + Seq::<Seq<char>>::empty() =~= char_views(cur@));
        assert(done@.map_values(|g: Vec<Vec<char>>| char_views(g@)) =~= spec_raw_groups(all));
    }
    done
}

/// The line sequence got by re-joining groups of lines with the canonical
/// delimiter line between each two groups.
pub open spec fn spec_rejoin(gs: Seq<Seq<Seq<char>>>) -> Seq<Seq<char>>
    decreases gs.len(),
{
    if gs.len() == 0 {
        Seq::empty()
    } else if gs.len() == 1 {
        gs[0]
    } else {
        gs[0] + seq![delim_chars()] + spec_rejoin(gs.drop_first())
    }
}

/// No line of any of the groups is a delimiter line.
pub open spec fn groups_delim_free(gs: Seq<Seq<Seq<char>>>) -> bool {
    forall|i: int, j: int|
        0 <= i < gs.len() && 0 <= j < gs[i].len() ==> !is_delim_line(#[trigger] gs[i][j])
}

proof fn lemma_delim_chars_is_delim_line()
    ensures
        is_delim_line(delim_chars()),
{
    assert(!is_space_char('='));
    assert(spec_trim_start(delim_chars()) == delim_chars());
    assert(spec_trim_end(delim_chars()) == delim_chars());
}

/// The groups the splitter produces never contain a delimiter line: every
/// delimiter line of the input becomes a boundary, none becomes content.
pub proof fn lemma_raw_groups_delim_free(ls: Seq<Seq<char>>)
    ensures
        groups_delim_free(spec_raw_groups(ls)),
    decreases ls.len(),
{
    if ls.len() == 0 {
    } else if is_delim_line(ls[0]) {
        lemma_raw_groups_delim_free(ls.drop_first());
        let gs = spec_raw_groups(ls);
        let r = spec_raw_groups(ls.drop_first());
        assert forall|i: int, j: int|
            0 <= i < gs.len() && 0 <= j < gs[i].len() implies !is_delim_line(gs[i][j]) by {
            if i > 0 {
                assert(gs[i] == r[i - 1]);
            }
        }
    } else {
        lemma_raw_groups_delim_free(ls.drop_first());
        let gs = spec_raw_groups(ls);
        let r = spec_raw_groups(ls.drop_first());
        lemma_raw_groups_nonempty(ls.drop_first());
        assert forall|i: int, j: int|
            0 <= i < gs.len() && 0 <= j < gs[i].len() implies !is_delim_line(gs[i][j]) by {
            if i == 0 {
                assert(gs[0] == seq![ls[0]] + r[0]);
                if j > 0 {
                    assert(gs[0][j] == r[0][j - 1]);
                }
            } else {
                assert(gs[i] == r[i]);
            }
        }
    }
}

proof fn lemma_raw_groups_of_clean(ls: Seq<Seq<char>>)
    requires
        forall|j: int| 0 <= j < ls.len() ==> !is_delim_line(#[trigger] ls[j]),
    ensures
        spec_raw_groups(ls) == seq![ls],
    decreases ls.len(),
{
    if ls.len() == 0 {
        assert(spec_raw_groups(ls) =~~= seq![ls]);
    } else {
        lemma_raw_groups_of_clean(ls.drop_first());
        let r = spec_raw_groups(ls.drop_first());
        assert(r == seq![ls.drop_first()]);
        assert(seq![ls[0]] + r[0] =~= ls);
        assert(spec_raw_groups(ls) =~~= seq![ls]);
    }
}

proof fn lemma_raw_groups_clean_prefix(a: Seq<Seq<char>>, t: Seq<Seq<char>>)
    requires
        forall|j: int| 0 <= j < a.len() ==> !is_delim_line(#[trigger] a[j]),
    ensures
        spec_raw_groups(a + seq![delim_chars()] + t) == seq![a] + spec_raw_groups(t),
    decreases a.len(),
{
    lemma_delim_chars_is_delim_line();
    let s = a + seq![delim_chars()] + t;
    if a.len() == 0 {
        assert(s[0] == delim_chars());
        assert(s.drop_first() =~= t);
        assert(spec_raw_groups(s) =~~= seq![a] + spec_raw_groups(t));
    } else {
        lemma_raw_groups_clean_prefix(a.drop_first(), t);
        assert(s[0] == a[0]);
        assert(!is_delim_line(s[0]));
        assert(s.drop_first() =~= a.drop_first() + seq![delim_chars()] + t);
        let r = spec_raw_groups(s.drop_first());
        assert(r == seq![a.drop_first()] + spec_raw_groups(t));
        assert(r[0] == a.drop_first());
        assert(seq![s[0]] + r[0] =~= a);
        assert(r.drop_first() =~= spec_raw_groups(t));
        assert(spec_raw_groups(s) =~~= seq![a] + spec_raw_groups(t));
    }
}

proof fn lemma_raw_groups_rejoin_clean(gs: Seq<Seq<Seq<char>>>)
    requires
        gs.len() >= 1,
        groups_delim_free(gs),
    ensures
        spec_raw_groups(spec_rejoin(gs)) == gs,
    decreases gs.len(),
{
    if gs.len() == 1 {
        assert(forall|j: int| 0 <= j < gs[0].len() ==> !is_delim_line(#[trigger] gs[0][j]));
        lemma_raw_groups_of_clean(gs[0]);
        assert(spec_raw_groups(spec_rejoin(gs)) =~~= gs);
    } else {
        let rest = gs.drop_first();
        assert(groups_delim_free(rest)) by {
            assert forall|i: int, j: int|
                0 <= i < rest.len() && 0 <= j < rest[i].len() implies !is_delim_line(
                rest[i][j],
            ) by {
                assert(rest[i] == gs[i + 1]);
            }
        }
        lemma_raw_groups_rejoin_clean(rest);
        assert(forall|j: int| 0 <= j < gs[0].len() ==> !is_delim_line(#[trigger] gs[0][j]));
        lemma_raw_groups_clean_prefix(gs[0], spec_rejoin(rest));
        assert(spec_rejoin(gs) == gs[0] + seq![delim_chars()] + spec_rejoin(rest));
        assert(spec_raw_groups(spec_rejoin(gs)) =~~= seq![gs[0]] + rest);
        assert(seq![gs[0]] + rest =~~= gs);
    }
}

/// Splitting is lossless with respect to block boundaries: re-joining the
/// line groups that the splitter produced with the delimiter line, and
/// splitting the re-joined text again, reproduces exactly the original
/// sequence of annotation regions.
pub proof fn lemma_split_rejoin_lossless(ls: Seq<Seq<char>>)
    ensures
        spec_raw_groups(spec_rejoin(spec_raw_groups(ls))) == spec_raw_groups(ls),
{
    lemma_raw_groups_nonempty(ls);
    lemma_raw_groups_delim_free(ls);
    lemma_raw_groups_rejoin_clean(spec_raw_groups(ls));
}

/// Copies the lines `g[lo..hi]` into a fresh vector.
pub fn copy_lines_range(g: &Vec<Vec<char>>, lo: usize, hi: usize) -> (r: Vec<Vec<char>>)
    requires
        lo <= hi <= g@.len(),
    ensures
        char_views(r@) == char_views(g@).subrange(lo as int, hi as int),
{
    let mut r: Vec<Vec<char>> = Vec::new();
    let mut i: usize = lo;
    while i < hi
        invariant
            lo <= i <= hi <= g@.len(),
            char_views(r@) == char_views(g@).subrange(lo as int, i as int),
        decreases hi - i,
    {
        let ghost prev = char_views(r@);
        let line = clone_chars(&g[i]);
        r.push(line);
        i = i + 1;
        proof {
            assert(char_views(r@) =~= prev.push(char_views(g@)[i as int - 1]));
            assert(char_views(r@) =~= char_views(g@).subrange(lo as int, i as int));
        }
    }
    r
}

/// A group without its leading blank lines.
pub open spec fn trim_blank_start(g: Seq<Seq<char>>) -> Seq<Seq<char>>
    decreases g.len(),
{
    if g.len() > 0 && is_blank_line(g[0]) {
        trim_blank_start(g.drop_first())
    } else {
        g
    }
}

/// A group without its trailing blank lines.
pub open spec fn trim_blank_end(g: Seq<Seq<char>>) -> Seq<Seq<char>>
    decreases g.len(),
{
    if g.len() > 0 && is_blank_line(g.last()) {
        trim_blank_end(g.drop_last())
    } else {
        g
    }
}

/// A group without its leading and trailing blank lines.
pub open spec fn trim_blank_lines(g: Seq<Seq<char>>) -> Seq<Seq<char>> {
    trim_blank_end(trim_blank_start(g))
}

/// Removes the blank lines at both ends of a group; executable twin of
/// [`trim_blank_lines`].
pub fn trim_blank_edges(g: &Vec<Vec<char>>) -> (r: Vec<Vec<char>>)
    ensures
        char_views(r@) == trim_blank_lines(char_views(g@)),
{
    let ghost gs = char_views(g@);
    let n = g.len();
    let mut lo: usize = 0;
    proof {
        assert(gs.skip(0) =~= gs);
    }
    while lo < n && is_blank(&g[lo])
        invariant
            lo <= n == g@.len(),
            gs == char_views(g@),
            trim_blank_start(gs) == trim_blank_start(gs.skip(lo as int)),
        decreases n - lo,
    {
        proof {
            assert(gs.skip(lo as int)[0] == gs[lo as int]);
            assert(gs.skip(lo as int).drop_first() =~= gs.skip(lo as int + 1));
        }
        lo = lo + 1;
    }
    proof {
        if lo < n {
            assert(gs.skip(lo as int)[0] == gs[lo as int]);
        }
        assert(trim_blank_start(gs) =~= gs.skip(lo as int));
    }
    let mut hi: usize = n;
    while hi > lo && is_blank(&g[hi - 1])
        invariant
            lo <= hi <= n == g@.len(),
            gs == char_views(g@),
            trim_blank_end(gs.skip(lo as int)) == trim_blank_end(
                gs.subrange(lo as int, hi as int),
            ),
        decreases hi,
    {
        proof {
            let cur = gs.subrange(lo as int, hi as int);
            assert(cur.last() == gs[hi as int - 1]);
            assert(cur.drop_last() =~= gs.subrange(lo as int, hi as int - 1));
        }
        hi = hi - 1;
    }
    proof {
        let cur = gs.subrange(lo as int, hi as int);
        if hi > lo {
            assert(cur.last() == gs[hi as int - 1]);
        }
        assert(trim_blank_end(gs.skip(lo as int)) == cur);
    }
    let mut r: Vec<Vec<char>> = Vec::new();
    let mut i: usize = lo;
    while i < hi
        invariant
            lo <= i <= hi <= g@.len(),
            gs == char_views(g@),
            char_views(r@) == gs.subrange(lo as int, i as int),
        decreases hi - i,
    {
        let ghost prev = char_views(r@);
        let line = clone_chars(&g[i]);
        r.push(line);
        i = i + 1;
        proof {
            assert(char_views(r@) =~= prev.push(gs[i as int - 1]));
            assert(char_views(r@) =~= gs.subrange(lo as int, i as int));
        }
    }
    r
}

/// One block's text: its group of lines, blank edges removed, joined with
/// line feeds.
pub open spec fn spec_block_of_group(g: Seq<Seq<char>>) -> Seq<char> {
    spec_unlines(trim_blank_lines(g))
}

/// The blocks of the raw export text, in file order: the line groups between
/// delimiter lines, each trimmed of surrounding blank lines. A group of only
/// blank lines becomes the empty block.
pub open spec fn spec_blocks(s: Seq<char>) -> Seq<Seq<char>> {
    spec_raw_groups(spec_lines(s)).map_values(|g: Seq<Seq<char>>| spec_block_of_group(g))
}

/// Cuts the raw export text into annotation blocks; executable twin of
/// [`spec_blocks`]. Block content is not validated here: a block may be
/// empty or malformed, and which blocks parse is the extractor's concern.
pub fn split_blocks(text: &str) -> (r: Vec<String>)
    ensures
        string_views(r@) == spec_blocks(text@),
{
    let chars = str_to_chars(text);
    let lines = split_lines(&chars);
    let groups = split_groups(&lines);
    let ghost gs = spec_raw_groups(spec_lines(text@));
    let mut r: Vec<String> = Vec::new();
    let mut i: usize = 0;
    while i < groups.len()
        invariant
            i <= groups@.len(),
            groups@.map_values(|g: Vec<Vec<char>>| char_views(g@)) == gs,
            string_views(r@) == gs.subrange(0, i as int).map_values(
                |g: Seq<Seq<char>>| spec_block_of_group(g),
            ),
        decreases groups@.len() - i,
    {
        let trimmed = trim_blank_edges(&groups[i]);
        let joined = join_lines(&trimmed);
        let block = chars_to_string(&joined);
        let ghost prev = string_views(r@);
        r.push(block);
        i = i + 1;
        proof {
            assert(char_views(groups@[i as int - 1]@) == gs[i as int - 1]);
            assert(block@ == spec_block_of_group(gs[i as int - 1]));
            assert(string_views(r@) =~= prev.push(block@));
            assert(string_views(r@) =~= gs.subrange(0, i as int).map_values(
                |g: Seq<Seq<char>>| spec_block_of_group(g),
            ));
        }
    }
    proof {
        assert(gs.subrange(0, gs.len() as int) =~= gs);
        assert(string_views(r@) =~= spec_blocks(text@));
    }
    r
}

} // verus!
