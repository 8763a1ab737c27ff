//! The aggregator: groups extracted records by book identity, the exact
//! `(author, title)` pair, preserving the input order both of the groups
//! (first appearance) and of the records inside each group. Nothing is
//! deduplicated: a passage highlighted twice appears twice, in encounter
//! order.

use vstd::prelude::*;

use crate::record::{
    clipping_views, group_views, BookGroup, BookGroupView, Clipping, ClippingView,
};

verus! {

/// The first group at or after `i` whose book identity is `(a, t)`.
pub open spec fn spec_find_group(
    gs: Seq<BookGroupView>,
    a: Seq<char>,
    t: Seq<char>,
    i: int,
) -> Option<int>
    decreases gs.len() - i,
{
    if i < 0 || i >= gs.len() {
        None
    } else if gs[i].author == a && gs[i].title == t {
        Some(i)
    } else {
        spec_find_group(gs, a, t, i + 1)
    }
}

proof fn lemma_find_group_some(gs: Seq<BookGroupView>, a: Seq<char>, t: Seq<char>, i: int)
    ensures
        spec_find_group(gs, a, t, i) is Some ==> {
            let k = spec_find_group(gs, a, t, i).unwrap();
            i <= k < gs.len() && 0 <= k && gs[k].author == a && gs[k].title == t
        },
    decreases gs.len() - i,
{
    if !(i < 0 || i >= gs.len()) && !(gs[i].author == a && gs[i].title == t) {
        lemma_find_group_some(gs, a, t, i + 1);
    }
}

proof fn lemma_find_group_none(gs: Seq<BookGroupView>, a: Seq<char>, t: Seq<char>, i: int)
    requires
        0 <= i,
    ensures
        (spec_find_group(gs, a, t, i) is None) <==> (forall|k: int|
            #![trigger gs[k]]
            i <= k < gs.len() ==> !(gs[k].author == a && gs[k].title == t)),
    decreases gs.len() - i,
{
    if i < gs.len() && !(gs[i].author == a && gs[i].title == t) {
        lemma_find_group_none(gs, a, t, i + 1);
    }
}

/// One record folded into the groups built so far: appended to the first
/// group with its book identity, or opening a new group at the end.
pub open spec fn spec_insert(gs: Seq<BookGroupView>, c: ClippingView) -> Seq<BookGroupView> {
    match spec_find_group(gs, c.author, c.title, 0) {
        Some(i) => gs.update(
            i,
            BookGroupView {
                author: gs[i].author,
                title: gs[i].title,
                clippings: gs[i].clippings.push(c),
            },
        ),
        None => gs.push(BookGroupView { author: c.author, title: c.title, clippings: seq![c] }),
    }
}

/// Stable grouping of the records by book identity: groups appear in the
/// order in which their identity first appears in the input, and each group
/// holds its records in input order.
pub open spec fn spec_groups(cs: Seq<ClippingView>) -> Seq<BookGroupView>
    decreases cs.len(),
{
    if cs.len() == 0 {
        Seq::empty()
    } else {
        spec_insert(spec_groups(cs.drop_last()), cs.last())
    }
}

/// Clones one record; the copy has the same view.
fn clone_clipping(c: &Clipping) -> (r: Clipping)
    ensures
        r@ == c@,
{
    let r = Clipping {
        title: c.title.clone(),
        author: c.author.clone(),
        clipping_type: c.clipping_type,
        location: c.location,
        page: c.page,
        added_date: c.added_date,
        quote: c.quote.clone(),
    };
    proof {
        assert(r@ =~= c@);
    }
    r
}

/// Finds the first group with the given book identity; executable twin of
/// [`spec_find_group`].
fn find_group(groups: &Vec<BookGroup>, author: &String, title: &String) -> (r: Option<usize>)
    ensures
        match r {
            Some(k) => spec_find_group(group_views(groups@), author@, title@, 0) == Some(k as int)
                && k < groups@.len(),
            None => spec_find_group(group_views(groups@), author@, title@, 0) is None,
        },
{
    let n = groups.len();
    let mut j: usize = 0;
    while j < n
        invariant
            j <= n == groups@.len(),
            spec_find_group(group_views(groups@), author@, title@, 0) == spec_find_group(
                group_views(groups@),
                author@,
                title@,
                j as int,
            ),
        decreases n - j,
    {
        proof {
            assert(group_views(groups@)[j as int] == groups@[j as int]@);
        }
        if groups[j].author == *author && groups[j].title == *title {
            return Some(j);
        }
        j = j + 1;
    }
    None
}

/// Groups the records by book identity; executable twin of [`spec_groups`].
/// Group order follows the first appearance of each book, and the records
/// inside a group keep their input order.
pub fn group_clippings(parsed_clippings: &Vec<Clipping>) -> (r: Vec<BookGroup>)
    ensures
        group_views(r@) == spec_groups(clipping_views(parsed_clippings@)),
{
    let ghost cvs = clipping_views(parsed_clippings@);
    let mut groups: Vec<BookGroup> = Vec::new();
    let mut i: usize = 0;
    while i < parsed_clippings.len()
        invariant
            i <= parsed_clippings@.len(),
            cvs == clipping_views(parsed_clippings@),
            group_views(groups@) == spec_groups(cvs.subrange(0, i as int)),
        decreases parsed_clippings@.len() - i,
    {
        let c = clone_clipping(&parsed_clippings[i]);
        proof {
            assert(cvs[i as int] == parsed_clippings@[i as int]@);
            assert(cvs.subrange(0, i as int + 1).drop_last() =~= cvs.subrange(0, i as int));
            assert(cvs.subrange(0, i as int + 1).last() == cvs[i as int]);
        }
        let ghost before = group_views(groups@);
        match find_group(&groups, &c.author, &c.title) {
            Some(j) => {
                proof {
                    lemma_find_group_some(before, c@.author, c@.title, 0);
                }
                let mut g = groups.remove(j);
                g.clippings.push(c);
                groups.insert(j, g);
                proof {
                    assert(group_views(groups@)[j as int] == groups@[j as int]@);
                    assert(clipping_views(g.clippings@) =~= before[j as int].clippings.push(
                        cvs[i as int],
                    ));
                    assert(group_views(groups@) =~= spec_insert(before, cvs[i as int]));
                }
            },
            None => {
                let mut clippings: Vec<Clipping> = Vec::new();
                clippings.push(c);
                let author = clone_author(&parsed_clippings[i]);
                let title = clone_title(&parsed_clippings[i]);
                let g = BookGroup { author, title, clippings };
                groups.push(g);
                proof {
                    assert(clipping_views(g.clippings@) =~= seq![cvs[i as int]]);
                    assert(g@ =~= BookGroupView {
                        author: cvs[i as int].author,
                        title: cvs[i as int].title,
                        clippings: seq![cvs[i as int]],
                    });
                    assert(group_views(groups@) =~= spec_insert(before, cvs[i as int]));
                }
            },
        }
        i = i + 1;
    }
    proof {
        assert(cvs.subrange(0, cvs.len() as int) =~= cvs);
    }
    groups
}

/// Clones a record's author string.
fn clone_author(c: &Clipping) -> (r: String)
    ensures
        r@ == c@.author,
{
    c.author.clone()
}

/// Clones a record's title string.
fn clone_title(c: &Clipping) -> (r: String)
    ensures
        r@ == c@.title,
{
    c.title.clone()
}

/// The records of `cs` whose book identity is `(a, t)`, in input order.
pub open spec fn records_for_key(cs: Seq<ClippingView>, a: Seq<char>, t: Seq<char>) -> Seq<
    ClippingView,
>
    decreases cs.len(),
{
    if cs.len() == 0 {
        Seq::empty()
    } else {
        records_for_key(cs.drop_last(), a, t) + if cs.last().author == a && cs.last().title == t {
            seq![cs.last()]
        } else {
            Seq::<ClippingView>::empty()
        }
    }
}

/// Grouping is order-preserving and lossless. Every group holds exactly the
/// records of the input that carry its book identity, in their original
/// relative order — so two records with the same identity at positions
/// `i < j` of the input keep that order inside their group. No two groups
/// share an identity, and a book identity without records has no group.
pub proof fn lemma_grouping_order_preserving(cs: Seq<ClippingView>)
    ensures
        forall|k: int|
            #![trigger spec_groups(cs)[k]]
            0 <= k < spec_groups(cs).len() ==> spec_groups(cs)[k].clippings == records_for_key(
                cs,
                spec_groups(cs)[k].author,
                spec_groups(cs)[k].title,
            ),
        forall|k1: int, k2: int|
            #![trigger spec_groups(cs)[k1], spec_groups(cs)[k2]]
            0 <= k1 < k2 < spec_groups(cs).len() ==> !(spec_groups(cs)[k1].author == spec_groups(
                cs,
            )[k2].author && spec_groups(cs)[k1].title == spec_groups(cs)[k2].title),
        forall|a: Seq<char>, t: Seq<char>|
            spec_find_group(spec_groups(cs), a, t, 0) is None ==> #[trigger] records_for_key(
                cs,
                a,
                t,
            ) =~= Seq::<ClippingView>::empty(),
    decreases cs.len(),
{
    if cs.len() == 0 {
        assert forall|a: Seq<char>, t: Seq<char>|
            spec_find_group(spec_groups(cs), a, t, 0) is None implies records_for_key(cs, a, t)
            =~= Seq::<ClippingView>::empty() by {}
    } else {
        let p = cs.drop_last();
        let c = cs.last();
        let gs = spec_groups(p);
        let gs2 = spec_groups(cs);
        lemma_grouping_order_preserving(p);
        assert forall|a: Seq<char>, t: Seq<char>| true implies #[trigger] records_for_key(
            cs,
            a,
            t,
        ) == records_for_key(p, a, t) + (if c.author == a && c.title == t {
            seq![c]
        } else {
            Seq::<ClippingView>::empty()
        }) by {}
        match spec_find_group(gs, c.author, c.title, 0) {
            Some(j) => {
                lemma_find_group_some(gs, c.author, c.title, 0);
                assert(gs2 == gs.update(
                    j,
                    BookGroupView {
                        author: gs[j].author,
                        title: gs[j].title,
                        clippings: gs[j].clippings.push(c),
                    },
                ));
                assert forall|k: int| 0 <= k < gs2.len() implies gs2[k].clippings
                    == records_for_key(cs, gs2[k].author, gs2[k].title) by {
                    if k == j {
                        assert(records_for_key(cs, gs2[k].author, gs2[k].title) =~= records_for_key(
                            p,
                            gs[j].author,
                            gs[j].title,
                        ) + seq![c]);
                        assert(gs2[k].clippings =~= records_for_key(cs, gs2[k].author, gs2[k].title));
                    } else {
                        assert(gs2[k] == gs[k]);
                        assert(!(gs[k].author == c.author && gs[k].title == c.title));
                        assert(records_for_key(cs, gs2[k].author, gs2[k].title) =~= records_for_key(
                            p,
                            gs[k].author,
                            gs[k].title,
                        ));
                    }
                }
                assert forall|a: Seq<char>, t: Seq<char>|
                    spec_find_group(gs2, a, t, 0) is None implies #[trigger] records_for_key(
                    cs,
                    a,
                    t,
                ) =~= Seq::<ClippingView>::empty() by {
                    lemma_find_group_none(gs2, a, t, 0);
                    lemma_find_group_none(gs, a, t, 0);
                    assert forall|k: int| #![trigger gs[k]] 0 <= k < gs.len() implies !(gs[k].author
                        == a && gs[k].title == t) by {
                        assert(gs2[k].author == gs[k].author && gs2[k].title == gs[k].title);
                        assert(!(gs2[k].author == a && gs2[k].title == t));
                    }
                    assert(spec_find_group(gs, a, t, 0) is None);
                    assert(!(c.author == a && c.title == t)) by {
                        assert(gs2[j].author == c.author && gs2[j].title == c.title);
                        assert(!(gs2[j].author == a && gs2[j].title == t));
                    }
                    assert(records_for_key(p, a, t) =~= Seq::<ClippingView>::empty());
                }
            },
            None => {
                lemma_find_group_none(gs, c.author, c.title, 0);
                let fresh = BookGroupView {
                    author: c.author,
                    title: c.title,
                    clippings: seq![c],
                };
                assert(gs2 == gs.push(fresh));
                assert forall|k: int| 0 <= k < gs2.len() implies gs2[k].clippings
                    == records_for_key(cs, gs2[k].author, gs2[k].title) by {
                    if k < gs.len() {
                        assert(gs2[k] == gs[k]);
                        assert(!(gs[k].author == c.author && gs[k].title == c.title));
                        assert(records_for_key(cs, gs2[k].author, gs2[k].title) =~= records_for_key(
                            p,
                            gs[k].author,
                            gs[k].title,
                        ));
                    } else {
                        assert(gs2[k] == fresh);
                        assert(records_for_key(p, c.author, c.title) =~= Seq::<
                            ClippingView,
                        >::empty());
                        assert(records_for_key(cs, c.author, c.title) =~= seq![c]);
                    }
                }
                assert forall|k1: int, k2: int| 0 <= k1 < k2 < gs2.len() implies !(gs2[k1].author
                    == gs2[k2].author && gs2[k1].title == gs2[k2].title) by {
                    if k2 == gs.len() {
                        assert(gs2[k1] == gs[k1]);
                        assert(!(gs[k1].author == c.author && gs[k1].title == c.title));
                    } else {
                        assert(gs2[k1] == gs[k1]);
                        assert(gs2[k2] == gs[k2]);
                    }
                }
                assert forall|a: Seq<char>, t: Seq<char>|
                    spec_find_group(gs2, a, t, 0) is None implies #[trigger] records_for_key(
                    cs,
                    a,
                    t,
                ) =~= Seq::<ClippingView>::empty() by {
                    lemma_find_group_none(gs2, a, t, 0);
                    lemma_find_group_none(gs, a, t, 0);
                    assert forall|k: int| #![trigger gs[k]] 0 <= k < gs.len() implies !(gs[k].author
                        == a && gs[k].title == t) by {
                        assert(gs2[k] == gs[k]);
                        assert(!(gs2[k].author == a && gs2[k].title == t));
                    }
                    assert(spec_find_group(gs, a, t, 0) is None);
                    assert(!(c.author == a && c.title == t)) by {
                        assert(gs2[gs.len() as int] == fresh);
                        assert(!(gs2[gs.len() as int].author == a && gs2[gs.len() as int].title
                            == t));
                    }
                    assert(records_for_key(p, a, t) =~= Seq::<ClippingView>::empty());
                }
            },
        }
    }
}

proof fn lemma_records_for_key_prefix(cs: Seq<ClippingView>, a: Seq<char>, t: Seq<char>, m: int)
    requires
        0 <= m <= cs.len(),
    ensures
        records_for_key(cs.subrange(0, m), a, t).len() <= records_for_key(cs, a, t).len(),
        records_for_key(cs.subrange(0, m), a, t) == records_for_key(cs, a, t).subrange(
            0,
            records_for_key(cs.subrange(0, m), a, t).len() as int,
        ),
    decreases cs.len() - m,
{
    if m == cs.len() {
        assert(cs.subrange(0, m) =~= cs);
        assert(records_for_key(cs, a, t).subrange(0, records_for_key(cs, a, t).len() as int)
            =~= records_for_key(cs, a, t));
    } else {
        lemma_records_for_key_prefix(cs, a, t, m + 1);
        let shorter = cs.subrange(0, m);
        let longer = cs.subrange(0, m + 1);
        assert(longer.drop_last() =~= shorter);
        assert(longer.last() == cs[m]);
        let rs = records_for_key(shorter, a, t);
        let rl = records_for_key(longer, a, t);
        assert(rs.len() <= rl.len());
        assert(rs =~= rl.subrange(0, rs.len() as int));
        assert(rs =~= records_for_key(cs, a, t).subrange(0, rs.len() as int));
    }
}

proof fn lemma_records_for_key_at(cs: Seq<ClippingView>, i: int)
    requires
        0 <= i < cs.len(),
    ensures
        ({
            let a = cs[i].author;
            let t = cs[i].title;
            let p = records_for_key(cs.subrange(0, i), a, t).len();
            p < records_for_key(cs, a, t).len() && records_for_key(cs, a, t)[p as int] == cs[i]
        }),
{
    let a = cs[i].author;
    let t = cs[i].title;
    let shorter = cs.subrange(0, i);
    let longer = cs.subrange(0, i + 1);
    assert(longer.drop_last() =~= shorter);
    assert(longer.last() == cs[i]);
    let p = records_for_key(shorter, a, t).len();
    assert(records_for_key(longer, a, t) == records_for_key(shorter, a, t) + seq![cs[i]]);
    assert(records_for_key(longer, a, t)[p as int] == cs[i]);
    lemma_records_for_key_prefix(cs, a, t, i + 1);
    assert(records_for_key(cs, a, t)[p as int] == records_for_key(longer, a, t)[p as int]);
}

/// Two records with the same book identity at input positions `i < j` stand
/// in that same relative order inside the record sequence of their group:
/// the earlier one at a strictly smaller position than the later one.
pub proof fn lemma_same_key_order_kept(cs: Seq<ClippingView>, i: int, j: int)
    requires
        0 <= i < j < cs.len(),
        cs[i].author == cs[j].author,
        cs[i].title == cs[j].title,
    ensures
        ({
            let a = cs[j].author;
            let t = cs[j].title;
            let g = records_for_key(cs, a, t);
            let p = records_for_key(cs.subrange(0, i), a, t).len();
            let q = records_for_key(cs.subrange(0, j), a, t).len();
            p < q < g.len() && g[p as int] == cs[i] && g[q as int] == cs[j]
        }),
{
    let a = cs[j].author;
    let t = cs[j].title;
    lemma_records_for_key_at(cs, i);
    lemma_records_for_key_at(cs, j);
    let within_j = cs.subrange(0, j);
    assert(within_j.subrange(0, i) =~= cs.subrange(0, i));
    assert(within_j.subrange(0, i + 1) =~= cs.subrange(0, i + 1));
    lemma_records_for_key_prefix(within_j, a, t, i + 1);
    let shorter = cs.subrange(0, i);
    let longer = cs.subrange(0, i + 1);
    assert(longer.drop_last() =~= shorter);
    assert(longer.last() == cs[i]);
    assert(records_for_key(longer, a, t).len() == records_for_key(shorter, a, t).len() + 1);
    assert(records_for_key(shorter, a, t).len() < records_for_key(within_j, a, t).len());
}

} // verus!
