use vstd::prelude::*;

use crate::filter::{allowed, is_whitelisted, seq_views};
use crate::text::str_eq;

verus! {

/// An in-memory directory tree: one directory's full path, its base name,
/// and its child directories.  It holds, as plain values, exactly what the
/// traversal reads of a filesystem, so the walk over it is the reference
/// semantics of the depth-bounded, filter-aware walk.
pub struct DirTree {
    /// The directory's full path.
    pub path: String,
    /// The directory's base name, the part the filter judges.
    pub name: String,
    /// The child directories.
    pub children: Vec<DirTree>,
}

/// Whether the walk descends into child `c` of the directory whose path is
/// `dir`: the child's name passes the filter and its path is neither `dir`
/// itself nor the filesystem root, which guards against self-referential
/// or degenerate entries.
pub open spec fn child_kept(c: DirTree, dir: Seq<char>, forbidden: Seq<Seq<char>>) -> bool {
    allowed(c.name@, forbidden) && c.path@ != dir && c.path@ != "/"@
}

/// The exact sequence of paths a walk of `t` with depth budget `depth`
/// reports: nothing for an empty root path; the root alone once the budget
/// is exhausted; otherwise the root followed by the walks of its kept
/// children, in order, each with one level less budget.
pub open spec fn walk_model(t: DirTree, forbidden: Seq<Seq<char>>, depth: int) -> Seq<Seq<char>>
    decreases depth, 0int,
{
    if t.path@.len() == 0 {
        Seq::empty()
    } else if depth <= 0 {
        seq![t.path@]
    } else {
        seq![t.path@] + walk_children(t.children@, t.path@, forbidden, depth - 1)
    }
}

/// The concatenation of the walks of those children of `dir` that the
/// filter keeps, in listing order.
pub open spec fn walk_children(
    cs: Seq<DirTree>,
    dir: Seq<char>,
    forbidden: Seq<Seq<char>>,
    depth: int,
) -> Seq<Seq<char>>
    decreases depth, cs.len() + 1,
{
    if cs.len() == 0 {
        Seq::empty()
    } else {
        (if child_kept(cs[0], dir, forbidden) {
            walk_model(cs[0], forbidden, depth)
        } else {
            Seq::empty()
        }) + walk_children(cs.drop_first(), dir, forbidden, depth)
    }
}

proof fn lemma_walk_children_snoc(
    cs: Seq<DirTree>,
    c: DirTree,
    dir: Seq<char>,
    forbidden: Seq<Seq<char>>,
    depth: int,
)
    ensures
        walk_children(cs.push(c), dir, forbidden, depth) == walk_children(cs, dir, forbidden, depth)
            + (if child_kept(c, dir, forbidden) {
            walk_model(c, forbidden, depth)
        } else {
            Seq::<Seq<char>>::empty()
        }),
    decreases cs.len(),
{
    let tail = (if child_kept(c, dir, forbidden) {
        walk_model(c, forbidden, depth)
    } else {
        Seq::<Seq<char>>::empty()
    });
    if cs.len() == 0 {
        assert(cs.push(c)[0] == c);
        assert(cs.push(c).drop_first() =~= Seq::<DirTree>::empty());
        assert(walk_children(cs.push(c), dir, forbidden, depth) == tail + walk_children(
            cs.push(c).drop_first(),
            dir,
            forbidden,
            depth,
        ));
        assert(walk_children(cs.push(c).drop_first(), dir, forbidden, depth) == Seq::<
            Seq<char>,
        >::empty());
        assert(tail + Seq::<Seq<char>>::empty() =~= tail);
        assert(walk_children(cs, dir, forbidden, depth) == Seq::<Seq<char>>::empty());
        assert(Seq::<Seq<char>>::empty() + tail =~= tail);
    } else {
        lemma_walk_children_snoc(cs.drop_first(), c, dir, forbidden, depth);
        assert(cs.push(c)[0] == cs[0]);
        assert(cs.push(c).drop_first() =~= cs.drop_first().push(c));
        let head = (if child_kept(cs[0], dir, forbidden) {
            walk_model(cs[0], forbidden, depth)
        } else {
            Seq::<Seq<char>>::empty()
        });
        assert(walk_children(cs.push(c), dir, forbidden, depth) == head + (walk_children(
            cs.drop_first(),
            dir,
            forbidden,
            depth,
        ) + tail));
        assert(head + (walk_children(cs.drop_first(), dir, forbidden, depth) + tail) =~= (head
            + walk_children(cs.drop_first(), dir, forbidden, depth)) + tail);
    }
}

/// Walks the in-memory tree `t` with depth budget `depth`, appending to
/// `out` exactly the paths that `walk_model` lists, in that order.  An
/// empty root path appends nothing; a budget of zero or less still reports
/// the root but descends no further.
#[verifier::loop_isolation(false)]
pub fn walk_tree(t: &DirTree, forbidden: &Vec<String>, depth: i32, out: &mut Vec<String>)
    ensures
        seq_views(final(out)@) == seq_views(old(out)@) + walk_model(
            *t,
            seq_views(forbidden@),
            depth as int,
        ),
    decreases depth,
{
    let ghost f = seq_views(forbidden@);
    if t.path.as_str().is_empty() {
        assert(seq_views(out@) =~= seq_views(old(out)@) + walk_model(*t, f, depth as int));
        return ;
    }
    out.push(t.path.clone());
    assert(seq_views(out@) =~= seq_views(old(out)@) + seq![t.path@]);
    if depth <= 0 {
        assert(seq_views(out@) =~= seq_views(old(out)@) + walk_model(*t, f, depth as int));
        return ;
    }
    let ghost dirv = t.path@;
    let ghost base = seq_views(old(out)@);
    let mut i: usize = 0;
    while i < t.children.len()
        invariant
            i <= t.children.len(),
            depth > 0,
            seq_views(out@) == base + seq![dirv] + walk_children(
                t.children@.take(i as int),
                dirv,
                f,
                depth - 1,
            ),
        decreases t.children.len() - i,
    {
        let c = &t.children[i];
        let ghost before = seq_views(out@);
        let keep_name = is_whitelisted(c.name.as_str(), forbidden);
        assert(keep_name == allowed(t.children@[i as int].name@, f));
        let same_dir = str_eq(c.path.as_str(), t.path.as_str());
        assert(same_dir == (t.children@[i as int].path@ == dirv));
        let is_root = str_eq(c.path.as_str(), "/");
        assert(is_root == (t.children@[i as int].path@ == "/"@));
        let keep = keep_name && !same_dir && !is_root;
        if keep {
            walk_tree(c, forbidden, depth - 1, out);
        }
        proof {
            let cseq = t.children@;
            assert(keep == child_kept(cseq[i as int], dirv, f));
            let step = (if child_kept(cseq[i as int], dirv, f) {
                walk_model(cseq[i as int], f, depth - 1)
            } else {
                Seq::<Seq<char>>::empty()
            });
            if !keep {
                assert(before + step =~= before);
            }
            assert(seq_views(out@) == before + step);
            lemma_walk_children_snoc(cseq.take(i as int), cseq[i as int], dirv, f, depth - 1);
            assert(cseq.take(i as int + 1) =~= cseq.take(i as int).push(cseq[i as int]));
            assert((base + seq![dirv] + walk_children(cseq.take(i as int), dirv, f, depth - 1))
                + step =~= base + seq![dirv] + (walk_children(cseq.take(i as int), dirv, f, depth
                - 1) + step));
        }
        i += 1;
    }
    proof {
        assert(t.children@.take(t.children@.len() as int) =~= t.children@);
        assert(base + seq![dirv] + walk_children(t.children@, dirv, f, depth - 1) =~= base
            + walk_model(*t, f, depth as int));
    }
}

/// Path `p` names a node of `t` lying at most `d` levels below `t`'s root.
pub open spec fn within_depth(t: DirTree, d: int, p: Seq<char>) -> bool
    decreases d,
{
    p == t.path@ || (d > 0 && exists|i: int|
        0 <= i < t.children@.len() && within_depth(#[trigger] t.children@[i], d - 1, p))
}

/// Path `p` names a node somewhere in `t`, at any depth.
pub open spec fn subtree_has(t: DirTree, p: Seq<char>) -> bool {
    exists|d: int| within_depth(t, d, p)
}

/// No two nodes of `t` share a path: the root's path recurs nowhere below
/// it, the children's subtrees hold pairwise disjoint path sets, and the
/// same holds within every child.  A tree read off a real filesystem has
/// this shape, since distinct directories have distinct paths.
pub open spec fn paths_unique(t: DirTree) -> bool
    decreases t,
{
    &&& forall|i: int|
        0 <= i < t.children@.len() ==> !subtree_has(#[trigger] t.children@[i], t.path@)
    &&& forall|i: int, j: int, p: Seq<char>|
        #![trigger subtree_has(t.children@[i], p), subtree_has(t.children@[j], p)]
        0 <= i < j < t.children@.len() ==> !(subtree_has(t.children@[i], p) && subtree_has(
            t.children@[j],
            p,
        ))
    &&& forall|i: int| 0 <= i < t.children@.len() ==> paths_unique(#[trigger] t.children@[i])
}

/// Depth accounting: a walk with budget `d` reports only directories lying
/// at most `d` levels below its root, whatever the tree holds further
/// down.
pub proof fn lemma_depth_bound(t: DirTree, forbidden: Seq<Seq<char>>, d: int, p: Seq<char>)
    requires
        walk_model(t, forbidden, d).contains(p),
    ensures
        within_depth(t, d, p),
    decreases d, 0int,
{
    let out = walk_model(t, forbidden, d);
    if t.path@.len() == 0 {
        assert(false);
    } else if d <= 0 {
        assert(p == out[0]);
    } else if p != t.path@ {
        let rest = walk_children(t.children@, t.path@, forbidden, d - 1);
        let ix = choose|ix: int| 0 <= ix < out.len() && out[ix] == p;
        assert(rest[ix - 1] == p);
        lemma_walk_children_found(t.children@, t.path@, forbidden, d - 1, p);
    }
}

/// Where a path in the concatenated walks of a child list comes from: some
/// child that the filter kept, and within its own depth budget.
proof fn lemma_walk_children_found(
    cs: Seq<DirTree>,
    dir: Seq<char>,
    forbidden: Seq<Seq<char>>,
    d: int,
    p: Seq<char>,
)
    requires
        walk_children(cs, dir, forbidden, d).contains(p),
    ensures
        exists|k: int|
            0 <= k < cs.len() && child_kept(#[trigger] cs[k], dir, forbidden) && within_depth(
                cs[k],
                d,
                p,
            ),
    decreases d, cs.len() + 1,
{
    let head = (if child_kept(cs[0], dir, forbidden) {
        walk_model(cs[0], forbidden, d)
    } else {
        Seq::<Seq<char>>::empty()
    });
    let rest = walk_children(cs.drop_first(), dir, forbidden, d);
    let out = walk_children(cs, dir, forbidden, d);
    let ix = choose|ix: int| 0 <= ix < out.len() && out[ix] == p;
    if ix < head.len() {
        lemma_depth_bound(cs[0], forbidden, d, p);
        assert(0 <= 0 < cs.len() && child_kept(cs[0], dir, forbidden) && within_depth(
            cs[0],
            d,
            p,
        ));
    } else {
        assert(rest[ix - head.len()] == p);
        lemma_walk_children_found(cs.drop_first(), dir, forbidden, d, p);
        let k = choose|k: int|
            0 <= k < cs.drop_first().len() && child_kept(
                #[trigger] cs.drop_first()[k],
                dir,
                forbidden,
            ) && within_depth(cs.drop_first()[k], d, p);
        assert(cs.drop_first()[k] == cs[k + 1]);
        assert(0 <= k + 1 < cs.len() && child_kept(cs[k + 1], dir, forbidden) && within_depth(
            cs[k + 1],
            d,
            p,
        ));
    }
}

/// Pruning: in a tree whose node paths are distinct, once a child's name
/// matches a forbidden prefix, neither that child's path nor the path of
/// anything beneath it is ever reported, whatever the depth budget.
pub proof fn lemma_pruned_subtree_absent(
    t: DirTree,
    forbidden: Seq<Seq<char>>,
    d: int,
    k: int,
    p: Seq<char>,
)
    requires
        paths_unique(t),
        0 <= k < t.children@.len(),
        !allowed(t.children@[k].name@, forbidden),
        subtree_has(t.children@[k], p),
    ensures
        !walk_model(t, forbidden, d).contains(p),
{
    let out = walk_model(t, forbidden, d);
    if out.contains(p) {
        assert(t.path@.len() != 0);
        if p == t.path@ {
            assert(!subtree_has(t.children@[k], t.path@));
            assert(false);
        } else {
            assert(d > 0);
            let rest = walk_children(t.children@, t.path@, forbidden, d - 1);
            let ix = choose|ix: int| 0 <= ix < out.len() && out[ix] == p;
            assert(rest[ix - 1] == p);
            lemma_walk_children_found(t.children@, t.path@, forbidden, d - 1, p);
            let j = choose|j: int|
                0 <= j < t.children@.len() && child_kept(
                    #[trigger] t.children@[j],
                    t.path@,
                    forbidden,
                ) && within_depth(t.children@[j], d - 1, p);
            assert(subtree_has(t.children@[j], p));
            if j == k {
                assert(child_kept(t.children@[k], t.path@, forbidden));
                assert(false);
            } else if j < k {
                assert(!(subtree_has(t.children@[j], p) && subtree_has(t.children@[k], p)));
                assert(false);
            } else {
                assert(!(subtree_has(t.children@[k], p) && subtree_has(t.children@[j], p)));
                assert(false);
            }
        }
    }
}

} // verus!
