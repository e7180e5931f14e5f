//! What holds of every rendering.
//!
//! The lines below the root are described as rows: each names the node it
//! draws by its path of child indices from the root, and carries the trail of
//! ancestor flags, the last-child flag and the label that the line shows.
use vstd::prelude::*;
use crate::config::{Glyphs, TreeConfig};
use crate::render::{branch_line, leaves_text, tree_text};
use crate::tree::{Tree, TreeLabel};

verus! {

/// One line of a rendering below the root, as data.
pub struct Row {
    /// Child indices from the root to the node drawn.
    pub path: Seq<int>,
    /// For each ancestor between the root and the node, whether it was the
    /// last child of its parent.
    pub trail: Seq<bool>,
    /// Whether the node is the last child of its parent.
    pub last: bool,
    pub label: Seq<char>,
}

/// The node reached from `t` by following `p`.
pub open spec fn node_at<D>(t: Tree<D>, p: Seq<int>) -> Tree<D>
    decreases p.len(),
{
    if p.len() == 0 {
        t
    } else {
        node_at(t, p.drop_last()).children@[p.last()]
    }
}

/// Every step of `p` picks an existing child.
pub open spec fn valid_path<D>(t: Tree<D>, p: Seq<int>) -> bool
    decreases p.len(),
{
    p.len() == 0 || (valid_path(t, p.drop_last()) && 0 <= p.last() < node_at(
        t,
        p.drop_last(),
    ).children@.len())
}

/// The node at the non-empty path `p` is the final child of its parent.
pub open spec fn is_last_child<D>(t: Tree<D>, p: Seq<int>) -> bool {
    p.last() == node_at(t, p.drop_last()).children@.len() - 1
}

/// The rows of the siblings `leaves`, which stand at indices `off`, `off + 1`,
/// ... under the node at `base`, in drawing order.
pub open spec fn rows<D: TreeLabel>(leaves: Seq<Tree<D>>, trail: Seq<bool>, base: Seq<int>, off: int) -> Seq<Row>
    decreases leaves,
{
    if leaves.len() == 0 {
        Seq::empty()
    } else {
        let last = leaves.len() == 1;
        let first = leaves[0];
        let rest = leaves.subrange(1, leaves.len() as int);
        proof {
            assert(decreases_to!(leaves => leaves[0]));
            assert(decreases_to!(first => first.children));
            assert(decreases_to!(first.children => first.children@));
        }
        seq![Row { path: base.push(off), trail, last, label: first.label.text() }] + rows(
            first.children@,
            trail.push(last),
            base.push(off),
            0,
        ) + rows(rest, trail, base, off + 1)
    }
}

/// The rows of every node below the root of `t`, in drawing order.
pub open spec fn tree_rows<D: TreeLabel>(t: Tree<D>) -> Seq<Row> {
    rows(t.children@, Seq::empty(), Seq::empty(), 0)
}

/// The text of a sequence of rows, one line each.
pub open spec fn rows_text(g: Glyphs, rs: Seq<Row>) -> Seq<char>
    decreases rs.len(),
{
    if rs.len() == 0 {
        Seq::empty()
    } else {
        branch_line(g, rs[0].trail, rs[0].last, rs[0].label) + rows_text(g, rs.drop_first())
    }
}

/// The ancestor flags agree with the tree: entry `j` says whether the
/// ancestor at level `j + 1` on `p` is the last child of its parent.
pub open spec fn trail_matches<D>(t: Tree<D>, p: Seq<int>, trail: Seq<bool>) -> bool {
    forall|j: int| 0 <= j < trail.len() ==> #[trigger] trail[j] == is_last_child(t, p.take(j + 1))
}

proof fn lemma_rows_text_append(g: Glyphs, a: Seq<Row>, b: Seq<Row>)
    ensures
        rows_text(g, a + b) == rows_text(g, a) + rows_text(g, b),
    decreases a.len(),
{
    if a.len() == 0 {
        assert(a + b =~= b);
        assert(rows_text(g, a) + rows_text(g, b) =~= rows_text(g, b));
    } else {
        assert((a + b).drop_first() =~= a.drop_first() + b);
        lemma_rows_text_append(g, a.drop_first(), b);
        assert(rows_text(g, a + b) =~= rows_text(g, a) + rows_text(g, b));
    }
}

proof fn lemma_leaves_text_rows<D: TreeLabel>(g: Glyphs, leaves: Seq<Tree<D>>, trail: Seq<bool>, base: Seq<int>, off: int)
    ensures
        leaves_text(g, leaves, trail) == rows_text(g, rows(leaves, trail, base, off)),
    decreases leaves,
{
    if leaves.len() > 0 {
        let last = leaves.len() == 1;
        let first = leaves[0];
        let rest = leaves.subrange(1, leaves.len() as int);
        assert(decreases_to!(leaves => leaves[0]));
        assert(decreases_to!(first => first.children));
        assert(decreases_to!(first.children => first.children@));
        let head = seq![Row { path: base.push(off), trail, last, label: first.label.text() }];
        let below = rows(first.children@, trail.push(last), base.push(off), 0);
        let after = rows(rest, trail, base, off + 1);
        lemma_leaves_text_rows(g, first.children@, trail.push(last), base.push(off), 0);
        lemma_leaves_text_rows(g, rest, trail, base, off + 1);
        lemma_rows_text_append(g, head + below, after);
        lemma_rows_text_append(g, head, below);
        assert(head.drop_first() =~= Seq::<Row>::empty());
        assert(rows_text(g, head.drop_first()) == Seq::<char>::empty());
        assert(rows_text(g, head) =~= branch_line(g, trail, last, first.label.text()));
    }
}

proof fn lemma_rows_shape<D: TreeLabel>(t: Tree<D>, leaves: Seq<Tree<D>>, trail: Seq<bool>, base: Seq<int>, off: int)
    requires
        valid_path(t, base),
        0 <= off <= node_at(t, base).children@.len(),
        leaves == node_at(t, base).children@.subrange(off, node_at(t, base).children@.len() as int),
        trail.len() == base.len(),
        trail_matches(t, base, trail),
    ensures
        forall|k: int|
            0 <= k < rows(leaves, trail, base, off).len() ==> row_fits(t, #[trigger] rows(leaves, trail, base, off)[k]),
    decreases leaves,
{
    let rs = rows(leaves, trail, base, off);
    if leaves.len() > 0 {
        let n = node_at(t, base).children@.len() as int;
        let last = leaves.len() == 1;
        let first = leaves[0];
        let rest = leaves.subrange(1, leaves.len() as int);
        assert(decreases_to!(leaves => leaves[0]));
        assert(decreases_to!(first => first.children));
        assert(decreases_to!(first.children => first.children@));
        let p = base.push(off);
        let trail2 = trail.push(last);
        let head = seq![Row { path: p, trail, last, label: first.label.text() }];
        let below = rows(first.children@, trail2, p, 0);
        let after = rows(rest, trail, base, off + 1);
        assert(p.drop_last() =~= base);
        assert(node_at(t, p) == first);
        assert(trail_matches(t, p, trail)) by {
            assert forall|j: int| 0 <= j < trail.len() implies #[trigger] trail[j] == is_last_child(
                t,
                p.take(j + 1),
            ) by {
                assert(p.take(j + 1) =~= base.take(j + 1));
            }
        }
        assert(row_fits(t, head[0]));
        assert(p.take(trail.len() + 1 as int) =~= p);
        assert(trail_matches(t, p, trail2)) by {
            assert forall|j: int| 0 <= j < trail2.len() implies #[trigger] trail2[j] == is_last_child(
                t,
                p.take(j + 1),
            ) by {
                if j < trail.len() {
                    assert(p.take(j + 1) =~= base.take(j + 1));
                }
            }
        }
        assert(first.children@.subrange(0, first.children@.len() as int) =~= first.children@);
        lemma_rows_shape(t, first.children@, trail2, p, 0);
        assert(rest =~= node_at(t, base).children@.subrange(off + 1, n));
        lemma_rows_shape(t, rest, trail, base, off + 1);
        assert(rs == head + below + after);
        assert forall|k: int| 0 <= k < rs.len() implies row_fits(t, #[trigger] rs[k]) by {
            if k == 0 {
            } else if k < 1 + below.len() {
                assert(rs[k] == below[k - 1]);
            } else {
                assert(rs[k] == after[k - 1 - below.len()]);
            }
        }
    }
}

/// What a row states of the node it draws: the path leads to it, the label is
/// its label, the trail has one flag per ancestor below the root and each flag
/// is right, and `last` is right.
pub open spec fn row_fits<D: TreeLabel>(t: Tree<D>, r: Row) -> bool {
    &&& valid_path(t, r.path)
    &&& r.path.len() == r.trail.len() + 1
    &&& r.label == node_at(t, r.path).label.text()
    &&& r.last == is_last_child(t, r.path)
    &&& trail_matches(t, r.path, r.trail)
}

/// A tree without children is drawn as its label and a newline, whatever
/// the configuration.
pub proof fn lemma_leaf_text<D: TreeLabel>(t: Tree<D>, g: Glyphs)
    requires
        t.children@.len() == 0,
    ensures
        tree_text(t, g) == t.label.text() + seq!['\n'],
{
    assert(tree_text(t, g) =~= t.label.text() + seq!['\n']);
}

/// Two configurations with the same glyphs draw a tree the same way: the
/// text depends on the tree and the glyphs alone.
pub proof fn lemma_text_deterministic<D: TreeLabel, T: TreeConfig>(t: Tree<D>, c1: T, c2: T)
    requires
        c1.glyphs() == c2.glyphs(),
    ensures
        tree_text(t, c1.glyphs()) == tree_text(t, c2.glyphs()),
{
}

/// The text of a tree is its label line followed by one line per row, each
/// made of one column group per flag of the row's trail, the `last` or
/// `join` marker that the row's flag selects, and the label.
pub proof fn lemma_text_is_rows<D: TreeLabel>(t: Tree<D>, g: Glyphs)
    ensures
        tree_text(t, g) == t.label.text() + seq!['\n'] + rows_text(g, tree_rows(t)),
{
    lemma_leaves_text_rows(g, t.children@, Seq::empty(), Seq::empty(), 0);
}

/// Every row of a tree fits the node it draws. So a node at path length
/// `k + 1` (`k` ancestors between it and the root) is drawn after exactly `k`
/// column groups; it is introduced by `last` exactly when it is the final
/// child of its parent; and the column group of each ancestor is a `bar`
/// exactly when that ancestor is not the final child of its own parent.
pub proof fn lemma_rows_fit<D: TreeLabel>(t: Tree<D>)
    ensures
        forall|k: int| 0 <= k < tree_rows(t).len() ==> row_fits(t, #[trigger] tree_rows(t)[k]),
{
    assert(t.children@.subrange(0, t.children@.len() as int) =~= t.children@);
    lemma_rows_shape(t, t.children@, Seq::empty(), Seq::empty(), 0);
}

} // verus!
