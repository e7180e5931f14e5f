//! Drawing a tree as text.
//!
//! The root's label stands alone on the first line. Every other node gets one
//! line, in depth-first pre-order: for each of its ancestors below the root a
//! column group (a `bar` where that ancestor still has siblings after it, a
//! `space` where it was the last of them), then the `last` or `join` marker
//! followed by `line` repeated `depth` times and a space, then its label.
use vstd::prelude::*;
use crate::config::{Glyphs, TreeConfig, DefaultTreeConfig};
use crate::tree::{Tree, TreeLabel};

verus! {

/// `s` written `n` times in a row.
pub open spec fn repeat(s: Seq<char>, n: nat) -> Seq<char>
    decreases n,
{
    if n == 0 {
        Seq::empty()
    } else {
        repeat(s, (n - 1) as nat) + s
    }
}

/// The column group drawn beneath one ancestor: `space` where the ancestor
/// was the last of its siblings (`closed`), `bar` where it was not, then
/// `space` repeated `depth` times and a separating space.
pub open spec fn column(g: Glyphs, closed: bool) -> Seq<char> {
    (if closed { g.space } else { g.bar }) + repeat(g.space, g.depth) + seq![' ']
}

/// The column groups for a trail of ancestors, outermost first.
pub open spec fn indent(g: Glyphs, trail: Seq<bool>) -> Seq<char>
    decreases trail.len(),
{
    if trail.len() == 0 {
        Seq::empty()
    } else {
        indent(g, trail.drop_last()) + column(g, trail.last())
    }
}

/// The marker that introduces a child: `last` for the final child, `join`
/// for any other, then `line` repeated `depth` times and a space.
pub open spec fn marker(g: Glyphs, last: bool) -> Seq<char> {
    (if last { g.last } else { g.join }) + repeat(g.line, g.depth) + seq![' ']
}

/// The whole line of one child, newline included.
pub open spec fn branch_line(g: Glyphs, trail: Seq<bool>, last: bool, label: Seq<char>) -> Seq<char> {
    indent(g, trail) + marker(g, last) + label + seq!['\n']
}

/// The lines of a sequence of sibling subtrees whose ancestors form `trail`.
pub open spec fn leaves_text<D: TreeLabel>(g: Glyphs, leaves: Seq<Tree<D>>, trail: Seq<bool>) -> Seq<char>
    decreases leaves,
{
    if leaves.len() == 0 {
        Seq::empty()
    } else {
        let last = leaves.len() == 1;
        let first = leaves[0];
        let rest = leaves.subrange(1, leaves.len() as int);
        proof {
            assert(decreases_to!(leaves => leaves[0]));
            assert(decreases_to!(first => first.children));
            assert(decreases_to!(first.children => first.children@));
        }
        branch_line(g, trail, last, first.label.text()) + leaves_text(g, first.children@, trail.push(last))
            + leaves_text(g, rest, trail)
    }
}

/// The full text of a tree: its label and a newline, then the lines of its
/// descendants.
pub open spec fn tree_text<D: TreeLabel>(t: Tree<D>, g: Glyphs) -> Seq<char> {
    t.label.text() + seq!['\n'] + leaves_text(g, t.children@, Seq::empty())
}

fn push_repeat(out: &mut String, s: &str, n: usize)
    ensures
        final(out)@ == old(out)@ + repeat(s@, n as nat),
{
    let ghost start = out@;
    let mut i: usize = 0;
    while i < n
        invariant
            i <= n,
            out@ == start + repeat(s@, i as nat),
        decreases n - i,
    {
        out.append(s);
        i = i + 1;
        assert(out@ =~= start + repeat(s@, i as nat));
    }
}

fn push_column<T: TreeConfig>(out: &mut String, config: &T, closed: bool)
    ensures
        final(out)@ == old(out)@ + column(config.glyphs(), closed),
{
    let ghost start = out@;
    if closed {
        out.append(config.space());
    } else {
        out.append(config.bar());
    }
    push_repeat(out, config.space(), config.depth());
    out.append(" ");
    proof {
        reveal_strlit(" ");
    }
    assert(out@ =~= start + column(config.glyphs(), closed));
}

fn push_branch_line<T: TreeConfig>(out: &mut String, config: &T, trail: &Vec<bool>, last: bool, label: &str)
    ensures
        final(out)@ == old(out)@ + branch_line(config.glyphs(), trail@, last, label@),
{
    let ghost g = config.glyphs();
    let ghost start = out@;
    let mut i: usize = 0;
    while i < trail.len()
        invariant
            g == config.glyphs(),
            i <= trail.len(),
            out@ == start + indent(g, trail@.subrange(0, i as int)),
        decreases trail.len() - i,
    {
        let ghost prev = out@;
        push_column(out, config, trail[i]);
        i = i + 1;
        let ghost done = trail@.subrange(0, i as int);
        assert(done.drop_last() =~= trail@.subrange(0, i - 1));
        assert(done.last() == trail@[i - 1]);
        assert(out@ == prev + column(g, trail@[i - 1]));
        assert(indent(g, done) == indent(g, done.drop_last()) + column(g, done.last()));
        assert(out@ =~= start + indent(g, trail@.subrange(0, i as int)));
    }
    assert(trail@.subrange(0, trail.len() as int) =~= trail@);
    if last {
        out.append(config.last());
    } else {
        out.append(config.join());
    }
    push_repeat(out, config.line(), config.depth());
    out.append(" ");
    out.append(label);
    out.append("\n");
    proof {
        reveal_strlit(" ");
        reveal_strlit("\n");
    }
    assert(out@ =~= start + branch_line(g, trail@, last, label@));
}

impl<D: TreeLabel> Tree<D> {
    /// Appends to `f` the text of this tree drawn with `config`.
    pub fn write<T: TreeConfig>(&self, f: &mut String, config: &T)
        ensures
            final(f)@ == old(f)@ + tree_text(*self, config.glyphs()),
    {
        let ghost start = f@;
        f.append(self.label.label_str());
        f.append("\n");
        proof {
            reveal_strlit("\n");
        }
        let mut spaces: Vec<bool> = Vec::new();
        Self::display_leaves(f, &self.children, &mut spaces, config);
        assert(f@ =~= start + tree_text(*self, config.glyphs()));
    }

    fn display_leaves<T: TreeConfig>(f: &mut String, leaves: &Vec<Tree<D>>, spaces: &mut Vec<bool>, config: &T)
        ensures
            final(f)@ == old(f)@ + leaves_text(config.glyphs(), leaves@, old(spaces)@),
            final(spaces)@ == old(spaces)@,
        decreases leaves@,
    {
        let ghost g = config.glyphs();
        let ghost start = f@;
        let ghost trail = spaces@;
        let n = leaves.len();
        let mut i: usize = 0;
        assert(leaves@.subrange(0, n as int) =~= leaves@);
        while i < n
            invariant
                g == config.glyphs(),
                n == leaves.len(),
                i <= n,
                spaces@ == trail,
                f@ + leaves_text(g, leaves@.subrange(i as int, n as int), trail)
                    == start + leaves_text(g, leaves@, trail),
            decreases n - i,
        {
            let leaf = &leaves[i];
            let last = i == n - 1;
            let ghost rest = leaves@.subrange(i as int, n as int);
            assert(rest[0] == *leaf);
            assert(rest.subrange(1, rest.len() as int) =~= leaves@.subrange(i + 1, n as int));
            assert(leaves_text(g, rest, trail) == branch_line(g, trail, last, leaf.label.text())
                + leaves_text(g, leaf.children@, trail.push(last)) + leaves_text(g, leaves@.subrange(i + 1, n as int), trail));
            let ghost before = f@;
            push_branch_line(f, config, spaces, last, leaf.label.label_str());
            if leaf.children.len() > 0 {
                spaces.push(last);
                proof {
                    assert(decreases_to!(leaves@ => leaves@[i as int]));
                    assert(decreases_to!(leaves@[i as int] => leaves@[i as int].children));
                    assert(decreases_to!(leaves@[i as int].children => leaves@[i as int].children@));
                }
                Self::display_leaves(f, &leaf.children, spaces, config);
                spaces.pop();
                assert(spaces@ =~= trail);
            } else {
                assert(leaf.children@ =~= Seq::<Tree<D>>::empty());
            }
            assert(f@ =~= before + branch_line(g, trail, last, leaf.label.text())
                + leaves_text(g, leaf.children@, trail.push(last)));
            i = i + 1;
            assert(f@ + leaves_text(g, leaves@.subrange(i as int, n as int), trail)
                =~= before + leaves_text(g, rest, trail));
        }
        assert(leaves@.subrange(n as int, n as int) =~= Seq::<Tree<D>>::empty());
        assert(f@ =~= start + leaves_text(g, leaves@, trail));
    }

    /// The text of this tree drawn with `config`.
    pub fn render<T: TreeConfig>(&self, config: &T) -> (r: String)
        ensures
            r@ == tree_text(*self, config.glyphs()),
    {
        let mut out = String::new();
        self.write(&mut out, config);
        out
    }

    /// The text of this tree drawn with `DefaultTreeConfig`.
    pub fn to_string(&self) -> (r: String)
        ensures
            r@ == tree_text(*self, crate::config::default_glyphs()),
    {
        self.render(&DefaultTreeConfig)
    }
}

} // verus!
