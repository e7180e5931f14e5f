//! The glyph set and indentation width that a rendering uses.
use vstd::prelude::*;

verus! {

/// The mathematical content of a configuration: five glyphs and a repeat count.
pub struct Glyphs {
    /// Filler beneath a closed ancestor branch.
    pub space: Seq<char>,
    /// Horizontal connector.
    pub line: Seq<char>,
    /// Marker before the final child of a node.
    pub last: Seq<char>,
    /// Marker before every other child.
    pub join: Seq<char>,
    /// Vertical continuation beneath an open ancestor branch.
    pub bar: Seq<char>,
    /// How many times `space` and `line` are repeated.
    pub depth: nat,
}

/// A source of glyphs for the renderer. Each method hands out one part of
/// `glyphs()`; a configuration cannot change while a tree is drawn with it.
pub trait TreeConfig {
    spec fn glyphs(&self) -> Glyphs;

    fn space(&self) -> (r: &str)
        ensures
            r@ == self.glyphs().space,
    ;

    fn line(&self) -> (r: &str)
        ensures
            r@ == self.glyphs().line,
    ;

    fn last(&self) -> (r: &str)
        ensures
            r@ == self.glyphs().last,
    ;

    fn join(&self) -> (r: &str)
        ensures
            r@ == self.glyphs().join,
    ;

    fn bar(&self) -> (r: &str)
        ensures
            r@ == self.glyphs().bar,
    ;

    fn depth(&self) -> (r: usize)
        ensures
            r as nat == self.glyphs().depth,
    ;
}

/// Box-drawing glyphs, two repeats wide.
pub struct DefaultTreeConfig;

/// The glyph set of `DefaultTreeConfig`.
pub open spec fn default_glyphs() -> Glyphs {
    Glyphs {
        space: seq![' '],
        line: seq!['\u{2500}'],
        last: seq!['\u{2514}'],
        join: seq!['\u{251c}'],
        bar: seq!['\u{2502}'],
        depth: 2,
    }
}

impl TreeConfig for DefaultTreeConfig {
    open spec fn glyphs(&self) -> Glyphs {
        default_glyphs()
    }

    fn space(&self) -> (r: &str) {
        proof {
            reveal_strlit(" ");
        }
        " "
    }

    fn line(&self) -> (r: &str) {
        proof {
            reveal_strlit("\u{2500}");
        }
        "\u{2500}"
    }

    fn last(&self) -> (r: &str) {
        proof {
            reveal_strlit("\u{2514}");
        }
        "\u{2514}"
    }

    fn join(&self) -> (r: &str) {
        proof {
            reveal_strlit("\u{251c}");
        }
        "\u{251c}"
    }

    fn bar(&self) -> (r: &str) {
        proof {
            reveal_strlit("\u{2502}");
        }
        "\u{2502}"
    }

    fn depth(&self) -> (r: usize) {
        2
    }
}

/// A configuration whose glyphs and width are chosen by the caller.
pub struct GlyphConfig {
    pub space: String,
    pub line: String,
    pub last: String,
    pub join: String,
    pub bar: String,
    pub depth: usize,
}

impl TreeConfig for GlyphConfig {
    open spec fn glyphs(&self) -> Glyphs {
        Glyphs {
            space: self.space@,
            line: self.line@,
            last: self.last@,
            join: self.join@,
            bar: self.bar@,
            depth: self.depth as nat,
        }
    }

    fn space(&self) -> (r: &str) {
        self.space.as_str()
    }

    fn line(&self) -> (r: &str) {
        self.line.as_str()
    }

    fn last(&self) -> (r: &str) {
        self.last.as_str()
    }

    fn join(&self) -> (r: &str) {
        self.join.as_str()
    }

    fn bar(&self) -> (r: &str) {
        self.bar.as_str()
    }

    fn depth(&self) -> (r: usize) {
        self.depth
    }
}

} // verus!
