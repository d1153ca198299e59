//! The generic walk engine: an order-preserving, depth-first,
//! bottom-up traversal that applies a node-to-sequence rewrite rule at
//! every node of a chosen level and splices the results in place.
//!
//! A rule maps one node to zero, one or many replacement nodes; the rule
//! receives each node with its children already rewritten. Deletion,
//! identity and expansion are all the same operation at the type level.

use vstd::prelude::*;
use crate::ast::{
    abs_block, abs_blocks, abs_inline, abs_inlines, lemma_abs_blocks_concat,
    lemma_abs_blocks_index, lemma_abs_blocks_len, lemma_abs_inlines_concat,
    lemma_abs_inlines_index, lemma_abs_inlines_len, BlockNode, BlockView, Document,
    InlineNode, InlineView,
};

verus! {

/// A block-level rewrite rule: `block_rule` is its meaning on views, and
/// `apply` the executable rewrite proved to realize that meaning.
pub trait BlockRule: Sized {
    spec fn block_rule(&self, b: BlockView) -> Seq<BlockView>;

    fn apply(&self, b: BlockNode) -> (r: Vec<BlockNode>)
        ensures
            abs_blocks(r@) == self.block_rule(abs_block(b)),
    ;
}

/// An inline-level rewrite rule.
pub trait InlineRule: Sized {
    spec fn inline_rule(&self, i: InlineView) -> Seq<InlineView>;

    fn apply(&self, i: InlineNode) -> (r: Vec<InlineNode>)
        ensures
            abs_inlines(r@) == self.inline_rule(abs_inline(i)),
    ;
}

/// One block node rewritten: its block children are walked first, then
/// the rule is applied to the rebuilt node.
pub open spec fn spec_walk_block<R: BlockRule>(r: R, b: BlockView) -> Seq<BlockView>
    decreases b,
{
    r.block_rule(
        match b {
            BlockView::Container(a, cs) => BlockView::Container(a, spec_walk_blocks(r, cs)),
            BlockView::BlockQuote(cs) => BlockView::BlockQuote(spec_walk_blocks(r, cs)),
            BlockView::BulletList(cs) => BlockView::BulletList(spec_walk_blocks(r, cs)),
            BlockView::OrderedList(cs) => BlockView::OrderedList(spec_walk_blocks(r, cs)),
            other => other,
        },
    )
}

/// A block sequence rewritten: each node's replacement sequence spliced
/// in place, all other siblings kept in order.
pub open spec fn spec_walk_blocks<R: BlockRule>(r: R, s: Seq<BlockView>) -> Seq<BlockView>
    decreases s,
{
    if s.len() == 0 {
        Seq::empty()
    } else {
        spec_walk_block(r, s[0]) + spec_walk_blocks(r, s.drop_first())
    }
}

/// Walks a sequence of sibling block nodes bottom-up with the given rule.
pub fn walk_blocks<R: BlockRule>(r: &R, mut v: Vec<BlockNode>) -> (out: Vec<BlockNode>)
    ensures
        abs_blocks(out@) == spec_walk_blocks(*r, abs_blocks(v@)),
    decreases v@,
{
    if v.len() == 0 {
        let out: Vec<BlockNode> = Vec::new();
        proof {
            assert(abs_blocks(out@) =~= Seq::<BlockView>::empty());
            assert(abs_blocks(v@) =~= Seq::<BlockView>::empty());
        }
        out
    } else {
        let ghost orig = v@;
        let b = v.remove(0);
        let mut out = walk_block(r, b);
        let mut rest = walk_blocks(r, v);
        proof {
            assert(orig.remove(0) =~= orig.drop_first());
            lemma_abs_blocks_len(orig);
            lemma_abs_blocks_index(orig, 0);
            assert(abs_blocks(orig).drop_first() =~= abs_blocks(orig.drop_first()));
            lemma_abs_blocks_concat(out@, rest@);
        }
        out.append(&mut rest);
        out
    }
}

/// Walks one block node bottom-up with the given rule.
pub fn walk_block<R: BlockRule>(r: &R, b: BlockNode) -> (out: Vec<BlockNode>)
    ensures
        abs_blocks(out@) == spec_walk_block(*r, abs_block(b)),
    decreases b,
{
    match b {
        BlockNode::Container(a, cs) => {
            let w = walk_blocks(r, cs);
            r.apply(BlockNode::Container(a, w))
        },
        BlockNode::BlockQuote(cs) => {
            let w = walk_blocks(r, cs);
            r.apply(BlockNode::BlockQuote(w))
        },
        BlockNode::BulletList(cs) => {
            let w = walk_blocks(r, cs);
            r.apply(BlockNode::BulletList(w))
        },
        BlockNode::OrderedList(cs) => {
            let w = walk_blocks(r, cs);
            r.apply(BlockNode::OrderedList(w))
        },
        other => r.apply(other),
    }
}

/// Walks a whole document at the block level; metadata is untouched.
pub fn walk_document<R: BlockRule>(r: &R, doc: Document) -> (out: Document)
    ensures
        out@.meta == doc@.meta,
        out@.body == spec_walk_blocks(*r, doc@.body),
{
    let body = walk_blocks(r, doc.body);
    Document { meta: doc.meta, body }
}

/// One inline node rewritten: wrapper kinds walk their child sequence
/// first, then the rule is applied to the rebuilt node.
pub open spec fn spec_walk_inline<R: InlineRule>(r: R, i: InlineView) -> Seq<InlineView>
    decreases i,
{
    r.inline_rule(
        match i {
            InlineView::Emph(cs) => InlineView::Emph(spec_walk_inlines(r, cs)),
            InlineView::Strong(cs) => InlineView::Strong(spec_walk_inlines(r, cs)),
            InlineView::Strikeout(cs) => InlineView::Strikeout(spec_walk_inlines(r, cs)),
            InlineView::Superscript(cs) => InlineView::Superscript(spec_walk_inlines(r, cs)),
            InlineView::Subscript(cs) => InlineView::Subscript(spec_walk_inlines(r, cs)),
            InlineView::SmallCaps(cs) => InlineView::SmallCaps(spec_walk_inlines(r, cs)),
            InlineView::Quoted(q, cs) => InlineView::Quoted(q, spec_walk_inlines(r, cs)),
            InlineView::Link(a, cs, t) => InlineView::Link(a, spec_walk_inlines(r, cs), t),
            InlineView::Note(cs) => InlineView::Note(spec_walk_inlines(r, cs)),
            InlineView::LineBlock(cs) => InlineView::LineBlock(spec_walk_inlines(r, cs)),
            InlineView::Span(a, cs) => InlineView::Span(a, spec_walk_inlines(r, cs)),
            other => other,
        },
    )
}

/// An inline sequence rewritten, replacements spliced in order.
pub open spec fn spec_walk_inlines<R: InlineRule>(r: R, s: Seq<InlineView>) -> Seq<InlineView>
    decreases s,
{
    if s.len() == 0 {
        Seq::empty()
    } else {
        spec_walk_inline(r, s[0]) + spec_walk_inlines(r, s.drop_first())
    }
}

/// One block node with every inline run inside it rewritten; the block
/// structure itself is kept one-to-one.
pub open spec fn spec_inline_walk_block<R: InlineRule>(r: R, b: BlockView) -> BlockView
    decreases b,
{
    match b {
        BlockView::Plain(cs) => BlockView::Plain(spec_walk_inlines(r, cs)),
        BlockView::Paragraph(cs) => BlockView::Paragraph(spec_walk_inlines(r, cs)),
        BlockView::Header(n, a, cs) => BlockView::Header(n, a, spec_walk_inlines(r, cs)),
        BlockView::Container(a, cs) => BlockView::Container(a, spec_inline_walk_blocks(r, cs)),
        BlockView::BlockQuote(cs) => BlockView::BlockQuote(spec_inline_walk_blocks(r, cs)),
        BlockView::BulletList(cs) => BlockView::BulletList(spec_inline_walk_blocks(r, cs)),
        BlockView::OrderedList(cs) => BlockView::OrderedList(spec_inline_walk_blocks(r, cs)),
        other => other,
    }
}

/// A block sequence with every inline run inside it rewritten.
pub open spec fn spec_inline_walk_blocks<R: InlineRule>(r: R, s: Seq<BlockView>) -> Seq<BlockView>
    decreases s,
{
    if s.len() == 0 {
        Seq::empty()
    } else {
        seq![spec_inline_walk_block(r, s[0])] + spec_inline_walk_blocks(r, s.drop_first())
    }
}

/// Walks a sequence of sibling inline nodes bottom-up with the given rule.
pub fn walk_inlines<R: InlineRule>(r: &R, mut v: Vec<InlineNode>) -> (out: Vec<InlineNode>)
    ensures
        abs_inlines(out@) == spec_walk_inlines(*r, abs_inlines(v@)),
    decreases v@,
{
    if v.len() == 0 {
        let out: Vec<InlineNode> = Vec::new();
        proof {
            assert(abs_inlines(out@) =~= Seq::<InlineView>::empty());
            assert(abs_inlines(v@) =~= Seq::<InlineView>::empty());
        }
        out
    } else {
        let ghost orig = v@;
        let i = v.remove(0);
        let mut out = walk_inline(r, i);
        let mut rest = walk_inlines(r, v);
        proof {
            assert(orig.remove(0) =~= orig.drop_first());
            lemma_abs_inlines_len(orig);
            lemma_abs_inlines_index(orig, 0);
            assert(abs_inlines(orig).drop_first() =~= abs_inlines(orig.drop_first()));
            lemma_abs_inlines_concat(out@, rest@);
        }
        out.append(&mut rest);
        out
    }
}

/// Walks one inline node bottom-up with the given rule.
pub fn walk_inline<R: InlineRule>(r: &R, i: InlineNode) -> (out: Vec<InlineNode>)
    ensures
        abs_inlines(out@) == spec_walk_inline(*r, abs_inline(i)),
    decreases i,
{
    match i {
        InlineNode::Emph(cs) => {
            let w = walk_inlines(r, cs);
            r.apply(InlineNode::Emph(w))
        },
        InlineNode::Strong(cs) => {
            let w = walk_inlines(r, cs);
            r.apply(InlineNode::Strong(w))
        },
        InlineNode::Strikeout(cs) => {
            let w = walk_inlines(r, cs);
            r.apply(InlineNode::Strikeout(w))
        },
        InlineNode::Superscript(cs) => {
            let w = walk_inlines(r, cs);
            r.apply(InlineNode::Superscript(w))
        },
        InlineNode::Subscript(cs) => {
            let w = walk_inlines(r, cs);
            r.apply(InlineNode::Subscript(w))
        },
        InlineNode::SmallCaps(cs) => {
            let w = walk_inlines(r, cs);
            r.apply(InlineNode::SmallCaps(w))
        },
        InlineNode::Quoted(q, cs) => {
            let w = walk_inlines(r, cs);
            r.apply(InlineNode::Quoted(q, w))
        },
        InlineNode::Link(a, cs, t) => {
            let w = walk_inlines(r, cs);
            r.apply(InlineNode::Link(a, w, t))
        },
        InlineNode::Note(cs) => {
            let w = walk_inlines(r, cs);
            r.apply(InlineNode::Note(w))
        },
        InlineNode::LineBlock(cs) => {
            let w = walk_inlines(r, cs);
            r.apply(InlineNode::LineBlock(w))
        },
        InlineNode::Span(a, cs) => {
            let w = walk_inlines(r, cs);
            r.apply(InlineNode::Span(a, w))
        },
        other => r.apply(other),
    }
}

/// Applies an inline rule to every inline run inside a block sequence.
pub fn inline_walk_blocks<R: InlineRule>(r: &R, mut v: Vec<BlockNode>) -> (out: Vec<BlockNode>)
    ensures
        abs_blocks(out@) == spec_inline_walk_blocks(*r, abs_blocks(v@)),
    decreases v@,
{
    if v.len() == 0 {
        let out: Vec<BlockNode> = Vec::new();
        proof {
            assert(abs_blocks(out@) =~= Seq::<BlockView>::empty());
            assert(abs_blocks(v@) =~= Seq::<BlockView>::empty());
        }
        out
    } else {
        let ghost orig = v@;
        let b = v.remove(0);
        let w = inline_walk_block(r, b);
        let mut rest = inline_walk_blocks(r, v);
        proof {
            assert(orig.remove(0) =~= orig.drop_first());
            lemma_abs_blocks_len(orig);
            lemma_abs_blocks_index(orig, 0);
            assert(abs_blocks(orig).drop_first() =~= abs_blocks(orig.drop_first()));
        }
        let mut out: Vec<BlockNode> = Vec::new();
        out.push(w);
        proof {
            assert(out@ =~= seq![w]);
            assert(seq![w].drop_first() =~= Seq::<BlockNode>::empty());
            assert(abs_blocks(Seq::<BlockNode>::empty()) == Seq::<BlockView>::empty());
            assert(abs_blocks(seq![w]) =~= seq![abs_block(w)]);
            lemma_abs_blocks_concat(seq![w], rest@);
        }
        out.append(&mut rest);
        out
    }
}

/// Applies an inline rule to every inline run inside one block node.
pub fn inline_walk_block<R: InlineRule>(r: &R, b: BlockNode) -> (out: BlockNode)
    ensures
        abs_block(out) == spec_inline_walk_block(*r, abs_block(b)),
    decreases b,
{
    match b {
        BlockNode::Plain(cs) => BlockNode::Plain(walk_inlines(r, cs)),
        BlockNode::Paragraph(cs) => BlockNode::Paragraph(walk_inlines(r, cs)),
        BlockNode::Header(n, a, cs) => BlockNode::Header(n, a, walk_inlines(r, cs)),
        BlockNode::Container(a, cs) => BlockNode::Container(a, inline_walk_blocks(r, cs)),
        BlockNode::BlockQuote(cs) => BlockNode::BlockQuote(inline_walk_blocks(r, cs)),
        BlockNode::BulletList(cs) => BlockNode::BulletList(inline_walk_blocks(r, cs)),
        BlockNode::OrderedList(cs) => BlockNode::OrderedList(inline_walk_blocks(r, cs)),
        other => other,
    }
}

/// Walks a whole document at the inline level; metadata is untouched.
pub fn walk_document_inlines<R: InlineRule>(r: &R, doc: Document) -> (out: Document)
    ensures
        out@.meta == doc@.meta,
        out@.body == spec_inline_walk_blocks(*r, doc@.body),
{
    let body = inline_walk_blocks(r, doc.body);
    Document { meta: doc.meta, body }
}

/// Order preservation: a block rule that never matches — one that maps
/// every node to itself alone — rewrites every node sequence to itself;
/// sibling order and node count are untouched at every nesting level.
pub proof fn lemma_block_walk_identity<R: BlockRule>(r: R, b: BlockView)
    requires
        forall|x: BlockView| #[trigger] r.block_rule(x) == seq![x],
    ensures
        spec_walk_block(r, b) == seq![b],
    decreases b,
{
    match b {
        BlockView::Container(a, cs) => {
            lemma_block_walk_identity_seq(r, cs);
        },
        BlockView::BlockQuote(cs) => {
            lemma_block_walk_identity_seq(r, cs);
        },
        BlockView::BulletList(cs) => {
            lemma_block_walk_identity_seq(r, cs);
        },
        BlockView::OrderedList(cs) => {
            lemma_block_walk_identity_seq(r, cs);
        },
        _ => {},
    }
}

/// Order preservation over sequences, for a never-matching block rule.
pub proof fn lemma_block_walk_identity_seq<R: BlockRule>(r: R, s: Seq<BlockView>)
    requires
        forall|x: BlockView| #[trigger] r.block_rule(x) == seq![x],
    ensures
        spec_walk_blocks(r, s) == s,
    decreases s,
{
    if s.len() == 0 {
        assert(spec_walk_blocks(r, s) =~= s);
    } else {
        lemma_block_walk_identity(r, s[0]);
        lemma_block_walk_identity_seq(r, s.drop_first());
        assert(seq![s[0]] + s.drop_first() =~= s);
    }
}

/// Order preservation for the inline engine: a never-matching inline rule
/// leaves every inline sequence exactly as it was.
pub proof fn lemma_inline_walk_identity<R: InlineRule>(r: R, i: InlineView)
    requires
        forall|x: InlineView| #[trigger] r.inline_rule(x) == seq![x],
    ensures
        spec_walk_inline(r, i) == seq![i],
    decreases i,
{
    match i {
        InlineView::Emph(cs) => lemma_inline_walk_identity_seq(r, cs),
        InlineView::Strong(cs) => lemma_inline_walk_identity_seq(r, cs),
        InlineView::Strikeout(cs) => lemma_inline_walk_identity_seq(r, cs),
        InlineView::Superscript(cs) => lemma_inline_walk_identity_seq(r, cs),
        InlineView::Subscript(cs) => lemma_inline_walk_identity_seq(r, cs),
        InlineView::SmallCaps(cs) => lemma_inline_walk_identity_seq(r, cs),
        InlineView::Quoted(_, cs) => lemma_inline_walk_identity_seq(r, cs),
        InlineView::Link(_, cs, _) => lemma_inline_walk_identity_seq(r, cs),
        InlineView::Note(cs) => lemma_inline_walk_identity_seq(r, cs),
        InlineView::LineBlock(cs) => lemma_inline_walk_identity_seq(r, cs),
        InlineView::Span(_, cs) => lemma_inline_walk_identity_seq(r, cs),
        _ => {},
    }
}

/// Order preservation over sequences, for a never-matching inline rule.
pub proof fn lemma_inline_walk_identity_seq<R: InlineRule>(r: R, s: Seq<InlineView>)
    requires
        forall|x: InlineView| #[trigger] r.inline_rule(x) == seq![x],
    ensures
        spec_walk_inlines(r, s) == s,
    decreases s,
{
    if s.len() == 0 {
        assert(spec_walk_inlines(r, s) =~= s);
    } else {
        lemma_inline_walk_identity(r, s[0]);
        lemma_inline_walk_identity_seq(r, s.drop_first());
        assert(seq![s[0]] + s.drop_first() =~= s);
    }
}

/// A never-matching inline rule leaves every block node — and so the
/// whole document body — exactly as it was, at every nesting level.
pub proof fn lemma_inline_walk_block_identity<R: InlineRule>(r: R, b: BlockView)
    requires
        forall|x: InlineView| #[trigger] r.inline_rule(x) == seq![x],
    ensures
        spec_inline_walk_block(r, b) == b,
    decreases b,
{
    match b {
        BlockView::Plain(cs) => lemma_inline_walk_identity_seq(r, cs),
        BlockView::Paragraph(cs) => lemma_inline_walk_identity_seq(r, cs),
        BlockView::Header(_, _, cs) => lemma_inline_walk_identity_seq(r, cs),
        BlockView::Container(_, cs) => lemma_inline_walk_blocks_identity(r, cs),
        BlockView::BlockQuote(cs) => lemma_inline_walk_blocks_identity(r, cs),
        BlockView::BulletList(cs) => lemma_inline_walk_blocks_identity(r, cs),
        BlockView::OrderedList(cs) => lemma_inline_walk_blocks_identity(r, cs),
        _ => {},
    }
}

/// Sequence form of the preceding lemma.
pub proof fn lemma_inline_walk_blocks_identity<R: InlineRule>(r: R, s: Seq<BlockView>)
    requires
        forall|x: InlineView| #[trigger] r.inline_rule(x) == seq![x],
    ensures
        spec_inline_walk_blocks(r, s) == s,
    decreases s,
{
    if s.len() == 0 {
        assert(spec_inline_walk_blocks(r, s) =~= s);
    } else {
        lemma_inline_walk_block_identity(r, s[0]);
        lemma_inline_walk_blocks_identity(r, s.drop_first());
        assert(seq![s[0]] + s.drop_first() =~= s);
    }
}

} // verus!
