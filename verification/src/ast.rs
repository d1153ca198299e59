//! The document tree: block-level and inline-level nodes, attribute records,
//! and weakly-typed metadata values, together with their mathematical views.
//!
//! Every executable type has a deep view (`AttrsView`, `InlineView`, ...)
//! in which strings become `Seq<char>` and vectors become `Seq`; all
//! contracts in this crate are stated over those views.

use vstd::prelude::*;

verus! {

/// Attribute record carried by containers, spans, code nodes and headers:
/// an identifier, a set of class tags (kept in order, treated as a
/// membership set), and key/value pairs in which duplicate keys are legal
/// (lookup returns the first match).
#[derive(Debug, Clone, PartialEq, Eq)]
pub struct Attrs {
    pub identifier: String,
    pub classes: Vec<String>,
    pub pairs: Vec<(String, String)>,
}

#[derive(Debug, Clone, Copy, PartialEq, Eq)]
pub enum QuoteKind {
    SingleQuote,
    DoubleQuote,
}

#[derive(Debug, Clone, Copy, PartialEq, Eq)]
pub enum MathKind {
    DisplayMath,
    InlineMath,
}

/// Inline-level node kinds: text runs, formatting wrappers around a child
/// sequence, raw fragments, and whitespace/break kinds that contribute a
/// canonical one-character string to text coercion.
#[derive(Debug, PartialEq, Eq)]
pub enum InlineNode {
    Text(String),
    Emph(Vec<InlineNode>),
    Strong(Vec<InlineNode>),
    Strikeout(Vec<InlineNode>),
    Superscript(Vec<InlineNode>),
    Subscript(Vec<InlineNode>),
    SmallCaps(Vec<InlineNode>),
    Quoted(QuoteKind, Vec<InlineNode>),
    Cite,
    Code(Attrs, String),
    Space,
    SoftBreak,
    LineBreak,
    MathText(MathKind, String),
    RawInline(String, String),
    Link(Attrs, Vec<InlineNode>, String),
    Note(Vec<InlineNode>),
    LineBlock(Vec<InlineNode>),
    Span(Attrs, Vec<InlineNode>),
}

/// Block-level node kinds. `Container` is the attributed grouping node the
/// filter policies act on; list and table kinds are treated opaquely by the
/// rest of the crate (passed through, with recursion into block children).
#[derive(Debug, PartialEq, Eq)]
pub enum BlockNode {
    Plain(Vec<InlineNode>),
    Paragraph(Vec<InlineNode>),
    CodeBlock(Attrs, String),
    RawBlock(String, String),
    BlockQuote(Vec<BlockNode>),
    BulletList(Vec<BlockNode>),
    OrderedList(Vec<BlockNode>),
    Header(u32, Attrs, Vec<InlineNode>),
    HorizontalRule,
    TableBlock,
    Container(Attrs, Vec<BlockNode>),
    NullBlock,
}

/// Weakly-typed metadata: strings, booleans, lists, ordered maps, and
/// embedded inline or block runs. Maps are association lists; lookup
/// returns the first entry with the given key.
#[derive(Debug, PartialEq, Eq)]
pub enum MetaValue {
    MetaStr(String),
    MetaBool(bool),
    MetaList(Vec<MetaValue>),
    MetaMap(Vec<(String, MetaValue)>),
    MetaInlines(Vec<InlineNode>),
    MetaBlocks(Vec<BlockNode>),
}

/// A whole document: metadata plus an ordered body of block nodes.
#[derive(Debug, PartialEq, Eq)]
pub struct Document {
    pub meta: Vec<(String, MetaValue)>,
    pub body: Vec<BlockNode>,
}

pub struct AttrsView {
    pub identifier: Seq<char>,
    pub classes: Seq<Seq<char>>,
    pub pairs: Seq<(Seq<char>, Seq<char>)>,
}

pub enum InlineView {
    Text(Seq<char>),
    Emph(Seq<InlineView>),
    Strong(Seq<InlineView>),
    Strikeout(Seq<InlineView>),
    Superscript(Seq<InlineView>),
    Subscript(Seq<InlineView>),
    SmallCaps(Seq<InlineView>),
    Quoted(QuoteKind, Seq<InlineView>),
    Cite,
    Code(AttrsView, Seq<char>),
    Space,
    SoftBreak,
    LineBreak,
    MathText(MathKind, Seq<char>),
    RawInline(Seq<char>, Seq<char>),
    Link(AttrsView, Seq<InlineView>, Seq<char>),
    Note(Seq<InlineView>),
    LineBlock(Seq<InlineView>),
    Span(AttrsView, Seq<InlineView>),
}

pub enum BlockView {
    Plain(Seq<InlineView>),
    Paragraph(Seq<InlineView>),
    CodeBlock(AttrsView, Seq<char>),
    RawBlock(Seq<char>, Seq<char>),
    BlockQuote(Seq<BlockView>),
    BulletList(Seq<BlockView>),
    OrderedList(Seq<BlockView>),
    Header(u32, AttrsView, Seq<InlineView>),
    HorizontalRule,
    TableBlock,
    Container(AttrsView, Seq<BlockView>),
    NullBlock,
}

pub enum MetaValueView {
    MetaStr(Seq<char>),
    MetaBool(bool),
    MetaList(Seq<MetaValueView>),
    MetaMap(Seq<(Seq<char>, MetaValueView)>),
    MetaInlines(Seq<InlineView>),
    MetaBlocks(Seq<BlockView>),
}

pub struct DocumentView {
    pub meta: Seq<(Seq<char>, MetaValueView)>,
    pub body: Seq<BlockView>,
}

pub open spec fn abs_strings(s: Seq<String>) -> Seq<Seq<char>> {
    s.map_values(|x: String| x@)
}

pub open spec fn abs_string_pairs(s: Seq<(String, String)>) -> Seq<(Seq<char>, Seq<char>)> {
    s.map_values(|p: (String, String)| (p.0@, p.1@))
}

pub open spec fn abs_attrs(a: Attrs) -> AttrsView {
    AttrsView {
        identifier: a.identifier@,
        classes: abs_strings(a.classes@),
        pairs: abs_string_pairs(a.pairs@),
    }
}

pub open spec fn abs_inline(i: InlineNode) -> InlineView
    decreases i,
{
    match i {
        InlineNode::Text(s) => InlineView::Text(s@),
        InlineNode::Emph(cs) => InlineView::Emph(abs_inlines(cs@)),
        InlineNode::Strong(cs) => InlineView::Strong(abs_inlines(cs@)),
        InlineNode::Strikeout(cs) => InlineView::Strikeout(abs_inlines(cs@)),
        InlineNode::Superscript(cs) => InlineView::Superscript(abs_inlines(cs@)),
        InlineNode::Subscript(cs) => InlineView::Subscript(abs_inlines(cs@)),
        InlineNode::SmallCaps(cs) => InlineView::SmallCaps(abs_inlines(cs@)),
        InlineNode::Quoted(q, cs) => InlineView::Quoted(q, abs_inlines(cs@)),
        InlineNode::Cite => InlineView::Cite,
        InlineNode::Code(a, s) => InlineView::Code(abs_attrs(a), s@),
        InlineNode::Space => InlineView::Space,
        InlineNode::SoftBreak => InlineView::SoftBreak,
        InlineNode::LineBreak => InlineView::LineBreak,
        InlineNode::MathText(k, s) => InlineView::MathText(k, s@),
        InlineNode::RawInline(f, s) => InlineView::RawInline(f@, s@),
        InlineNode::Link(a, cs, t) => InlineView::Link(abs_attrs(a), abs_inlines(cs@), t@),
        InlineNode::Note(cs) => InlineView::Note(abs_inlines(cs@)),
        InlineNode::LineBlock(cs) => InlineView::LineBlock(abs_inlines(cs@)),
        InlineNode::Span(a, cs) => InlineView::Span(abs_attrs(a), abs_inlines(cs@)),
    }
}

pub open spec fn abs_inlines(s: Seq<InlineNode>) -> Seq<InlineView>
    decreases s,
{
    if s.len() == 0 {
        Seq::empty()
    } else {
        seq![abs_inline(s[0])] + abs_inlines(s.drop_first())
    }
}

pub open spec fn abs_block(b: BlockNode) -> BlockView
    decreases b,
{
    match b {
        BlockNode::Plain(cs) => BlockView::Plain(abs_inlines(cs@)),
        BlockNode::Paragraph(cs) => BlockView::Paragraph(abs_inlines(cs@)),
        BlockNode::CodeBlock(a, s) => BlockView::CodeBlock(abs_attrs(a), s@),
        BlockNode::RawBlock(f, s) => BlockView::RawBlock(f@, s@),
        BlockNode::BlockQuote(cs) => BlockView::BlockQuote(abs_blocks(cs@)),
        BlockNode::BulletList(cs) => BlockView::BulletList(abs_blocks(cs@)),
        BlockNode::OrderedList(cs) => BlockView::OrderedList(abs_blocks(cs@)),
        BlockNode::Header(n, a, cs) => BlockView::Header(n, abs_attrs(a), abs_inlines(cs@)),
        BlockNode::HorizontalRule => BlockView::HorizontalRule,
        BlockNode::TableBlock => BlockView::TableBlock,
        BlockNode::Container(a, cs) => BlockView::Container(abs_attrs(a), abs_blocks(cs@)),
        BlockNode::NullBlock => BlockView::NullBlock,
    }
}

pub open spec fn abs_blocks(s: Seq<BlockNode>) -> Seq<BlockView>
    decreases s,
{
    if s.len() == 0 {
        Seq::empty()
    } else {
        seq![abs_block(s[0])] + abs_blocks(s.drop_first())
    }
}

pub open spec fn abs_meta(m: MetaValue) -> MetaValueView
    decreases m,
{
    match m {
        MetaValue::MetaStr(s) => MetaValueView::MetaStr(s@),
        MetaValue::MetaBool(b) => MetaValueView::MetaBool(b),
        MetaValue::MetaList(vs) => MetaValueView::MetaList(abs_meta_seq(vs@)),
        MetaValue::MetaMap(es) => MetaValueView::MetaMap(abs_meta_map(es@)),
        MetaValue::MetaInlines(cs) => MetaValueView::MetaInlines(abs_inlines(cs@)),
        MetaValue::MetaBlocks(cs) => MetaValueView::MetaBlocks(abs_blocks(cs@)),
    }
}

pub open spec fn abs_meta_seq(s: Seq<MetaValue>) -> Seq<MetaValueView>
    decreases s,
{
    if s.len() == 0 {
        Seq::empty()
    } else {
        seq![abs_meta(s[0])] + abs_meta_seq(s.drop_first())
    }
}

pub open spec fn abs_meta_map(s: Seq<(String, MetaValue)>) -> Seq<(Seq<char>, MetaValueView)>
    decreases s,
{
    if s.len() == 0 {
        Seq::empty()
    } else {
        seq![(s[0].0@, abs_meta(s[0].1))] + abs_meta_map(s.drop_first())
    }
}

pub open spec fn abs_doc(d: Document) -> DocumentView {
    DocumentView { meta: abs_meta_map(d.meta@), body: abs_blocks(d.body@) }
}

impl View for Attrs {
    type V = AttrsView;

    open spec fn view(&self) -> AttrsView {
        abs_attrs(*self)
    }
}

impl View for InlineNode {
    type V = InlineView;

    open spec fn view(&self) -> InlineView {
        abs_inline(*self)
    }
}

impl View for BlockNode {
    type V = BlockView;

    open spec fn view(&self) -> BlockView {
        abs_block(*self)
    }
}

impl View for MetaValue {
    type V = MetaValueView;

    open spec fn view(&self) -> MetaValueView {
        abs_meta(*self)
    }
}

impl View for Document {
    type V = DocumentView;

    open spec fn view(&self) -> DocumentView {
        abs_doc(*self)
    }
}

/// The indexed element of a sequence abstraction: `abs_blocks` maps
/// element `i` to the view of element `i`, and keeps the length.
pub proof fn lemma_abs_blocks_index(s: Seq<BlockNode>, i: int)
    requires
        0 <= i < s.len(),
    ensures
        abs_blocks(s).len() == s.len(),
        abs_blocks(s)[i] == abs_block(s[i]),
    decreases s,
{
    lemma_abs_blocks_len(s);
    if i > 0 {
        lemma_abs_blocks_index(s.drop_first(), i - 1);
    }
}

pub proof fn lemma_abs_blocks_len(s: Seq<BlockNode>)
    ensures
        abs_blocks(s).len() == s.len(),
    decreases s,
{
    if s.len() > 0 {
        lemma_abs_blocks_len(s.drop_first());
    }
}

pub proof fn lemma_abs_inlines_index(s: Seq<InlineNode>, i: int)
    requires
        0 <= i < s.len(),
    ensures
        abs_inlines(s).len() == s.len(),
        abs_inlines(s)[i] == abs_inline(s[i]),
    decreases s,
{
    lemma_abs_inlines_len(s);
    if i > 0 {
        lemma_abs_inlines_index(s.drop_first(), i - 1);
    }
}

pub proof fn lemma_abs_inlines_len(s: Seq<InlineNode>)
    ensures
        abs_inlines(s).len() == s.len(),
    decreases s,
{
    if s.len() > 0 {
        lemma_abs_inlines_len(s.drop_first());
    }
}

/// Abstraction distributes over concatenation of block sequences.
pub proof fn lemma_abs_blocks_concat(a: Seq<BlockNode>, b: Seq<BlockNode>)
    ensures
        abs_blocks(a + b) == abs_blocks(a) + abs_blocks(b),
    decreases a,
{
    if a.len() == 0 {
        assert(a + b =~= b);
        assert(abs_blocks(a) + abs_blocks(b) =~= abs_blocks(b));
    } else {
        assert((a + b).drop_first() =~= a.drop_first() + b);
        lemma_abs_blocks_concat(a.drop_first(), b);
        assert(abs_blocks(a + b) =~= abs_blocks(a) + abs_blocks(b));
    }
}

/// Abstraction distributes over concatenation of inline sequences.
pub proof fn lemma_abs_inlines_concat(a: Seq<InlineNode>, b: Seq<InlineNode>)
    ensures
        abs_inlines(a + b) == abs_inlines(a) + abs_inlines(b),
    decreases a,
{
    if a.len() == 0 {
        assert(a + b =~= b);
        assert(abs_inlines(a) + abs_inlines(b) =~= abs_inlines(b));
    } else {
        assert((a + b).drop_first() =~= a.drop_first() + b);
        lemma_abs_inlines_concat(a.drop_first(), b);
        assert(abs_inlines(a + b) =~= abs_inlines(a) + abs_inlines(b));
    }
}


pub proof fn lemma_abs_meta_seq_len(s: Seq<MetaValue>)
    ensures
        abs_meta_seq(s).len() == s.len(),
    decreases s,
{
    if s.len() > 0 {
        lemma_abs_meta_seq_len(s.drop_first());
    }
}

pub proof fn lemma_abs_meta_seq_index(s: Seq<MetaValue>, i: int)
    requires
        0 <= i < s.len(),
    ensures
        abs_meta_seq(s).len() == s.len(),
        abs_meta_seq(s)[i] == abs_meta(s[i]),
    decreases s,
{
    lemma_abs_meta_seq_len(s);
    if i > 0 {
        lemma_abs_meta_seq_index(s.drop_first(), i - 1);
    }
}

pub proof fn lemma_abs_meta_map_len(s: Seq<(String, MetaValue)>)
    ensures
        abs_meta_map(s).len() == s.len(),
    decreases s,
{
    if s.len() > 0 {
        lemma_abs_meta_map_len(s.drop_first());
    }
}

pub proof fn lemma_abs_meta_map_index(s: Seq<(String, MetaValue)>, i: int)
    requires
        0 <= i < s.len(),
    ensures
        abs_meta_map(s).len() == s.len(),
        abs_meta_map(s)[i] == (s[i].0@, abs_meta(s[i].1)),
    decreases s,
{
    lemma_abs_meta_map_len(s);
    if i > 0 {
        lemma_abs_meta_map_index(s.drop_first(), i - 1);
    }
}

} // verus!
