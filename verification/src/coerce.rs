//! The text-coercion engine: a structural fold reducing any node or
//! metadata value (and sequences of them) to an optional flat string.
//!
//! "No value" and "empty string" are distinct results: a sequence whose
//! items all coerce to nothing yields no value, while an item that coerces
//! to the empty string makes the sequence coerce to a (possibly empty)
//! string. Downstream extraction uses "no value" to skip entries entirely.

use vstd::prelude::*;
use vstd::string::StringExecFns;
use crate::ast::{
    abs_blocks, abs_inlines, abs_meta_map, abs_meta_seq, BlockNode, BlockView, InlineNode,
    InlineView, MetaValue, MetaValueView,
};

verus! {

/// View of an optional owned string.
pub open spec fn opt_view(r: Option<String>) -> Option<Seq<char>> {
    match r {
        Some(s) => Some(s@),
        None => None,
    }
}

/// How the coercions of two adjacent pieces combine: absent pieces
/// contribute nothing (not even an empty string), present pieces
/// concatenate.
pub open spec fn opt_concat(a: Option<Seq<char>>, b: Option<Seq<char>>) -> Option<Seq<char>> {
    match (a, b) {
        (Option::None, r) => r,
        (Option::Some(x), Option::None) => Some(x),
        (Option::Some(x), Option::Some(y)) => Some(x + y),
    }
}

/// Coercion of one inline node.
pub open spec fn spec_coerce_inline(i: InlineView) -> Option<Seq<char>>
    decreases i,
{
    match i {
        InlineView::Text(s) => Some(s),
        InlineView::Emph(cs) => spec_coerce_inlines(cs),
        InlineView::Strong(cs) => spec_coerce_inlines(cs),
        InlineView::Strikeout(cs) => spec_coerce_inlines(cs),
        InlineView::Superscript(cs) => spec_coerce_inlines(cs),
        InlineView::Subscript(cs) => spec_coerce_inlines(cs),
        InlineView::SmallCaps(cs) => spec_coerce_inlines(cs),
        InlineView::Quoted(_, cs) => spec_coerce_inlines(cs),
        InlineView::Cite => None,
        InlineView::Code(_, s) => Some(s),
        InlineView::Space => Some(" "@),
        InlineView::SoftBreak => Some(" "@),
        InlineView::LineBreak => Some("\n"@),
        InlineView::MathText(_, s) => Some(s),
        InlineView::RawInline(_, s) => Some(s),
        InlineView::Link(_, cs, _) => spec_coerce_inlines(cs),
        InlineView::Note(cs) => spec_coerce_inlines(cs),
        InlineView::LineBlock(cs) => spec_coerce_inlines(cs),
        InlineView::Span(_, cs) => spec_coerce_inlines(cs),
    }
}

/// Coercion of a sequence of inline nodes.
pub open spec fn spec_coerce_inlines(s: Seq<InlineView>) -> Option<Seq<char>>
    decreases s,
{
    if s.len() == 0 {
        None
    } else {
        opt_concat(spec_coerce_inline(s[0]), spec_coerce_inlines(s.drop_first()))
    }
}

/// Coercion of one block node. List-like, table, rule and null kinds have
/// no textual content.
pub open spec fn spec_coerce_block(b: BlockView) -> Option<Seq<char>>
    decreases b,
{
    match b {
        BlockView::Plain(cs) => spec_coerce_inlines(cs),
        BlockView::Paragraph(cs) => spec_coerce_inlines(cs),
        BlockView::CodeBlock(_, s) => Some(s),
        BlockView::RawBlock(_, s) => Some(s),
        BlockView::BlockQuote(cs) => spec_coerce_blocks(cs),
        BlockView::BulletList(_) => None,
        BlockView::OrderedList(_) => None,
        BlockView::Header(_, _, cs) => spec_coerce_inlines(cs),
        BlockView::HorizontalRule => None,
        BlockView::TableBlock => None,
        BlockView::Container(_, cs) => spec_coerce_blocks(cs),
        BlockView::NullBlock => None,
    }
}

/// Coercion of a sequence of block nodes.
pub open spec fn spec_coerce_blocks(s: Seq<BlockView>) -> Option<Seq<char>>
    decreases s,
{
    if s.len() == 0 {
        None
    } else {
        opt_concat(spec_coerce_block(s[0]), spec_coerce_blocks(s.drop_first()))
    }
}

/// Coercion of one metadata value. Booleans always coerce to their textual
/// form; map keys are discarded and only the values contribute.
pub open spec fn spec_coerce_meta(m: MetaValueView) -> Option<Seq<char>>
    decreases m,
{
    match m {
        MetaValueView::MetaStr(s) => Some(s),
        MetaValueView::MetaBool(b) => Some(
            if b {
                "true"@
            } else {
                "false"@
            },
        ),
        MetaValueView::MetaList(vs) => spec_coerce_meta_seq(vs),
        MetaValueView::MetaMap(es) => spec_coerce_meta_entries(es),
        MetaValueView::MetaInlines(cs) => spec_coerce_inlines(cs),
        MetaValueView::MetaBlocks(cs) => spec_coerce_blocks(cs),
    }
}

/// Coercion of a sequence of metadata values.
pub open spec fn spec_coerce_meta_seq(s: Seq<MetaValueView>) -> Option<Seq<char>>
    decreases s,
{
    if s.len() == 0 {
        None
    } else {
        opt_concat(spec_coerce_meta(s[0]), spec_coerce_meta_seq(s.drop_first()))
    }
}

/// Coercion of the values of a metadata map, in entry order.
pub open spec fn spec_coerce_meta_entries(s: Seq<(Seq<char>, MetaValueView)>) -> Option<Seq<char>>
    decreases s,
{
    if s.len() == 0 {
        None
    } else {
        opt_concat(spec_coerce_meta(s[0].1), spec_coerce_meta_entries(s.drop_first()))
    }
}

/// Coercing a boolean always yields a present string, never absence.
pub proof fn lemma_bool_coercion_total(b: bool)
    ensures
        spec_coerce_meta(MetaValueView::MetaBool(b)) is Some,
{
}

/// `opt_concat` is associative.
proof fn lemma_opt_concat_assoc(a: Option<Seq<char>>, b: Option<Seq<char>>, c: Option<Seq<char>>)
    ensures
        opt_concat(opt_concat(a, b), c) == opt_concat(a, opt_concat(b, c)),
{
    match (a, b, c) {
        (Option::Some(x), Option::Some(y), Option::Some(z)) => {
            assert((x + y) + z =~= x + (y + z));
        },
        _ => {},
    }
}

/// Sequence coercion splits over concatenation.
pub proof fn lemma_coerce_inlines_concat(a: Seq<InlineView>, b: Seq<InlineView>)
    ensures
        spec_coerce_inlines(a + b) == opt_concat(spec_coerce_inlines(a), spec_coerce_inlines(b)),
    decreases a,
{
    if a.len() == 0 {
        assert(a + b =~= b);
    } else {
        assert((a + b).drop_first() =~= a.drop_first() + b);
        assert((a + b)[0] == a[0]);
        lemma_coerce_inlines_concat(a.drop_first(), b);
        lemma_opt_concat_assoc(
            spec_coerce_inline(a[0]),
            spec_coerce_inlines(a.drop_first()),
            spec_coerce_inlines(b),
        );
    }
}

/// Sequence coercion splits over concatenation.
pub proof fn lemma_coerce_blocks_concat(a: Seq<BlockView>, b: Seq<BlockView>)
    ensures
        spec_coerce_blocks(a + b) == opt_concat(spec_coerce_blocks(a), spec_coerce_blocks(b)),
    decreases a,
{
    if a.len() == 0 {
        assert(a + b =~= b);
    } else {
        assert((a + b).drop_first() =~= a.drop_first() + b);
        assert((a + b)[0] == a[0]);
        lemma_coerce_blocks_concat(a.drop_first(), b);
        lemma_opt_concat_assoc(
            spec_coerce_block(a[0]),
            spec_coerce_blocks(a.drop_first()),
            spec_coerce_blocks(b),
        );
    }
}

/// Sequence coercion splits over concatenation.
pub proof fn lemma_coerce_meta_seq_concat(a: Seq<MetaValueView>, b: Seq<MetaValueView>)
    ensures
        spec_coerce_meta_seq(a + b) == opt_concat(spec_coerce_meta_seq(a), spec_coerce_meta_seq(b)),
    decreases a,
{
    if a.len() == 0 {
        assert(a + b =~= b);
    } else {
        assert((a + b).drop_first() =~= a.drop_first() + b);
        assert((a + b)[0] == a[0]);
        lemma_coerce_meta_seq_concat(a.drop_first(), b);
        lemma_opt_concat_assoc(
            spec_coerce_meta(a[0]),
            spec_coerce_meta_seq(a.drop_first()),
            spec_coerce_meta_seq(b),
        );
    }
}

/// Entry coercion splits over concatenation.
pub proof fn lemma_coerce_meta_entries_concat(
    a: Seq<(Seq<char>, MetaValueView)>,
    b: Seq<(Seq<char>, MetaValueView)>,
)
    ensures
        spec_coerce_meta_entries(a + b) == opt_concat(
            spec_coerce_meta_entries(a),
            spec_coerce_meta_entries(b),
        ),
    decreases a,
{
    if a.len() == 0 {
        assert(a + b =~= b);
    } else {
        assert((a + b).drop_first() =~= a.drop_first() + b);
        assert((a + b)[0] == a[0]);
        lemma_coerce_meta_entries_concat(a.drop_first(), b);
        lemma_opt_concat_assoc(
            spec_coerce_meta(a[0].1),
            spec_coerce_meta_entries(a.drop_first()),
            spec_coerce_meta_entries(b),
        );
    }
}

/// Combines two partial coercion results.
fn opt_join(a: Option<String>, b: Option<String>) -> (r: Option<String>)
    ensures
        opt_view(r) == opt_concat(opt_view(a), opt_view(b)),
{
    match (a, b) {
        (Option::None, rest) => rest,
        (Option::Some(x), Option::None) => Some(x),
        (Option::Some(mut x), Option::Some(y)) => {
            x.append(y.as_str());
            Some(x)
        },
    }
}

impl InlineNode {
    /// Flattened text of one inline node, if it has any.
    pub fn to_string_or_none(&self) -> (r: Option<String>)
        ensures
            opt_view(r) == spec_coerce_inline(self@),
        decreases *self,
    {
        match self {
            InlineNode::Text(s) => Some(s.clone()),
            InlineNode::Emph(cs) => inlines_to_string_or_none(cs),
            InlineNode::Strong(cs) => inlines_to_string_or_none(cs),
            InlineNode::Strikeout(cs) => inlines_to_string_or_none(cs),
            InlineNode::Superscript(cs) => inlines_to_string_or_none(cs),
            InlineNode::Subscript(cs) => inlines_to_string_or_none(cs),
            InlineNode::SmallCaps(cs) => inlines_to_string_or_none(cs),
            InlineNode::Quoted(_, cs) => inlines_to_string_or_none(cs),
            InlineNode::Cite => None,
            InlineNode::Code(_, s) => Some(s.clone()),
            InlineNode::Space => Some(" ".to_owned()),
            InlineNode::SoftBreak => Some(" ".to_owned()),
            InlineNode::LineBreak => Some("\n".to_owned()),
            InlineNode::MathText(_, s) => Some(s.clone()),
            InlineNode::RawInline(_, s) => Some(s.clone()),
            InlineNode::Link(_, cs, _) => inlines_to_string_or_none(cs),
            InlineNode::Note(cs) => inlines_to_string_or_none(cs),
            InlineNode::LineBlock(cs) => inlines_to_string_or_none(cs),
            InlineNode::Span(_, cs) => inlines_to_string_or_none(cs),
        }
    }
}

/// Flattened text of a sequence of inline nodes: the concatenation of the
/// present coercions, or nothing when every item coerces to nothing.
pub fn inlines_to_string_or_none(v: &Vec<InlineNode>) -> (r: Option<String>)
    ensures
        opt_view(r) == spec_coerce_inlines(abs_inlines(v@)),
    decreases v@,
{
    let n = v.len();
    let mut acc: Option<String> = None;
    let mut i: usize = 0;
    while i < n
        invariant
            0 <= i <= n,
            n == v.len(),
            opt_view(acc) == spec_coerce_inlines(abs_inlines(v@.take(i as int))),
        decreases n - i,
    {
        let c = v[i].to_string_or_none();
        proof {
            assert(v@.take(i + 1 as int) =~= v@.take(i as int) + seq![v@[i as int]]);
            crate::ast::lemma_abs_inlines_concat(v@.take(i as int), seq![v@[i as int]]);
            assert(seq![v@[i as int]].drop_first() =~= Seq::<InlineNode>::empty());
            assert(abs_inlines(Seq::<InlineNode>::empty()) == Seq::<InlineView>::empty());
            assert(spec_coerce_inlines(Seq::<InlineView>::empty()) == None::<Seq<char>>);
            assert(abs_inlines(seq![v@[i as int]]) =~= seq![
                crate::ast::abs_inline(v@[i as int]),
            ]);
            assert(seq![crate::ast::abs_inline(v@[i as int])].drop_first() =~= Seq::<
                InlineView,
            >::empty());
            lemma_coerce_inlines_concat(
                abs_inlines(v@.take(i as int)),
                seq![crate::ast::abs_inline(v@[i as int])],
            );
        }
        acc = opt_join(acc, c);
        i += 1;
    }
    proof {
        assert(v@.take(n as int) =~= v@);
    }
    acc
}

impl BlockNode {
    /// Flattened text of one block node, if it has any.
    pub fn to_string_or_none(&self) -> (r: Option<String>)
        ensures
            opt_view(r) == spec_coerce_block(self@),
        decreases *self,
    {
        match self {
            BlockNode::Plain(cs) => inlines_to_string_or_none(cs),
            BlockNode::Paragraph(cs) => inlines_to_string_or_none(cs),
            BlockNode::CodeBlock(_, s) => Some(s.clone()),
            BlockNode::RawBlock(_, s) => Some(s.clone()),
            BlockNode::BlockQuote(cs) => blocks_to_string_or_none(cs),
            BlockNode::BulletList(_) => None,
            BlockNode::OrderedList(_) => None,
            BlockNode::Header(_, _, cs) => inlines_to_string_or_none(cs),
            BlockNode::HorizontalRule => None,
            BlockNode::TableBlock => None,
            BlockNode::Container(_, cs) => blocks_to_string_or_none(cs),
            BlockNode::NullBlock => None,
        }
    }
}

/// Flattened text of a sequence of block nodes.
pub fn blocks_to_string_or_none(v: &Vec<BlockNode>) -> (r: Option<String>)
    ensures
        opt_view(r) == spec_coerce_blocks(abs_blocks(v@)),
    decreases v@,
{
    let n = v.len();
    let mut acc: Option<String> = None;
    let mut i: usize = 0;
    while i < n
        invariant
            0 <= i <= n,
            n == v.len(),
            opt_view(acc) == spec_coerce_blocks(abs_blocks(v@.take(i as int))),
        decreases n - i,
    {
        let c = v[i].to_string_or_none();
        proof {
            assert(v@.take(i + 1 as int) =~= v@.take(i as int) + seq![v@[i as int]]);
            crate::ast::lemma_abs_blocks_concat(v@.take(i as int), seq![v@[i as int]]);
            assert(seq![v@[i as int]].drop_first() =~= Seq::<BlockNode>::empty());
            assert(abs_blocks(Seq::<BlockNode>::empty()) == Seq::<BlockView>::empty());
            assert(spec_coerce_blocks(Seq::<BlockView>::empty()) == None::<Seq<char>>);
            assert(abs_blocks(seq![v@[i as int]]) =~= seq![crate::ast::abs_block(v@[i as int])]);
            assert(seq![crate::ast::abs_block(v@[i as int])].drop_first() =~= Seq::<
                BlockView,
            >::empty());
            lemma_coerce_blocks_concat(
                abs_blocks(v@.take(i as int)),
                seq![crate::ast::abs_block(v@[i as int])],
            );
        }
        acc = opt_join(acc, c);
        i += 1;
    }
    proof {
        assert(v@.take(n as int) =~= v@);
    }
    acc
}

impl MetaValue {
    /// Flattened text of one metadata value, if it has any. Booleans
    /// always coerce, to "true" or "false".
    pub fn to_string_or_none(&self) -> (r: Option<String>)
        ensures
            opt_view(r) == spec_coerce_meta(self@),
        decreases *self,
    {
        match self {
            MetaValue::MetaStr(s) => Some(s.clone()),
            MetaValue::MetaBool(b) => Some(
                if *b {
                    "true".to_owned()
                } else {
                    "false".to_owned()
                },
            ),
            MetaValue::MetaList(vs) => meta_seq_to_string_or_none(vs),
            MetaValue::MetaMap(es) => meta_entries_to_string_or_none(es),
            MetaValue::MetaInlines(cs) => inlines_to_string_or_none(cs),
            MetaValue::MetaBlocks(cs) => blocks_to_string_or_none(cs),
        }
    }
}

/// Flattened text of a sequence of metadata values.
pub fn meta_seq_to_string_or_none(v: &Vec<MetaValue>) -> (r: Option<String>)
    ensures
        opt_view(r) == spec_coerce_meta_seq(abs_meta_seq(v@)),
    decreases v@,
{
    let n = v.len();
    let mut acc: Option<String> = None;
    let mut i: usize = 0;
    while i < n
        invariant
            0 <= i <= n,
            n == v.len(),
            opt_view(acc) == spec_coerce_meta_seq(abs_meta_seq(v@.take(i as int))),
        decreases n - i,
    {
        let c = v[i].to_string_or_none();
        proof {
            assert(v@.take(i + 1 as int) =~= v@.take(i as int) + seq![v@[i as int]]);
            lemma_abs_meta_seq_concat(v@.take(i as int), seq![v@[i as int]]);
            assert(seq![v@[i as int]].drop_first() =~= Seq::<MetaValue>::empty());
            assert(abs_meta_seq(Seq::<MetaValue>::empty()) == Seq::<MetaValueView>::empty());
            assert(spec_coerce_meta_seq(Seq::<MetaValueView>::empty()) == None::<Seq<char>>);
            assert(abs_meta_seq(seq![v@[i as int]]) =~= seq![crate::ast::abs_meta(v@[i as int])]);
            assert(seq![crate::ast::abs_meta(v@[i as int])].drop_first() =~= Seq::<
                MetaValueView,
            >::empty());
            lemma_coerce_meta_seq_concat(
                abs_meta_seq(v@.take(i as int)),
                seq![crate::ast::abs_meta(v@[i as int])],
            );
        }
        acc = opt_join(acc, c);
        i += 1;
    }
    proof {
        assert(v@.take(n as int) =~= v@);
    }
    acc
}

/// Flattened text of the values of a metadata map, keys discarded.
pub fn meta_entries_to_string_or_none(v: &Vec<(String, MetaValue)>) -> (r: Option<String>)
    ensures
        opt_view(r) == spec_coerce_meta_entries(abs_meta_map(v@)),
    decreases v@,
{
    let n = v.len();
    let mut acc: Option<String> = None;
    let mut i: usize = 0;
    while i < n
        invariant
            0 <= i <= n,
            n == v.len(),
            opt_view(acc) == spec_coerce_meta_entries(abs_meta_map(v@.take(i as int))),
        decreases n - i,
    {
        let c = v[i].1.to_string_or_none();
        proof {
            assert(v@.take(i + 1 as int) =~= v@.take(i as int) + seq![v@[i as int]]);
            lemma_abs_meta_map_concat(v@.take(i as int), seq![v@[i as int]]);
            assert(seq![v@[i as int]].drop_first() =~= Seq::<(String, MetaValue)>::empty());
            assert(abs_meta_map(Seq::<(String, MetaValue)>::empty()) == Seq::<
                (Seq<char>, MetaValueView),
            >::empty());
            assert(spec_coerce_meta_entries(Seq::<(Seq<char>, MetaValueView)>::empty())
                == None::<Seq<char>>);
            assert(abs_meta_map(seq![v@[i as int]]) =~= seq![
                (v@[i as int].0@, crate::ast::abs_meta(v@[i as int].1)),
            ]);
            assert(seq![(v@[i as int].0@, crate::ast::abs_meta(v@[i as int].1))].drop_first()
                =~= Seq::<(Seq<char>, MetaValueView)>::empty());
            lemma_coerce_meta_entries_concat(
                abs_meta_map(v@.take(i as int)),
                seq![(v@[i as int].0@, crate::ast::abs_meta(v@[i as int].1))],
            );
        }
        acc = opt_join(acc, c);
        i += 1;
    }
    proof {
        assert(v@.take(n as int) =~= v@);
    }
    acc
}

/// Abstraction of metadata value sequences distributes over concatenation.
pub proof fn lemma_abs_meta_seq_concat(a: Seq<MetaValue>, b: Seq<MetaValue>)
    ensures
        abs_meta_seq(a + b) == abs_meta_seq(a) + abs_meta_seq(b),
    decreases a,
{
    if a.len() == 0 {
        assert(a + b =~= b);
        assert(abs_meta_seq(a) + abs_meta_seq(b) =~= abs_meta_seq(b));
    } else {
        assert((a + b).drop_first() =~= a.drop_first() + b);
        lemma_abs_meta_seq_concat(a.drop_first(), b);
        assert(abs_meta_seq(a + b) =~= abs_meta_seq(a) + abs_meta_seq(b));
    }
}

/// Abstraction of metadata maps distributes over concatenation.
pub proof fn lemma_abs_meta_map_concat(a: Seq<(String, MetaValue)>, b: Seq<(String, MetaValue)>)
    ensures
        abs_meta_map(a + b) == abs_meta_map(a) + abs_meta_map(b),
    decreases a,
{
    if a.len() == 0 {
        assert(a + b =~= b);
        assert(abs_meta_map(a) + abs_meta_map(b) =~= abs_meta_map(b));
    } else {
        assert((a + b).drop_first() =~= a.drop_first() + b);
        lemma_abs_meta_map_concat(a.drop_first(), b);
        assert(abs_meta_map(a + b) =~= abs_meta_map(a) + abs_meta_map(b));
    }
}

} // verus!
