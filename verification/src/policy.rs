//! The filter policies: notebook-cell flattening, unconditional hiding,
//! kernel-driven automatic hiding, and macro injection for a markup
//! target. Each policy is a rewrite rule for the walk engine, with its
//! meaning given on views and its laws proved below.

use vstd::prelude::*;
use crate::ast::{
    abs_block, abs_blocks, abs_inline, abs_inlines, Attrs, BlockNode, BlockView, Document,
    InlineNode, InlineView,
};
use crate::ast::AttrsView;
use crate::attrs::{
    get, has_class, is_code_cell, is_hidden, is_ipynb_cell, is_kernel_code_block, is_visible,
    spec_has_class, spec_is_code_cell, spec_is_hidden, spec_is_ipynb_cell,
    spec_is_kernel_code_block, spec_is_visible, spec_pair_lookup,
};
use crate::coerce::opt_view;
use crate::strutil::str_eq;
use crate::table::{spec_table_class_match, StringTable};
use crate::walk::{
    spec_inline_walk_blocks, spec_walk_block, spec_walk_blocks, walk_document,
    walk_document_inlines, BlockRule, InlineRule,
};
use vstd::string::StringExecFns;

verus! {

/// A one-element replacement sequence.
fn singleton_block(b: BlockNode) -> (r: Vec<BlockNode>)
    ensures
        abs_blocks(r@) == seq![abs_block(b)],
{
    let mut r: Vec<BlockNode> = Vec::new();
    proof {
        assert(seq![b].drop_first() =~= Seq::<BlockNode>::empty());
        assert(abs_blocks(Seq::<BlockNode>::empty()) == Seq::<BlockView>::empty());
    }
    r.push(b);
    proof {
        assert(r@ =~= seq![r@[0]]);
        assert(abs_blocks(r@) =~= seq![abs_block(r@[0])]);
    }
    r
}

/// A one-element replacement sequence.
fn singleton_inline(i: InlineNode) -> (r: Vec<InlineNode>)
    ensures
        abs_inlines(r@) == seq![abs_inline(i)],
{
    let mut r: Vec<InlineNode> = Vec::new();
    proof {
        assert(seq![i].drop_first() =~= Seq::<InlineNode>::empty());
        assert(abs_inlines(Seq::<InlineNode>::empty()) == Seq::<InlineView>::empty());
    }
    r.push(i);
    proof {
        assert(r@ =~= seq![r@[0]]);
        assert(abs_inlines(r@) =~= seq![abs_inline(r@[0])]);
    }
    r
}

/// Flatten: a container tagged as a notebook cell is replaced by its
/// (already rewritten) children; every other node passes through.
pub struct FlattenRule;

impl BlockRule for FlattenRule {
    open spec fn block_rule(&self, b: BlockView) -> Seq<BlockView> {
        match b {
            BlockView::Container(a, cs) => if spec_is_ipynb_cell(a) {
                cs
            } else {
                seq![b]
            },
            _ => seq![b],
        }
    }

    fn apply(&self, b: BlockNode) -> (r: Vec<BlockNode>)
        ensures
            abs_blocks(r@) == self.block_rule(abs_block(b)),
    {
        match b {
            BlockNode::Container(a, cs) => {
                if is_ipynb_cell(&a) {
                    cs
                } else {
                    singleton_block(BlockNode::Container(a, cs))
                }
            },
            other => singleton_block(other),
        }
    }
}

/// Unconditional hide: a container tagged hidden is deleted together with
/// its whole subtree; every other node passes through.
pub struct HideRule;

impl BlockRule for HideRule {
    open spec fn block_rule(&self, b: BlockView) -> Seq<BlockView> {
        match b {
            BlockView::Container(a, _) => if spec_is_hidden(a) {
                Seq::empty()
            } else {
                seq![b]
            },
            _ => seq![b],
        }
    }

    fn apply(&self, b: BlockNode) -> (r: Vec<BlockNode>)
        ensures
            abs_blocks(r@) == self.block_rule(abs_block(b)),
    {
        match b {
            BlockNode::Container(a, cs) => {
                if is_hidden(&a) {
                    let r: Vec<BlockNode> = Vec::new();
                    proof {
                        assert(abs_blocks(r@) =~= Seq::<BlockView>::empty());
                    }
                    r
                } else {
                    singleton_block(BlockNode::Container(a, cs))
                }
            },
            other => singleton_block(other),
        }
    }
}

/// Flattens every notebook-cell container in the document body.
pub fn flatten_document(doc: Document) -> (out: Document)
    ensures
        out@.meta == doc@.meta,
        out@.body == spec_walk_blocks(FlattenRule, doc@.body),
{
    walk_document(&FlattenRule, doc)
}

/// Deletes every hidden container in the document body.
pub fn hide_document(doc: Document) -> (out: Document)
    ensures
        out@.meta == doc@.meta,
        out@.body == spec_walk_blocks(HideRule, doc@.body),
{
    walk_document(&HideRule, doc)
}

/// No notebook-cell container occurs anywhere in the node.
pub open spec fn block_no_cell(b: BlockView) -> bool
    decreases b,
{
    match b {
        BlockView::Container(a, cs) => !spec_is_ipynb_cell(a) && blocks_no_cell(cs),
        BlockView::BlockQuote(cs) => blocks_no_cell(cs),
        BlockView::BulletList(cs) => blocks_no_cell(cs),
        BlockView::OrderedList(cs) => blocks_no_cell(cs),
        _ => true,
    }
}

/// No notebook-cell container occurs anywhere in the sequence.
pub open spec fn blocks_no_cell(s: Seq<BlockView>) -> bool
    decreases s,
{
    s.len() == 0 || (block_no_cell(s[0]) && blocks_no_cell(s.drop_first()))
}

proof fn lemma_no_cell_concat(a: Seq<BlockView>, b: Seq<BlockView>)
    ensures
        blocks_no_cell(a + b) == (blocks_no_cell(a) && blocks_no_cell(b)),
    decreases a,
{
    if a.len() == 0 {
        assert(a + b =~= b);
    } else {
        assert((a + b).drop_first() =~= a.drop_first() + b);
        assert((a + b)[0] == a[0]);
        lemma_no_cell_concat(a.drop_first(), b);
    }
}

/// One Flatten pass leaves no notebook-cell container anywhere.
pub proof fn lemma_flatten_output_clean(b: BlockView)
    ensures
        blocks_no_cell(spec_walk_block(FlattenRule, b)),
    decreases b,
{
    assert(blocks_no_cell(Seq::<BlockView>::empty()));
    match b {
        BlockView::Container(a, cs) => {
            lemma_flatten_output_clean_seq(cs);
            let w = spec_walk_blocks(FlattenRule, cs);
            if !spec_is_ipynb_cell(a) {
                assert(block_no_cell(BlockView::Container(a, w)));
                assert(seq![BlockView::Container(a, w)].drop_first() =~= Seq::<BlockView>::empty());
            }
        },
        BlockView::BlockQuote(cs) => {
            lemma_flatten_output_clean_seq(cs);
            let w = spec_walk_blocks(FlattenRule, cs);
            assert(block_no_cell(BlockView::BlockQuote(w)));
            assert(seq![BlockView::BlockQuote(w)].drop_first() =~= Seq::<BlockView>::empty());
        },
        BlockView::BulletList(cs) => {
            lemma_flatten_output_clean_seq(cs);
            let w = spec_walk_blocks(FlattenRule, cs);
            assert(block_no_cell(BlockView::BulletList(w)));
            assert(seq![BlockView::BulletList(w)].drop_first() =~= Seq::<BlockView>::empty());
        },
        BlockView::OrderedList(cs) => {
            lemma_flatten_output_clean_seq(cs);
            let w = spec_walk_blocks(FlattenRule, cs);
            assert(block_no_cell(BlockView::OrderedList(w)));
            assert(seq![BlockView::OrderedList(w)].drop_first() =~= Seq::<BlockView>::empty());
        },
        other => {
            assert(block_no_cell(other));
            assert(seq![other].drop_first() =~= Seq::<BlockView>::empty());
        },
    }
}

/// Sequence form of the preceding lemma.
pub proof fn lemma_flatten_output_clean_seq(s: Seq<BlockView>)
    ensures
        blocks_no_cell(spec_walk_blocks(FlattenRule, s)),
    decreases s,
{
    if s.len() == 0 {
    } else {
        lemma_flatten_output_clean(s[0]);
        lemma_flatten_output_clean_seq(s.drop_first());
        lemma_no_cell_concat(
            spec_walk_block(FlattenRule, s[0]),
            spec_walk_blocks(FlattenRule, s.drop_first()),
        );
    }
}

/// On a tree without notebook-cell containers, Flatten is the identity.
pub proof fn lemma_flatten_identity_on_clean(b: BlockView)
    requires
        block_no_cell(b),
    ensures
        spec_walk_block(FlattenRule, b) == seq![b],
    decreases b,
{
    match b {
        BlockView::Container(a, cs) => {
            lemma_flatten_identity_on_clean_seq(cs);
        },
        BlockView::BlockQuote(cs) => {
            lemma_flatten_identity_on_clean_seq(cs);
        },
        BlockView::BulletList(cs) => {
            lemma_flatten_identity_on_clean_seq(cs);
        },
        BlockView::OrderedList(cs) => {
            lemma_flatten_identity_on_clean_seq(cs);
        },
        _ => {},
    }
}

/// Sequence form of the preceding lemma.
pub proof fn lemma_flatten_identity_on_clean_seq(s: Seq<BlockView>)
    requires
        blocks_no_cell(s),
    ensures
        spec_walk_blocks(FlattenRule, s) == s,
    decreases s,
{
    if s.len() == 0 {
        assert(spec_walk_blocks(FlattenRule, s) =~= s);
    } else {
        lemma_flatten_identity_on_clean(s[0]);
        lemma_flatten_identity_on_clean_seq(s.drop_first());
        assert(seq![s[0]] + s.drop_first() =~= s);
    }
}

/// Flatten is idempotent: applying it twice yields the same body as
/// applying it once.
pub proof fn lemma_flatten_idempotent(s: Seq<BlockView>)
    ensures
        spec_walk_blocks(FlattenRule, spec_walk_blocks(FlattenRule, s)) == spec_walk_blocks(
            FlattenRule,
            s,
        ),
{
    lemma_flatten_output_clean_seq(s);
    lemma_flatten_identity_on_clean_seq(spec_walk_blocks(FlattenRule, s));
}

/// No hidden container occurs anywhere in the node.
pub open spec fn block_no_hidden(b: BlockView) -> bool
    decreases b,
{
    match b {
        BlockView::Container(a, cs) => !spec_is_hidden(a) && blocks_no_hidden(cs),
        BlockView::BlockQuote(cs) => blocks_no_hidden(cs),
        BlockView::BulletList(cs) => blocks_no_hidden(cs),
        BlockView::OrderedList(cs) => blocks_no_hidden(cs),
        _ => true,
    }
}

/// No hidden container occurs anywhere in the sequence.
pub open spec fn blocks_no_hidden(s: Seq<BlockView>) -> bool
    decreases s,
{
    s.len() == 0 || (block_no_hidden(s[0]) && blocks_no_hidden(s.drop_first()))
}

proof fn lemma_no_hidden_concat(a: Seq<BlockView>, b: Seq<BlockView>)
    ensures
        blocks_no_hidden(a + b) == (blocks_no_hidden(a) && blocks_no_hidden(b)),
    decreases a,
{
    if a.len() == 0 {
        assert(a + b =~= b);
    } else {
        assert((a + b).drop_first() =~= a.drop_first() + b);
        assert((a + b)[0] == a[0]);
        lemma_no_hidden_concat(a.drop_first(), b);
    }
}

/// Hide completeness: after one Hide pass, no hidden container survives
/// anywhere in the tree; surviving siblings keep their order, as the walk
/// splices each node's replacement in place.
pub proof fn lemma_hide_completeness(b: BlockView)
    ensures
        blocks_no_hidden(spec_walk_block(HideRule, b)),
    decreases b,
{
    assert(blocks_no_hidden(Seq::<BlockView>::empty()));
    match b {
        BlockView::Container(a, cs) => {
            lemma_hide_completeness_seq(cs);
            let w = spec_walk_blocks(HideRule, cs);
            if !spec_is_hidden(a) {
                assert(block_no_hidden(BlockView::Container(a, w)));
                assert(seq![BlockView::Container(a, w)].drop_first() =~= Seq::<BlockView>::empty());
            }
        },
        BlockView::BlockQuote(cs) => {
            lemma_hide_completeness_seq(cs);
            let w = spec_walk_blocks(HideRule, cs);
            assert(block_no_hidden(BlockView::BlockQuote(w)));
            assert(seq![BlockView::BlockQuote(w)].drop_first() =~= Seq::<BlockView>::empty());
        },
        BlockView::BulletList(cs) => {
            lemma_hide_completeness_seq(cs);
            let w = spec_walk_blocks(HideRule, cs);
            assert(block_no_hidden(BlockView::BulletList(w)));
            assert(seq![BlockView::BulletList(w)].drop_first() =~= Seq::<BlockView>::empty());
        },
        BlockView::OrderedList(cs) => {
            lemma_hide_completeness_seq(cs);
            let w = spec_walk_blocks(HideRule, cs);
            assert(block_no_hidden(BlockView::OrderedList(w)));
            assert(seq![BlockView::OrderedList(w)].drop_first() =~= Seq::<BlockView>::empty());
        },
        other => {
            assert(block_no_hidden(other));
            assert(seq![other].drop_first() =~= Seq::<BlockView>::empty());
        },
    }
}

/// Sequence form of the preceding lemma.
pub proof fn lemma_hide_completeness_seq(s: Seq<BlockView>)
    ensures
        blocks_no_hidden(spec_walk_blocks(HideRule, s)),
    decreases s,
{
    if s.len() == 0 {
    } else {
        lemma_hide_completeness(s[0]);
        lemma_hide_completeness_seq(s.drop_first());
        lemma_no_hidden_concat(
            spec_walk_block(HideRule, s[0]),
            spec_walk_blocks(HideRule, s.drop_first()),
        );
    }
}


/// What one direct child of a code cell becomes: a code block carrying
/// the kernel language as a class tag is removed, everything else stays.
pub open spec fn spec_strip_one(b: BlockView, lang: Seq<char>) -> Seq<BlockView> {
    match b {
        BlockView::CodeBlock(ca, _) => if spec_is_kernel_code_block(ca, lang) {
            Seq::empty()
        } else {
            seq![b]
        },
        _ => seq![b],
    }
}

/// The direct children of a code cell with kernel code blocks removed.
pub open spec fn spec_strip_kernel_blocks(s: Seq<BlockView>, lang: Seq<char>) -> Seq<BlockView>
    decreases s,
{
    if s.len() == 0 {
        Seq::empty()
    } else {
        spec_strip_one(s[0], lang) + spec_strip_kernel_blocks(s.drop_first(), lang)
    }
}

fn strip_one(b: BlockNode, lang: &String) -> (r: Vec<BlockNode>)
    ensures
        abs_blocks(r@) == spec_strip_one(abs_block(b), lang@),
{
    match b {
        BlockNode::CodeBlock(ca, t) => {
            if is_kernel_code_block(&ca, lang) {
                let r: Vec<BlockNode> = Vec::new();
                proof {
                    assert(abs_blocks(r@) =~= Seq::<BlockView>::empty());
                }
                r
            } else {
                singleton_block(BlockNode::CodeBlock(ca, t))
            }
        },
        other => singleton_block(other),
    }
}

fn strip_kernel_blocks(mut v: Vec<BlockNode>, lang: &String) -> (out: Vec<BlockNode>)
    ensures
        abs_blocks(out@) == spec_strip_kernel_blocks(abs_blocks(v@), lang@),
    decreases v@,
{
    if v.len() == 0 {
        let out: Vec<BlockNode> = Vec::new();
        proof {
            assert(abs_blocks(out@) =~= Seq::<BlockView>::empty());
            assert(abs_blocks(v@) =~= Seq::<BlockView>::empty());
        }
        out
    } else {
        let ghost orig = v@;
        let b = v.remove(0);
        let mut out = strip_one(b, lang);
        let mut rest = strip_kernel_blocks(v, lang);
        proof {
            assert(orig.remove(0) =~= orig.drop_first());
            crate::ast::lemma_abs_blocks_len(orig);
            crate::ast::lemma_abs_blocks_index(orig, 0);
            assert(abs_blocks(orig).drop_first() =~= abs_blocks(orig.drop_first()));
            crate::ast::lemma_abs_blocks_concat(out@, rest@);
        }
        out.append(&mut rest);
        out
    }
}

/// Auto-hide: when a kernel language is configured, each container
/// classified as a code cell and not marked visible loses its direct code
/// blocks tagged with that language; without a configured language the
/// rule is the identity.
pub struct AutoHideRule {
    pub kernel_language: Option<String>,
}

impl BlockRule for AutoHideRule {
    open spec fn block_rule(&self, b: BlockView) -> Seq<BlockView> {
        match self.kernel_language {
            Option::Some(lang) => match b {
                BlockView::Container(a, cs) => if spec_is_code_cell(a) && !spec_is_visible(a) {
                    seq![BlockView::Container(a, spec_strip_kernel_blocks(cs, lang@))]
                } else {
                    seq![b]
                },
                _ => seq![b],
            },
            Option::None => seq![b],
        }
    }

    fn apply(&self, b: BlockNode) -> (r: Vec<BlockNode>)
        ensures
            abs_blocks(r@) == self.block_rule(abs_block(b)),
    {
        match &self.kernel_language {
            Option::Some(lang) => match b {
                BlockNode::Container(a, cs) => {
                    if is_code_cell(&a) && !is_visible(&a) {
                        let stripped = strip_kernel_blocks(cs, lang);
                        singleton_block(BlockNode::Container(a, stripped))
                    } else {
                        singleton_block(BlockNode::Container(a, cs))
                    }
                },
                other => singleton_block(other),
            },
            Option::None => singleton_block(b),
        }
    }
}

/// Applies auto-hiding to the whole document body for the given kernel
/// language (usually the one extracted from the document metadata).
pub fn auto_hide_document(doc: Document, kernel_language: Option<String>) -> (out: Document)
    ensures
        out@.meta == doc@.meta,
        out@.body == spec_walk_blocks((AutoHideRule { kernel_language }), doc@.body),
{
    let rule = AutoHideRule { kernel_language };
    walk_document(&rule, doc)
}

/// The macro name a container or span is rewritten to: the value of the
/// first table entry whose key is among the class tags, with a star
/// appended when the `unnumbered` class is present.
pub open spec fn spec_macro_name(
    table: Seq<(Seq<char>, Seq<char>)>,
    a: AttrsView,
) -> Option<Seq<char>> {
    match spec_table_class_match(table, a.classes) {
        Some(name) => Some(
            if spec_has_class(a, "unnumbered"@) {
                name + "*"@
            } else {
                name
            },
        ),
        None => None,
    }
}

fn macro_name(table: &StringTable, a: &Attrs) -> (r: Option<String>)
    ensures
        opt_view(r) == spec_macro_name(table@, a@),
{
    match table.class_match(&a.classes) {
        Some(mut name) => {
            if has_class(a, "unnumbered") {
                name.append("*");
            }
            Some(name)
        },
        None => None,
    }
}

/// The optional bracketed options part of a begin marker.
pub open spec fn spec_bracket_part(o: Option<Seq<char>>) -> Seq<char> {
    match o {
        Some(x) => "["@ + x + "]"@,
        None => Seq::empty(),
    }
}

/// The optional braced arguments part of a begin marker.
pub open spec fn spec_brace_part(o: Option<Seq<char>>) -> Seq<char> {
    match o {
        Some(x) => "{"@ + x + "}"@,
        None => Seq::empty(),
    }
}

/// The begin marker of an environment: `\begin{name}`, an optional
/// bracketed options string, and an optional braced arguments string,
/// both taken from the attribute pairs.
pub open spec fn spec_begin_marker(env: Seq<char>, a: AttrsView) -> Seq<char> {
    "\\begin{"@ + env + "}"@ + spec_bracket_part(spec_pair_lookup(a.pairs, "options"@))
        + spec_brace_part(spec_pair_lookup(a.pairs, "arguments"@))
}

/// The end marker of an environment.
pub open spec fn spec_end_marker(env: Seq<char>) -> Seq<char> {
    "\\end{"@ + env + "}\n"@
}

/// The opening of a command invocation: `\name`, optional options and
/// arguments, and the opening brace wrapping the children.
pub open spec fn spec_command_open(cmd: Seq<char>, a: AttrsView) -> Seq<char> {
    "\\"@ + cmd + spec_bracket_part(spec_pair_lookup(a.pairs, "options"@)) + spec_brace_part(
        spec_pair_lookup(a.pairs, "arguments"@),
    ) + "{"@
}

fn push_pair_parts(s: &mut String, a: &Attrs)
    ensures
        final(s)@ == old(s)@ + spec_bracket_part(spec_pair_lookup(a@.pairs, "options"@))
            + spec_brace_part(spec_pair_lookup(a@.pairs, "arguments"@)),
{
    let ghost base = s@;
    match get(&a.pairs, "options") {
        Some(o) => {
            s.append("[");
            s.append(o.as_str());
            s.append("]");
            proof {
                assert(s@ =~= base + spec_bracket_part(spec_pair_lookup(a@.pairs, "options"@)));
            }
        },
        None => {
            proof {
                assert(s@ =~= base + spec_bracket_part(spec_pair_lookup(a@.pairs, "options"@)));
            }
        },
    }
    let ghost mid = s@;
    match get(&a.pairs, "arguments") {
        Some(x) => {
            s.append("{");
            s.append(x.as_str());
            s.append("}");
            proof {
                assert(s@ =~= mid + spec_brace_part(spec_pair_lookup(a@.pairs, "arguments"@)));
            }
        },
        None => {
            proof {
                assert(s@ =~= mid + spec_brace_part(spec_pair_lookup(a@.pairs, "arguments"@)));
            }
        },
    }
}

fn begin_marker(env: &String, a: &Attrs) -> (r: String)
    ensures
        r@ == spec_begin_marker(env@, a@),
{
    let mut s = "\\begin{".to_owned();
    s.append(env.as_str());
    s.append("}");
    push_pair_parts(&mut s, a);
    proof {
        assert(s@ =~= spec_begin_marker(env@, a@));
    }
    s
}

fn end_marker(env: &String) -> (r: String)
    ensures
        r@ == spec_end_marker(env@),
{
    let mut s = "\\end{".to_owned();
    s.append(env.as_str());
    s.append("}\n");
    proof {
        assert(s@ =~= spec_end_marker(env@));
    }
    s
}

fn command_open(cmd: &String, a: &Attrs) -> (r: String)
    ensures
        r@ == spec_command_open(cmd@, a@),
{
    let mut s = "\\".to_owned();
    s.append(cmd.as_str());
    push_pair_parts(&mut s, a);
    s.append("{");
    proof {
        assert(s@ =~= spec_command_open(cmd@, a@));
    }
    s
}

/// A raw block in the markup-macro format.
fn latex_block(latex: String) -> (r: BlockNode)
    ensures
        abs_block(r) == BlockView::RawBlock("latex"@, latex@),
{
    BlockNode::RawBlock("latex".to_owned(), latex)
}

/// A raw inline in the markup-macro format.
fn latex_inline(latex: String) -> (r: InlineNode)
    ensures
        abs_inline(r) == InlineView::RawInline("latex"@, latex@),
{
    InlineNode::RawInline("latex".to_owned(), latex)
}

/// Macro injection at the block level: a container whose class tags match
/// a key of the environments table is replaced by a begin marker, its
/// (already rewritten) children verbatim, and an end marker.
pub struct EnvironmentsRule {
    pub table: StringTable,
}

impl BlockRule for EnvironmentsRule {
    open spec fn block_rule(&self, b: BlockView) -> Seq<BlockView> {
        match b {
            BlockView::Container(a, cs) => match spec_macro_name(self.table@, a) {
                Some(env) => seq![BlockView::RawBlock("latex"@, spec_begin_marker(env, a))] + cs
                    + seq![BlockView::RawBlock("latex"@, spec_end_marker(env))],
                None => seq![b],
            },
            _ => seq![b],
        }
    }

    fn apply(&self, b: BlockNode) -> (r: Vec<BlockNode>)
        ensures
            abs_blocks(r@) == self.block_rule(abs_block(b)),
    {
        match b {
            BlockNode::Container(a, mut cs) => {
                match macro_name(&self.table, &a) {
                    Some(env) => {
                        let begin = latex_block(begin_marker(&env, &a));
                        let end = latex_block(end_marker(&env));
                        let mut out: Vec<BlockNode> = Vec::new();
                        out.push(begin);
                        proof {
                            assert(out@ =~= seq![begin]);
                            assert(seq![begin].drop_first() =~= Seq::<BlockNode>::empty());
                            assert(abs_blocks(Seq::<BlockNode>::empty()) == Seq::<
                                BlockView,
                            >::empty());
                            assert(abs_blocks(seq![begin]) =~= seq![abs_block(begin)]);
                            crate::ast::lemma_abs_blocks_concat(seq![begin], cs@);
                        }
                        let ghost cs_snap = cs@;
                        out.append(&mut cs);
                        let ghost out_mid = out@;
                        out.push(end);
                        proof {
                            assert(out@ =~= out_mid + seq![end]);
                            assert(seq![end].drop_first() =~= Seq::<BlockNode>::empty());
                            assert(abs_blocks(seq![end]) =~= seq![abs_block(end)]);
                            crate::ast::lemma_abs_blocks_concat(out_mid, seq![end]);
                            assert(abs_blocks(out@) =~= seq![
                                BlockView::RawBlock("latex"@, spec_begin_marker(env@, a@)),
                            ] + abs_blocks(cs_snap) + seq![
                                BlockView::RawBlock("latex"@, spec_end_marker(env@)),
                            ]);
                        }
                        out
                    },
                    None => singleton_block(BlockNode::Container(a, cs)),
                }
            },
            other => singleton_block(other),
        }
    }
}

/// Macro injection at the inline level: a span whose class tags match a
/// key of the commands table is replaced by a command opening, its
/// children, and a closing brace.
pub struct CommandsRule {
    pub table: StringTable,
}

impl InlineRule for CommandsRule {
    open spec fn inline_rule(&self, i: InlineView) -> Seq<InlineView> {
        match i {
            InlineView::Span(a, cs) => match spec_macro_name(self.table@, a) {
                Some(cmd) => seq![InlineView::RawInline("latex"@, spec_command_open(cmd, a))] + cs
                    + seq![InlineView::RawInline("latex"@, "}"@)],
                None => seq![i],
            },
            _ => seq![i],
        }
    }

    fn apply(&self, i: InlineNode) -> (r: Vec<InlineNode>)
        ensures
            abs_inlines(r@) == self.inline_rule(abs_inline(i)),
    {
        match i {
            InlineNode::Span(a, mut cs) => {
                match macro_name(&self.table, &a) {
                    Some(cmd) => {
                        let begin = latex_inline(command_open(&cmd, &a));
                        let end = latex_inline("}".to_owned());
                        let mut out: Vec<InlineNode> = Vec::new();
                        out.push(begin);
                        proof {
                            assert(out@ =~= seq![begin]);
                            assert(seq![begin].drop_first() =~= Seq::<InlineNode>::empty());
                            assert(abs_inlines(Seq::<InlineNode>::empty()) == Seq::<
                                InlineView,
                            >::empty());
                            assert(abs_inlines(seq![begin]) =~= seq![abs_inline(begin)]);
                            crate::ast::lemma_abs_inlines_concat(seq![begin], cs@);
                        }
                        let ghost cs_snap = cs@;
                        out.append(&mut cs);
                        let ghost out_mid = out@;
                        out.push(end);
                        proof {
                            assert(out@ =~= out_mid + seq![end]);
                            assert(seq![end].drop_first() =~= Seq::<InlineNode>::empty());
                            assert(abs_inlines(seq![end]) =~= seq![abs_inline(end)]);
                            crate::ast::lemma_abs_inlines_concat(out_mid, seq![end]);
                            assert(abs_inlines(out@) =~= seq![
                                InlineView::RawInline("latex"@, spec_command_open(cmd@, a@)),
                            ] + abs_inlines(cs_snap) + seq![InlineView::RawInline("latex"@, "}"@)]);
                        }
                        out
                    },
                    None => singleton_inline(InlineNode::Span(a, cs)),
                }
            },
            other => singleton_inline(other),
        }
    }
}

/// Macro injection over a whole document: only active when the target
/// format is the markup-macro format; environments are rewritten at the
/// block level, then commands at the inline level. For any other target
/// the document passes through unchanged.
pub fn inject_macros(
    doc: Document,
    format: &str,
    environments: StringTable,
    commands: StringTable,
) -> (out: Document)
    ensures
        out@.meta == doc@.meta,
        format@ == "latex"@ ==> out@.body == spec_inline_walk_blocks(
            (CommandsRule { table: commands }),
            spec_walk_blocks((EnvironmentsRule { table: environments }), doc@.body),
        ),
        format@ != "latex"@ ==> out@.body == doc@.body,
{
    if str_eq(format, "latex") {
        let env_rule = EnvironmentsRule { table: environments };
        let walked = walk_document(&env_rule, doc);
        let cmd_rule = CommandsRule { table: commands };
        walk_document_inlines(&cmd_rule, walked)
    } else {
        doc
    }
}


/// The direct meaning of one Hide pass on a node: a hidden container is
/// deleted with its subtree; any other node survives in place with its
/// subtree scrubbed the same way.
pub open spec fn scrub_hidden_block(b: BlockView) -> Seq<BlockView>
    decreases b,
{
    match b {
        BlockView::Container(a, cs) => if spec_is_hidden(a) {
            Seq::empty()
        } else {
            seq![BlockView::Container(a, scrub_hidden_blocks(cs))]
        },
        BlockView::BlockQuote(cs) => seq![BlockView::BlockQuote(scrub_hidden_blocks(cs))],
        BlockView::BulletList(cs) => seq![BlockView::BulletList(scrub_hidden_blocks(cs))],
        BlockView::OrderedList(cs) => seq![BlockView::OrderedList(scrub_hidden_blocks(cs))],
        other => seq![other],
    }
}

/// The direct meaning of one Hide pass on a sibling sequence: survivors
/// keep their relative order.
pub open spec fn scrub_hidden_blocks(s: Seq<BlockView>) -> Seq<BlockView>
    decreases s,
{
    if s.len() == 0 {
        Seq::empty()
    } else {
        scrub_hidden_block(s[0]) + scrub_hidden_blocks(s.drop_first())
    }
}

/// The Hide walk computes exactly the scrub: each hidden container is
/// deleted, and every surviving node stands where it stood, so the
/// sibling order of survivors never changes.
pub proof fn lemma_hide_walk_is_scrub(b: BlockView)
    ensures
        spec_walk_block(HideRule, b) == scrub_hidden_block(b),
    decreases b,
{
    match b {
        BlockView::Container(a, cs) => {
            lemma_hide_walk_is_scrub_seq(cs);
        },
        BlockView::BlockQuote(cs) => {
            lemma_hide_walk_is_scrub_seq(cs);
        },
        BlockView::BulletList(cs) => {
            lemma_hide_walk_is_scrub_seq(cs);
        },
        BlockView::OrderedList(cs) => {
            lemma_hide_walk_is_scrub_seq(cs);
        },
        _ => {},
    }
}

/// Sequence form of the preceding lemma.
pub proof fn lemma_hide_walk_is_scrub_seq(s: Seq<BlockView>)
    ensures
        spec_walk_blocks(HideRule, s) == scrub_hidden_blocks(s),
    decreases s,
{
    if s.len() == 0 {
    } else {
        lemma_hide_walk_is_scrub(s[0]);
        lemma_hide_walk_is_scrub_seq(s.drop_first());
    }
}

} // verus!
