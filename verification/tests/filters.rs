use docfilters::ast::{Attrs, BlockNode, Document, InlineNode, MetaValue};
use docfilters::coerce::{blocks_to_string_or_none, inlines_to_string_or_none};
use docfilters::policy::{auto_hide_document, flatten_document, hide_document, inject_macros};
use docfilters::table::{
    extract, extract_commands, extract_environments, extract_kernel_language, StringTable,
};

fn attrs(identifier: &str, classes: &[&str], pairs: &[(&str, &str)]) -> Attrs {
    Attrs {
        identifier: identifier.to_string(),
        classes: classes.iter().map(|c| c.to_string()).collect(),
        pairs: pairs.iter().map(|(k, v)| (k.to_string(), v.to_string())).collect(),
    }
}

fn para(text: &str) -> BlockNode {
    BlockNode::Paragraph(vec![InlineNode::Text(text.to_string())])
}

fn doc(body: Vec<BlockNode>) -> Document {
    Document { meta: Vec::new(), body }
}

// A filter that never matches leaves sibling order and node count intact
// at every nesting level.
#[test]
fn unmatched_filter_preserves_document() {
    let body = vec![
        para("one"),
        BlockNode::Container(
            attrs("", &["note"], &[]),
            vec![para("two"), BlockNode::HorizontalRule],
        ),
        BlockNode::BlockQuote(vec![para("three")]),
    ];
    let expected = vec![
        para("one"),
        BlockNode::Container(
            attrs("", &["note"], &[]),
            vec![para("two"), BlockNode::HorizontalRule],
        ),
        BlockNode::BlockQuote(vec![para("three")]),
    ];
    let out = flatten_document(doc(body));
    assert_eq!(out.body, expected);
}

#[test]
fn flatten_unwraps_cell_containers() {
    let body = vec![
        para("before"),
        BlockNode::Container(attrs("", &["cell"], &[]), vec![para("a"), para("b")]),
        para("after"),
    ];
    let out = flatten_document(doc(body));
    assert_eq!(out.body, vec![para("before"), para("a"), para("b"), para("after")]);
}

// Applying Flatten twice yields the same result as applying it once.
fn nested_cells_body() -> Vec<BlockNode> {
    vec![BlockNode::Container(
        attrs("", &["cell"], &[]),
        vec![BlockNode::Container(attrs("", &["cell"], &[]), vec![para("inner")]), para("tail")],
    )]
}

#[test]
fn flatten_is_idempotent_on_nested_cells() {
    let once = flatten_document(doc(nested_cells_body()));
    let twice = flatten_document(flatten_document(doc(nested_cells_body())));
    assert_eq!(once, twice);
    assert_eq!(once.body, vec![para("inner"), para("tail")]);
}

// Hidden containers are deleted; surviving siblings keep their order.
#[test]
fn hide_removes_hidden_containers() {
    let body = vec![
        para("keep one"),
        BlockNode::Container(attrs("", &["hidden"], &[]), vec![para("gone")]),
        para("keep two"),
        BlockNode::Container(attrs("", &[], &[("tags", "x,hidden,y")]), vec![para("also gone")]),
        para("keep three"),
    ];
    let out = hide_document(doc(body));
    assert_eq!(out.body, vec![para("keep one"), para("keep two"), para("keep three")]);
}

#[test]
fn hide_removes_nested_hidden_containers() {
    let body = vec![BlockNode::Container(
        attrs("", &["outer"], &[]),
        vec![
            BlockNode::Container(attrs("", &["hidden"], &[]), vec![para("secret")]),
            para("visible text"),
        ],
    )];
    let out = hide_document(doc(body));
    assert_eq!(
        out.body,
        vec![BlockNode::Container(attrs("", &["outer"], &[]), vec![para("visible text")])]
    );
}

fn plain_tags_body() -> Vec<BlockNode> {
    vec![BlockNode::Container(attrs("", &[], &[("tags", "something-else")]), vec![para("stays")])]
}

#[test]
fn hide_keeps_plain_tags_pair_without_hidden() {
    let out = hide_document(doc(plain_tags_body()));
    assert_eq!(out.body, plain_tags_body());
}

// Coercing a boolean always yields a present string.
#[test]
fn boolean_coercion_is_total() {
    assert_eq!(MetaValue::MetaBool(true).to_string_or_none(), Some("true".to_string()));
    assert_eq!(MetaValue::MetaBool(false).to_string_or_none(), Some("false".to_string()));
}

#[test]
fn coercion_concatenates_inline_text() {
    let inlines = vec![
        InlineNode::Text("alpha".to_string()),
        InlineNode::Space,
        InlineNode::Emph(vec![InlineNode::Text("beta".to_string())]),
        InlineNode::LineBreak,
        InlineNode::Code(attrs("", &[], &[]), "gamma".to_string()),
    ];
    assert_eq!(inlines_to_string_or_none(&inlines), Some("alpha beta\ngamma".to_string()));
}

#[test]
fn coercion_distinguishes_absent_from_empty() {
    // No coercible item at all: absent.
    let nothing = vec![InlineNode::Cite];
    assert_eq!(inlines_to_string_or_none(&nothing), None);
    // An empty sequence: absent.
    assert_eq!(inlines_to_string_or_none(&Vec::new()), None);
    // An empty text run is present, so the result is the empty string.
    let empty_text = vec![InlineNode::Text(String::new()), InlineNode::Cite];
    assert_eq!(inlines_to_string_or_none(&empty_text), Some(String::new()));
}

#[test]
fn coercion_of_blocks_skips_textless_kinds() {
    let blocks = vec![
        BlockNode::BulletList(vec![para("ignored")]),
        BlockNode::CodeBlock(attrs("", &[], &[]), "x = 1".to_string()),
        BlockNode::HorizontalRule,
        para("tail"),
    ];
    assert_eq!(blocks_to_string_or_none(&blocks), Some("x = 1tail".to_string()));
}

#[test]
fn meta_map_coerces_through_values() {
    let value = MetaValue::MetaMap(vec![
        ("k1".to_string(), MetaValue::MetaStr("ab".to_string())),
        ("k2".to_string(), MetaValue::MetaBool(true)),
    ]);
    assert_eq!(value.to_string_or_none(), Some("abtrue".to_string()));
}

// Given a list-of-maps entry with two maps sharing a key, the later map's
// value for that key wins in the extracted table.
#[test]
fn table_extraction_later_map_wins() {
    let meta = vec![(
        "environments".to_string(),
        MetaValue::MetaList(vec![
            MetaValue::MetaMap(vec![
                ("theorem".to_string(), MetaValue::MetaStr("thmA".to_string())),
                ("lemma".to_string(), MetaValue::MetaStr("lem".to_string())),
            ]),
            MetaValue::MetaMap(vec![(
                "theorem".to_string(),
                MetaValue::MetaStr("thmB".to_string()),
            )]),
        ]),
    )];
    let table = extract(&meta, "environments");
    assert_eq!(table.get("theorem"), Some(&"thmB".to_string()));
    assert_eq!(table.get("lemma"), Some(&"lem".to_string()));
    assert_eq!(table.len(), 2);
}

// A bare list entry yields an identity mapping of its own text.
#[test]
fn table_extraction_identity_list_entries() {
    let meta = vec![(
        "environments".to_string(),
        MetaValue::MetaList(vec![MetaValue::MetaStr("remark".to_string())]),
    )];
    let table = extract_environments(&meta);
    assert_eq!(table.get("remark"), Some(&"remark".to_string()));
    assert_eq!(table.len(), 1);
}

#[test]
fn table_extraction_single_map_shape() {
    let meta = vec![(
        "commands".to_string(),
        MetaValue::MetaMap(vec![("kw".to_string(), MetaValue::MetaStr("keyword".to_string()))]),
    )];
    let table = extract_commands(&meta);
    assert_eq!(table.get("kw"), Some(&"keyword".to_string()));
}

#[test]
fn table_extraction_skips_unusable_entries() {
    let meta = vec![(
        "environments".to_string(),
        MetaValue::MetaList(vec![
            MetaValue::MetaStr(String::new()),
            MetaValue::MetaList(Vec::new()),
            MetaValue::MetaStr("kept".to_string()),
        ]),
    )];
    let table = extract(&meta, "environments");
    assert_eq!(table.len(), 1);
    assert_eq!(table.get("kept"), Some(&"kept".to_string()));
}

#[test]
fn table_extraction_wrong_shape_is_empty() {
    let meta = vec![("environments".to_string(), MetaValue::MetaBool(true))];
    assert_eq!(extract(&meta, "environments").len(), 0);
    assert_eq!(extract(&Vec::new(), "environments").len(), 0);
}

#[test]
fn string_table_insert_overwrites() {
    let mut t = StringTable::new();
    t.insert("a".to_string(), "one".to_string());
    t.insert("a".to_string(), "two".to_string());
    assert_eq!(t.len(), 1);
    assert_eq!(t.get("a"), Some(&"two".to_string()));
    assert_eq!(t.get("missing"), None);
}

fn jupyter_meta(language: &str) -> Vec<(String, MetaValue)> {
    vec![(
        "jupyter".to_string(),
        MetaValue::MetaMap(vec![(
            "kernelspec".to_string(),
            MetaValue::MetaMap(vec![(
                "language".to_string(),
                MetaValue::MetaStr(language.to_string()),
            )]),
        )]),
    )]
}

#[test]
fn kernel_language_extraction() {
    assert_eq!(extract_kernel_language(&jupyter_meta("python")), Some("python".to_string()));
    assert_eq!(extract_kernel_language(&Vec::new()), None);
    let wrong = vec![("jupyter".to_string(), MetaValue::MetaStr("python".to_string()))];
    assert_eq!(extract_kernel_language(&wrong), None);
}

// Kernel language "python"; a code-cell container without "visible" loses
// its python code block, keeping its other children.
#[test]
fn auto_hide_removes_kernel_code_block() {
    let meta = jupyter_meta("python");
    let body = vec![BlockNode::Container(
        attrs("", &["cell", "code"], &[]),
        vec![
            BlockNode::CodeBlock(attrs("", &["python"], &[]), "print(1)".to_string()),
            para("output"),
        ],
    )];
    let language = extract_kernel_language(&meta);
    let out = auto_hide_document(Document { meta, body }, language);
    assert_eq!(
        out.body,
        vec![BlockNode::Container(attrs("", &["cell", "code"], &[]), vec![para("output")])]
    );
}

// The same container marked "visible" keeps the code block unchanged.
fn visible_cell_body() -> Vec<BlockNode> {
    vec![BlockNode::Container(
        attrs("", &["cell", "code", "visible"], &[]),
        vec![
            BlockNode::CodeBlock(attrs("", &["python"], &[]), "print(1)".to_string()),
            para("output"),
        ],
    )]
}

#[test]
fn auto_hide_respects_visible_override() {
    let meta = jupyter_meta("python");
    let language = extract_kernel_language(&meta);
    let out = auto_hide_document(Document { meta, body: visible_cell_body() }, language);
    assert_eq!(out.body, visible_cell_body());
}

// Any `tags` pair at all counts as visibility, whatever its value.
fn tagged_cell_body() -> Vec<BlockNode> {
    vec![BlockNode::Container(
        attrs("", &["cell", "code"], &[("tags", "whatever")]),
        vec![BlockNode::CodeBlock(attrs("", &["python"], &[]), "print(1)".to_string())],
    )]
}

#[test]
fn auto_hide_tags_pair_counts_as_visible() {
    let meta = jupyter_meta("python");
    let language = extract_kernel_language(&meta);
    let out = auto_hide_document(Document { meta, body: tagged_cell_body() }, language);
    assert_eq!(out.body, tagged_cell_body());
}

fn bare_code_cell_body() -> Vec<BlockNode> {
    vec![BlockNode::Container(
        attrs("", &["cell", "code"], &[]),
        vec![BlockNode::CodeBlock(attrs("", &["python"], &[]), "print(1)".to_string())],
    )]
}

#[test]
fn auto_hide_without_language_is_identity() {
    let out = auto_hide_document(doc(bare_code_cell_body()), None);
    assert_eq!(out.body, bare_code_cell_body());
}

fn env_table(entries: &[(&str, &str)]) -> StringTable {
    let mut t = StringTable::new();
    for (k, v) in entries {
        t.insert(k.to_string(), v.to_string());
    }
    t
}

// Environments table {"theorem": "theorem"}; a container with class
// "theorem" and arguments="Main Result" becomes begin marker, children,
// end marker.
#[test]
fn macro_injection_wraps_environment() {
    let body = vec![BlockNode::Container(
        attrs("", &["theorem"], &[("arguments", "Main Result")]),
        vec![para("All nice things hold.")],
    )];
    let out = inject_macros(
        doc(body),
        "latex",
        env_table(&[("theorem", "theorem")]),
        StringTable::new(),
    );
    assert_eq!(
        out.body,
        vec![
            BlockNode::RawBlock("latex".to_string(), "\\begin{theorem}{Main Result}".to_string()),
            para("All nice things hold."),
            BlockNode::RawBlock("latex".to_string(), "\\end{theorem}\n".to_string()),
        ]
    );
}

// An additional "unnumbered" class appends a star to the macro name in
// both markers.
#[test]
fn macro_injection_unnumbered_suffix() {
    let body = vec![BlockNode::Container(
        attrs("", &["theorem", "unnumbered"], &[("arguments", "Main Result")]),
        vec![para("content")],
    )];
    let out = inject_macros(
        doc(body),
        "latex",
        env_table(&[("theorem", "theorem")]),
        StringTable::new(),
    );
    assert_eq!(
        out.body,
        vec![
            BlockNode::RawBlock("latex".to_string(), "\\begin{theorem*}{Main Result}".to_string()),
            para("content"),
            BlockNode::RawBlock("latex".to_string(), "\\end{theorem*}\n".to_string()),
        ]
    );
}

#[test]
fn macro_injection_options_part() {
    let body = vec![BlockNode::Container(
        attrs("", &["proof"], &[("options", "of the main theorem")]),
        vec![para("qed")],
    )];
    let out = inject_macros(doc(body), "latex", env_table(&[("proof", "proof")]), StringTable::new());
    assert_eq!(
        out.body,
        vec![
            BlockNode::RawBlock("latex".to_string(), "\\begin{proof}[of the main theorem]".to_string()),
            para("qed"),
            BlockNode::RawBlock("latex".to_string(), "\\end{proof}\n".to_string()),
        ]
    );
}

#[test]
fn macro_injection_rewrites_spans() {
    let body = vec![BlockNode::Paragraph(vec![
        InlineNode::Text("see ".to_string()),
        InlineNode::Span(
            attrs("", &["kw"], &[]),
            vec![InlineNode::Text("induction".to_string())],
        ),
    ])];
    let out = inject_macros(
        doc(body),
        "latex",
        StringTable::new(),
        env_table(&[("kw", "keyword")]),
    );
    assert_eq!(
        out.body,
        vec![BlockNode::Paragraph(vec![
            InlineNode::Text("see ".to_string()),
            InlineNode::RawInline("latex".to_string(), "\\keyword{".to_string()),
            InlineNode::Text("induction".to_string()),
            InlineNode::RawInline("latex".to_string(), "}".to_string()),
        ])]
    );
}

fn theorem_body() -> Vec<BlockNode> {
    vec![BlockNode::Container(attrs("", &["theorem"], &[]), vec![para("content")])]
}

#[test]
fn macro_injection_inactive_for_other_formats() {
    let out = inject_macros(
        doc(theorem_body()),
        "html",
        env_table(&[("theorem", "theorem")]),
        StringTable::new(),
    );
    assert_eq!(out.body, theorem_body());
}

// Duplicate attribute pair keys are legal; lookup takes the first match.
#[test]
fn macro_injection_first_pair_wins() {
    let body = vec![BlockNode::Container(
        attrs("", &["theorem"], &[("arguments", "First"), ("arguments", "Second")]),
        vec![para("content")],
    )];
    let out = inject_macros(
        doc(body),
        "latex",
        env_table(&[("theorem", "theorem")]),
        StringTable::new(),
    );
    assert_eq!(
        out.body[0],
        BlockNode::RawBlock("latex".to_string(), "\\begin{theorem}{First}".to_string())
    );
}

// A list entry that is an inline run coerces to its flattened text and
// maps to itself.
#[test]
fn table_extraction_inline_run_entry() {
    let meta = vec![(
        "environments".to_string(),
        MetaValue::MetaList(vec![MetaValue::MetaInlines(vec![
            InlineNode::Text("re".to_string()),
            InlineNode::Text("mark".to_string()),
        ])]),
    )];
    let table = extract(&meta, "environments");
    assert_eq!(table.get("remark"), Some(&"remark".to_string()));
}

// Independent rules compose by sequential application.
#[test]
fn filters_compose_sequentially() {
    let body = vec![BlockNode::Container(
        attrs("", &["cell"], &[]),
        vec![
            BlockNode::Container(attrs("", &["hidden"], &[]), vec![para("secret")]),
            para("kept"),
        ],
    )];
    let out = hide_document(flatten_document(doc(body)));
    assert_eq!(out.body, vec![para("kept")]);
}

// The inline walk reaches spans nested inside formatting wrappers.
#[test]
fn macro_injection_reaches_nested_spans() {
    let body = vec![BlockNode::Paragraph(vec![InlineNode::Emph(vec![InlineNode::Span(
        attrs("", &["kw"], &[]),
        vec![InlineNode::Text("deep".to_string())],
    )])])];
    let out = inject_macros(
        doc(body),
        "latex",
        StringTable::new(),
        env_table(&[("kw", "keyword")]),
    );
    assert_eq!(
        out.body,
        vec![BlockNode::Paragraph(vec![InlineNode::Emph(vec![
            InlineNode::RawInline("latex".to_string(), "\\keyword{".to_string()),
            InlineNode::Text("deep".to_string()),
            InlineNode::RawInline("latex".to_string(), "}".to_string()),
        ])])]
    );
}
