use ra_assists::assist::{ActionBuilder, ActionData, Assist, AssistCtx, AssistId, AssistLabel, FileId, FileRange};
use ra_assists::edit::TextEditBuilder;
use ra_assists::indent::reindent;
use ra_assists::syntax::{SourceFile, SyntaxElement, SyntaxNode, SyntaxToken, TokenAtOffset, WHITESPACE};
use ra_assists::text::TextRange;

const L_CURLY: u16 = 2;
const IDENT: u16 = 3;
const R_CURLY: u16 = 4;
const LET_KW: u16 = 5;
const EQ: u16 = 6;
const INT: u16 = 7;
const PLUS: u16 = 8;
const SEMI: u16 = 9;
const ROOT: u16 = 20;
const BLOCK: u16 = 21;
const PATH_EXPR: u16 = 22;
const LET_STMT: u16 = 23;
const BIN_EXPR: u16 = 24;
const LITERAL: u16 = 25;

fn tok(kind: u16, start: usize, end: usize) -> SyntaxToken {
    SyntaxToken { kind, range: TextRange { start, end } }
}

fn node(kind: u16, start: usize, end: usize) -> SyntaxNode {
    SyntaxNode { kind, range: TextRange { start, end } }
}

/// `{\n    x\n}`: a block holding one path expression on an indented line.
fn block_file() -> SourceFile {
    let tokens = vec![
        tok(L_CURLY, 0, 1),
        tok(WHITESPACE, 1, 6),
        tok(IDENT, 6, 7),
        tok(WHITESPACE, 7, 8),
        tok(R_CURLY, 8, 9),
    ];
    let nodes = vec![node(ROOT, 0, 9), node(BLOCK, 0, 9), node(PATH_EXPR, 6, 7)];
    SourceFile::new("{\n    x\n}", tokens, nodes).unwrap()
}

/// `let x = 1 + 1;\nx`
const LET_TEXT: &str = "let x = 1 + 1;\nx";

fn let_file() -> SourceFile {
    let tokens = vec![
        tok(LET_KW, 0, 3),
        tok(WHITESPACE, 3, 4),
        tok(IDENT, 4, 5),
        tok(WHITESPACE, 5, 6),
        tok(EQ, 6, 7),
        tok(WHITESPACE, 7, 8),
        tok(INT, 8, 9),
        tok(WHITESPACE, 9, 10),
        tok(PLUS, 10, 11),
        tok(WHITESPACE, 11, 12),
        tok(INT, 12, 13),
        tok(SEMI, 13, 14),
        tok(WHITESPACE, 14, 15),
        tok(IDENT, 15, 16),
    ];
    let nodes = vec![
        node(ROOT, 0, 16),
        node(LET_STMT, 0, 14),
        node(BIN_EXPR, 8, 13),
        node(LITERAL, 8, 9),
        node(LITERAL, 12, 13),
        node(PATH_EXPR, 15, 16),
    ];
    SourceFile::new(LET_TEXT, tokens, nodes).unwrap()
}

fn ctx(file: &SourceFile, start: usize, end: usize, compute: bool) -> AssistCtx {
    let frange = FileRange { file_id: FileId(1), range: TextRange { start, end } };
    AssistCtx::with_ctx(|_| file.clone(), frange, compute, |c| c)
}

fn label(text: &str) -> AssistLabel {
    AssistLabel::new(AssistId("inline_local_variable"), text.to_string()).unwrap()
}

/// Inlines the variable of the `let` statement at the cursor into the one
/// use after it, in the fixed layout of `let_file`.
fn inline_variable(ctx: AssistCtx) -> Option<Assist> {
    let stmt = ctx.find_node_at_offset(LET_STMT)?;
    let init = node(BIN_EXPR, 8, 13);
    let usage = node(PATH_EXPR, 15, 16);
    let init_text: String = LET_TEXT.chars().skip(init.range.start).take(init.range.len()).collect();
    ctx.add_assist(label("Inline variable"), move || {
        let mut edit = ActionBuilder::new();
        edit.delete(TextRange { start: stmt.range.start, end: usage.range.start });
        edit.replace(usage.range, init_text);
        edit.set_cursor(0);
        edit.target(stmt.range);
        edit
    })
}

#[test]
fn builder_keeps_atoms_in_range_order() {
    let mut b = TextEditBuilder::new();
    b.replace(TextRange { start: 6, end: 8 }, "XY".to_string());
    b.insert(0, "<".to_string());
    b.delete(TextRange { start: 2, end: 4 });
    b.insert(0, ">".to_string());
    let edit = b.finish();
    let starts: Vec<(usize, usize)> = edit.atoms().iter().map(|a| (a.delete.start, a.delete.end)).collect();
    assert_eq!(starts, vec![(0, 0), (0, 0), (2, 4), (6, 8)]);
    assert_eq!(edit.atoms()[0].insert, "<");
    assert_eq!(edit.atoms()[1].insert, ">");
    assert_eq!(edit.apply("abcdefghij"), "<>abefXYij");
}

#[test]
fn apply_single_replacement() {
    let mut b = TextEditBuilder::new();
    b.replace(TextRange { start: 4, end: 5 }, "y".to_string());
    assert_eq!(b.finish().apply("let x = 1;"), "let y = 1;");
}

#[test]
fn apply_empty_edit_keeps_text() {
    let edit = TextEditBuilder::new().finish();
    assert!(edit.is_empty());
    assert_eq!(edit.apply("héllo"), "héllo");
}

#[test]
fn reindent_puts_indent_after_each_line_break() {
    assert_eq!(reindent("a\n  b\nc", "    "), "a\n      b\n    c");
    assert_eq!(reindent("one line", "    "), "one line");
    assert_eq!(reindent("", "  "), "");
}

#[test]
fn source_file_rejects_gaps_and_bad_root() {
    let gap = vec![tok(IDENT, 0, 1), tok(IDENT, 2, 3)];
    assert!(SourceFile::new("abc", gap, vec![node(ROOT, 0, 3)]).is_none());
    let short = vec![tok(IDENT, 0, 2)];
    assert!(SourceFile::new("abc", short, vec![node(ROOT, 0, 3)]).is_none());
    let empty_token = vec![tok(IDENT, 0, 0), tok(IDENT, 0, 3)];
    assert!(SourceFile::new("abc", empty_token, vec![node(ROOT, 0, 3)]).is_none());
    assert!(SourceFile::new("abc", vec![tok(IDENT, 0, 3)], vec![node(ROOT, 0, 2)]).is_none());
    assert!(SourceFile::new("abc", vec![tok(IDENT, 0, 3)], vec![]).is_none());
    assert!(SourceFile::new("abc", vec![tok(IDENT, 0, 3)], vec![node(ROOT, 0, 3), node(ROOT, 2, 4)]).is_none());
    let ok = SourceFile::new("abc", vec![tok(IDENT, 0, 3)], vec![node(ROOT, 0, 3)]).unwrap();
    assert_eq!(ok.text(), "abc");
    assert_eq!(ok.root(), node(ROOT, 0, 3));
}

#[test]
fn token_at_offset_inside_between_and_outside() {
    let f = block_file();
    assert_eq!(f.token_at_offset(3), TokenAtOffset::Single(tok(WHITESPACE, 1, 6)));
    assert_eq!(f.token_at_offset(6), TokenAtOffset::Between(tok(WHITESPACE, 1, 6), tok(IDENT, 6, 7)));
    assert_eq!(f.token_at_offset(0), TokenAtOffset::Single(tok(L_CURLY, 0, 1)));
    assert_eq!(f.token_at_offset(9), TokenAtOffset::Single(tok(R_CURLY, 8, 9)));
    assert_eq!(f.token_at_offset(10), TokenAtOffset::Nothing);
    assert_eq!(f.find_token_at_offset(6, IDENT), Some(tok(IDENT, 6, 7)));
    assert_eq!(f.find_token_at_offset(6, WHITESPACE), Some(tok(WHITESPACE, 1, 6)));
    assert_eq!(f.find_token_at_offset(6, R_CURLY), None);
}

#[test]
fn node_at_offset_picks_innermost() {
    let f = block_file();
    assert_eq!(f.find_node_at_offset(6, PATH_EXPR), Some(node(PATH_EXPR, 6, 7)));
    assert_eq!(f.find_node_at_offset(6, BLOCK), Some(node(BLOCK, 0, 9)));
    assert_eq!(f.find_node_at_offset(3, PATH_EXPR), None);
    let g = let_file();
    assert_eq!(g.find_node_at_offset(10, LITERAL), None);
    assert_eq!(g.find_node_at_offset(9, LITERAL), Some(node(LITERAL, 8, 9)));
    assert_eq!(g.find_node_at_offset(10, BIN_EXPR), Some(node(BIN_EXPR, 8, 13)));
}

#[test]
fn covering_element_prefers_token_then_smallest_node() {
    let f = let_file();
    assert_eq!(f.covering_element(TextRange { start: 10, end: 11 }), SyntaxElement::Token(tok(PLUS, 10, 11)));
    assert_eq!(f.covering_element(TextRange { start: 9, end: 9 }), SyntaxElement::Token(tok(INT, 8, 9)));
    assert_eq!(f.covering_element(TextRange { start: 8, end: 11 }), SyntaxElement::Node(node(BIN_EXPR, 8, 13)));
    assert_eq!(f.covering_element(TextRange { start: 4, end: 11 }), SyntaxElement::Node(node(LET_STMT, 0, 14)));
    assert_eq!(f.covering_element(TextRange { start: 0, end: 16 }), SyntaxElement::Node(node(ROOT, 0, 16)));
    let c = ctx(&f, 8, 11, false);
    assert_eq!(c.covering_element(), SyntaxElement::Node(node(BIN_EXPR, 8, 13)));
    assert_eq!(c.covering_node_for_range(TextRange { start: 15, end: 16 }), SyntaxElement::Token(tok(IDENT, 15, 16)));
}

#[test]
fn leading_indent_of_indented_node() {
    let f = block_file();
    assert_eq!(f.leading_indent(&node(PATH_EXPR, 6, 7)), Some("    ".to_string()));
    assert_eq!(f.leading_indent(&node(BLOCK, 0, 9)), None);
    let g = let_file();
    assert_eq!(g.leading_indent(&node(PATH_EXPR, 15, 16)), Some("".to_string()));
    assert_eq!(g.leading_indent(&node(BIN_EXPR, 8, 13)), None);
}

#[test]
fn leading_indent_none_after_non_whitespace_line_break() {
    let tokens = vec![tok(IDENT, 0, 3), tok(IDENT, 3, 4)];
    let f = SourceFile::new("a\nbc", tokens, vec![node(ROOT, 0, 4), node(PATH_EXPR, 3, 4)]).unwrap();
    assert_eq!(f.leading_indent(&node(PATH_EXPR, 3, 4)), None);
}

#[test]
fn replace_node_and_indent_reindents_continuation_lines() {
    let f = block_file();
    let mut b = ActionBuilder::new();
    b.replace_node_and_indent(&f, &node(PATH_EXPR, 6, 7), "foo(\n    y,\n)".to_string());
    let action = b.build();
    assert_eq!(action.edit.atoms().len(), 1);
    assert_eq!(action.edit.atoms()[0].delete, TextRange { start: 6, end: 7 });
    assert_eq!(action.edit.atoms()[0].insert, "foo(\n        y,\n    )");
    assert_eq!(action.edit.apply("{\n    x\n}"), "{\n    foo(\n        y,\n    )\n}");
}

#[test]
fn labels_must_start_uppercase() {
    assert!(AssistLabel::new(AssistId("a"), "Inline variable".to_string()).is_some());
    assert!(AssistLabel::new(AssistId("a"), "inline variable".to_string()).is_none());
    assert!(AssistLabel::new(AssistId("a"), String::new()).is_none());
    assert!(AssistLabel::new(AssistId("a"), "Éclair".to_string()).is_some());
    assert!(AssistLabel::new(AssistId("a"), "1 thing".to_string()).is_none());
}

#[test]
fn check_mode_does_not_build_edits() {
    let f = block_file();
    let r = ctx(&f, 6, 6, false).add_assist(label("Replace"), || -> ActionBuilder { panic!("edit computed in check mode") });
    match r {
        Some(Assist::Unresolved { label }) => assert_eq!(label.label, "Replace"),
        other => panic!("unexpected {:?}", other),
    }
}

#[test]
fn check_and_apply_give_same_verdict() {
    let f = let_file();
    let checked = inline_variable(ctx(&f, 10, 10, false)).unwrap();
    let applied = inline_variable(ctx(&f, 10, 10, true)).unwrap();
    assert_eq!(checked.label().label, applied.label().label);
    assert!(!checked.is_resolved());
    assert!(applied.is_resolved());
}

#[test]
fn inline_variable_scenario() {
    let f = let_file();
    match inline_variable(ctx(&f, 10, 10, false)) {
        Some(Assist::Unresolved { label }) => assert_eq!(label.label, "Inline variable"),
        other => panic!("unexpected {:?}", other),
    }
    let applied = inline_variable(ctx(&f, 10, 10, true));
    let action = match applied {
        Some(Assist::Resolved { assist }) => match assist.action_data {
            ActionData::Single(a) => a,
            ActionData::Group(_) => panic!("group"),
        },
        other => panic!("unexpected {:?}", other),
    };
    let ranges: Vec<TextRange> = action.edit.atoms().iter().map(|a| a.delete).collect();
    assert_eq!(ranges, vec![TextRange { start: 0, end: 15 }, TextRange { start: 15, end: 16 }]);
    assert_eq!(action.cursor_position, Some(0));
    assert_eq!(action.target, Some(TextRange { start: 0, end: 14 }));
    assert_eq!(action.edit.apply(LET_TEXT), "1 + 1");
}

#[test]
fn no_eligible_node_gives_no_result() {
    let f = let_file();
    assert!(inline_variable(ctx(&f, 16, 16, false)).is_none());
    assert!(inline_variable(ctx(&f, 16, 16, true)).is_none());
}

#[test]
fn group_holds_every_alternative_in_order() {
    let f = let_file();
    let make = || {
        let mut first = ActionBuilder::new();
        first.insert(0, "use a::X;\n".to_string());
        first.label("Import a::X".to_string());
        let mut second = ActionBuilder::default();
        second.insert(0, "use b::X;\n".to_string());
        second.label("Import b::X".to_string());
        vec![first, second]
    };
    let r = ctx(&f, 4, 4, true).add_assist_group(label("Import X"), make).unwrap();
    match r {
        Assist::Resolved { assist } => {
            assert_eq!(assist.label.label, "Import X");
            match assist.action_data {
                ActionData::Group(actions) => {
                    assert_eq!(actions.len(), 2);
                    assert_eq!(actions[0].label, Some("Import a::X".to_string()));
                    assert_eq!(actions[1].label, Some("Import b::X".to_string()));
                    assert_eq!(actions[1].edit.apply("x"), "use b::X;\nx");
                }
                ActionData::Single(_) => panic!("single"),
            }
        }
        Assist::Unresolved { .. } => panic!("unresolved"),
    }
    let unresolved = ctx(&f, 4, 4, false).add_assist_group(label("Import X"), make).unwrap();
    assert!(!unresolved.is_resolved());
}

#[test]
fn builder_setters_last_write_wins() {
    let mut b = ActionBuilder::default();
    b.set_cursor(3);
    b.set_cursor(5);
    b.target(TextRange { start: 1, end: 2 });
    b.text_edit_builder().insert(1, "z".to_string());
    let a = b.build();
    assert_eq!(a.cursor_position, Some(5));
    assert_eq!(a.target, Some(TextRange { start: 1, end: 2 }));
    assert_eq!(a.label, None);
    assert_eq!(a.edit.apply("ab"), "azb");
}

#[test]
fn context_clone_and_analyzer_see_same_file() {
    let f = block_file();
    let c = ctx(&f, 6, 6, true);
    let d = c.clone();
    assert_eq!(d.frange, c.frange);
    assert!(d.should_compute_edit);
    assert_eq!(d.source_file.text(), "{\n    x\n}");
    assert_eq!(d.token_at_offset(), TokenAtOffset::Between(tok(WHITESPACE, 1, 6), tok(IDENT, 6, 7)));
    assert_eq!(d.find_token_at_offset(IDENT), Some(tok(IDENT, 6, 7)));
    let seen = c.source_analyzer(|id, n, off| (id, n, off), &node(PATH_EXPR, 6, 7), Some(6));
    assert_eq!(seen, (FileId(1), node(PATH_EXPR, 6, 7), Some(6)));
}

#[test]
fn text_range_helpers() {
    let r = TextRange::new(2, 5);
    assert_eq!(r.len(), 3);
    assert!(r.contains_inclusive(5));
    assert!(!r.contains_inclusive(6));
    assert!(r.contains_range(&TextRange::new(3, 5)));
    assert!(r.is_disjoint(&TextRange::new(5, 7)));
    assert!(!r.is_disjoint(&TextRange::new(4, 7)));
    assert_eq!(TextRange::empty_at(4), TextRange::new(4, 4));
}

#[test]
fn extend_places_each_atom() {
    let mut base = TextEditBuilder::new();
    base.replace(TextRange { start: 4, end: 6 }, "__".to_string());
    let mut more = TextEditBuilder::new();
    more.insert(8, "!".to_string());
    more.delete(TextRange { start: 0, end: 1 });
    base.extend(more.finish());
    let edit = base.finish();
    let ranges: Vec<(usize, usize)> = edit.atoms().iter().map(|a| (a.delete.start, a.delete.end)).collect();
    assert_eq!(ranges, vec![(0, 1), (4, 6), (8, 8)]);
    assert_eq!(edit.apply("abcdefgh"), "bcd__gh!");
}

#[test]
fn replace_ast_adds_the_diff() {
    let mut b = ActionBuilder::new();
    b.insert(0, "// ".to_string());
    let diff = |old_expr: &str, new_expr: &str| {
        let mut d = TextEditBuilder::new();
        if old_expr != new_expr {
            d.replace(TextRange { start: 8, end: 13 }, new_expr.to_string());
        }
        d.finish()
    };
    b.replace_ast(diff, "1 + 1", "2");
    let action = b.build();
    assert_eq!(action.edit.atoms().len(), 2);
    assert_eq!(action.edit.apply("let x = 1 + 1;"), "// let x = 2;");
}
