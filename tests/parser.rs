use askama_parser::parser::{parse_expr, parse_nodes, Step};
use askama_parser::scan::{char_lit, identifier, keyword, nested_parenthesis, num_lit, str_lit};
use askama_parser::{chars_of, parse, strip_trailing_newline, split_ws_parts, Block, Expr, Node, ParseError, State, Syntax, WhitespaceHandling, Ws};

fn text(cs: &[char]) -> String {
    cs.iter().collect()
}

fn parse_default(src: &str) -> Result<Block, ParseError> {
    parse(src, &Syntax::default())
}

fn lit_text(n: &Node) -> String {
    match n {
        Node::Lit(l) => format!("{}{}{}", text(&l.lws), text(&l.val), text(&l.rws)),
        _ => panic!("not a literal: {:?}", n),
    }
}

fn var(name: &str) -> Expr {
    Expr::Var(chars_of(name))
}

#[test]
fn hello_name() {
    let block = parse_default("Hello, {{ name }}!").unwrap();
    assert_eq!(block.nodes.len(), 3);
    assert_eq!(lit_text(&block.nodes[0]), "Hello, ");
    assert_eq!(block.nodes[1], Node::Expr(Ws::new(None, None), var("name")));
    assert_eq!(lit_text(&block.nodes[2]), "!");
    assert_eq!(block.ws, Ws::new(None, None));
}

#[test]
fn trim_markers_on_conditional() {
    let block = parse_default("{%- if x -%}A{%- endif -%}").unwrap();
    assert_eq!(block.nodes.len(), 1);
    let s = Some(WhitespaceHandling::Suppress);
    match &block.nodes[0] {
        Node::Cond(branches, end_ws) => {
            assert_eq!(branches.len(), 1);
            assert_eq!(branches[0].ws, Ws::new(s, s));
            assert_eq!(branches[0].test, Some(var("x")));
            assert_eq!(branches[0].nodes.len(), 1);
            assert_eq!(lit_text(&branches[0].nodes[0]), "A");
            assert_eq!(*end_ws, Ws::new(s, s));
        }
        other => panic!("expected a conditional, got {:?}", other),
    }
}

#[test]
fn unterminated_expression_points_at_it() {
    let err = parse_default("{{ unterminated").unwrap_err();
    assert_eq!(err.line(), 1);
    assert_eq!(err.column(), 3);
    assert_eq!(err.snippet(), "\"unterminated\"");
}

#[test]
fn error_row_and_column_on_later_line() {
    let err = parse_default("ab\ncd {{ x").unwrap_err();
    assert_eq!(err.line(), 2);
    assert_eq!(err.column(), 6);
}

#[test]
fn snippet_is_truncated() {
    let rest = "y".repeat(50);
    let err = parse_default(&format!("{{{{ {}", rest)).unwrap_err();
    assert_eq!(err.snippet(), format!("{:?}...", "y".repeat(40)));
}

#[test]
fn plain_text_is_one_literal() {
    let block = parse_default("  just text \n").unwrap();
    assert_eq!(block.nodes.len(), 1);
    match &block.nodes[0] {
        Node::Lit(l) => {
            assert_eq!(text(&l.lws), "  ");
            assert_eq!(text(&l.val), "just text");
            assert_eq!(text(&l.rws), " \n");
        }
        other => panic!("{:?}", other),
    }
    assert!(parse_default("").unwrap().nodes.is_empty());
}

#[test]
fn split_is_lossless() {
    for s in ["", "   ", "\t\n", "a", "  a b  ", "x\n", "\n\ny"] {
        let cs = chars_of(s);
        let l = split_ws_parts(&cs, 0, cs.len());
        assert_eq!(format!("{}{}{}", text(&l.lws), text(&l.val), text(&l.rws)), s);
    }
    let cs = chars_of("   ");
    let l = split_ws_parts(&cs, 0, 3);
    assert_eq!(text(&l.lws), "   ");
    assert!(l.val.is_empty() && l.rws.is_empty());
}

#[test]
fn comment_is_skipped() {
    let block = parse_default("a{#- note +#}b").unwrap();
    assert_eq!(block.nodes.len(), 3);
    assert_eq!(
        block.nodes[1],
        Node::Comment(Ws::new(Some(WhitespaceHandling::Suppress), Some(WhitespaceHandling::Preserve)))
    );
    assert!(parse_default("{# open").is_err());
}

#[test]
fn loop_with_break() {
    let block = parse_default("{% for x in items %}{{ x }}{% break %}{%~ endfor %}").unwrap();
    match &block.nodes[0] {
        Node::Loop(l) => {
            assert_eq!(text(&l.var), "x");
            assert_eq!(l.iter, var("items"));
            assert_eq!(l.body.len(), 2);
            assert_eq!(l.body[1], Node::Break(Ws::new(None, None)));
            assert_eq!(l.ws2, Ws::new(Some(WhitespaceHandling::Minimize), None));
        }
        other => panic!("{:?}", other),
    }
}

#[test]
fn break_outside_loop_fails() {
    let err = parse_default("a {% break %}").unwrap_err();
    assert_eq!(err.line(), 1);
    assert_eq!(err.column(), 5);
    assert!(parse_default("{% continue %}").is_err());
}

#[test]
fn loop_depth_is_restored() {
    let syntax = Syntax::default();
    for src in ["{% for x in y %}ok{% endfor %}", "{% for x in y %}{% if %}{% endfor %}", "{% for x in y %}"] {
        let cs = chars_of(src);
        let mut st = State::new(&syntax);
        let _ = parse_nodes(&cs, 0, &mut st);
        assert_eq!(st.loop_depth, 0);
    }
    let mut st = State::new(&syntax);
    st.enter_loop();
    assert!(st.is_in_loop());
    let cs = chars_of("{% for a in b %}{% endfor %}");
    let _ = parse_nodes(&cs, 0, &mut st);
    assert_eq!(st.loop_depth, 1);
    st.leave_loop();
    assert!(!st.is_in_loop());
}

#[test]
fn elif_and_else_branches() {
    let block = parse_default("{% if a %}1{% elif b %}2{% else %}3{% endif %}").unwrap();
    match &block.nodes[0] {
        Node::Cond(branches, _) => {
            assert_eq!(branches.len(), 3);
            assert_eq!(branches[1].test, Some(var("b")));
            assert_eq!(branches[2].test, None);
            assert_eq!(lit_text(&branches[2].nodes[0]), "3");
        }
        other => panic!("{:?}", other),
    }
    assert!(parse_default("{% if a %}1{% else %}2{% else %}3{% endif %}").is_err());
    assert!(parse_default("{% if a %}1").is_err());
    assert!(parse_default("{% endif %}").is_err());
}

#[test]
fn expressions() {
    let e = |s: &str| match parse_expr(&chars_of(s), 0) {
        Step::Done(e, end) => (e, end),
        _ => panic!("no expression in {:?}", s),
    };
    assert_eq!(e("true").0, Expr::BoolLit(true));
    assert_eq!(e("12.5").0, Expr::NumLit(chars_of("12.5")));
    assert_eq!(e("12.").1, 2);
    assert_eq!(e("\"a\\\"b\"").0, Expr::StrLit(chars_of("a\\\"b")));
    assert_eq!(e("'c'").0, Expr::CharLit(chars_of("c")));
    assert_eq!(e("None").0, Expr::Path(vec![chars_of("None")]));
    assert_eq!(e("a::b").0, Expr::Path(vec![chars_of("a"), chars_of("b")]));
    assert_eq!(e("::a::b").0, Expr::Path(vec![vec![], chars_of("a"), chars_of("b")]));
    assert_eq!(e("( x )").0, Expr::Group(Box::new(var("x"))));
    assert_eq!(
        e("x | upper | truncate(\"(\", 3)").0,
        Expr::Filter(
            chars_of("truncate"),
            Some(chars_of("\"(\", 3")),
            Box::new(Expr::Filter(chars_of("upper"), None, Box::new(var("x"))))
        )
    );
    assert!(matches!(parse_expr(&chars_of("%"), 0), Step::Miss));
}

#[test]
fn scanner_primitives() {
    let cs = chars_of("foo_1 bar");
    assert_eq!(identifier(&cs, 0), Some(5));
    assert_eq!(identifier(&chars_of("1a"), 0), None);
    assert_eq!(keyword(&chars_of("endif %}"), 0, "endif"), Some(5));
    assert_eq!(keyword(&chars_of("endifx"), 0, "endif"), None);
    assert_eq!(num_lit(&chars_of("3.14x"), 0), Some(4));
    assert_eq!(num_lit(&chars_of("x"), 0), None);
    assert_eq!(str_lit(&chars_of("\"a\\\"b\" c"), 0), Some(5));
    assert_eq!(str_lit(&chars_of("\"open"), 0), None);
    assert_eq!(char_lit(&chars_of("'\\''"), 0), Some(3));
    assert_eq!(nested_parenthesis(&chars_of("a, (b), \")\") rest"), 0), Some(11));
    assert_eq!(nested_parenthesis(&chars_of("(a"), 0), None);
    assert_eq!(nested_parenthesis(&chars_of("abc"), 0), None);
}

#[test]
fn custom_syntax() {
    let mut syntax = Syntax::default();
    syntax.expr_start = "{!".to_string();
    syntax.expr_end = "!}".to_string();
    let block = parse(" {{ {! v !}", &syntax).unwrap();
    assert_eq!(block.nodes.len(), 2);
    assert_eq!(lit_text(&block.nodes[0]), " {{ ");
    assert_eq!(block.nodes[1], Node::Expr(Ws::new(None, None), var("v")));
}

#[test]
fn operators_group_by_precedence() {
    let block = parse_default("{{ a + b * c == d || !e }}").unwrap();
    let bin = |op: &str, l: Expr, r: Expr| Expr::BinOp(chars_of(op), Box::new(l), Box::new(r));
    let expected = bin(
        "||",
        bin("==", bin("+", var("a"), bin("*", var("b"), var("c"))), var("d")),
        Expr::Unary('!', Box::new(var("e"))),
    );
    assert_eq!(block.nodes[0], Node::Expr(Ws::new(None, None), expected));
}

#[test]
fn trim_marker_is_not_an_operator() {
    let block = parse_default("{{ a -}} {%- if b -%}{% endif %}").unwrap();
    assert_eq!(block.nodes[0], Node::Expr(Ws::new(None, Some(WhitespaceHandling::Suppress)), var("a")));
    assert!(matches!(block.nodes[2], Node::Cond(_, _)));
}

#[test]
fn attribute_index_and_call() {
    let block = parse_default("{{ user.name[0](x, 1) }}").unwrap();
    let expected = Expr::Call(
        Box::new(Expr::Index(
            Box::new(Expr::Attr(Box::new(var("user")), chars_of("name"))),
            Box::new(Expr::NumLit(chars_of("0"))),
        )),
        vec![var("x"), Expr::NumLit(chars_of("1"))],
    );
    assert_eq!(block.nodes[0], Node::Expr(Ws::new(None, None), expected));
}

#[test]
fn raw_block_is_verbatim() {
    let block = parse_default("{% raw %} {{ x }} {%- endraw %}").unwrap();
    match &block.nodes[0] {
        Node::Raw(ws1, lit, ws2) => {
            assert_eq!(*ws1, Ws::new(None, None));
            assert_eq!(text(&lit.val), "{{ x }}");
            assert_eq!(*ws2, Ws::new(Some(WhitespaceHandling::Suppress), None));
        }
        other => panic!("{:?}", other),
    }
    assert!(parse_default("{% raw %}open").is_err());
}

#[test]
fn named_blocks_and_references() {
    let block = parse_default("{% extends \"base.html\" %}{% block content %}hi{% endblock content %}{% include \"a.html\" %}").unwrap();
    assert_eq!(block.nodes.len(), 3);
    assert_eq!(block.nodes[0], Node::Extends(Ws::new(None, None), chars_of("base.html")));
    match &block.nodes[1] {
        Node::BlockDef(b) => {
            assert_eq!(text(&b.name), "content");
            assert_eq!(lit_text(&b.nodes[0]), "hi");
        }
        other => panic!("{:?}", other),
    }
    assert_eq!(block.nodes[2], Node::Include(Ws::new(None, None), chars_of("a.html")));
    assert!(parse_default("{% block %}x{% endblock %}").is_err());
}

#[test]
fn let_call_macro_and_match() {
    let block = parse_default(
        "{% let x = 1 %}{% macro m(a, b) %}{{ a }}{% endmacro %}{% call m(x, 2) %}\
         {% match v %}\n  {% when Some(y) %}Y{% when None %}N{% endmatch %}",
    )
    .unwrap();
    assert_eq!(block.nodes[0], Node::Let(Ws::new(None, None), chars_of("x"), Some(Expr::NumLit(chars_of("1")))));
    match &block.nodes[1] {
        Node::Macro(m) => {
            assert_eq!(text(&m.name), "m");
            assert_eq!(m.params, vec![chars_of("a"), chars_of("b")]);
            assert_eq!(m.nodes.len(), 1);
        }
        other => panic!("{:?}", other),
    }
    assert_eq!(
        block.nodes[2],
        Node::Call(Ws::new(None, None), chars_of("m"), vec![var("x"), Expr::NumLit(chars_of("2"))])
    );
    match &block.nodes[3] {
        Node::Match(m) => {
            assert_eq!(m.expr, var("v"));
            assert_eq!(m.arms.len(), 2);
            assert_eq!(
                m.arms[0].pattern,
                Expr::Call(Box::new(Expr::Path(vec![chars_of("Some")])), vec![var("y")])
            );
            assert_eq!(lit_text(&m.arms[1].nodes[0]), "N");
        }
        other => panic!("{:?}", other),
    }
    assert!(parse_default("{% match v %}x{% when a %}{% endmatch %}").is_err());
}

#[test]
fn dangling_tag_start_fails() {
    let err = parse_default("abc{%").unwrap_err();
    assert_eq!((err.line(), err.column()), (1, 3));
    assert!(parse_default("abc{{").is_err());
    assert!(parse_default("{{}}").is_err());
}

#[test]
fn trailing_newline_is_stripped_once() {
    assert_eq!(strip_trailing_newline("bar\n".to_string()), "bar");
    assert_eq!(strip_trailing_newline("bar\n\n".to_string()), "bar\n");
    assert_eq!(strip_trailing_newline("bar".to_string()), "bar");
    assert_eq!(strip_trailing_newline(String::new()), "");
}

#[test]
fn error_fields_match_accessors() {
    let err = parse_default("x\n{{ ").unwrap_err();
    assert_eq!((err.row, err.column), (err.line(), err.column()));
    assert_eq!((err.row, err.column), (2, 3));
    assert_eq!(err.snippet, "\"\"");
}
