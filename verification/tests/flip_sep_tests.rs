//! The flip-around-separator assist.

use elp_core::assists::Assist;
use elp_core::base::FileId;
use elp_core::base::TextRange;
use elp_core::flip_sep::flip_sep;
use elp_core::syntax::SyntaxElement;
use elp_core::syntax::SyntaxKind;

const FILE: FileId = FileId(8);

fn find_from(s: &str, needle: &str, from: usize) -> TextRange {
    let at = s[from..].find(needle).expect("needle present") + from;
    TextRange { start: at as u32, end: (at + needle.len()) as u32 }
}

fn tok(kind: SyntaxKind, r: TextRange) -> SyntaxElement {
    SyntaxElement { kind, range: r, is_token: true, children: vec![] }
}

fn node(kind: SyntaxKind, r: TextRange, children: Vec<SyntaxElement>) -> SyntaxElement {
    SyntaxElement { kind, range: r, is_token: false, children }
}

fn leaf(r: TextRange) -> SyntaxElement {
    node(SyntaxKind::Node, r, vec![])
}

fn run(tree: &SyntaxElement, content: &str, off: u32) -> Vec<Assist> {
    let mut acc = Vec::new();
    flip_sep(&mut acc, tree, &content.as_bytes().to_vec(), FILE, off);
    acc
}

fn apply(src: &str, a: &Assist) -> String {
    String::from_utf8(a.source_change.apply(&src.as_bytes().to_vec())).unwrap()
}

fn whole(s: &str) -> TextRange {
    TextRange { start: 0, end: s.len() as u32 }
}

#[test]
fn test_comma_in_string_not_a_separator() {
    let src = "foo() ->\n    \"This is not a pivot, I think\".\n";
    let cursor = find_from(src, ", I think", 0).start;
    // the comma lies inside the string token, so no separator exists there
    let string_tok = tok(SyntaxKind::StringLit, find_from(src, "\"This is not a pivot, I think\"", 0));
    let tree = node(SyntaxKind::Node, whole(src), vec![string_tok]);
    assert_eq!(run(&tree, src, cursor).len(), 0);
}

#[test]
fn test_semicolon_in_string_not_a_separator() {
    let src = "foo() ->\n    \"This is not a pivot; I think\".\n";
    let cursor = find_from(src, "; I think", 0).start;
    let string_tok = tok(SyntaxKind::StringLit, find_from(src, "\"This is not a pivot; I think\"", 0));
    let tree = node(SyntaxKind::Node, whole(src), vec![string_tok]);
    assert_eq!(run(&tree, src, cursor).len(), 0);
}

#[test]
fn test_comma_in_atom_not_a_separator() {
    let src = "foo() ->\n    'quoted,atom'.\n";
    let cursor = find_from(src, ",atom", 0).start;
    let atom_tok = tok(SyntaxKind::QuotedAtom, find_from(src, "'quoted,atom'", 0));
    let tree = node(SyntaxKind::Node, whole(src), vec![atom_tok]);
    assert_eq!(run(&tree, src, cursor).len(), 0);
}

#[test]
fn test_comma_in_semicolon_not_a_separator() {
    let src = "foo() ->\n    'quoted;atom'.\n";
    let cursor = find_from(src, ";atom", 0).start;
    let atom_tok = tok(SyntaxKind::QuotedAtom, find_from(src, "'quoted;atom'", 0));
    let tree = node(SyntaxKind::Node, whole(src), vec![atom_tok]);
    assert_eq!(run(&tree, src, cursor).len(), 0);
}

#[test]
fn test_two_list_elements() {
    let src = "foo() -> [1, 2].\n";
    let one = find_from(src, "1", 0);
    let comma = find_from(src, ",", 0);
    let two = find_from(src, "2", 0);
    let list = node(
        SyntaxKind::Node,
        find_from(src, "[1, 2]", 0),
        vec![
            leaf(one),
            tok(SyntaxKind::AnonComma, comma),
            tok(SyntaxKind::Whitespace, TextRange { start: comma.end, end: two.start }),
            leaf(two),
        ],
    );
    let tree = node(SyntaxKind::Node, whole(src), vec![list]);
    let assists = run(&tree, src, comma.start);
    assert_eq!(assists.len(), 1);
    assert_eq!(assists[0].label, "Flip around separator");
    assert_eq!(apply(src, &assists[0]), "foo() -> [2, 1].\n");
}

#[test]
fn test_two_function_params() {
    let src = "foo(Foo, some_atom) -> ok.\n";
    let p1 = find_from(src, "Foo,", 0);
    let p1 = TextRange { start: p1.start, end: p1.end - 1 };
    let comma = find_from(src, ",", 0);
    let p2 = find_from(src, "some_atom", 0);
    let args = node(
        SyntaxKind::Node,
        find_from(src, "(Foo, some_atom)", 0),
        vec![
            leaf(p1),
            tok(SyntaxKind::AnonComma, comma),
            tok(SyntaxKind::Whitespace, TextRange { start: comma.end, end: p2.start }),
            leaf(p2),
        ],
    );
    let tree = node(SyntaxKind::Node, whole(src), vec![args]);
    let assists = run(&tree, src, comma.start);
    assert_eq!(assists.len(), 1);
    assert_eq!(apply(src, &assists[0]), "foo(some_atom, Foo) -> ok.\n");
}

#[test]
fn test_two_function_clauses() {
    let src = "foo({X, Y}) -> X ++ Y;\nfoo(XY) -> XY.\n";
    let c1 = find_from(src, "foo({X, Y}) -> X ++ Y", 0);
    let semi = find_from(src, ";", 0);
    let c2 = find_from(src, "foo(XY) -> XY", 0);
    let inner_comma = find_from(src, ", Y", 0);
    let clause1 = node(
        SyntaxKind::ClauseNode,
        c1,
        vec![tok(SyntaxKind::AnonComma, TextRange { start: inner_comma.start, end: inner_comma.start + 1 })],
    );
    let fun_decl = node(
        SyntaxKind::FunDeclNode,
        whole(src),
        vec![
            clause1,
            tok(SyntaxKind::AnonSemi, semi),
            tok(SyntaxKind::Whitespace, TextRange { start: semi.end, end: c2.start }),
            node(SyntaxKind::ClauseNode, c2, vec![]),
        ],
    );
    let assists = run(&fun_decl, src, semi.start);
    assert_eq!(assists.len(), 1);
    assert_eq!(apply(src, &assists[0]), "foo(XY) -> XY;\nfoo({X, Y}) -> X ++ Y.\n");
}

#[test]
fn test_two_tuple_elements() {
    let src = "foo({X, Y}) -> X ++ Y.\n";
    let x = find_from(src, "X,", 0);
    let x = TextRange { start: x.start, end: x.start + 1 };
    let comma = find_from(src, ",", 0);
    let y = find_from(src, "Y}", 0);
    let y = TextRange { start: y.start, end: y.start + 1 };
    let tuple = node(
        SyntaxKind::Node,
        find_from(src, "{X, Y}", 0),
        vec![
            leaf(x),
            tok(SyntaxKind::AnonComma, comma),
            tok(SyntaxKind::Whitespace, TextRange { start: comma.end, end: y.start }),
            leaf(y),
        ],
    );
    let tree = node(SyntaxKind::Node, whole(src), vec![tuple]);
    let assists = run(&tree, src, comma.start);
    assert_eq!(assists.len(), 1);
    assert_eq!(apply(src, &assists[0]), "foo({Y, X}) -> X ++ Y.\n");
}

#[test]
fn test_two_statements() {
    let src = "foo(Foo, some_atom) ->\n    lists:reverse([1,2,3]),\n    ok.\n";
    let s1 = find_from(src, "lists:reverse([1,2,3])", 0);
    let comma = find_from(src, "]),", 0);
    let comma = TextRange { start: comma.start + 2, end: comma.start + 3 };
    let s2 = find_from(src, "ok", 0);
    let body = node(
        SyntaxKind::Node,
        TextRange { start: s1.start, end: s2.end },
        vec![
            leaf(s1),
            tok(SyntaxKind::AnonComma, comma),
            tok(SyntaxKind::Whitespace, TextRange { start: comma.end, end: s2.start }),
            leaf(s2),
        ],
    );
    // the head also carries a comma, inside the parameter list
    let head_comma = find_from(src, ",", 0);
    let params = node(
        SyntaxKind::Node,
        find_from(src, "(Foo, some_atom)", 0),
        vec![
            leaf(TextRange { start: find_from(src, "Foo,", 0).start, end: find_from(src, "Foo,", 0).start + 3 }),
            tok(SyntaxKind::AnonComma, head_comma),
            leaf(find_from(src, "some_atom", 0)),
        ],
    );
    let tree = node(SyntaxKind::Node, whole(src), vec![params, body]);
    let assists = run(&tree, src, comma.start);
    assert_eq!(assists.len(), 1);
    assert_eq!(
        apply(src, &assists[0]),
        "foo(Foo, some_atom) ->\n    ok,\n    lists:reverse([1,2,3]).\n"
    );
}

#[test]
fn test_two_cases() {
    let src = "foo(Foo) ->\n    case Foo of\n        a -> x;\n        b -> y\n    end.\n";
    let c1 = find_from(src, "a -> x", 0);
    let semi = find_from(src, ";", 0);
    let c2 = find_from(src, "b -> y", 0);
    let arms = node(
        SyntaxKind::Node,
        TextRange { start: c1.start, end: c2.end },
        vec![
            leaf(c1),
            tok(SyntaxKind::AnonSemi, semi),
            tok(SyntaxKind::Whitespace, TextRange { start: semi.end, end: c2.start }),
            leaf(c2),
        ],
    );
    let tree = node(SyntaxKind::Node, whole(src), vec![arms]);
    let assists = run(&tree, src, semi.start);
    assert_eq!(assists.len(), 1);
    assert_eq!(
        apply(src, &assists[0]),
        "foo(Foo) ->\n    case Foo of\n        b -> y;\n        a -> x\n    end.\n"
    );
}

#[test]
fn test_multiple_function_params() {
    let src = "foo(Bar, Foo, some_atom) -> ok.\n";
    let bar = find_from(src, "Bar", 0);
    let comma1 = find_from(src, ",", 0);
    let foo_p = find_from(src, "Foo", 0);
    let comma2 = find_from(src, ",", comma1.end as usize);
    let some = find_from(src, "some_atom", 0);
    let params = node(
        SyntaxKind::Node,
        find_from(src, "(Bar, Foo, some_atom)", 0),
        vec![
            leaf(bar),
            tok(SyntaxKind::AnonComma, comma1),
            tok(SyntaxKind::Whitespace, TextRange { start: comma1.end, end: foo_p.start }),
            leaf(foo_p),
            tok(SyntaxKind::AnonComma, comma2),
            tok(SyntaxKind::Whitespace, TextRange { start: comma2.end, end: some.start }),
            leaf(some),
        ],
    );
    let tree = node(SyntaxKind::Node, whole(src), vec![params]);
    // flipping around the second separator swaps only its two neighbours
    let assists = run(&tree, src, comma2.start);
    assert_eq!(assists.len(), 1);
    assert_eq!(apply(src, &assists[0]), "foo(Bar, some_atom, Foo) -> ok.\n");
}
