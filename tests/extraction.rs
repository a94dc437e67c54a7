use code_search::entity::{CodeType, TCode, TContext};
use code_search::syntax::{PlainImpl, PlainItem, PlainParts};
use code_search::extract::{
    build_entity, doc_of, file_context, group_entities, is_rust_file, parse_impl, parse_item,
    parse_struct, Decl, is_source_path, path_text, process_dir, should_descend,
    ExtractionError, SourceFile,
};

fn path(parts: &[&str]) -> Vec<String> {
    parts.iter().map(|p| p.to_string()).collect()
}

fn file(parts: &[&str], text: &str) -> SourceFile {
    SourceFile { path: path(parts), text: text.to_string() }
}

fn snippet(t: &TCode) -> String {
    t.context.as_ref().unwrap().snippet.clone().unwrap()
}

const SHAPES: &str = "/// A point.\nstruct Point {\n    x: i32,\n    y: i32,\n}\n\nenum Shape {\n    Circle,\n    Square,\n}\n\nfn area(s: &Shape) -> i32 {\n    0\n}\n";

#[test]
fn add_snippet_takes_inclusive_lines() {
    let mut c = TContext {
        module: Some("src".to_string()),
        file_path: None,
        file_name: None,
        struct_name: None,
        snippet: None,
    };
    let lines = path(&["a", "b", "c", "d"]);
    c.add_snippet(&lines, 2, 3);
    assert_eq!(c.snippet, Some("b\nc\n".to_string()));
    assert_eq!(c.module, Some("src".to_string()));
    c.add_snippet(&lines, 4, 4);
    assert_eq!(c.snippet, Some("d\n".to_string()));
}

#[test]
fn code_type_names() {
    assert_eq!(CodeType::Function.name(), "Function");
    assert_eq!(CodeType::Struct.name(), "Struct");
    assert_eq!(CodeType::Enum.name(), "Enum");
    assert_eq!(CodeType::Impl.name(), "Impl");
}

#[test]
fn rust_file_names() {
    assert!(is_rust_file(&"lib.rs".to_string()));
    assert!(is_rust_file(&"a.b.rs".to_string()));
    assert!(!is_rust_file(&".rs".to_string()));
    assert!(!is_rust_file(&"lib.rsx".to_string()));
    assert!(!is_rust_file(&"README.md".to_string()));
    assert!(should_descend(&"src".to_string()));
    assert!(!should_descend(&"target".to_string()));
}

#[test]
fn source_paths_skip_build_output() {
    assert!(is_source_path(&path(&["src", "lib.rs"])));
    assert!(is_source_path(&path(&["main.rs"])));
    assert!(!is_source_path(&path(&["target", "debug", "build.rs"])));
    assert!(!is_source_path(&path(&["src", "notes.txt"])));
    assert!(!is_source_path(&path(&[])));
}

#[test]
fn context_of_a_file() {
    let c = file_context(&path(&["crates", "parser", "lib.rs"]));
    assert_eq!(c.module, Some("parser".to_string()));
    assert_eq!(c.file_path, Some("crates/parser/lib.rs".to_string()));
    assert_eq!(c.file_name, Some("lib.rs".to_string()));
    assert_eq!(c.struct_name, None);
    assert_eq!(c.snippet, None);
    let root = file_context(&path(&["main.rs"]));
    assert_eq!(root.module, Some(String::new()));
    assert_eq!(path_text(&path(&["a", "b"])), "a/b");
}

#[test]
fn non_matching_files_give_no_entities() {
    let files = vec![
        file(&["README.md"], "struct NotRust;"),
        file(&["docs", "notes.txt"], "fn nope() {}"),
        file(&["target", "gen.rs"], "fn built() {}"),
    ];
    assert!(process_dir(&files).unwrap().is_empty());
    assert!(process_dir(&Vec::new()).unwrap().is_empty());
}

#[test]
fn spans_and_snippets_agree() {
    let files = vec![file(&["src", "shapes.rs"], SHAPES)];
    let v = process_dir(&files).unwrap();
    assert_eq!(v.len(), 3);
    for t in &v {
        assert!(t.line_from <= t.line && t.line <= t.line_to);
        let s = snippet(t);
        assert_eq!(s.lines().count(), t.line_to - t.line_from + 1);
        let lines: Vec<&str> = SHAPES.lines().collect();
        let mut expected = String::new();
        for l in &lines[t.line_from - 1..t.line_to] {
            expected.push_str(l);
            expected.push('\n');
        }
        assert_eq!(s, expected);
    }
}

#[test]
fn struct_and_enum_precede_function() {
    let files = vec![file(&["src", "shapes.rs"], SHAPES)];
    let v = process_dir(&files).unwrap();
    let kinds: Vec<CodeType> = v.iter().map(|t| t.code_type).collect();
    assert_eq!(kinds, vec![CodeType::Struct, CodeType::Enum, CodeType::Function]);
    assert_eq!(v[0].name, "Point");
    assert_eq!(v[1].name, "Shape");
    assert_eq!(v[2].name, "area");
}

#[test]
fn functions_declared_first_still_come_last() {
    let text = "fn first() {}\nstruct Later;\nfn second() {}\nenum Last { A }\n";
    let v = process_dir(&vec![file(&["a.rs"], text)]).unwrap();
    let names: Vec<&str> = v.iter().map(|t| t.name.as_str()).collect();
    assert_eq!(names, vec!["Later", "Last", "first", "second"]);
}

#[test]
fn groups_keep_file_order() {
    let files = vec![
        file(&["src", "a.rs"], "fn fa() {}\nstruct Sa;\n"),
        file(&["src", "b.rs"], "fn fb() {}\nstruct Sb;\n"),
    ];
    let v = process_dir(&files).unwrap();
    let names: Vec<&str> = v.iter().map(|t| t.name.as_str()).collect();
    assert_eq!(names, vec!["Sa", "Sb", "fa", "fb"]);
    assert_eq!(v[1].context.as_ref().unwrap().file_name, Some("b.rs".to_string()));
}

#[test]
fn extraction_is_repeatable() {
    let files = vec![file(&["src", "shapes.rs"], SHAPES), file(&["lib.rs"], "impl X { fn m(&self) {} }\n")];
    let first = process_dir(&files).unwrap();
    let second = process_dir(&files).unwrap();
    assert_eq!(first, second);
}

#[test]
fn point_and_distance() {
    let text = "struct Point { x: i32, y: i32 }\n\nfn distance(a: &Point, b: &Point) -> f32 {\n    let dx = (a.x - b.x) as f32;\n    let dy = (a.y - b.y) as f32;\n    (dx * dx + dy * dy).sqrt()\n}\n";
    let v = process_dir(&vec![file(&["geo", "point.rs"], text)]).unwrap();
    assert_eq!(v.len(), 2);
    assert_eq!(v[0].name, "Point");
    assert_eq!(v[0].code_type, CodeType::Struct);
    assert_eq!(v[0].context.as_ref().unwrap().struct_name, None);
    assert_eq!(v[0].line, 1);
    assert_eq!(v[1].name, "distance");
    assert_eq!(v[1].code_type, CodeType::Function);
    assert_eq!((v[1].line, v[1].line_from, v[1].line_to), (3, 3, 7));
    assert_eq!(v[1].context.as_ref().unwrap().module, Some("geo".to_string()));
    assert_eq!(v[1].context.as_ref().unwrap().file_path, Some("geo/point.rs".to_string()));
}

#[test]
fn function_span_starts_at_its_name() {
    let text = "/// Adds.\n#[inline]\nfn add(a: i32, b: i32) -> i32 {\n    a + b\n}\n";
    let v = process_dir(&vec![file(&["m.rs"], text)]).unwrap();
    assert_eq!(v.len(), 1);
    assert_eq!((v[0].line, v[0].line_from, v[0].line_to), (3, 3, 5));
    assert_eq!(snippet(&v[0]), "fn add(a: i32, b: i32) -> i32 {\n    a + b\n}\n");
    let doc = v[0].docstring.clone().unwrap();
    assert!(doc.contains("doc"));
    assert!(doc.contains("Adds."));
    assert!(v[0].signature.contains("add"));
    assert!(!v[0].signature.contains("a + b"));
}

#[test]
fn methods_carry_their_type() {
    let text = "struct S;\n\nimpl<T> Wrapper<T> {\n    /// Makes one.\n    fn new() -> Self {\n        make()\n    }\n\n    const K: u8 = 1;\n\n    fn get(&self) -> u8 { 1 }\n}\n";
    let v = process_dir(&vec![file(&["w.rs"], text)]).unwrap();
    let names: Vec<&str> = v.iter().map(|t| t.name.as_str()).collect();
    assert_eq!(names, vec!["S", "new", "get"]);
    assert_eq!(v[1].code_type, CodeType::Impl);
    let ty = v[1].context.as_ref().unwrap().struct_name.clone().unwrap();
    assert!(ty.contains("Wrapper"));
    assert!(ty.contains('T'));
    assert_eq!((v[1].line, v[1].line_from, v[1].line_to), (5, 4, 7));
    assert_eq!(v[2].line, 11);
    assert_eq!(v[0].docstring, None);
    assert!(v[1].docstring.is_some());
}

#[test]
fn unparsable_file_fails_the_run() {
    let files = vec![file(&["ok.rs"], "fn fine() {}\n"), file(&["src", "bad.rs"], "fn broken( {\n")];
    match process_dir(&files) {
        Err(ExtractionError::Syntax { path }) => {
            assert_eq!(path, "src/bad.rs");
        }
        other => panic!("expected a syntax error, got {:?}", other.map(|v| v.len())),
    }
}

#[test]
fn other_items_are_ignored() {
    let text = "use std::fmt;\nconst N: u8 = 3;\nmod inner;\ntrait T { fn f(); }\n";
    assert!(process_dir(&vec![file(&["x.rs"], text)]).unwrap().is_empty());
}

fn bare(name: &str, kind: CodeType) -> TCode {
    TCode {
        name: name.to_string(),
        signature: String::new(),
        code_type: kind,
        docstring: None,
        line: 1,
        line_from: 1,
        line_to: 1,
        context: None,
    }
}

#[test]
fn grouping_is_a_stable_partition() {
    let v = vec![
        bare("f1", CodeType::Function),
        bare("s1", CodeType::Struct),
        bare("f2", CodeType::Function),
        bare("m1", CodeType::Impl),
        bare("e1", CodeType::Enum),
    ];
    let g = group_entities(v);
    let names: Vec<&str> = g.iter().map(|t| t.name.as_str()).collect();
    assert_eq!(names, vec!["s1", "m1", "e1", "f1", "f2"]);
    assert!(group_entities(Vec::new()).is_empty());
}

fn parts(name: &str, ident_line: usize, start_line: usize, end_line: usize) -> PlainParts {
    PlainParts {
        name: name.to_string(),
        tokens: format!("tokens of {name}"),
        docs: vec![(false, "# [inline]".to_string()), (true, "# [doc = \" one\"]".to_string())],
        ident_line,
        start_line,
        end_line,
    }
}

fn empty_context() -> TContext {
    TContext { module: None, file_path: None, file_name: None, struct_name: None, snippet: None }
}

#[test]
fn first_doc_attribute_is_the_docstring() {
    let docs = vec![(false, "a".to_string()), (true, "b".to_string()), (true, "c".to_string())];
    assert_eq!(doc_of(&docs), Some("b".to_string()));
    assert_eq!(doc_of(&vec![(false, "a".to_string())]), None);
}

#[test]
fn entity_built_from_parts() {
    let lines = path(&["/// one", "struct A {", "}", "fn x() {}"]);
    let t = parse_struct(&parts("A", 2, 1, 3), empty_context(), &lines).unwrap();
    assert_eq!(t.name, "A");
    assert_eq!(t.signature, "tokens of A");
    assert_eq!(t.docstring, Some("# [doc = \" one\"]".to_string()));
    assert_eq!((t.line, t.line_from, t.line_to), (2, 1, 3));
    assert_eq!(snippet(&t), "/// one\nstruct A {\n}\n");
    assert!(parse_struct(&parts("A", 2, 1, 5), empty_context(), &lines).is_none());
    let d = Decl {
        name: "x".to_string(),
        signature: "fn x()".to_string(),
        docstring: None,
        line: 4,
        line_from: 4,
        line_to: 4,
    };
    let f = build_entity(d, CodeType::Function, empty_context(), &lines).unwrap();
    assert_eq!(snippet(&f), "fn x() {}\n");
}

#[test]
fn impl_members_give_methods_in_order() {
    let lines = path(&["impl T {", "fn a() {}", "const K: u8 = 1;", "fn b() {}", "}"]);
    let block = PlainImpl {
        self_ty: "T".to_string(),
        members: vec![Some(parts("a", 2, 2, 2)), None, Some(parts("b", 4, 4, 4))],
    };
    let v = parse_impl(&block, empty_context(), &lines).unwrap();
    assert_eq!(v.len(), 2);
    assert_eq!((v[0].name.as_str(), v[1].name.as_str()), ("a", "b"));
    assert_eq!(v[1].code_type, CodeType::Impl);
    assert_eq!(v[1].context.as_ref().unwrap().struct_name, Some("T".to_string()));
    let bad = PlainImpl { self_ty: "T".to_string(), members: vec![Some(parts("c", 9, 9, 9))] };
    assert!(parse_impl(&bad, empty_context(), &lines).is_none());
}

#[test]
fn items_are_routed_by_kind() {
    let lines = path(&["fn f() {}", "enum E {}"]);
    let (f, o) = parse_item(&PlainItem::Function(parts("f", 1, 1, 1)), empty_context(), &lines).unwrap();
    assert_eq!((f.len(), o.len()), (1, 0));
    let (f, o) = parse_item(&PlainItem::Enum(parts("E", 2, 2, 2)), empty_context(), &lines).unwrap();
    assert_eq!((f.len(), o.len()), (0, 1));
    assert_eq!(o[0].code_type, CodeType::Enum);
    let (f, o) = parse_item(&PlainItem::Other, empty_context(), &lines).unwrap();
    assert!(f.is_empty() && o.is_empty());
}
