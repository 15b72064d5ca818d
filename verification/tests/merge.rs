//! The source merger.

use libmuse::csharp_parse::{
    compile_to_single_script, deduplicate, extract_indented_lines, line_import_name,
    line_namespace_name, ScriptFile,
};

fn file(name: &str, content: &str) -> ScriptFile {
    ScriptFile { name: name.as_bytes().to_vec(), content: content.as_bytes().to_vec() }
}

fn compile(header: &str, ns: &str, files: &Vec<ScriptFile>) -> String {
    String::from_utf8(compile_to_single_script(header.as_bytes(), ns.as_bytes(), files)).unwrap()
}

#[test]
fn merges_two_files_and_filters_self_import() {
    // Two inputs, one importing the namespace the other declares: the
    // merged body holds both classes, the self-import is gone.
    let files = vec![
        file("A.cs", "namespace A {\n\tusing B;\n\tclass X {}\n}"),
        file("B.cs", "namespace B {\n\tclass Y {}\n}"),
    ];
    let out = compile("hdr", "Combined", &files);
    assert_eq!(
        out,
        "// hdr\nnamespace Combined\n{\n\tclass X {}\n\tclass Y {}\n}"
    );
    assert!(!out.contains("using B"));
    assert!(out.contains("class X {}"));
    assert!(out.contains("class Y {}"));
}

#[test]
fn keeps_foreign_imports_and_drops_declared_ones() {
    let files = vec![
        file("Foo.cs", "namespace Foo {\n\tusing Bar;\n\tusing System.Text;\n\tclass F {}\n}"),
        file("Bar.cs", "namespace Bar {\n\tclass B {}\n}"),
    ];
    let out = compile("h", "NS", &files);
    assert!(!out.contains("using Foo"));
    assert!(!out.contains("using Bar"));
    assert!(out.contains("using System.Text;\n"));
}

#[test]
fn imports_are_deduplicated_and_sorted() {
    let files = vec![
        file("A.cs", "using Zeta;\nusing Alpha;\n\tclass A {}"),
        file("B.cs", "using Alpha;\nusing Mid;\n\tclass B {}"),
    ];
    let out = compile("h", "NS", &files);
    assert_eq!(
        out,
        "// h\nusing Alpha;\nusing Mid;\nusing Zeta;\nnamespace NS\n{\n\tclass A {}\n\tclass B {}\n}"
    );
}

#[test]
fn merge_is_deterministic() {
    let files = vec![
        file("A.cs", "namespace A {\n\tusing B;\n\tclass X {}\n}"),
        file("B.cs", "namespace B {\n\tclass Y {}\n}"),
    ];
    let once = compile("h", "NS", &files);
    let twice = compile("h", "NS", &files);
    assert_eq!(once, twice);
}

#[test]
fn remerging_own_output_never_duplicates_imports() {
    let files = vec![
        file("A.cs", "using Alpha;\nusing Beta;\n\tclass A {}"),
        file("B.cs", "using Alpha;\n\tclass B {}"),
    ];
    let first = compile("h", "First", &files);
    assert_eq!(first.matches("using Alpha;").count(), 1);
    let second_files = vec![file("First.cs", &first)];
    let second = compile("h2", "Second", &second_files);
    assert_eq!(second.matches("using Alpha;").count(), 1);
    assert_eq!(second.matches("using Beta;").count(), 1);
}

#[test]
fn merge_of_zero_files_is_an_empty_wrapper() {
    let files: Vec<ScriptFile> = Vec::new();
    let out = compile("h", "Empty", &files);
    assert_eq!(out, "// h\nnamespace Empty\n{\n\n}");
}

#[test]
fn unindented_lines_are_dropped_from_the_body() {
    let files = vec![file("A.cs", "namespace A {\nstray line\n\tkept line\n}")];
    let out = compile("h", "NS", &files);
    assert!(out.contains("\tkept line"));
    assert!(!out.contains("stray line"));
}

#[test]
fn deduplicate_sorts_and_removes_duplicates() {
    let items: Vec<Vec<u8>> = vec![b"beta".to_vec(), b"alpha".to_vec(), b"beta".to_vec()];
    let out = deduplicate(items);
    assert_eq!(out, vec![b"alpha".to_vec(), b"beta".to_vec()]);
}

#[test]
fn deduplicate_of_empty_is_empty() {
    let items: Vec<Vec<u8>> = Vec::new();
    assert_eq!(deduplicate(items), Vec::<Vec<u8>>::new());
}

#[test]
fn extract_indented_lines_keeps_tabs_only() {
    let out = extract_indented_lines(b"top\n\tone\n\ttwo\nbottom");
    assert_eq!(out, b"\tone\n\ttwo".to_vec());
}

#[test]
fn line_classifiers() {
    assert_eq!(line_import_name(b"\tusing Foo.Bar;"), Some(b"Foo.Bar".to_vec()));
    assert_eq!(line_import_name(b"using  Spaced;"), Some(b"Spaced".to_vec()));
    assert_eq!(line_import_name(b"usingFoo;"), None);
    assert_eq!(line_import_name(b"using"), None);
    assert_eq!(line_namespace_name(b"namespace A {"), Some(b"A".to_vec()));
    assert_eq!(line_namespace_name(b"  namespace Nested_1 {"), Some(b"Nested_1".to_vec()));
    assert_eq!(line_namespace_name(b"class A {"), None);
}
