use vala::vapi::{parse, Class, ClassMap};

fn class(name: &str) -> Class {
    Class {
        vala_name: name.to_string(),
        parent: None,
        interfaces: Vec::new(),
        is_abstract: false,
        is_gee: false,
        is_interface: false,
    }
}

#[test]
fn snake_splits_namespaces_and_words() {
    assert_eq!(class("Vala.Genie.Parser").snake(), "genie_parser");
    assert_eq!(class("Vala.CodeContext").snake(), "code_context");
    assert_eq!(class("CodeContext").snake(), "code_context");
}

#[test]
fn snake_splits_acronym_runs() {
    assert_eq!(class("Vala.URLDecoder").snake(), "url_decoder");
    assert_eq!(class("Vala.GirParser").snake(), "gir_parser");
    assert_eq!(class("Vala.Utf8Decoder").snake(), "utf8_decoder");
    assert_eq!(class("Vala.ABC").snake(), "abc");
}

#[test]
fn snake_keeps_existing_underscores() {
    assert_eq!(class("Vala.Foo_Bar").snake(), "foo_bar");
}

#[test]
fn snake_overrides_irregular_names() {
    assert_eq!(class("Vala.TypeCheck").snake(), "typecheck");
    assert_eq!(class("Vala.TypeParameter").snake(), "typeparameter");
    assert_eq!(class("Vala.TypeSymbol").snake(), "typesymbol");
    assert_eq!(class("Vala.TypeRegisterFunction").snake(), "type_register_function");
}

#[test]
fn rust_name_drops_root_and_dots() {
    assert_eq!(class("Vala.Genie.Parser").rust_name(), "GenieParser");
    assert_eq!(class("Vala.CodeNode").rust_name(), "CodeNode");
    assert_eq!(class("GLib.Object").rust_name(), "GLibObject");
}

#[test]
fn c_prefix_is_vala_and_snake() {
    assert_eq!(class("Vala.Genie.Parser").c_prefix(), "vala_genie_parser");
    assert_eq!(class("Vala.TypeSymbol").c_prefix(), "vala_typesymbol");
}

const SAMPLE: &str = "\
[CCode (cheader_filename = \"vala.h\")]
namespace Vala {
\tpublic abstract class CodeNode {
\t\tpublic string name { get; set; }
\t}
\tpublic class Symbol : Vala.CodeNode {
\t}
\tpublic interface Callable : Vala.CodeNode {
\t}
\tpublic class Method : Vala.Symbol, Vala.Callable {
\t\tpublic void f (string s = \"{\") {}
\t}
\tpublic class Orphan : GLib.Object {
\t}
\tnamespace Genie {
\t\tpublic class Scanner {
\t\t}
\t}
}
[CCode (cheader_filename = \"valagee.h\")]
namespace Vala {
\tpublic class ArrayList<G> : Vala.List<G>, Vala.Iterable<Vala.Map<K, V>> {
\t}
}
";

#[test]
fn parse_reads_declarations_with_namespaces() {
    let map = parse(SAMPLE);
    let names: Vec<String> = (0..map.len()).map(|i| map.value_at(i).vala_name.clone()).collect();
    assert_eq!(
        names,
        vec![
            "Vala.ArrayList",
            "Vala.Callable",
            "Vala.CodeNode",
            "Vala.Genie.Scanner",
            "Vala.Method",
            "Vala.Orphan",
            "Vala.Symbol",
        ]
    );
    let node = map.get("Vala.CodeNode").unwrap();
    assert!(node.is_abstract);
    assert!(!node.is_interface);
    assert_eq!(node.parent, None);
    let method = map.get("Vala.Method").unwrap();
    assert_eq!(method.parent.as_deref(), Some("Vala.Symbol"));
    assert_eq!(method.interfaces, vec!["Vala.Callable".to_string()]);
    let callable = map.get("Vala.Callable").unwrap();
    assert!(callable.is_interface);
    assert_eq!(callable.parent.as_deref(), Some("Vala.CodeNode"));
}

#[test]
fn parse_marks_gee_classes_and_strips_generics() {
    let map = parse(SAMPLE);
    let list = map.get("Vala.ArrayList").unwrap();
    assert!(list.is_gee);
    assert_eq!(list.parent.as_deref(), Some("Vala.List"));
    assert_eq!(list.interfaces, vec!["Vala.Iterable".to_string()]);
    assert!(!map.get("Vala.Method").unwrap().is_gee);
    assert!(map.get("Vala.List").is_none());
    assert!(!map.contains_key("ArrayList"));
}

#[test]
fn parse_closes_nested_namespaces() {
    let src = "namespace A {\nnamespace B {\nclass X {}\n}\nclass Y {}\n}\nclass Z {}\n";
    let map = parse(src);
    assert!(map.contains_key("A.B.X"));
    assert!(map.contains_key("A.Y"));
    assert!(map.contains_key("Z"));
    assert_eq!(map.len(), 3);
}

#[test]
fn parse_ignores_non_declarations() {
    let src = "public void foo ();\n// class Hidden\nclass {}\n  internal class Kept : , Base<T> ,\n";
    let map = parse(src);
    assert_eq!(map.len(), 1);
    let kept = map.get("Kept").unwrap();
    assert_eq!(kept.parent.as_deref(), Some("Base"));
    assert!(kept.interfaces.is_empty());
}

#[test]
fn parse_later_declaration_replaces_earlier() {
    let map = parse("class A : B {}\nabstract class A {}\n");
    assert_eq!(map.len(), 1);
    let a = map.get("A").unwrap();
    assert!(a.is_abstract);
    assert_eq!(a.parent, None);
}

#[test]
fn parse_handles_crlf_and_empty_input() {
    assert_eq!(parse("").len(), 0);
    let map = parse("namespace N {\r\nclass C {\r\n}\r\n}\r\n");
    assert!(map.contains_key("N.C"));
}

#[test]
fn parse_orders_names_like_strings() {
    let src = "class b {}\nclass B {}\nclass Ä {}\nclass a {}\nclass ab {}\nclass A {}\nclass Z {}\n";
    let map = parse(src);
    let names: Vec<String> = (0..map.len()).map(|i| map.value_at(i).vala_name.clone()).collect();
    let mut sorted = names.clone();
    sorted.sort();
    assert_eq!(names, sorted);
    assert_eq!(names.len(), 7);
}

#[test]
fn class_map_insert_replaces_by_name() {
    let mut map = ClassMap::new();
    assert!(map.is_empty());
    map.insert(class("B"));
    map.insert(class("A"));
    let mut b2 = class("B");
    b2.is_interface = true;
    map.insert(b2);
    assert_eq!(map.len(), 2);
    assert_eq!(map.value_at(0).vala_name, "A");
    assert!(map.get("B").unwrap().is_interface);
}

#[test]
fn class_is_cloned_field_for_field() {
    let c = Class {
        vala_name: "Vala.Method".to_string(),
        parent: Some("Vala.Subroutine".to_string()),
        interfaces: vec!["Vala.Callable".to_string()],
        is_abstract: false,
        is_gee: false,
        is_interface: false,
    };
    let d = c.clone();
    assert_eq!(d.vala_name, c.vala_name);
    assert_eq!(d.parent, c.parent);
    assert_eq!(d.interfaces, c.interfaces);
    assert_eq!((d.is_abstract, d.is_gee, d.is_interface), (false, false, false));
    assert!(format!("{:?}", d).contains("Vala.Subroutine"));
}
