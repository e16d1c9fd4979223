use vala::codegen::{Model, GENERATED_HEADER};
use vala::vapi::parse;

const SAMPLE: &str = "\
[CCode (cheader_filename = \"vala.h\")]
namespace Vala {
\tpublic abstract class CodeNode {
\t}
\tpublic class Symbol : Vala.CodeNode {
\t}
\tpublic interface Callable : Vala.CodeNode {
\t}
\tpublic class Method : Vala.Symbol, Vala.Callable {
\t}
\tpublic class Orphan : GLib.Object {
\t}
}
[CCode (cheader_filename = \"valagee.h\")]
namespace Vala {
\tpublic class ArrayList<G> : Vala.List<G> {
\t}
}
";

const EXPECTED_BODY: &str = "\
/// Marker types for libvala interfaces, used by the [`crate::Implements`] bound.
pub mod iface {
    /// Marker type for the `Vala.Callable` interface.
    pub enum Callable {}
}

ffi_wrapper! {
    /// Safe wrapper for `Vala.CodeNode`.
    ///
    /// This is an abstract base type; values are obtained by upcasting a
    /// concrete subtype, never constructed directly.
    pub struct CodeNode(ptr: *mut ffi::ValaCodeNode) {
        root_ref: vala_code_node_ref,
        root_unref: vala_code_node_unref,
        get_type: vala_code_node_get_type,
    }
}
impl AsRef<CodeNode> for CodeNode { fn as_ref(&self) -> &CodeNode { self } }
unsafe impl _IsA<CodeNode> for CodeNode {}

ffi_wrapper! {
    /// Safe wrapper for `Vala.Method`.
    pub struct Method(ptr: *mut ffi::ValaMethod) {
        root_ref: vala_code_node_ref,
        root_unref: vala_code_node_unref,
        get_type: vala_method_get_type,
    }
}
impl ::std::ops::Deref for Method { type Target = Symbol;
    fn deref(&self) -> &Self::Target { unsafe { &*(self as *const Self as *const Symbol) } } }
impl AsRef<Method> for Method { fn as_ref(&self) -> &Method { self } }
impl AsRef<Symbol> for Method { fn as_ref(&self) -> &Symbol { unsafe { &*(self as *const Self as *const Symbol) } } }
impl AsRef<CodeNode> for Method { fn as_ref(&self) -> &CodeNode { unsafe { &*(self as *const Self as *const CodeNode) } } }
unsafe impl _IsA<Method> for Method {}
unsafe impl _IsA<Symbol> for Method {}
unsafe impl _IsA<CodeNode> for Method {}
unsafe impl _Implements<iface::Callable> for Method {}

// skipped Vala.Orphan: no ref-counted root type
ffi_wrapper! {
    /// Safe wrapper for `Vala.Symbol`.
    pub struct Symbol(ptr: *mut ffi::ValaSymbol) {
        root_ref: vala_code_node_ref,
        root_unref: vala_code_node_unref,
        get_type: vala_symbol_get_type,
    }
}
impl ::std::ops::Deref for Symbol { type Target = CodeNode;
    fn deref(&self) -> &Self::Target { unsafe { &*(self as *const Self as *const CodeNode) } } }
impl AsRef<Symbol> for Symbol { fn as_ref(&self) -> &Symbol { self } }
impl AsRef<CodeNode> for Symbol { fn as_ref(&self) -> &CodeNode { unsafe { &*(self as *const Self as *const CodeNode) } } }
unsafe impl _IsA<Symbol> for Symbol {}
unsafe impl _IsA<CodeNode> for Symbol {}

/// Number of wrapper types generated from the vapi.
pub const GENERATED_TYPE_COUNT: usize = 3;
";

#[test]
fn generate_emits_the_hierarchy() {
    let model = Model::new(parse(SAMPLE));
    assert!(model.parents_acyclic());
    let out = model.generate();
    assert_eq!(out, format!("{}{}", GENERATED_HEADER, EXPECTED_BODY));
}

#[test]
fn generate_for_an_empty_vapi() {
    let model = Model::new(parse(""));
    assert!(model.parents_acyclic());
    let out = model.generate();
    let expected = format!(
        "{}/// Marker types for libvala interfaces, used by the [`crate::Implements`] bound.\npub mod iface {{\n}}\n\n/// Number of wrapper types generated from the vapi.\npub const GENERATED_TYPE_COUNT: usize = 0;\n",
        GENERATED_HEADER
    );
    assert_eq!(out, expected);
}

#[test]
fn generate_counts_many_wrappers_in_decimal() {
    let mut src = String::from("namespace Vala {\nclass CodeNode {}\n");
    for i in 0..123 {
        src.push_str(&format!("class N{} : Vala.CodeNode {{}}\n", i));
    }
    src.push_str("}\n");
    let model = Model::new(parse(&src));
    let out = model.generate();
    assert!(out.ends_with("pub const GENERATED_TYPE_COUNT: usize = 124;\n"));
}

#[test]
fn root_reached_through_a_genie_class() {
    let src = "namespace Vala {\nnamespace Genie {\nclass Scanner {}\n}\nclass TypeCheck : Vala.Genie.Scanner {}\n}\n";
    let out = Model::new(parse(src)).generate();
    assert!(out.contains("get_type: vala_genie_scanner_get_type,"));
    assert!(out.contains("get_type: vala_typecheck_get_type,"));
    assert!(out.contains("root_ref: vala_genie_scanner_ref,"));
    assert!(out.contains("impl ::std::ops::Deref for TypeCheck { type Target = GenieScanner;"));
}

#[test]
fn interfaces_inherited_from_ancestors_are_implemented_once() {
    let src = "namespace Vala {\ninterface I {}\ninterface J {}\nclass CodeNode : Vala.I {}\nclass A : Vala.CodeNode, Vala.J, Vala.I {}\n}\n";
    let out = Model::new(parse(src)).generate();
    assert!(out.contains("unsafe impl _Implements<iface::I> for A {}\nunsafe impl _Implements<iface::J> for A {}\n\n"));
    assert!(out.contains("unsafe impl _Implements<iface::I> for CodeNode {}\n\n"));
}

#[test]
fn reclassify_moves_interfaces_out_of_the_parent_slot() {
    let src = "namespace Vala {\ninterface I {}\nclass CodeNode {}\nclass A : Vala.I, Vala.CodeNode, Unknown {}\n}\n";
    let out = Model::new(parse(src)).generate();
    assert!(out.contains("impl ::std::ops::Deref for A { type Target = CodeNode;"));
    assert!(out.contains("unsafe impl _Implements<iface::I> for A {}"));
    assert!(!out.contains("Unknown"));
}

#[test]
fn gee_classes_are_not_emitted() {
    let src = "[CCode (cheader_filename = \"valagee.h\")]\nnamespace Vala {\nclass Map {}\n}\n";
    let out = Model::new(parse(src)).generate();
    assert!(out.ends_with("pub const GENERATED_TYPE_COUNT: usize = 0;\n"));
    assert!(!out.contains("Map"));
}

#[test]
fn cyclic_parents_are_detected() {
    let src = "class A : B {}\nclass B : A {}\n";
    let model = Model::new(parse(src));
    assert!(!model.parents_acyclic());
}
