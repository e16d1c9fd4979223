//! The wrapper hierarchy emitted for the libvala classes read from the vapi.
//! Per fundamental class it emits an owned, ref-counted handle struct, the
//! upcast `Deref` to its parent, `AsRef` along the ancestor chain, the `IsA`
//! markers and the interface markers. Methods are not generated.

use vstd::prelude::*;

use crate::order::{lemma_set_insert_all, names_are, set_insert_all, sorted, NameSet};
use crate::text::{
    chars_of, decimal, eq_str, push_all, push_decimal, push_str, slice_of, string_of,
    strip_prefix_or_keep, strip_prefix_or_keep_exec,
};
use crate::vapi::{
    c_prefix, c_prefix_exec, lookup, names_of, rust_name, rust_name_exec, strings_view,
    snake_name, to_snake, Class, ClassMap, ClassView,
};

verus! {

// ---------------------------------------------------------------------------
// Reclassifying bases.
// ---------------------------------------------------------------------------

/// Parent and interfaces after reclassifying the first `n` of `bases`: a base
/// that is an interface is kept as an interface; the first known
/// non-interface base becomes the parent; a further known non-interface base
/// is kept as an interface; unknown bases are dropped.
pub open spec fn reclass_upto(
    bases: Seq<Seq<char>>,
    ifs: Seq<Seq<char>>,
    names: Seq<Seq<char>>,
    n: int,
) -> (Option<Seq<char>>, Seq<Seq<char>>)
    decreases n,
{
    if n <= 0 {
        (None, Seq::empty())
    } else {
        let (parent, out) = reclass_upto(bases, ifs, names, n - 1);
        let b = bases[n - 1];
        if ifs.contains(b) {
            (parent, out.push(b))
        } else if names.contains(b) && parent is None {
            (Some(b), out)
        } else if names.contains(b) {
            (parent, out.push(b))
        } else {
            (parent, out)
        }
    }
}

/// All bases of a declaration: its parent, if any, then its interfaces.
pub open spec fn all_bases(c: ClassView) -> Seq<Seq<char>> {
    match c.parent {
        Some(p) => seq![p] + c.interfaces,
        None => c.interfaces,
    }
}

/// `c` with its bases reassigned now that the interface names `ifs` and all
/// known names `names` are known.
pub open spec fn reclassify(c: ClassView, ifs: Seq<Seq<char>>, names: Seq<Seq<char>>) -> ClassView {
    let bases = all_bases(c);
    let (parent, out) = reclass_upto(bases, ifs, names, bases.len() as int);
    ClassView { parent, interfaces: out, ..c }
}

/// The model of the emitter: the declarations it works on, in name order, and
/// the names of the interfaces among them, in name order.
pub struct ModelView {
    pub classes: Seq<ClassView>,
    pub interfaces: Seq<Seq<char>>,
}

/// The declarations that are not gee collection classes.
pub open spec fn kept(s: Seq<ClassView>) -> Seq<ClassView> {
    s.filter(|c: ClassView| !c.is_gee)
}

/// The names of the interfaces among `s`.
pub open spec fn interface_names(s: Seq<ClassView>) -> Seq<Seq<char>> {
    names_of(s.filter(|c: ClassView| c.is_interface))
}

/// The emitter model built from parsed declarations: gee classes dropped,
/// interfaces collected, and every declaration's bases reclassified.
pub open spec fn model_of(s: Seq<ClassView>) -> ModelView {
    let k = kept(s);
    let ifs = interface_names(k);
    let names = names_of(k);
    ModelView {
        classes: k.map_values(|c: ClassView| reclassify(c, ifs, names)),
        interfaces: ifs,
    }
}

fn copy_chars(v: &Vec<char>) -> (r: Vec<char>)
    ensures
        r@ == v@,
{
    let r = slice_of(v, 0, v.len());
    assert(r@ =~= v@);
    r
}

fn names_contain(v: &Vec<Vec<char>>, x: &Vec<char>, Ghost(ss): Ghost<Seq<Seq<char>>>) -> (r: bool)
    requires
        names_are(v@, ss),
    ensures
        r == ss.contains(x@),
{
    let mut i: usize = 0;
    while i < v.len()
        invariant
            i <= v@.len(),
            names_are(v@, ss),
            forall|k: int| 0 <= k < i ==> ss[k] != x@,
        decreases v.len() - i,
    {
        if crate::text::eq_chars(&v[i], x) {
            assert(ss[i as int] == x@);
            return true;
        }
        i += 1;
    }
    false
}

fn reclassify_bases(
    c: Class,
    ifs: &Vec<Vec<char>>,
    names: &Vec<Vec<char>>,
    Ghost(ifs_v): Ghost<Seq<Seq<char>>>,
    Ghost(names_v): Ghost<Seq<Seq<char>>>,
) -> (r: Class)
    requires
        names_are(ifs@, ifs_v),
        names_are(names@, names_v),
    ensures
        r@ == reclassify(c@, ifs_v, names_v),
{
    let Class { vala_name, parent, interfaces, is_abstract, is_gee, is_interface } = c;
    let ghost cv = c@;
    let mut bases: Vec<String> = Vec::new();
    match parent {
        Some(p) => {
            bases.push(p);
        },
        None => {},
    }
    let mut interfaces = interfaces;
    bases.append(&mut interfaces);
    let ghost bv = all_bases(cv);
    assert(strings_view(bases@) =~= bv);
    let mut new_parent: Option<String> = None;
    let mut out: Vec<String> = Vec::new();
    let mut i: usize = 0;
    while i < bases.len()
        invariant
            i <= bases@.len(),
            strings_view(bases@) == bv,
            names_are(ifs@, ifs_v),
            names_are(names@, names_v),
            (crate::vapi::opt_view(new_parent), strings_view(out@)) == reclass_upto(
                bv,
                ifs_v,
                names_v,
                i as int,
            ),
        decreases bases.len() - i,
    {
        let b = chars_of(bases[i].as_str());
        assert(b@ == bv[i as int]);
        if names_contain(ifs, &b, Ghost(ifs_v)) {
            out.push(bases[i].clone());
        } else if names_contain(names, &b, Ghost(names_v)) && new_parent.is_none() {
            new_parent = Some(bases[i].clone());
        } else if names_contain(names, &b, Ghost(names_v)) {
            out.push(bases[i].clone());
        }
        i += 1;
        assert(strings_view(out@) =~= reclass_upto(bv, ifs_v, names_v, i as int).1);
    }
    Class { vala_name, parent: new_parent, interfaces: out, is_abstract, is_gee, is_interface }
}

/// The emitter's view of the declared class hierarchy.
pub struct Model {
    classes: ClassMap,
    interfaces: Vec<Vec<char>>,
}

impl Model {
    /// The declarations and interface names the model holds.
    pub closed spec fn view(&self) -> ModelView {
        ModelView {
            classes: self.classes.view(),
            interfaces: self.interfaces@.map_values(|v: Vec<char>| v@),
        }
    }

    /// The declarations are stored by name.
    pub closed spec fn wf(&self) -> bool {
        self.classes.wf()
    }

    /// Builds the model from parsed declarations: gee collection classes are
    /// skipped, the interface names are collected, and each declaration's
    /// bases are reclassified into a parent and interfaces.
    pub fn new(classes: ClassMap) -> (r: Self)
        requires
            classes.wf(),
        ensures
            r.wf(),
            r.view() == model_of(classes.view()),
    {
        let ghost s = classes.view();
        let ghost not_gee = |c: ClassView| !c.is_gee;
        let ghost is_if = |c: ClassView| c.is_interface;
        let ghost k = kept(s);
        let n: usize = classes.len();
        let mut names: Vec<Vec<char>> = Vec::new();
        let mut ifs: Vec<Vec<char>> = Vec::new();
        let mut i: usize = 0;
        while i < classes.len()
            invariant
                s == classes.view(),
                classes.wf(),
                i <= s.len(),
                not_gee == (|c: ClassView| !c.is_gee),
                is_if == (|c: ClassView| c.is_interface),
                names_are(names@, names_of(s.take(i as int).filter(not_gee))),
                names_are(ifs@, names_of(s.take(i as int).filter(not_gee).filter(is_if))),
            decreases s.len() - i,
        {
            let c = classes.value_at(i);
            proof {
                assert(s.take(i + 1) == s.take(i as int).push(s[i as int]));
                s.take(i as int).lemma_filter_push(s[i as int], not_gee);
                s.take(i as int).filter(not_gee).lemma_filter_push(s[i as int], is_if);
            }
            if !c.is_gee {
                let key = copy_chars(classes.key_at(i));
                if c.is_interface {
                    ifs.push(copy_chars(&key));
                }
                names.push(key);
            }
            i += 1;
            proof {
                let ghost a = names_of(s.take(i as int).filter(not_gee));
                let ghost b = names_of(s.take(i as int).filter(not_gee).filter(is_if));
                assert forall|j: int| 0 <= j < names@.len() implies #[trigger] names@[j]@ == a[j] by {}
                assert forall|j: int| 0 <= j < ifs@.len() implies #[trigger] ifs@[j]@ == b[j] by {}
            }
        }
        assert(s.take(s.len() as int) =~= s);
        let ghost ifs_v = interface_names(k);
        let ghost names_v = names_of(k);
        let ghost f = |c: ClassView| reclassify(c, ifs_v, names_v);
        proof {
            classes.lemma_sorted();
        }
        let mut entries = classes.into_entries();
        let mut out = ClassMap::new();
        let mut i: usize = 0;
        while entries.len() > 0
            invariant
                i <= s.len(),
                s.len() == n,
                entries@.len() + i == s.len(),
                entries@.map_values(|c: Class| c@) == s.skip(i as int),
                sorted(names_of(s)),
                not_gee == (|c: ClassView| !c.is_gee),
                f == (|c: ClassView| reclassify(c, ifs_v, names_v)),
                names_are(names@, names_v),
                names_are(ifs@, ifs_v),
                out.wf(),
                out.view() == s.take(i as int).filter(not_gee).map_values(f),
                out.view().len() > 0 ==> exists|j: int|
                    0 <= j < i && out.view().last().vala_name == #[trigger] s[j].vala_name,
            decreases entries.len(),
        {
            let ghost old_e = entries@;
            let c = entries.remove(0);
            assert forall|j: int| 0 <= j < entries@.len() implies #[trigger] entries@[j]@ == s.skip(
                i + 1,
            )[j] by {
                assert(entries@[j] == old_e[j + 1]);
                assert(old_e.map_values(|c: Class| c@)[j + 1] == s.skip(i as int)[j + 1]);
            }
            assert(c@ == s[i as int]) by {
                assert(s.skip(i as int)[0] == s[i as int]);
            }
            proof {
                assert(s.take(i + 1) == s.take(i as int).push(s[i as int]));
                s.take(i as int).lemma_filter_push(s[i as int], not_gee);
            }
            if !c.is_gee {
                let ghost before = out.view();
                let r = reclassify_bases(c, &ifs, &names, Ghost(ifs_v), Ghost(names_v));
                proof {
                    if before.len() > 0 {
                        let j = choose|j: int|
                            0 <= j < i && before.last().vala_name == #[trigger] s[j].vala_name;
                        assert(names_of(s)[j] == s[j].vala_name);
                        assert(names_of(s)[i as int] == s[i as int].vala_name);
                    }
                }
                out.push_greatest(r);
                assert(out.view() =~= s.take(i + 1).filter(not_gee).map_values(f));
                assert(out.view().last().vala_name == s[i as int].vala_name);
            }
            i += 1;
            assert(entries@.map_values(|c: Class| c@) =~= s.skip(i as int));
        }
        assert(s.take(i as int) =~= s);
        let m = Model { classes: out, interfaces: ifs };
        assert(m.view().interfaces =~= ifs_v);
        m
    }
}


// ---------------------------------------------------------------------------
// Walking parent links.
// ---------------------------------------------------------------------------

/// Whether `name`, without its `Vala.` root, is one of the root fundamental
/// types that own a `vala_<root>_ref` / `_unref` pair; every other class is
/// ref-counted through its root ancestor.
pub open spec fn is_root_name(name: Seq<char>) -> bool {
    let short = strip_prefix_or_keep(name, "Vala."@);
    short == "AttributeCache"@ || short == "BasicBlock"@ || short == "CodeContext"@ || short
        == "CodeNode"@ || short == "CodeVisitor"@ || short == "Comment"@ || short
        == "Genie.Scanner"@ || short == "Iterable"@ || short == "Iterator"@ || short == "Map"@
        || short == "MapIterator"@ || short == "MarkupReader"@ || short == "PhiFunction"@ || short
        == "Report"@ || short == "Scanner"@ || short == "Scope"@ || short == "SourceFile"@ || short
        == "SourceReference"@ || short == "TargetValue"@ || short == "VersionAttribute"@
}

fn is_root(name: &Vec<char>) -> (r: bool)
    ensures
        r == is_root_name(name@),
{
    let short = strip_prefix_or_keep_exec(name, "Vala.");
    eq_str(&short, "AttributeCache") || eq_str(&short, "BasicBlock") || eq_str(&short, "CodeContext")
        || eq_str(&short, "CodeNode") || eq_str(&short, "CodeVisitor") || eq_str(&short, "Comment")
        || eq_str(&short, "Genie.Scanner") || eq_str(&short, "Iterable") || eq_str(
        &short,
        "Iterator",
    ) || eq_str(&short, "Map") || eq_str(&short, "MapIterator") || eq_str(&short, "MarkupReader")
        || eq_str(&short, "PhiFunction") || eq_str(&short, "Report") || eq_str(&short, "Scanner")
        || eq_str(&short, "Scope") || eq_str(&short, "SourceFile") || eq_str(
        &short,
        "SourceReference",
    ) || eq_str(&short, "TargetValue") || eq_str(&short, "VersionAttribute")
}

/// The root fundamental types of libvala, by their names without the `Vala.`
/// root: each owns a `vala_<root>_ref` / `_unref` pair.
pub open spec fn root_types() -> Seq<Seq<char>> {
    seq![
        "AttributeCache"@,
        "BasicBlock"@,
        "CodeContext"@,
        "CodeNode"@,
        "CodeVisitor"@,
        "Comment"@,
        "Genie.Scanner"@,
        "Iterable"@,
        "Iterator"@,
        "Map"@,
        "MapIterator"@,
        "MarkupReader"@,
        "PhiFunction"@,
        "Report"@,
        "Scanner"@,
        "Scope"@,
        "SourceFile"@,
        "SourceReference"@,
        "TargetValue"@,
        "VersionAttribute"@
    ]
}

proof fn lemma_root_type_at(k: int)
    requires
        0 <= k < root_types().len(),
    ensures
        is_root_name(root_types()[k]),
        !"Vala."@.is_prefix_of(root_types()[k]),
{
    reveal_strlit("Vala.");
    reveal_strlit("AttributeCache");
    reveal_strlit("BasicBlock");
    reveal_strlit("CodeContext");
    reveal_strlit("CodeNode");
    reveal_strlit("CodeVisitor");
    reveal_strlit("Comment");
    reveal_strlit("Genie.Scanner");
    reveal_strlit("Iterable");
    reveal_strlit("Iterator");
    reveal_strlit("Map");
    reveal_strlit("MapIterator");
    reveal_strlit("MarkupReader");
    reveal_strlit("PhiFunction");
    reveal_strlit("Report");
    reveal_strlit("Scanner");
    reveal_strlit("Scope");
    reveal_strlit("SourceFile");
    reveal_strlit("SourceReference");
    reveal_strlit("TargetValue");
    reveal_strlit("VersionAttribute");
    let s = root_types()[k];
    if k == 0 {
        assert(root_types()[k] == "AttributeCache"@);
    } else if k == 1 {
        assert(root_types()[k] == "BasicBlock"@);
    } else if k == 2 {
        assert(root_types()[k] == "CodeContext"@);
    } else if k == 3 {
        assert(root_types()[k] == "CodeNode"@);
    } else if k == 4 {
        assert(root_types()[k] == "CodeVisitor"@);
    } else if k == 5 {
        assert(root_types()[k] == "Comment"@);
    } else if k == 6 {
        assert(root_types()[k] == "Genie.Scanner"@);
    } else if k == 7 {
        assert(root_types()[k] == "Iterable"@);
    } else if k == 8 {
        assert(root_types()[k] == "Iterator"@);
    } else if k == 9 {
        assert(root_types()[k] == "Map"@);
    } else if k == 10 {
        assert(root_types()[k] == "MapIterator"@);
    } else if k == 11 {
        assert(root_types()[k] == "MarkupReader"@);
    } else if k == 12 {
        assert(root_types()[k] == "PhiFunction"@);
    } else if k == 13 {
        assert(root_types()[k] == "Report"@);
    } else if k == 14 {
        assert(root_types()[k] == "Scanner"@);
    } else if k == 15 {
        assert(root_types()[k] == "Scope"@);
    } else if k == 16 {
        assert(root_types()[k] == "SourceFile"@);
    } else if k == 17 {
        assert(root_types()[k] == "SourceReference"@);
    } else if k == 18 {
        assert(root_types()[k] == "TargetValue"@);
    } else if k == 19 {
        assert(root_types()[k] == "VersionAttribute"@);
    }
    if "Vala."@.is_prefix_of(s) {
        assert(s.subrange(0, 5)[0] == s[0]);
        assert(s.subrange(0, 5)[1] == s[1]);
        assert(s.subrange(0, 5) == "Vala."@);
    }
}

proof fn lemma_strip_root(short: Seq<char>)
    ensures
        strip_prefix_or_keep("Vala."@ + short, "Vala."@) == short,
{
    let name = "Vala."@ + short;
    assert(name.subrange(0, "Vala."@.len() as int) =~= "Vala."@);
    assert(name.skip("Vala."@.len() as int) =~= short);
}

/// A class is ref-counted through itself exactly when its name, with or
/// without the `Vala.` root, is one of the [`root_types`]; every other class
/// is ref-counted through a root ancestor.
pub proof fn lemma_root_names(name: Seq<char>)
    ensures
        is_root_name(name) <==> exists|k: int|
            0 <= k < root_types().len() && (name == #[trigger] root_types()[k] || name == "Vala."@
                + root_types()[k]),
{
    let short = strip_prefix_or_keep(name, "Vala."@);
    if is_root_name(name) {
        let k: int = if short == "AttributeCache"@ { 0 } else if short == "BasicBlock"@ { 1 } else if short == "CodeContext"@ { 2 } else if short == "CodeNode"@ { 3 } else if short == "CodeVisitor"@ { 4 } else if short == "Comment"@ { 5 } else if short == "Genie.Scanner"@ { 6 } else if short == "Iterable"@ { 7 } else if short == "Iterator"@ { 8 } else if short == "Map"@ { 9 } else if short == "MapIterator"@ { 10 } else if short == "MarkupReader"@ { 11 } else if short == "PhiFunction"@ { 12 } else if short == "Report"@ { 13 } else if short == "Scanner"@ { 14 } else if short == "Scope"@ { 15 } else if short == "SourceFile"@ { 16 } else if short == "SourceReference"@ { 17 } else if short == "TargetValue"@ { 18 } else { 19 };
        assert(root_types()[k] == short);
        if "Vala."@.is_prefix_of(name) {
            assert(name =~= "Vala."@ + short);
        } else {
            assert(name == short);
        }
    } else {
        assert forall|k: int| 0 <= k < root_types().len() implies !(name == #[trigger] root_types()[k]
            || name == "Vala."@ + root_types()[k]) by {
            lemma_root_type_at(k);
            lemma_strip_root(root_types()[k]);
            if name == root_types()[k] {
                assert(short == root_types()[k]);
            }
        }
    }
}

/// Every root type, named with or without the `Vala.` root, is a root, and
/// a chain that starts at such a class ends there: its root snake name is its
/// own.
pub proof fn lemma_root_type_is_own_root(cs: Seq<ClassView>, c: ClassView, fuel: nat, k: int)
    requires
        0 <= k < root_types().len(),
        c.vala_name == root_types()[k] || c.vala_name == "Vala."@ + root_types()[k],
    ensures
        is_root_name(c.vala_name),
        root_of(cs, c, fuel) == Some(snake_name(c.vala_name)),
{
    lemma_root_names(c.vala_name);
}

/// Whether following parent links from `c` through `cs` reaches, within
/// `fuel` steps, a declaration without a parent or whose parent is not in `cs`.
pub open spec fn chain_ends(cs: Seq<ClassView>, c: ClassView, fuel: nat) -> bool
    decreases fuel,
{
    match c.parent {
        None => true,
        Some(p) => match lookup(cs, p) {
            None => true,
            Some(pc) => fuel > 0 && chain_ends(cs, pc, (fuel - 1) as nat),
        },
    }
}

/// The parent links of `cs` form no cycle: from every declaration the chain
/// of parents ends.
pub open spec fn acyclic(cs: Seq<ClassView>) -> bool {
    forall|i: int| 0 <= i < cs.len() ==> chain_ends(cs, #[trigger] cs[i], cs.len() as nat)
}

/// The ancestors of `c` in `cs`, nearest first, following at most `fuel`
/// parent links.
pub open spec fn ancestors(cs: Seq<ClassView>, c: ClassView, fuel: nat) -> Seq<ClassView>
    decreases fuel,
{
    match c.parent {
        None => Seq::empty(),
        Some(p) => match lookup(cs, p) {
            None => Seq::empty(),
            Some(pc) => if fuel == 0 {
                Seq::empty()
            } else {
                seq![pc] + ancestors(cs, pc, (fuel - 1) as nat)
            },
        },
    }
}

/// The snake name of the first root type met on the chain from `c` itself
/// through its parents, following at most `fuel` parent links.
pub open spec fn root_of(cs: Seq<ClassView>, c: ClassView, fuel: nat) -> Option<Seq<char>>
    decreases fuel,
{
    if is_root_name(c.vala_name) {
        Some(snake_name(c.vala_name))
    } else {
        match c.parent {
            None => None,
            Some(p) => match lookup(cs, p) {
                None => None,
                Some(pc) => if fuel == 0 {
                    None
                } else {
                    root_of(cs, pc, (fuel - 1) as nat)
                },
            },
        }
    }
}

impl Model {
    fn parent_of<'a>(&'a self, c: &Class) -> (r: Option<&'a Class>)
        requires
            self.wf(),
        ensures
            match r {
                Some(p) => c@.parent is Some && lookup(self.view().classes, c@.parent->0) == Some(
                    p@,
                ),
                None => c@.parent is None || lookup(self.view().classes, c@.parent->0) is None,
            },
    {
        match &c.parent {
            Some(p) => {
                let pn = chars_of(p.as_str());
                self.classes.get_chars(&pn)
            },
            None => None,
        }
    }

    /// The chain of ancestor classes (excluding `class`), nearest first.
    fn ancestors(&self, class: &Class, Ghost(fuel): Ghost<nat>) -> (r: Vec<&Class>)
        requires
            self.wf(),
            chain_ends(self.view().classes, class@, fuel),
        ensures
            r@.map_values(|c: &Class| c@) == ancestors(self.view().classes, class@, fuel),
    {
        let ghost cs = self.view().classes;
        let mut out: Vec<&Class> = Vec::new();
        let mut cur: &Class = class;
        let ghost mut f: nat = fuel;
        loop
            invariant
                self.wf(),
                cs == self.view().classes,
                chain_ends(cs, cur@, f),
                out@.map_values(|c: &Class| c@) + ancestors(cs, cur@, f) == ancestors(
                    cs,
                    class@,
                    fuel,
                ),
            decreases f,
        {
            match self.parent_of(cur) {
                Some(p) => {
                    let ghost prev = out@.map_values(|c: &Class| c@);
                    out.push(p);
                    assert(out@.map_values(|c: &Class| c@) =~= prev.push(p@));
                    assert(prev.push(p@) + ancestors(cs, p@, (f - 1) as nat) =~= prev + ancestors(
                        cs,
                        cur@,
                        f,
                    ));
                    cur = p;
                    proof {
                        f = (f - 1) as nat;
                    }
                },
                None => {
                    assert(ancestors(cs, cur@, f) =~= Seq::<ClassView>::empty());
                    assert(out@.map_values(|c: &Class| c@) =~= ancestors(cs, class@, fuel));
                    return out;
                },
            }
        }
    }

    /// The snake name of the root fundamental type reached by walking parent
    /// links from `class` (e.g. `code_node`). The chain must reach such a
    /// root: a class without one cannot be managed safely, so callers test
    /// with [`has_root`](Model::has_root) first.
    fn root_snake(&self, class: &Class, Ghost(fuel): Ghost<nat>) -> (r: Vec<char>)
        requires
            self.wf(),
            root_of(self.view().classes, class@, fuel) is Some,
        ensures
            Some(r@) == root_of(self.view().classes, class@, fuel),
    {
        let ghost cs = self.view().classes;
        let mut cur: &Class = class;
        let ghost mut f: nat = fuel;
        loop
            invariant
                self.wf(),
                cs == self.view().classes,
                root_of(cs, class@, fuel) is Some,
                root_of(cs, cur@, f) == root_of(cs, class@, fuel),
            decreases f,
        {
            let name = chars_of(cur.vala_name.as_str());
            if is_root(&name) {
                return to_snake(&name);
            }
            let p = self.parent_of(cur);
            assert(p is Some);
            cur = p.unwrap();
            proof {
                f = (f - 1) as nat;
            }
        }
    }

    /// Whether walking parent links from `class`, at most `fuel` of them,
    /// meets a root fundamental type.
    fn has_root(&self, class: &Class, fuel: usize) -> (r: bool)
        requires
            self.wf(),
        ensures
            r == (root_of(self.view().classes, class@, fuel as nat) is Some),
    {
        let ghost cs = self.view().classes;
        let mut cur: &Class = class;
        let mut f: usize = fuel;
        loop
            invariant
                self.wf(),
                cs == self.view().classes,
                root_of(cs, cur@, f as nat) == root_of(cs, class@, fuel as nat),
            decreases f,
        {
            let name = chars_of(cur.vala_name.as_str());
            if is_root(&name) {
                return true;
            }
            match self.parent_of(cur) {
                Some(p) => {
                    if f == 0 {
                        return false;
                    }
                    cur = p;
                    f -= 1;
                },
                None => {
                    return false;
                },
            }
        }
    }

    /// Whether the parent links of the model form no cycle, which
    /// [`generate`](Model::generate) needs to terminate.
    pub fn parents_acyclic(&self) -> (r: bool)
        requires
            self.wf(),
        ensures
            r == acyclic(self.view().classes),
    {
        let ghost cs = self.view().classes;
        let n = self.classes.len();
        let mut i: usize = 0;
        while i < n
            invariant
                self.wf(),
                cs == self.view().classes,
                n == cs.len(),
                i <= n,
                forall|k: int| 0 <= k < i ==> chain_ends(cs, #[trigger] cs[k], n as nat),
            decreases n - i,
        {
            let c = self.classes.value_at(i);
            if !self.chain_ends_within(c, n) {
                return false;
            }
            i += 1;
        }
        true
    }

    fn chain_ends_within(&self, class: &Class, fuel: usize) -> (r: bool)
        requires
            self.wf(),
        ensures
            r == chain_ends(self.view().classes, class@, fuel as nat),
    {
        let ghost cs = self.view().classes;
        let mut cur: &Class = class;
        let mut f: usize = fuel;
        loop
            invariant
                self.wf(),
                cs == self.view().classes,
                chain_ends(cs, cur@, f as nat) == chain_ends(cs, class@, fuel as nat),
            decreases f,
        {
            match self.parent_of(cur) {
                Some(p) => {
                    if f == 0 {
                        return false;
                    }
                    cur = p;
                    f -= 1;
                },
                None => {
                    return true;
                },
            }
        }
    }
}


// ---------------------------------------------------------------------------
// Emitted text.
// ---------------------------------------------------------------------------

/// The header of the emitted module.
pub const GENERATED_HEADER: &'static str = "// @generated by build.rs from the installed libvala vapi -- do not edit.\n\nuse crate::object::{IsA as _IsA, Implements as _Implements};\nuse vala_sys as ffi;\n\n";

/// The note on an abstract wrapper.
pub const ABSTRACT_DOC: &'static str = "    ///\n    /// This is an abstract base type; values are obtained by upcasting a\n    /// concrete subtype, never constructed directly.\n";

/// The marker type of one interface.
pub open spec fn iface_marker(ic: ClassView) -> Seq<char> {
    "    /// Marker type for the `"@ + ic.vala_name + "` interface.\n"@ + "    pub enum "@ + rust_name(
        ic.vala_name,
    ) + " {}\n"@
}

/// The marker types of the first `n` interfaces of the model.
pub open spec fn iface_markers(m: ModelView, n: int) -> Seq<char>
    decreases n,
{
    if n <= 0 {
        Seq::empty()
    } else {
        iface_markers(m, n - 1) + match lookup(m.classes, m.interfaces[n - 1]) {
            Some(ic) => iface_marker(ic),
            None => Seq::empty(),
        }
    }
}

/// The `iface` module with one marker type per interface, in name order.
pub open spec fn iface_module(m: ModelView) -> Seq<char> {
    "/// Marker types for libvala interfaces, used by the [`crate::Implements`] bound.\n"@
        + "pub mod iface {\n"@ + iface_markers(m, m.interfaces.len() as int) + "}\n\n"@
}

/// The `ffi_wrapper!` invocation declaring the handle of `c`, ref-counted
/// through the root type with snake name `root`.
pub open spec fn wrapper_decl(c: ClassView, root: Seq<char>) -> Seq<char> {
    let rust = rust_name(c.vala_name);
    "ffi_wrapper! {\n"@ + "    /// Safe wrapper for `"@ + c.vala_name + "`.\n"@ + (if c.is_abstract {
        ABSTRACT_DOC@
    } else {
        Seq::empty()
    }) + "    pub struct "@ + rust + "(ptr: *mut ffi::Vala"@ + rust + ") {\n"@
        + "        root_ref: vala_"@ + root + "_ref,\n"@ + "        root_unref: vala_"@ + root
        + "_unref,\n"@ + "        get_type: "@ + c_prefix(c.vala_name) + "_get_type,\n"@
        + "    }\n"@ + "}\n"@
}

/// The upcast `Deref` from `c` to its parent, when the parent is declared.
pub open spec fn deref_impl(cs: Seq<ClassView>, c: ClassView) -> Seq<char> {
    match c.parent {
        Some(p) => match lookup(cs, p) {
            Some(pc) => {
                let rust = rust_name(c.vala_name);
                let prust = rust_name(pc.vala_name);
                "impl ::std::ops::Deref for "@ + rust + " { type Target = "@ + prust + ";\n"@
                    + "    fn deref(&self) -> &Self::Target { unsafe { &*(self as *const Self as *const "@
                    + prust + ") } } }\n"@
            },
            None => Seq::empty(),
        },
        None => Seq::empty(),
    }
}

/// `AsRef` from the wrapper `rust` to itself.
pub open spec fn asref_self(rust: Seq<char>) -> Seq<char> {
    "impl AsRef<"@ + rust + "> for "@ + rust + " { fn as_ref(&self) -> &"@ + rust + " { self } }\n"@
}

/// `AsRef` from the wrapper `rust` to its ancestor `arust`.
pub open spec fn asref_impl(rust: Seq<char>, arust: Seq<char>) -> Seq<char> {
    "impl AsRef<"@ + arust + "> for "@ + rust + " { fn as_ref(&self) -> &"@ + arust
        + " { unsafe { &*(self as *const Self as *const "@ + arust + ") } } }\n"@
}

/// `AsRef` impls to the first `n` ancestors.
pub open spec fn asref_impls(anc: Seq<ClassView>, rust: Seq<char>, n: int) -> Seq<char>
    decreases n,
{
    if n <= 0 {
        Seq::empty()
    } else {
        asref_impls(anc, rust, n - 1) + asref_impl(rust, rust_name(anc[n - 1].vala_name))
    }
}

/// The `IsA` marker saying the wrapper `rust` is an `arust`.
pub open spec fn isa_impl(rust: Seq<char>, arust: Seq<char>) -> Seq<char> {
    "unsafe impl _IsA<"@ + arust + "> for "@ + rust + " {}\n"@
}

/// `IsA` markers for the first `n` ancestors.
pub open spec fn isa_impls(anc: Seq<ClassView>, rust: Seq<char>, n: int) -> Seq<char>
    decreases n,
{
    if n <= 0 {
        Seq::empty()
    } else {
        isa_impls(anc, rust, n - 1) + isa_impl(rust, rust_name(anc[n - 1].vala_name))
    }
}

/// The interfaces named by `base` and by the first `n` ancestors, as a sorted
/// set.
pub open spec fn anc_ifaces(base: Seq<Seq<char>>, anc: Seq<ClassView>, n: int) -> Seq<Seq<char>>
    decreases n,
{
    if n <= 0 {
        base
    } else {
        set_insert_all(anc_ifaces(base, anc, n - 1), anc[n - 1].interfaces)
    }
}

/// The interfaces a class implements, itself or through its ancestors, in
/// name order without repeats.
pub open spec fn implemented(c: ClassView, anc: Seq<ClassView>) -> Seq<Seq<char>> {
    anc_ifaces(set_insert_all(Seq::empty(), c.interfaces), anc, anc.len() as int)
}

/// `Implements` markers of the wrapper `rust` for the first `n` of `ifaces`
/// that are declared.
pub open spec fn implements_impls(
    cs: Seq<ClassView>,
    ifaces: Seq<Seq<char>>,
    rust: Seq<char>,
    n: int,
) -> Seq<char>
    decreases n,
{
    if n <= 0 {
        Seq::empty()
    } else {
        implements_impls(cs, ifaces, rust, n - 1) + match lookup(cs, ifaces[n - 1]) {
            Some(ic) => "unsafe impl _Implements<iface::"@ + rust_name(ic.vala_name) + "> for "@
                + rust + " {}\n"@,
            None => Seq::empty(),
        }
    }
}

/// Everything emitted for the class `c` with root snake name `root`.
pub open spec fn class_block(cs: Seq<ClassView>, c: ClassView, root: Seq<char>) -> Seq<char> {
    let rust = rust_name(c.vala_name);
    let anc = ancestors(cs, c, cs.len() as nat);
    let ifaces = implemented(c, anc);
    wrapper_decl(c, root) + deref_impl(cs, c) + asref_self(rust) + asref_impls(
        anc,
        rust,
        anc.len() as int,
    ) + isa_impl(rust, rust) + isa_impls(anc, rust, anc.len() as int) + implements_impls(
        cs,
        ifaces,
        rust,
        ifaces.len() as int,
    ) + "\n"@
}

/// Text emitted for the first `n` declarations and how many wrappers it
/// declares: nothing for an interface, a note for a class with no root type,
/// otherwise the class block.
pub open spec fn class_blocks(cs: Seq<ClassView>, n: int) -> (Seq<char>, nat)
    decreases n,
{
    if n <= 0 {
        (Seq::empty(), 0)
    } else {
        let (out, count) = class_blocks(cs, n - 1);
        let c = cs[n - 1];
        if c.is_interface {
            (out, count)
        } else {
            match root_of(cs, c, cs.len() as nat) {
                None => (out + "// skipped "@ + c.vala_name + ": no ref-counted root type\n"@, count),
                Some(root) => (out + class_block(cs, c, root), count + 1),
            }
        }
    }
}

/// The trailing count of wrapper types.
pub open spec fn registry(count: nat) -> Seq<char> {
    "/// Number of wrapper types generated from the vapi.\n"@
        + "pub const GENERATED_TYPE_COUNT: usize = "@ + decimal(count) + ";\n"@
}

/// The whole emitted module.
pub open spec fn generated(m: ModelView) -> Seq<char> {
    let (blocks, count) = class_blocks(m.classes, m.classes.len() as int);
    GENERATED_HEADER@ + iface_module(m) + blocks + registry(count)
}


/// Emits the count of wrapper types.
fn emit_registry(out: &mut Vec<char>, count: usize)
    ensures
        final(out)@ == old(out)@ + registry(count as nat),
{
    push_str(out, "/// Number of wrapper types generated from the vapi.\n");
    push_str(out, "pub const GENERATED_TYPE_COUNT: usize = ");
    push_decimal(out, count);
    push_str(out, ";\n");
    assert(out@ =~= old(out)@ + registry(count as nat));
}

fn push_iface_marker(out: &mut Vec<char>, ic: &Class)
    ensures
        final(out)@ == old(out)@ + iface_marker(ic@),
{
    let name = chars_of(ic.vala_name.as_str());
    push_str(out, "    /// Marker type for the `");
    push_all(out, &name);
    push_str(out, "` interface.\n");
    push_str(out, "    pub enum ");
    push_all(out, &rust_name_exec(&name));
    push_str(out, " {}\n");
    assert(out@ =~= old(out)@ + iface_marker(ic@));
}

fn push_wrapper_decl(out: &mut Vec<char>, c: &Class, name: &Vec<char>, rust: &Vec<char>, root: &Vec<char>)
    requires
        name@ == c@.vala_name,
        rust@ == rust_name(name@),
    ensures
        final(out)@ == old(out)@ + wrapper_decl(c@, root@),
{
    push_str(out, "ffi_wrapper! {\n");
    push_str(out, "    /// Safe wrapper for `");
    push_all(out, name);
    push_str(out, "`.\n");
    if c.is_abstract {
        push_str(out, ABSTRACT_DOC);
    }
    let ghost mid = out@;
    push_str(out, "    pub struct ");
    push_all(out, rust);
    push_str(out, "(ptr: *mut ffi::Vala");
    push_all(out, rust);
    push_str(out, ") {\n");
    push_str(out, "        root_ref: vala_");
    push_all(out, root);
    push_str(out, "_ref,\n");
    push_str(out, "        root_unref: vala_");
    push_all(out, root);
    push_str(out, "_unref,\n");
    push_str(out, "        get_type: ");
    push_all(out, &c_prefix_exec(name));
    push_str(out, "_get_type,\n");
    push_str(out, "    }\n");
    push_str(out, "}\n");
    assert(out@ =~= old(out)@ + wrapper_decl(c@, root@));
}

fn push_asref_impl(out: &mut Vec<char>, rust: &Vec<char>, arust: &Vec<char>)
    ensures
        final(out)@ == old(out)@ + asref_impl(rust@, arust@),
{
    push_str(out, "impl AsRef<");
    push_all(out, arust);
    push_str(out, "> for ");
    push_all(out, rust);
    push_str(out, " { fn as_ref(&self) -> &");
    push_all(out, arust);
    push_str(out, " { unsafe { &*(self as *const Self as *const ");
    push_all(out, arust);
    push_str(out, ") } } }\n");
    assert(out@ =~= old(out)@ + asref_impl(rust@, arust@));
}

fn push_isa_impl(out: &mut Vec<char>, rust: &Vec<char>, arust: &Vec<char>)
    ensures
        final(out)@ == old(out)@ + isa_impl(rust@, arust@),
{
    push_str(out, "unsafe impl _IsA<");
    push_all(out, arust);
    push_str(out, "> for ");
    push_all(out, rust);
    push_str(out, " {}\n");
    assert(out@ =~= old(out)@ + isa_impl(rust@, arust@));
}

fn push_asref_self(out: &mut Vec<char>, rust: &Vec<char>)
    ensures
        final(out)@ == old(out)@ + asref_self(rust@),
{
    push_str(out, "impl AsRef<");
    push_all(out, rust);
    push_str(out, "> for ");
    push_all(out, rust);
    push_str(out, " { fn as_ref(&self) -> &");
    push_all(out, rust);
    push_str(out, " { self } }\n");
    assert(out@ =~= old(out)@ + asref_self(rust@));
}

fn push_asref_impls(out: &mut Vec<char>, ancs: &Vec<&Class>, rust: &Vec<char>, Ghost(anc): Ghost<Seq<ClassView>>)
    requires
        ancs@.map_values(|c: &Class| c@) == anc,
    ensures
        final(out)@ == old(out)@ + asref_impls(anc, rust@, anc.len() as int),
{
    let mut i: usize = 0;
    while i < ancs.len()
        invariant
            i <= anc.len(),
            ancs@.map_values(|c: &Class| c@) == anc,
            out@ == old(out)@ + asref_impls(anc, rust@, i as int),
        decreases anc.len() - i,
    {
        assert(ancs@[i as int]@ == anc[i as int]);
        let arust = rust_name_exec(&chars_of(ancs[i].vala_name.as_str()));
        push_asref_impl(out, rust, &arust);
        assert(out@ =~= old(out)@ + asref_impls(anc, rust@, i + 1));
        i += 1;
    }
}

fn push_isa_impls(out: &mut Vec<char>, ancs: &Vec<&Class>, rust: &Vec<char>, Ghost(anc): Ghost<Seq<ClassView>>)
    requires
        ancs@.map_values(|c: &Class| c@) == anc,
    ensures
        final(out)@ == old(out)@ + isa_impls(anc, rust@, anc.len() as int),
{
    let mut i: usize = 0;
    while i < ancs.len()
        invariant
            i <= anc.len(),
            ancs@.map_values(|c: &Class| c@) == anc,
            out@ == old(out)@ + isa_impls(anc, rust@, i as int),
        decreases anc.len() - i,
    {
        assert(ancs@[i as int]@ == anc[i as int]);
        let arust = rust_name_exec(&chars_of(ancs[i].vala_name.as_str()));
        push_isa_impl(out, rust, &arust);
        assert(out@ =~= old(out)@ + isa_impls(anc, rust@, i + 1));
        i += 1;
    }
}

fn insert_names(set: &mut NameSet, names: &Vec<String>)
    requires
        old(set).wf(),
    ensures
        final(set).wf(),
        final(set).view() == set_insert_all(old(set).view(), strings_view(names@)),
{
    let ghost start = set.view();
    let ghost ns = strings_view(names@);
    let mut j: usize = 0;
    while j < names.len()
        invariant
            set.wf(),
            j <= ns.len(),
            ns == strings_view(names@),
            set.view() == set_insert_all(start, ns.take(j as int)),
        decreases names.len() - j,
    {
        assert(ns.take(j + 1).drop_last() =~= ns.take(j as int));
        set.insert(chars_of(names[j].as_str()));
        j += 1;
    }
    assert(ns.take(ns.len() as int) =~= ns);
}

/// The interfaces `class` implements itself or through `ancs`, as a sorted
/// set.
fn implemented_set(class: &Class, ancs: &Vec<&Class>, Ghost(anc): Ghost<Seq<ClassView>>) -> (r: NameSet)
    requires
        ancs@.map_values(|c: &Class| c@) == anc,
    ensures
        r.wf(),
        r.view() == implemented(class@, anc),
{
    let mut ifaces = NameSet::new();
    insert_names(&mut ifaces, &class.interfaces);
    let ghost base = ifaces.view();
    let mut i: usize = 0;
    while i < ancs.len()
        invariant
            ifaces.wf(),
            i <= anc.len(),
            ancs@.map_values(|c: &Class| c@) == anc,
            ifaces.view() == anc_ifaces(base, anc, i as int),
        decreases anc.len() - i,
    {
        assert(ancs@[i as int]@ == anc[i as int]);
        insert_names(&mut ifaces, &ancs[i].interfaces);
        i += 1;
    }
    ifaces
}

impl Model {
    fn push_deref(&self, out: &mut Vec<char>, c: &Class, rust: &Vec<char>)
        requires
            self.wf(),
            rust@ == rust_name(c@.vala_name),
        ensures
            final(out)@ == old(out)@ + deref_impl(self.view().classes, c@),
    {
        match self.parent_of(c) {
            Some(parent) => {
                let prust = rust_name_exec(&chars_of(parent.vala_name.as_str()));
                push_str(out, "impl ::std::ops::Deref for ");
                push_all(out, rust);
                push_str(out, " { type Target = ");
                push_all(out, &prust);
                push_str(out, ";\n");
                push_str(
                    out,
                    "    fn deref(&self) -> &Self::Target { unsafe { &*(self as *const Self as *const ",
                );
                push_all(out, &prust);
                push_str(out, ") } } }\n");
                assert(out@ =~= old(out)@ + deref_impl(self.view().classes, c@));
            },
            None => {
                assert(out@ =~= old(out)@ + deref_impl(self.view().classes, c@));
            },
        }
    }

    fn push_implements(&self, out: &mut Vec<char>, ifaces: &NameSet, rust: &Vec<char>)
        requires
            self.wf(),
        ensures
            final(out)@ == old(out)@ + implements_impls(
                self.view().classes,
                ifaces.view(),
                rust@,
                ifaces.view().len() as int,
            ),
    {
        let ghost cs = self.view().classes;
        let mut i: usize = 0;
        while i < ifaces.len()
            invariant
                self.wf(),
                cs == self.view().classes,
                i <= ifaces.view().len(),
                out@ == old(out)@ + implements_impls(cs, ifaces.view(), rust@, i as int),
            decreases ifaces.view().len() - i,
        {
            let ghost before = out@;
            match self.classes.get_chars(ifaces.get(i)) {
                Some(ic) => {
                    push_str(out, "unsafe impl _Implements<iface::");
                    push_all(out, &rust_name_exec(&chars_of(ic.vala_name.as_str())));
                    push_str(out, "> for ");
                    push_all(out, rust);
                    push_str(out, " {}\n");
                },
                None => {},
            }
            assert(out@ =~= old(out)@ + implements_impls(cs, ifaces.view(), rust@, i + 1));
            i += 1;
        }
    }

    /// Emits the wrapper block for `class`, whose root type has snake name
    /// `root`.
    #[verifier::rlimit(100)]
    fn emit_class(&self, out: &mut Vec<char>, class: &Class, root: &Vec<char>)
        requires
            self.wf(),
            chain_ends(self.view().classes, class@, self.view().classes.len() as nat),
        ensures
            final(out)@ == old(out)@ + class_block(self.view().classes, class@, root@),
    {
        let ghost cs = self.view().classes;
        let ghost fuel = cs.len() as nat;
        let name = chars_of(class.vala_name.as_str());
        let rust = rust_name_exec(&name);
        let ancs = self.ancestors(class, Ghost(fuel));
        let ghost anc = ancestors(cs, class@, fuel);
        let ghost rv = rust@;
        push_wrapper_decl(out, class, &name, &rust, root);
        let ghost p1 = out@;
        self.push_deref(out, class, &rust);
        let ghost p2 = out@;
        push_asref_self(out, &rust);
        let ghost p3 = out@;
        push_asref_impls(out, &ancs, &rust, Ghost(anc));
        let ghost p4 = out@;
        push_isa_impl(out, &rust, &rust);
        let ghost p5 = out@;
        push_isa_impls(out, &ancs, &rust, Ghost(anc));
        let ghost p6 = out@;
        let ifaces = implemented_set(class, &ancs, Ghost(anc));
        self.push_implements(out, &ifaces, &rust);
        let ghost p7 = out@;
        push_str(out, "\n");
        proof {
            let ghost w = wrapper_decl(class@, root@);
            let ghost d = deref_impl(cs, class@);
            let ghost a1 = asref_self(rv);
            let ghost a2 = asref_impls(anc, rv, anc.len() as int);
            let ghost i1 = isa_impl(rv, rv);
            let ghost i2 = isa_impls(anc, rv, anc.len() as int);
            let ghost im = implements_impls(cs, ifaces.view(), rv, ifaces.view().len() as int);
            assert(class_block(cs, class@, root@) == w + d + a1 + a2 + i1 + i2 + im + "\n"@);
            assert(out@ =~= old(out)@ + (w + d + a1 + a2 + i1 + i2 + im + "\n"@));
        }
    }

    /// Emits the wrapper module: the header, the interface markers, one
    /// wrapper block per class that has a ref-counted root (a note for each
    /// class without one), and the count of wrapper types.
    pub fn generate(&self) -> (r: String)
        requires
            self.wf(),
            acyclic(self.view().classes),
        ensures
            r@ == generated(self.view()),
    {
        let ghost m = self.view();
        let ghost cs = m.classes;
        let mut out: Vec<char> = Vec::new();
        push_str(&mut out, GENERATED_HEADER);
        push_str(
            &mut out,
            "/// Marker types for libvala interfaces, used by the [`crate::Implements`] bound.\n",
        );
        push_str(&mut out, "pub mod iface {\n");
        let ghost q0 = out@;
        let mut i: usize = 0;
        while i < self.interfaces.len()
            invariant
                self.wf(),
                m == self.view(),
                i <= m.interfaces.len(),
                out@ == q0 + iface_markers(m, i as int),
            decreases m.interfaces.len() - i,
        {
            assert(self.interfaces@[i as int]@ == m.interfaces[i as int]);
            match self.classes.get_chars(&self.interfaces[i]) {
                Some(ic) => {
                    push_iface_marker(&mut out, ic);
                },
                None => {},
            }
            assert(out@ =~= q0 + iface_markers(m, i + 1));
            i += 1;
        }
        push_str(&mut out, "}\n\n");
        let ghost q1 = out@;
        assert(q1 =~= GENERATED_HEADER@ + iface_module(m));
        let n = self.classes.len();
        let mut emitted: usize = 0;
        let mut i: usize = 0;
        while i < n
            invariant
                self.wf(),
                m == self.view(),
                cs == m.classes,
                acyclic(cs),
                n == cs.len(),
                i <= n,
                emitted <= i,
                out@ == q1 + class_blocks(cs, i as int).0,
                emitted == class_blocks(cs, i as int).1,
            decreases n - i,
        {
            let class = self.classes.value_at(i);
            assert(chain_ends(cs, cs[i as int], n as nat));
            if !class.is_interface {
                if self.has_root(class, n) {
                    let root = self.root_snake(class, Ghost(n as nat));
                    self.emit_class(&mut out, class, &root);
                    emitted += 1;
                } else {
                    push_str(&mut out, "// skipped ");
                    push_all(&mut out, &chars_of(class.vala_name.as_str()));
                    push_str(&mut out, ": no ref-counted root type\n");
                }
            }
            assert(out@ =~= q1 + class_blocks(cs, i + 1).0);
            i += 1;
        }
        let ghost q2 = out@;
        emit_registry(&mut out, emitted);
        assert(out@ =~= generated(m));
        string_of(&out)
    }
}


// ---------------------------------------------------------------------------
// Properties.
// ---------------------------------------------------------------------------

proof fn lemma_reclass_upto(
    bases: Seq<Seq<char>>,
    ifs: Seq<Seq<char>>,
    names: Seq<Seq<char>>,
    n: int,
)
    requires
        0 <= n <= bases.len(),
        forall|x: Seq<char>| ifs.contains(x) ==> names.contains(x),
    ensures
        reclass_upto(bases, ifs, names, n).0 matches Some(p) ==> names.contains(p) && !ifs.contains(p),
        forall|j: int|
            0 <= j < reclass_upto(bases, ifs, names, n).1.len() ==> names.contains(
                #[trigger] reclass_upto(bases, ifs, names, n).1[j],
            ),
    decreases n,
{
    if n > 0 {
        lemma_reclass_upto(bases, ifs, names, n - 1);
        let (p, out) = reclass_upto(bases, ifs, names, n - 1);
        let r = reclass_upto(bases, ifs, names, n).1;
        assert forall|j: int| 0 <= j < r.len() implies names.contains(#[trigger] r[j]) by {
            if j < out.len() {
                assert(r[j] == out[j]);
            }
        }
    }
}

proof fn lemma_anc_ifaces(base: Seq<Seq<char>>, anc: Seq<ClassView>, n: int)
    requires
        sorted(base),
        0 <= n <= anc.len(),
    ensures
        sorted(anc_ifaces(base, anc, n)),
        forall|y: Seq<char>| #[trigger]
            anc_ifaces(base, anc, n).contains(y) <==> (base.contains(y) || exists|k: int|
                0 <= k < n && #[trigger] anc[k].interfaces.contains(y)),
    decreases n,
{
    if n > 0 {
        lemma_anc_ifaces(base, anc, n - 1);
        lemma_set_insert_all(anc_ifaces(base, anc, n - 1), anc[n - 1].interfaces);
        assert forall|y: Seq<char>| #[trigger]
            anc_ifaces(base, anc, n).contains(y) <==> (base.contains(y) || exists|k: int|
                0 <= k < n && #[trigger] anc[k].interfaces.contains(y)) by {
            if exists|k: int| 0 <= k < n && #[trigger] anc[k].interfaces.contains(y) {
                let k = choose|k: int| 0 <= k < n && #[trigger] anc[k].interfaces.contains(y);
                if k < n - 1 {
                    assert(exists|j: int| 0 <= j < n - 1 && #[trigger] anc[j].interfaces.contains(y));
                }
            }
        }
    }
}

/// The interfaces marked as implemented by a class are in strictly increasing
/// name order and are exactly those it lists or one of its ancestors lists.
pub proof fn lemma_implemented(c: ClassView, anc: Seq<ClassView>)
    ensures
        sorted(implemented(c, anc)),
        forall|y: Seq<char>| #[trigger]
            implemented(c, anc).contains(y) <==> (c.interfaces.contains(y) || exists|k: int|
                0 <= k < anc.len() && #[trigger] anc[k].interfaces.contains(y)),
{
    let e = Seq::<Seq<char>>::empty();
    lemma_set_insert_all(e, c.interfaces);
    lemma_anc_ifaces(set_insert_all(e, c.interfaces), anc, anc.len() as int);
}

proof fn lemma_class_blocks_count(cs: Seq<ClassView>, n: int)
    requires
        0 <= n <= cs.len(),
    ensures
        class_blocks(cs, n).1 <= cs.take(n).filter(|c: ClassView| !c.is_interface).len(),
    decreases n,
{
    if n > 0 {
        let pred = |c: ClassView| !c.is_interface;
        lemma_class_blocks_count(cs, n - 1);
        assert(cs.take(n) == cs.take(n - 1).push(cs[n - 1]));
        cs.take(n - 1).lemma_filter_push(cs[n - 1], pred);
    }
}

/// The emitted count of wrapper types is at most the number of declarations
/// that are not interfaces: interfaces get marker types, not wrappers.
pub proof fn lemma_wrapper_count(m: ModelView)
    ensures
        class_blocks(m.classes, m.classes.len() as int).1 <= m.classes.filter(
            |c: ClassView| !c.is_interface,
        ).len(),
{
    lemma_class_blocks_count(m.classes, m.classes.len() as int);
    assert(m.classes.take(m.classes.len() as int) =~= m.classes);
}

/// Building the model keeps the non-gee declarations with their names, kinds
/// and abstractness, in name order.
pub proof fn lemma_model_keeps(s: Seq<ClassView>)
    ensures
        names_of(model_of(s).classes) == names_of(kept(s)),
        forall|i: int|
            0 <= i < model_of(s).classes.len() ==> {
                let c = #[trigger] model_of(s).classes[i];
                &&& !c.is_gee
                &&& c.is_interface == kept(s)[i].is_interface
                &&& c.is_abstract == kept(s)[i].is_abstract
            },
{
    let k = kept(s);
    let not_gee = |c: ClassView| !c.is_gee;
    assert(names_of(model_of(s).classes) =~= names_of(k));
    assert forall|i: int| 0 <= i < model_of(s).classes.len() implies !(
    #[trigger] model_of(s).classes[i]).is_gee by {
        s.lemma_filter_pred(not_gee, i);
    }
}

/// In the model every parent is a declared class that is not an interface,
/// and every recorded interface is a declared name; the interface list names
/// exactly the declared interfaces.
pub proof fn lemma_model_bases(s: Seq<ClassView>, i: int)
    requires
        0 <= i < model_of(s).classes.len(),
    ensures
        ({
            let m = model_of(s);
            let c = m.classes[i];
            &&& c.parent matches Some(p) ==> names_of(m.classes).contains(p)
                && !m.interfaces.contains(p)
            &&& forall|j: int|
                0 <= j < c.interfaces.len() ==> names_of(m.classes).contains(
                    #[trigger] c.interfaces[j],
                )
        }),
{
    let k = kept(s);
    let m = model_of(s);
    let ifs = interface_names(k);
    let names = names_of(k);
    let is_if = |c: ClassView| c.is_interface;
    lemma_model_keeps(s);
    assert forall|x: Seq<char>| ifs.contains(x) implies names.contains(x) by {
        let j = choose|j: int| 0 <= j < ifs.len() && ifs[j] == x;
        let fk = k.filter(is_if);
        assert(fk.contains(fk[j]));
        k.lemma_filter_contains_rev(is_if, fk[j]);
        let q = choose|q: int| 0 <= q < k.len() && k[q] == fk[j];
        assert(names[q] == x);
    }
    let c = k[i];
    lemma_reclass_upto(all_bases(c), ifs, names, all_bases(c).len() as int);
}

} // verus!
