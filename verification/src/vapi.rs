//! A reader for the subset of the Vala `.vapi` grammar the wrapper emitter
//! needs: class and interface declarations together with their base types.
//! Method, property and field bodies are ignored; only the type hierarchy is
//! modelled.

use vstd::prelude::*;

use crate::order::{
    compare, lemma_lex_asymmetric, lemma_lex_irreflexive, lemma_lex_transitive,
    lemma_set_insert, lex_lt, names_are, set_insert, sorted, Cmp3,
};
use crate::text::{
    before_char, before_char_exec, chars_of, eq_chars, eq_str, find_char, find_char_exec,
    find_sub, find_sub_exec, lemma_find_char, lemma_find_sub_from, lemma_lines_len,
    lemma_trim_len, lines, push_all, slice_of, split_char, split_char_exec, split_lines,
    occurs_at, starts_with, string_of, strip_prefix, strip_prefix_exec, strip_prefix_or_keep,
    strip_prefix_or_keep_exec, total_len, trim, trim_chars, trim_end_char, trim_end_matches,
    views_are,
};

verus! {

/// A `class` or `interface` declaration.
#[derive(Debug, Clone)]
pub struct Class {
    /// Fully qualified Vala name, e.g. `Vala.Genie.Parser`.
    pub vala_name: String,
    /// Direct base class, if any.
    pub parent: Option<String>,
    /// Implemented interfaces.
    pub interfaces: Vec<String>,
    /// Whether the declaration is `abstract`.
    pub is_abstract: bool,
    /// True for the gee collection classes (cheader `valagee.h`); these are
    /// generic and handled separately, not as AST nodes.
    pub is_gee: bool,
    /// Whether the declaration is an `interface` rather than a `class`.
    pub is_interface: bool,
}

/// The mathematical model of a [`Class`].
pub struct ClassView {
    pub vala_name: Seq<char>,
    pub parent: Option<Seq<char>>,
    pub interfaces: Seq<Seq<char>>,
    pub is_abstract: bool,
    pub is_gee: bool,
    pub is_interface: bool,
}

/// The characters of an optional string.
pub open spec fn opt_view(o: Option<String>) -> Option<Seq<char>> {
    match o {
        Some(s) => Some(s@),
        None => None,
    }
}

/// The characters of each string of a list.
pub open spec fn strings_view(v: Seq<String>) -> Seq<Seq<char>> {
    v.map_values(|s: String| s@)
}

impl View for Class {
    type V = ClassView;

    open spec fn view(&self) -> ClassView {
        ClassView {
            vala_name: self.vala_name@,
            parent: opt_view(self.parent),
            interfaces: strings_view(self.interfaces@),
            is_abstract: self.is_abstract,
            is_gee: self.is_gee,
            is_interface: self.is_interface,
        }
    }
}

// ---------------------------------------------------------------------------
// Naming conventions.
// ---------------------------------------------------------------------------

/// ASCII uppercase letter.
pub open spec fn is_upper(c: char) -> bool {
    'A' <= c && c <= 'Z'
}

/// ASCII lowercase letter.
pub open spec fn is_lower(c: char) -> bool {
    'a' <= c && c <= 'z'
}

/// ASCII digit.
pub open spec fn is_digit(c: char) -> bool {
    '0' <= c && c <= '9'
}

/// `char::to_ascii_lowercase`.
pub open spec fn to_lower(c: char) -> char {
    if is_upper(c) {
        ((c as u32) + 32) as char
    } else {
        c
    }
}

fn to_lower_exec(c: char) -> (r: char)
    ensures
        r == to_lower(c),
{
    if 'A' <= c && c <= 'Z' {
        ((c as u8) + 32) as char
    } else {
        c
    }
}

/// The irregular snake names of a few libvala classes whose `type` prefix is
/// not separated in their C symbols.
pub open spec fn snake_exception(short: Seq<char>) -> Option<Seq<char>> {
    if short == "TypeCheck"@ {
        Some("typecheck"@)
    } else if short == "TypeParameter"@ {
        Some("typeparameter"@)
    } else if short == "TypeSymbol"@ {
        Some("typesymbol"@)
    } else {
        None
    }
}

fn snake_override(short: &Vec<char>) -> (r: Option<Vec<char>>)
    ensures
        match r {
            Some(o) => snake_exception(short@) == Some(o@),
            None => snake_exception(short@) is None,
        },
{
    if eq_str(short, "TypeCheck") {
        Some(chars_of("typecheck"))
    } else if eq_str(short, "TypeParameter") {
        Some(chars_of("typeparameter"))
    } else if eq_str(short, "TypeSymbol") {
        Some(chars_of("typesymbol"))
    } else {
        None
    }
}

/// `out` after converting character `i` of the CamelCase word `w`.
///
/// An uppercase letter is lowered, and an underscore goes before it when it
/// starts a new word: it is not the first letter, it follows a lowercase letter
/// or digit or precedes a lowercase letter, and `out` does not already end in
/// an underscore. Other characters are copied.
pub open spec fn camel_step(out: Seq<char>, w: Seq<char>, i: int) -> Seq<char> {
    let c = w[i];
    if is_upper(c) {
        let prev_lower = i > 0 && (is_lower(w[i - 1]) || is_digit(w[i - 1]));
        let next_lower = i + 1 < w.len() && is_lower(w[i + 1]);
        let ends_us = out.len() > 0 && out.last() == '_';
        let sep = i > 0 && (prev_lower || next_lower) && !ends_us;
        (if sep {
            out.push('_')
        } else {
            out
        }).push(to_lower(c))
    } else {
        out.push(c)
    }
}

/// `out` after converting the first `n` characters of `w`.
pub open spec fn camel_upto(out: Seq<char>, w: Seq<char>, n: int) -> Seq<char>
    decreases n,
{
    if n <= 0 {
        out
    } else {
        camel_step(camel_upto(out, w, n - 1), w, n - 1)
    }
}

/// `out` followed by the snake_case form of the CamelCase word `w`.
pub open spec fn camel_snake(out: Seq<char>, w: Seq<char>) -> Seq<char> {
    camel_upto(out, w, w.len() as int)
}

fn camel_to_snake(w: &Vec<char>, out: &mut Vec<char>)
    ensures
        final(out)@ == camel_snake(old(out)@, w@),
{
    let ghost start = out@;
    let mut i: usize = 0;
    while i < w.len()
        invariant
            i <= w@.len(),
            out@ == camel_upto(start, w@, i as int),
        decreases w.len() - i,
    {
        let c = w[i];
        if 'A' <= c && c <= 'Z' {
            let prev_lower = i > 0 && (('a' <= w[i - 1] && w[i - 1] <= 'z') || ('0' <= w[i - 1]
                && w[i - 1] <= '9'));
            let next_lower = i + 1 < w.len() && ('a' <= w[i + 1] && w[i + 1] <= 'z');
            let ends_us = out.len() > 0 && out[out.len() - 1] == '_';
            if i > 0 && (prev_lower || next_lower) && !ends_us {
                out.push('_');
            }
            out.push(to_lower_exec(c));
        } else {
            out.push(c);
        }
        i += 1;
    }
}

/// The snake name built from the first `n` dot-separated parts: each part in
/// snake_case, joined by underscores.
pub open spec fn snake_parts(parts: Seq<Seq<char>>, n: int) -> Seq<char>
    decreases n,
{
    if n <= 0 {
        Seq::empty()
    } else {
        let o = snake_parts(parts, n - 1);
        camel_snake(
            if n - 1 > 0 {
                o.push('_')
            } else {
                o
            },
            parts[n - 1],
        )
    }
}

/// The libvala C snake_case form of a fully qualified Vala name:
/// `Vala.Genie.Parser` -> `genie_parser`, `Vala.CodeContext` -> `code_context`.
pub open spec fn snake_name(vala_name: Seq<char>) -> Seq<char> {
    let w = strip_prefix_or_keep(vala_name, "Vala."@);
    match snake_exception(w) {
        Some(o) => o,
        None => {
            let parts = split_char(w, '.');
            snake_parts(parts, parts.len() as int)
        },
    }
}

/// Executable [`snake_name`].
pub fn to_snake(vala_name: &Vec<char>) -> (r: Vec<char>)
    ensures
        r@ == snake_name(vala_name@),
{
    let w = strip_prefix_or_keep_exec(vala_name, "Vala.");
    if let Some(o) = snake_override(&w) {
        return o;
    }
    let parts = split_char_exec(&w, '.');
    let mut out: Vec<char> = Vec::new();
    let mut i: usize = 0;
    while i < parts.len()
        invariant
            i <= parts@.len(),
            views_are(parts@, split_char(w@, '.')),
            out@ == snake_parts(split_char(w@, '.'), i as int),
        decreases parts.len() - i,
    {
        if i > 0 {
            out.push('_');
        }
        camel_to_snake(&parts[i], &mut out);
        i += 1;
    }
    out
}

/// The Rust wrapper type name: the name without its `Vala.` root and without
/// dots, e.g. `Vala.Genie.Parser` -> `GenieParser`.
pub open spec fn rust_name(vala_name: Seq<char>) -> Seq<char> {
    strip_prefix_or_keep(vala_name, "Vala."@).filter(|c: char| c != '.')
}

/// Executable [`rust_name`].
pub fn rust_name_exec(vala_name: &Vec<char>) -> (r: Vec<char>)
    ensures
        r@ == rust_name(vala_name@),
{
    let w = strip_prefix_or_keep_exec(vala_name, "Vala.");
    let ghost pred = |c: char| c != '.';
    let mut out: Vec<char> = Vec::new();
    let mut i: usize = 0;
    while i < w.len()
        invariant
            i <= w@.len(),
            pred == (|c: char| c != '.'),
            out@ == w@.take(i as int).filter(pred),
        decreases w.len() - i,
    {
        proof {
            w@.take(i as int).lemma_filter_push(w@[i as int], pred);
            assert(w@.take(i + 1) == w@.take(i as int).push(w@[i as int]));
        }
        if w[i] != '.' {
            out.push(w[i]);
        }
        i += 1;
    }
    assert(w@.take(w@.len() as int) == w@);
    out
}

/// The C symbol prefix: `vala_` followed by the snake name.
pub open spec fn c_prefix(vala_name: Seq<char>) -> Seq<char> {
    "vala_"@ + snake_name(vala_name)
}

/// Executable [`c_prefix`].
pub fn c_prefix_exec(vala_name: &Vec<char>) -> (r: Vec<char>)
    ensures
        r@ == c_prefix(vala_name@),
{
    let mut out = chars_of("vala_");
    let s = to_snake(vala_name);
    push_all(&mut out, &s);
    out
}

impl Class {
    /// snake_case identifier base, e.g. `Vala.Genie.Parser` -> `genie_parser`.
    pub fn snake(&self) -> (r: String)
        ensures
            r@ == snake_name(self.vala_name@),
    {
        let name = chars_of(self.vala_name.as_str());
        string_of(&to_snake(&name))
    }

    /// Rust wrapper type name, e.g. `Vala.Genie.Parser` -> `GenieParser`.
    pub fn rust_name(&self) -> (r: String)
        ensures
            r@ == rust_name(self.vala_name@),
    {
        let name = chars_of(self.vala_name.as_str());
        string_of(&rust_name_exec(&name))
    }

    /// C symbol prefix, e.g. `vala_genie_parser`.
    pub fn c_prefix(&self) -> (r: String)
        ensures
            r@ == c_prefix(self.vala_name@),
    {
        let name = chars_of(self.vala_name.as_str());
        string_of(&c_prefix_exec(&name))
    }
}


// ---------------------------------------------------------------------------
// Declarations ordered by name.
// ---------------------------------------------------------------------------

/// The names of `s`, in order.
pub open spec fn names_of(s: Seq<ClassView>) -> Seq<Seq<char>> {
    s.map_values(|c: ClassView| c.vala_name)
}

/// `s` with `c` stored under its name, at its place in the name order,
/// replacing an entry of the same name.
pub open spec fn class_insert(s: Seq<ClassView>, c: ClassView) -> Seq<ClassView>
    decreases s.len(),
{
    if s.len() == 0 {
        seq![c]
    } else if s[0].vala_name == c.vala_name {
        seq![c] + s.drop_first()
    } else if lex_lt(c.vala_name, s[0].vala_name) {
        seq![c] + s
    } else {
        seq![s[0]] + class_insert(s.drop_first(), c)
    }
}

/// The entry named `name`, if any.
pub open spec fn lookup(s: Seq<ClassView>, name: Seq<char>) -> Option<ClassView>
    decreases s.len(),
{
    if s.len() == 0 {
        None
    } else if s[0].vala_name == name {
        Some(s[0])
    } else {
        lookup(s.drop_first(), name)
    }
}

/// The names of an insertion are the names inserted into the name set.
pub proof fn lemma_class_insert_names(s: Seq<ClassView>, c: ClassView)
    ensures
        names_of(class_insert(s, c)) == set_insert(names_of(s), c.vala_name),
    decreases s.len(),
{
    if s.len() == 0 {
        assert(names_of(class_insert(s, c)) =~= seq![c.vala_name]);
    } else if s[0].vala_name == c.vala_name {
        assert(names_of(class_insert(s, c)) =~= names_of(s));
    } else if lex_lt(c.vala_name, s[0].vala_name) {
        assert(names_of(class_insert(s, c)) =~= seq![c.vala_name] + names_of(s));
    } else {
        lemma_class_insert_names(s.drop_first(), c);
        assert(names_of(s.drop_first()) =~= names_of(s).drop_first());
        assert(names_of(class_insert(s, c)) =~= seq![s[0].vala_name] + names_of(
            class_insert(s.drop_first(), c),
        ));
    }
}

/// After storing `c`, looking up its name gives `c`, and every other name
/// gives what it gave before.
pub proof fn lemma_class_insert_lookup(s: Seq<ClassView>, c: ClassView, name: Seq<char>)
    ensures
        lookup(class_insert(s, c), c.vala_name) == Some(c),
        name != c.vala_name ==> lookup(class_insert(s, c), name) == lookup(s, name),
    decreases s.len(),
{
    if s.len() == 0 {
        let r = class_insert(s, c);
        assert(r.drop_first() =~= s);
    } else if s[0].vala_name == c.vala_name {
        let r = class_insert(s, c);
        assert(r.drop_first() =~= s.drop_first());
    } else if lex_lt(c.vala_name, s[0].vala_name) {
        let r = class_insert(s, c);
        assert(r.drop_first() =~= s);
    } else {
        lemma_class_insert_lookup(s.drop_first(), c, name);
        let r = class_insert(s, c);
        assert(r.drop_first() =~= class_insert(s.drop_first(), c));
    }
}

/// Inserting past a prefix of smaller names leaves that prefix in place.
proof fn lemma_class_insert_after(s: Seq<ClassView>, c: ClassView, i: int)
    requires
        0 <= i <= s.len(),
        forall|k: int| 0 <= k < i ==> lex_lt(#[trigger] s[k].vala_name, c.vala_name),
    ensures
        class_insert(s, c) == s.take(i) + class_insert(s.skip(i), c),
    decreases i,
{
    if i == 0 {
        assert(s.skip(0) =~= s);
        assert(s.take(0) + class_insert(s.skip(0), c) =~= class_insert(s, c));
    } else {
        lemma_lex_irreflexive(c.vala_name);
        lemma_lex_asymmetric(c.vala_name, s[0].vala_name);
        let t = s.drop_first();
        assert forall|k: int| 0 <= k < i - 1 implies lex_lt(#[trigger] t[k].vala_name, c.vala_name) by {
            assert(t[k] == s[k + 1]);
        }
        lemma_class_insert_after(t, c, i - 1);
        assert(t.skip(i - 1) =~= s.skip(i));
        assert(seq![s[0]] + (t.take(i - 1) + class_insert(t.skip(i - 1), c)) =~= s.take(i)
            + class_insert(s.skip(i), c));
    }
}

/// Declarations keyed by fully qualified name and kept in name order, the
/// order in which a `BTreeMap<String, Class>` holds them.
pub struct ClassMap {
    keys: Vec<Vec<char>>,
    entries: Vec<Class>,
}

impl ClassMap {
    /// The declarations, in increasing name order.
    pub closed spec fn view(&self) -> Seq<ClassView> {
        self.entries@.map_values(|c: Class| c@)
    }

    /// Names are strictly increasing and each key is its entry's name.
    pub closed spec fn wf(&self) -> bool {
        &&& names_are(self.keys@, names_of(self.view()))
        &&& sorted(names_of(self.view()))
    }

    /// An empty map.
    pub fn new() -> (r: Self)
        ensures
            r.wf(),
            r.view() == Seq::<ClassView>::empty(),
    {
        let r = ClassMap { keys: Vec::new(), entries: Vec::new() };
        assert(r.view() =~= Seq::<ClassView>::empty());
        r
    }

    /// Number of declarations.
    pub fn len(&self) -> (n: usize)
        ensures
            n == self.view().len(),
    {
        self.entries.len()
    }

    /// Whether the map is empty.
    pub fn is_empty(&self) -> (b: bool)
        ensures
            b == (self.view().len() == 0),
    {
        self.entries.len() == 0
    }

    /// The `i`-th declaration in name order.
    pub fn value_at(&self, i: usize) -> (r: &Class)
        requires
            i < self.view().len(),
        ensures
            r@ == self.view()[i as int],
    {
        &self.entries[i]
    }

    fn index_of(&self, name: &Vec<char>) -> (r: Option<usize>)
        requires
            self.wf(),
        ensures
            match r {
                Some(i) => i < self.view().len() && self.view()[i as int].vala_name == name@
                    && lookup(self.view(), name@) == Some(self.view()[i as int]),
                None => lookup(self.view(), name@) is None,
            },
    {
        let ghost s = self.view();
        let mut i: usize = 0;
        assert(s.skip(0) =~= s);
        while i < self.keys.len()
            invariant
                s == self.view(),
                self.wf(),
                i <= s.len(),
                lookup(s, name@) == lookup(s.skip(i as int), name@),
            decreases self.keys.len() - i,
        {
            assert(self.keys@[i as int]@ == names_of(s)[i as int]);
            assert(s.skip(i as int).drop_first() =~= s.skip(i + 1));
            if eq_chars(&self.keys[i], name) {
                return Some(i);
            }
            i += 1;
        }
        None
    }

    /// The declaration named `name`.
    pub fn get_chars(&self, name: &Vec<char>) -> (r: Option<&Class>)
        requires
            self.wf(),
        ensures
            match r {
                Some(c) => lookup(self.view(), name@) == Some(c@),
                None => lookup(self.view(), name@) is None,
            },
    {
        match self.index_of(name) {
            Some(i) => Some(&self.entries[i]),
            None => None,
        }
    }

    /// The declaration named `name` (`BTreeMap::get`).
    pub fn get(&self, name: &str) -> (r: Option<&Class>)
        requires
            self.wf(),
        ensures
            match r {
                Some(c) => lookup(self.view(), name@) == Some(c@),
                None => lookup(self.view(), name@) is None,
            },
    {
        let n = chars_of(name);
        self.get_chars(&n)
    }

    /// Whether a declaration is named `name`.
    pub fn contains_key(&self, name: &str) -> (b: bool)
        requires
            self.wf(),
        ensures
            b == (lookup(self.view(), name@) is Some),
    {
        self.get(name).is_some()
    }

    /// A well-formed map holds its declarations in strictly increasing name
    /// order.
    pub proof fn lemma_sorted(&self)
        requires
            self.wf(),
        ensures
            sorted(names_of(self.view())),
    {
    }

    /// The name of the `i`-th declaration.
    pub fn key_at(&self, i: usize) -> (r: &Vec<char>)
        requires
            self.wf(),
            i < self.view().len(),
        ensures
            r@ == self.view()[i as int].vala_name,
    {
        assert(self.keys@[i as int]@ == names_of(self.view())[i as int]);
        &self.keys[i]
    }

    /// The declarations, in name order.
    pub fn into_entries(self) -> (v: Vec<Class>)
        ensures
            v@.map_values(|c: Class| c@) == self.view(),
    {
        self.entries
    }

    /// Appends `c`, whose name is greater than every name already stored.
    pub fn push_greatest(&mut self, c: Class)
        requires
            old(self).wf(),
            old(self).view().len() == 0 || lex_lt(
                old(self).view().last().vala_name,
                c@.vala_name,
            ),
        ensures
            final(self).wf(),
            final(self).view() == old(self).view().push(c@),
    {
        let ghost s = self.view();
        let key = chars_of(c.vala_name.as_str());
        self.keys.push(key);
        self.entries.push(c);
        assert(self.view() =~= s.push(c@));
        let ghost ns = names_of(self.view());
        assert(ns =~= names_of(s).push(c@.vala_name));
        assert forall|i: int, j: int| 0 <= i < j < ns.len() implies lex_lt(
            #[trigger] ns[i],
            #[trigger] ns[j],
        ) by {
            if j == ns.len() - 1 && i < j - 1 {
                lemma_lex_transitive(ns[i], ns[j - 1], ns[j]);
            }
        }
        assert(names_are(self.keys@, ns));
    }

    /// Stores `c` under its name, replacing any declaration of that name
    /// (`BTreeMap::insert`).
    pub fn insert(&mut self, c: Class)
        requires
            old(self).wf(),
        ensures
            final(self).wf(),
            final(self).view() == class_insert(old(self).view(), c@),
    {
        let ghost s = self.view();
        let key = chars_of(c.vala_name.as_str());
        let mut i: usize = 0;
        let mut found = false;
        while i < self.keys.len()
            invariant_except_break
                s == self.view(),
                self.wf(),
                i <= s.len(),
                forall|k: int| 0 <= k < i ==> lex_lt(#[trigger] s[k].vala_name, key@),
                !found,
            ensures
                s == self.view(),
                self.wf(),
                i <= s.len(),
                forall|k: int| 0 <= k < i ==> lex_lt(#[trigger] s[k].vala_name, key@),
                found ==> i < s.len() && s[i as int].vala_name == key@,
                !found ==> i == s.len() || lex_lt(key@, s[i as int].vala_name),
            decreases self.keys.len() - i,
        {
            assert(self.keys@[i as int]@ == names_of(s)[i as int]);
            match compare(&self.keys[i], &key) {
                Cmp3::Less => {},
                Cmp3::Equal => {
                    found = true;
                    break;
                },
                Cmp3::Greater => {
                    break;
                },
            }
            i += 1;
        }
        proof {
            lemma_class_insert_after(s, c@, i as int);
            lemma_class_insert_names(s, c@);
            lemma_set_insert(names_of(s), c@.vala_name);
            lemma_lex_irreflexive(key@);
        }
        if found {
            self.entries.set(i, c);
            assert(self.view() =~= s.take(i as int) + class_insert(s.skip(i as int), c@)) by {
                assert(s.skip(i as int)[0] == s[i as int]);
                assert(s.skip(i as int).drop_first() =~= s.skip(i + 1));
            }
        } else {
            self.keys.insert(i, key);
            self.entries.insert(i, c);
            assert(self.view() =~= s.take(i as int) + class_insert(s.skip(i as int), c@)) by {
                if i < s.len() {
                    assert(s.skip(i as int)[0] == s[i as int]);
                }
                assert(self.view() =~= s.insert(i as int, c@));
            }
        }
        assert(names_are(self.keys@, names_of(self.view())));
    }
}


// ---------------------------------------------------------------------------
// Line-level recognisers.
// ---------------------------------------------------------------------------

/// Brace count, inside-string flag, inside-char-literal flag and previous
/// character after reading the first `n` characters of `line`.
///
/// A `"` that is not escaped and not inside a character literal toggles the
/// string flag; a `'` that is not escaped and not inside a string toggles the
/// character flag; `{` and `}` outside both count +1 and -1.
pub open spec fn brace_upto(line: Seq<char>, n: int) -> (int, bool, bool, char)
    decreases n,
{
    if n <= 0 {
        (0, false, false, '\0')
    } else {
        let (d, in_str, in_char, prev) = brace_upto(line, n - 1);
        let c = line[n - 1];
        if c == '"' && !in_char && prev != '\\' {
            (d, !in_str, in_char, c)
        } else if c == '\'' && !in_str && prev != '\\' {
            (d, in_str, !in_char, c)
        } else if c == '{' && !in_str && !in_char {
            (d + 1, in_str, in_char, c)
        } else if c == '}' && !in_str && !in_char {
            (d - 1, in_str, in_char, c)
        } else {
            (d, in_str, in_char, c)
        }
    }
}

/// Net change in brace nesting on a line, ignoring braces inside string or
/// character literals.
pub open spec fn brace_change(line: Seq<char>) -> int {
    brace_upto(line, line.len() as int).0
}

proof fn lemma_brace_upto_bound(line: Seq<char>, n: int)
    requires
        0 <= n <= line.len(),
    ensures
        -n <= brace_upto(line, n).0 <= n,
    decreases n,
{
    if n > 0 {
        lemma_brace_upto_bound(line, n - 1);
    }
}

/// How many of the first `n` characters of `s` are `c`.
pub open spec fn count_upto(s: Seq<char>, c: char, n: int) -> int
    decreases n,
{
    if n <= 0 {
        0
    } else {
        count_upto(s, c, n - 1) + if s[n - 1] == c {
            1int
        } else {
            0int
        }
    }
}

proof fn lemma_brace_upto_plain(line: Seq<char>, n: int)
    requires
        0 <= n <= line.len(),
        forall|i: int| 0 <= i < line.len() ==> #[trigger] line[i] != '"' && line[i] != '\'',
    ensures
        brace_upto(line, n).0 == count_upto(line, '{', n) - count_upto(line, '}', n),
        !brace_upto(line, n).1,
        !brace_upto(line, n).2,
    decreases n,
{
    if n > 0 {
        lemma_brace_upto_plain(line, n - 1);
        assert(line[n - 1] != '"' && line[n - 1] != '\'');
    }
}

/// On a line without quote characters every brace counts: the nesting
/// changes by the number of `{` minus the number of `}`.
pub proof fn lemma_brace_change_plain(line: Seq<char>)
    requires
        forall|i: int| 0 <= i < line.len() ==> #[trigger] line[i] != '"' && line[i] != '\'',
    ensures
        brace_change(line) == count_upto(line, '{', line.len() as int) - count_upto(
            line,
            '}',
            line.len() as int,
        ),
{
    lemma_brace_upto_plain(line, line.len() as int);
}

/// A line changes the nesting by at most its length.
pub proof fn lemma_brace_change_bound(line: Seq<char>)
    ensures
        -line.len() <= brace_change(line) <= line.len(),
{
    lemma_brace_upto_bound(line, line.len() as int);
}

fn brace_delta(line: &Vec<char>) -> (r: i32)
    requires
        line@.len() <= i32::MAX,
    ensures
        r == brace_change(line@),
{
    let mut delta: i32 = 0;
    let mut in_str = false;
    let mut in_char = false;
    let mut prev: char = '\0';
    let mut i: usize = 0;
    while i < line.len()
        invariant
            i <= line@.len() <= i32::MAX,
            (delta as int, in_str, in_char, prev) == brace_upto(line@, i as int),
        decreases line.len() - i,
    {
        proof {
            lemma_brace_upto_bound(line@, i as int);
        }
        let c = line[i];
        if c == '"' && !in_char && prev != '\\' {
            in_str = !in_str;
        } else if c == '\'' && !in_str && prev != '\\' {
            in_char = !in_char;
        } else if c == '{' && !in_str && !in_char {
            delta += 1;
        } else if c == '}' && !in_str && !in_char {
            delta -= 1;
        }
        prev = c;
        i += 1;
    }
    delta
}

/// The header file named by a `cheader_filename = "..."` attribute on the
/// line: the text between the first two `"` that follow the first
/// `cheader_filename`.
pub open spec fn cheader(line: Seq<char>) -> Option<Seq<char>> {
    match find_sub(line, "cheader_filename"@) {
        None => None,
        Some(start) => {
            let rest = line.skip(start);
            match find_char(rest, '"') {
                None => None,
                Some(q1) => match find_char(rest.skip(q1 + 1), '"') {
                    None => None,
                    Some(d) => Some(rest.subrange(q1 + 1, d + q1 + 1)),
                },
            }
        },
    }
}

fn parse_cheader(line: &Vec<char>) -> (r: Option<Vec<char>>)
    ensures
        match r {
            Some(h) => cheader(line@) == Some(h@),
            None => cheader(line@) is None,
        },
{
    let pat = chars_of("cheader_filename");
    let start = match find_sub_exec(line, &pat) {
        Some(s) => s,
        None => return None,
    };
    proof {
        lemma_find_sub_from(line@, pat@, 0);
    }
    let rest = slice_of(line, start, line.len());
    assert(rest@ =~= line@.skip(start as int));
    let q1 = match find_char_exec(&rest, '"') {
        Some(q) => q,
        None => return None,
    };
    proof {
        lemma_find_char(rest@, '"');
    }
    let after = slice_of(&rest, q1 + 1, rest.len());
    assert(after@ =~= rest@.skip(q1 + 1));
    let d = match find_char_exec(&after, '"') {
        Some(d) => d,
        None => return None,
    };
    proof {
        lemma_find_char(after@, '"');
    }
    Some(slice_of(&rest, q1 + 1, d + q1 + 1))
}

/// The namespace opened on the line: after an optional `public ` and a
/// required `namespace `, the rest without trailing `{` and trimmed; `None`
/// when that is empty.
pub open spec fn namespace_open(line: Seq<char>) -> Option<Seq<char>> {
    let l = strip_prefix_or_keep(line, "public "@);
    match strip_prefix(l, "namespace "@) {
        None => None,
        Some(rest) => {
            let name = trim(trim_end_char(rest, '{'));
            if name.len() == 0 {
                None
            } else {
                Some(name)
            }
        },
    }
}

fn parse_namespace_open(line: &Vec<char>) -> (r: Option<Vec<char>>)
    ensures
        match r {
            Some(n) => namespace_open(line@) == Some(n@),
            None => namespace_open(line@) is None,
        },
{
    let l = strip_prefix_or_keep_exec(line, "public ");
    let rest = match strip_prefix_exec(&l, "namespace ") {
        Some(r) => r,
        None => return None,
    };
    let name = trim_chars(&trim_end_matches(&rest, '{'));
    if name.len() == 0 {
        None
    } else {
        Some(name)
    }
}

/// A type head without its generic parameter list: the part before the
/// first `<`.
pub open spec fn without_generics(s: Seq<char>) -> Seq<char> {
    before_char(s, '<')
}

/// A base type reference, trimmed and without generic arguments.
pub open spec fn normalized_base(s: Seq<char>) -> Seq<char> {
    trim(without_generics(trim(s)))
}

fn strip_generics(s: &Vec<char>) -> (r: Vec<char>)
    ensures
        r@ == without_generics(s@),
{
    before_char_exec(s, '<')
}

fn normalize_base(s: &Vec<char>) -> (r: Vec<char>)
    ensures
        r@ == normalized_base(s@),
{
    trim_chars(&strip_generics(&trim_chars(s)))
}

/// Completed pieces, `<`/`>` nesting and open piece after reading the first
/// `n` characters of `s`, splitting at commas outside `<...>`.
pub open spec fn top_level_upto(s: Seq<char>, n: int) -> (Seq<Seq<char>>, int, Seq<char>)
    decreases n,
{
    if n <= 0 {
        (Seq::empty(), 0, Seq::empty())
    } else {
        let (parts, depth, cur) = top_level_upto(s, n - 1);
        let c = s[n - 1];
        if c == '<' {
            (parts, depth + 1, cur.push(c))
        } else if c == '>' {
            (parts, depth - 1, cur.push(c))
        } else if c == ',' && depth == 0 {
            (parts.push(trim(cur)), depth, Seq::empty())
        } else {
            (parts, depth, cur.push(c))
        }
    }
}

/// The comma-separated items of `s`, split only outside `<...>`, each
/// trimmed; the last item is dropped when it is empty after trimming.
pub open spec fn top_level_items(s: Seq<char>) -> Seq<Seq<char>> {
    let (parts, depth, cur) = top_level_upto(s, s.len() as int);
    if trim(cur).len() > 0 {
        parts.push(trim(cur))
    } else {
        parts
    }
}

proof fn lemma_top_level_depth(s: Seq<char>, n: int)
    requires
        0 <= n <= s.len(),
    ensures
        -n <= top_level_upto(s, n).1 <= n,
    decreases n,
{
    if n > 0 {
        lemma_top_level_depth(s, n - 1);
    }
}

fn split_top_level(s: &Vec<char>) -> (r: Vec<Vec<char>>)
    requires
        s@.len() <= i32::MAX,
    ensures
        views_are(r@, top_level_items(s@)),
{
    let mut parts: Vec<Vec<char>> = Vec::new();
    let mut depth: i32 = 0;
    let mut cur: Vec<char> = Vec::new();
    let mut i: usize = 0;
    while i < s.len()
        invariant
            i <= s@.len() <= i32::MAX,
            views_are(parts@, top_level_upto(s@, i as int).0),
            depth == top_level_upto(s@, i as int).1,
            cur@ == top_level_upto(s@, i as int).2,
        decreases s.len() - i,
    {
        proof {
            lemma_top_level_depth(s@, i as int);
        }
        let c = s[i];
        if c == '<' {
            depth += 1;
            cur.push(c);
        } else if c == '>' {
            depth -= 1;
            cur.push(c);
        } else if c == ',' && depth == 0 {
            parts.push(trim_chars(&cur));
            cur = Vec::new();
        } else {
            cur.push(c);
        }
        i += 1;
        proof {
            let ghost d = top_level_upto(s@, i as int).0;
            assert forall|k: int| 0 <= k < parts@.len() implies #[trigger] parts@[k]@ == d[k] by {}
        }
    }
    let last = trim_chars(&cur);
    if last.len() > 0 {
        parts.push(last);
        proof {
            let ghost d = top_level_items(s@);
            assert forall|k: int| 0 <= k < parts@.len() implies #[trigger] parts@[k]@ == d[k] by {}
        }
    }
    parts
}

/// The bases named in a list of items: each item normalised, empty ones
/// dropped.
pub open spec fn base_names(items: Seq<Seq<char>>) -> Seq<Seq<char>> {
    items.map_values(|b: Seq<char>| normalized_base(b)).filter(|b: Seq<char>| b.len() > 0)
}

fn base_names_exec(items: &Vec<Vec<char>>, Ghost(ss): Ghost<Seq<Seq<char>>>) -> (r: Vec<Vec<char>>)
    requires
        views_are(items@, ss),
    ensures
        views_are(r@, base_names(ss)),
{
    let ghost f = |b: Seq<char>| normalized_base(b);
    let ghost pred = |b: Seq<char>| b.len() > 0;
    let mut out: Vec<Vec<char>> = Vec::new();
    let mut i: usize = 0;
    while i < items.len()
        invariant
            i <= ss.len(),
            views_are(items@, ss),
            f == (|b: Seq<char>| normalized_base(b)),
            pred == (|b: Seq<char>| b.len() > 0),
            views_are(out@, ss.take(i as int).map_values(f).filter(pred)),
        decreases items.len() - i,
    {
        let b = normalize_base(&items[i]);
        proof {
            assert(ss.take(i + 1).map_values(f) =~= ss.take(i as int).map_values(f).push(f(ss[i as int])));
            ss.take(i as int).map_values(f).lemma_filter_push(f(ss[i as int]), pred);
        }
        if b.len() > 0 {
            out.push(b);
        }
        i += 1;
        proof {
            let ghost d = ss.take(i as int).map_values(f).filter(pred);
            assert forall|k: int| 0 <= k < out@.len() implies #[trigger] out@[k]@ == d[k] by {}
        }
    }
    assert(ss.take(ss.len() as int) =~= ss);
    out
}

/// The model of a parsed `class`/`interface` declaration head.
pub struct DeclView {
    pub name: Seq<char>,
    pub parent: Option<Seq<char>>,
    pub interfaces: Seq<Seq<char>>,
    pub is_abstract: bool,
    pub is_interface: bool,
}

/// A line with its leading visibility modifiers removed: `public `,
/// `internal `, `protected `, `private `, each at most once and in that order.
pub open spec fn strip_modifiers(line: Seq<char>) -> Seq<char> {
    strip_prefix_or_keep(
        strip_prefix_or_keep(
            strip_prefix_or_keep(strip_prefix_or_keep(line, "public "@), "internal "@),
            "protected "@,
        ),
        "private "@,
    )
}

/// The declaration head on a line, if the line declares a class or an
/// interface with a nonempty name.
///
/// After the modifiers and an optional `abstract `, the line must start with
/// `interface ` or `class `. The declaration is what precedes the first `{`,
/// trimmed; the name is what precedes its first `:`, trimmed, cut at the first
/// `<` and trimmed again. The bases after the `:` are split at top-level
/// commas and normalised; the first nonempty one is recorded as the parent and
/// the others as interfaces.
pub open spec fn type_decl(line: Seq<char>) -> Option<DeclView> {
    let r0 = strip_modifiers(line);
    let is_abstract = "abstract "@.is_prefix_of(r0);
    let r1 = strip_prefix_or_keep(r0, "abstract "@);
    let is_interface = "interface "@.is_prefix_of(r1);
    let kw = if is_interface {
        "interface "@
    } else {
        "class "@
    };
    match strip_prefix(r1, kw) {
        None => None,
        Some(rest) => {
            let decl = trim(before_char(rest, '{'));
            let head = match find_char(decl, ':') {
                Some(i) => trim(decl.take(i)),
                None => decl,
            };
            let name = trim(without_generics(head));
            if name.len() == 0 {
                None
            } else {
                let bases = match find_char(decl, ':') {
                    Some(i) => base_names(top_level_items(trim(decl.skip(i + 1)))),
                    None => Seq::empty(),
                };
                Some(
                    DeclView {
                        name,
                        parent: if bases.len() > 0 {
                            Some(bases[0])
                        } else {
                            None
                        },
                        interfaces: if bases.len() > 0 {
                            bases.drop_first()
                        } else {
                            Seq::empty()
                        },
                        is_abstract,
                        is_interface,
                    },
                )
            }
        },
    }
}

/// A parsed declaration head.
struct TypeDecl {
    name: Vec<char>,
    parent: Option<Vec<char>>,
    interfaces: Vec<Vec<char>>,
    is_abstract: bool,
    is_interface: bool,
}

/// The characters of an optional character vector.
pub open spec fn opt_chars(o: Option<Vec<char>>) -> Option<Seq<char>> {
    match o {
        Some(v) => Some(v@),
        None => None,
    }
}

impl TypeDecl {
    spec fn matches(&self, d: DeclView) -> bool {
        &&& self.name@ == d.name
        &&& opt_chars(self.parent) == d.parent
        &&& views_are(self.interfaces@, d.interfaces)
        &&& self.is_abstract == d.is_abstract
        &&& self.is_interface == d.is_interface
    }
}

fn parse_type_decl(line: &Vec<char>) -> (r: Option<TypeDecl>)
    requires
        line@.len() <= i32::MAX,
    ensures
        match r {
            Some(d) => type_decl(line@) matches Some(v) && d.matches(v),
            None => type_decl(line@) is None,
        },
{
    let r = strip_prefix_or_keep_exec(line, "public ");
    let r = strip_prefix_or_keep_exec(&r, "internal ");
    let r = strip_prefix_or_keep_exec(&r, "protected ");
    let r0 = strip_prefix_or_keep_exec(&r, "private ");
    let is_abstract = starts_with(&r0, "abstract ");
    let r1 = strip_prefix_or_keep_exec(&r0, "abstract ");
    let is_interface = starts_with(&r1, "interface ");
    let rest = if is_interface {
        strip_prefix_exec(&r1, "interface ")
    } else {
        strip_prefix_exec(&r1, "class ")
    };
    let rest = match rest {
        Some(r) => r,
        None => return None,
    };
    proof {
        assert(rest@.len() <= line@.len());
    }
    let decl = trim_chars(&before_char_exec(&rest, '{'));
    let colon = find_char_exec(&decl, ':');
    proof {
        lemma_find_char(decl@, ':');
    }
    let head = match colon {
        Some(i) => trim_chars(&slice_of(&decl, 0, i)),
        None => slice_of(&decl, 0, decl.len()),
    };
    proof {
        assert(decl@.subrange(0, decl@.len() as int) =~= decl@);
    }
    let name = trim_chars(&strip_generics(&head));
    if name.len() == 0 {
        return None;
    }
    let bases: Vec<Vec<char>> = match colon {
        Some(i) => {
            assert(find_char(decl@, ':') == Some(i as int));
            let n = decl.len();
            assert(i < n);
            let tail = slice_of(&decl, i + 1, n);
            assert(tail@ =~= decl@.skip(i + 1));
            let tail = trim_chars(&tail);
            proof {
                lemma_trim_len(decl@.skip(i + 1));
                lemma_trim_len(before_char(rest@, '{'));
                lemma_find_char(rest@, '{');
            }
            let items = split_top_level(&tail);
            base_names_exec(&items, Ghost(top_level_items(tail@)))
        },
        None => Vec::new(),
    };
    let ghost bv = match find_char(decl@, ':') {
        Some(i) => base_names(top_level_items(trim(decl@.skip(i + 1)))),
        None => Seq::<Seq<char>>::empty(),
    };
    assert(views_are(bases@, bv));
    let mut bases = bases;
    let parent = if bases.len() > 0 {
        Some(bases.remove(0))
    } else {
        None
    };
    proof {
        if bv.len() > 0 {
            assert forall|k: int| 0 <= k < bases@.len() implies #[trigger] bases@[k]@ == bv.drop_first()[k] by {}
        }
    }
    Some(TypeDecl { name, parent, interfaces: bases, is_abstract, is_interface })
}


// ---------------------------------------------------------------------------
// Reading a whole vapi.
// ---------------------------------------------------------------------------

/// The reader's state between lines: the declarations so far, the open
/// namespaces with the brace depth inside each, the last `cheader_filename`
/// seen, and the current brace depth.
pub struct ParseState {
    pub classes: Seq<ClassView>,
    pub stack: Seq<(Seq<char>, int)>,
    pub cheader: Option<Seq<char>>,
    pub depth: int,
}

/// The qualifying prefix of the open namespaces: their names joined by dots,
/// followed by a dot; empty outside any namespace.
pub open spec fn ns_prefix(stack: Seq<(Seq<char>, int)>) -> Seq<char>
    decreases stack.len(),
{
    if stack.len() == 0 {
        Seq::empty()
    } else {
        ns_prefix(stack.drop_last()) + stack.last().0 + seq!['.']
    }
}

/// `stack` without the namespaces whose body has closed at `depth`.
pub open spec fn pop_closed(stack: Seq<(Seq<char>, int)>, depth: int) -> Seq<(Seq<char>, int)>
    decreases stack.len(),
{
    if stack.len() > 0 && depth < stack.last().1 {
        pop_closed(stack.drop_last(), depth)
    } else {
        stack
    }
}

/// The declaration recorded for a parsed head under the open namespaces.
pub open spec fn decl_class(
    decl: DeclView,
    stack: Seq<(Seq<char>, int)>,
    cheader: Option<Seq<char>>,
) -> ClassView {
    ClassView {
        vala_name: ns_prefix(stack) + decl.name,
        parent: decl.parent,
        interfaces: decl.interfaces,
        is_abstract: decl.is_abstract,
        is_gee: cheader == Some("valagee.h"@),
        is_interface: decl.is_interface,
    }
}

/// Whether the first `cheader_filename` on `line` starts at `p`, and `q1` and
/// `q2` are the first two `"` at or after it.
pub open spec fn header_quotes(line: Seq<char>, p: int, q1: int, q2: int) -> bool {
    &&& occurs_at(line, "cheader_filename"@, p)
    &&& forall|k: int| 0 <= k < p ==> !occurs_at(line, "cheader_filename"@, k)
    &&& p <= q1 < q2 < line.len()
    &&& line[q1] == '"' && line[q2] == '"'
    &&& forall|k: int| p <= k < q1 ==> line[k] != '"'
    &&& forall|k: int| q1 < k < q2 ==> line[k] != '"'
}

/// The header a line names is the text between the first two `"` after its
/// first `cheader_filename`; a line names one whenever `cheader_filename`
/// occurs on it with two `"` after it.
pub proof fn lemma_cheader_quoted(line: Seq<char>)
    ensures
        cheader(line) matches Some(h) ==> exists|p: int, q1: int, q2: int|
            #[trigger] header_quotes(line, p, q1, q2) && h == line.subrange(q1 + 1, q2),
        forall|p: int, q1: int, q2: int|
            #[trigger] occurs_at(line, "cheader_filename"@, p) && p <= q1 < q2 < line.len() && #[trigger] line[q1]
                == '"' && #[trigger] line[q2] == '"' ==> cheader(line) is Some,
{
    let lit = "cheader_filename"@;
    lemma_find_sub_from(line, lit, 0);
    match find_sub(line, lit) {
        None => {},
        Some(start) => {
            let rest = line.skip(start);
            lemma_find_char(rest, '"');
            match find_char(rest, '"') {
                None => {
                    assert forall|p: int, q1: int, q2: int|
                        #[trigger] occurs_at(line, lit, p) && p <= q1 < q2 < line.len() && #[trigger] line[q1]
                            == '"' && #[trigger] line[q2] == '"' implies cheader(line) is Some by {
                        assert(rest[q1 - start] == line[q1]);
                    }
                },
                Some(q1r) => {
                    let rest2 = rest.skip(q1r + 1);
                    lemma_find_char(rest2, '"');
                    match find_char(rest2, '"') {
                        None => {
                            assert forall|p: int, q1: int, q2: int|
                                #[trigger] occurs_at(line, lit, p) && p <= q1 < q2 < line.len()
                                    && #[trigger] line[q1] == '"' && #[trigger] line[q2]
                                    == '"' implies cheader(line) is Some by {
                                assert(p >= start);
                                assert(rest[q1 - start] == line[q1]);
                                if q1 - start > q1r {
                                    assert(rest2[q1 - start - q1r - 1] == line[q1]);
                                } else {
                                    assert(rest2[q2 - start - q1r - 1] == line[q2]);
                                }
                            }
                        },
                        Some(d) => {
                            let q1 = start + q1r;
                            let q2 = start + q1r + 1 + d;
                            assert(line[q1] == rest[q1r]);
                            assert(line[q2] == rest2[d]);
                            assert forall|k: int| start <= k < q1 implies line[k] != '"' by {
                                assert(line[k] == rest[k - start]);
                            }
                            assert forall|k: int| q1 < k < q2 implies line[k] != '"' by {
                                assert(line[k] == rest2[k - q1 - 1]);
                            }
                            assert(rest.subrange(q1r + 1, d + q1r + 1) =~= line.subrange(
                                q1 + 1,
                                q2,
                            ));
                            assert(header_quotes(line, start, q1, q2));
                        },
                    }
                },
            }
        },
    }
}

/// The state after reading one raw line.
///
/// The line is trimmed. A `cheader_filename` line only records the header. A
/// namespace line adds its brace change to the depth and opens the namespace
/// at the new depth. Any other line first records a class or interface it
/// declares (qualified by the open namespaces, `is_gee` when the last header
/// was `valagee.h`), then adds its brace change and closes the namespaces
/// whose body ended.
pub open spec fn parse_step(st: ParseState, raw: Seq<char>) -> ParseState {
    let line = trim(raw);
    match cheader(line) {
        Some(h) => ParseState { cheader: Some(h), ..st },
        None => match namespace_open(line) {
            Some(ns) => {
                let d = st.depth + brace_change(line);
                ParseState { stack: st.stack.push((ns, d)), depth: d, ..st }
            },
            None => {
                let classes = match type_decl(line) {
                    Some(decl) => class_insert(st.classes, decl_class(decl, st.stack, st.cheader)),
                    None => st.classes,
                };
                let d = st.depth + brace_change(line);
                ParseState {
                    classes,
                    stack: pop_closed(st.stack, d),
                    cheader: st.cheader,
                    depth: d,
                }
            },
        },
    }
}

/// The state after reading the first `n` lines.
pub open spec fn parse_upto(ls: Seq<Seq<char>>, n: int) -> ParseState
    decreases n,
{
    if n <= 0 {
        ParseState { classes: Seq::empty(), stack: Seq::empty(), cheader: None, depth: 0 }
    } else {
        parse_step(parse_upto(ls, n - 1), ls[n - 1])
    }
}

/// The class and interface declarations of a vapi text, in name order.
pub open spec fn parse_vapi(src: Seq<char>) -> Seq<ClassView> {
    let ls = lines(src);
    parse_upto(ls, ls.len() as int).classes
}

/// The model of the namespace stack.
pub open spec fn stack_view(v: Seq<(Vec<char>, i32)>) -> Seq<(Seq<char>, int)> {
    v.map_values(|e: (Vec<char>, i32)| (e.0@, e.1 as int))
}

fn ns_prefix_exec(stack: &Vec<(Vec<char>, i32)>) -> (r: Vec<char>)
    ensures
        r@ == ns_prefix(stack_view(stack@)),
{
    let mut out: Vec<char> = Vec::new();
    let mut i: usize = 0;
    while i < stack.len()
        invariant
            i <= stack@.len(),
            out@ == ns_prefix(stack_view(stack@).take(i as int)),
        decreases stack.len() - i,
    {
        assert(stack_view(stack@).take(i + 1).drop_last() =~= stack_view(stack@).take(i as int));
        push_all(&mut out, &stack[i].0);
        out.push('.');
        i += 1;
    }
    assert(stack_view(stack@).take(stack@.len() as int) =~= stack_view(stack@));
    out
}

fn strings_of(v: &Vec<Vec<char>>, Ghost(ss): Ghost<Seq<Seq<char>>>) -> (r: Vec<String>)
    requires
        views_are(v@, ss),
    ensures
        strings_view(r@) == ss,
{
    let mut out: Vec<String> = Vec::new();
    let mut i: usize = 0;
    while i < v.len()
        invariant
            i <= v@.len(),
            views_are(v@, ss),
            out@.len() == i,
            forall|j: int| 0 <= j < i ==> #[trigger] out@[j]@ == ss[j],
        decreases v.len() - i,
    {
        let x = string_of(&v[i]);
        assert(x@ == ss[i as int]);
        out.push(x);
        i += 1;
    }
    assert(strings_view(out@) =~= ss);
    out
}

proof fn lemma_total_len_mono(ls: Seq<Seq<char>>, a: int, b: int)
    requires
        0 <= a <= b,
    ensures
        total_len(ls, a) <= total_len(ls, b),
    decreases b - a,
{
    if a < b {
        lemma_total_len_mono(ls, a, b - 1);
    }
}

/// Reads the vapi text `src` into its class and interface declarations,
/// keyed and ordered by fully qualified name.
pub fn parse(src: &str) -> (r: ClassMap)
    requires
        src@.len() <= i32::MAX,
    ensures
        r.wf(),
        r.view() == parse_vapi(src@),
{
    let chars = chars_of(src);
    let raw_lines = split_lines(&chars);
    let ghost ls = lines(src@);
    proof {
        lemma_lines_len(src@);
    }
    let mut classes = ClassMap::new();
    let mut stack: Vec<(Vec<char>, i32)> = Vec::new();
    let mut last_cheader: Option<Vec<char>> = None;
    let mut depth: i32 = 0;
    let mut k: usize = 0;
    while k < raw_lines.len()
        invariant
            k <= ls.len(),
            views_are(raw_lines@, ls),
            total_len(ls, ls.len() as int) <= i32::MAX,
            classes.wf(),
            classes.view() == parse_upto(ls, k as int).classes,
            stack_view(stack@) == parse_upto(ls, k as int).stack,
            opt_chars(last_cheader) == parse_upto(ls, k as int).cheader,
            depth == parse_upto(ls, k as int).depth,
            -total_len(ls, k as int) <= depth <= total_len(ls, k as int),
        decreases raw_lines.len() - k,
    {
        proof {
            lemma_total_len_mono(ls, k + 1, ls.len() as int);
            lemma_trim_len(ls[k as int]);
            lemma_brace_change_bound(trim(ls[k as int]));
        }
        assert(raw_lines@[k as int]@ == ls[k as int]);
        let line = trim_chars(&raw_lines[k]);
        let ghost st = parse_upto(ls, k as int);
        assert(parse_upto(ls, k + 1) == parse_step(st, ls[k as int]));
        assert(line@ == trim(ls[k as int]));
        if let Some(h) = parse_cheader(&line) {
            last_cheader = Some(h);
            assert(parse_upto(ls, k + 1).cheader == Some(h@));
            assert(parse_upto(ls, k + 1).classes == st.classes);
        } else if let Some(ns) = parse_namespace_open(&line) {
            depth = depth + brace_delta(&line);
            stack.push((ns, depth));
            assert(stack_view(stack@) =~= st.stack.push((ns@, depth as int)));
        } else {
            if let Some(decl) = parse_type_decl(&line) {
                let mut name = ns_prefix_exec(&stack);
                push_all(&mut name, &decl.name);
                let is_gee = match &last_cheader {
                    Some(h) => eq_str(h, "valagee.h"),
                    None => false,
                };
                let parent = match &decl.parent {
                    Some(p) => Some(string_of(p)),
                    None => None,
                };
                let ghost dv = type_decl(line@)->Some_0;
                let interfaces = strings_of(&decl.interfaces, Ghost(dv.interfaces));
                let class = Class {
                    vala_name: string_of(&name),
                    parent,
                    interfaces,
                    is_abstract: decl.is_abstract,
                    is_gee,
                    is_interface: decl.is_interface,
                };
                assert(class@ == decl_class(dv, st.stack, st.cheader));
                classes.insert(class);
            }
            depth = depth + brace_delta(&line);
            let ghost d = depth as int;
            while stack.len() > 0 && depth < stack[stack.len() - 1].1
                invariant
                    d == depth,
                    pop_closed(st.stack, d) == pop_closed(stack_view(stack@), d),
                decreases stack.len(),
            {
                assert(stack_view(stack@).drop_last() =~= stack_view(stack@.drop_last()));
                stack.pop();
            }
        }
        k += 1;
    }
    classes
}


// ---------------------------------------------------------------------------
// Properties.
// ---------------------------------------------------------------------------

/// No ASCII uppercase letter occurs in `s`.
pub open spec fn no_upper(s: Seq<char>) -> bool {
    forall|i: int| 0 <= i < s.len() ==> !is_upper(#[trigger] s[i])
}

proof fn lemma_camel_no_upper(out: Seq<char>, w: Seq<char>, n: int)
    requires
        no_upper(out),
        0 <= n <= w.len(),
    ensures
        no_upper(camel_upto(out, w, n)),
    decreases n,
{
    if n > 0 {
        lemma_camel_no_upper(out, w, n - 1);
        let o = camel_upto(out, w, n - 1);
        let r = camel_step(o, w, n - 1);
        assert forall|i: int| 0 <= i < r.len() implies !is_upper(#[trigger] r[i]) by {
            if i < o.len() {
                assert(r[i] == o[i]);
            }
        }
    }
}

proof fn lemma_snake_parts_no_upper(parts: Seq<Seq<char>>, n: int)
    requires
        0 <= n <= parts.len(),
    ensures
        no_upper(snake_parts(parts, n)),
    decreases n,
{
    if n > 0 {
        lemma_snake_parts_no_upper(parts, n - 1);
        let o = snake_parts(parts, n - 1);
        let o2 = if n - 1 > 0 {
            o.push('_')
        } else {
            o
        };
        assert forall|i: int| 0 <= i < o2.len() implies !is_upper(#[trigger] o2[i]) by {
            if i < o.len() {
                assert(o2[i] == o[i]);
            }
        }
        lemma_camel_no_upper(o2, parts[n - 1], parts[n - 1].len() as int);
    }
}

/// A snake name never holds an ASCII uppercase letter.
pub proof fn lemma_snake_name_lowercase(vala_name: Seq<char>)
    ensures
        no_upper(snake_name(vala_name)),
{
    reveal_strlit("TypeCheck");
    reveal_strlit("TypeParameter");
    reveal_strlit("TypeSymbol");
    reveal_strlit("typecheck");
    reveal_strlit("typeparameter");
    reveal_strlit("typesymbol");
    let w = strip_prefix_or_keep(vala_name, "Vala."@);
    let parts = split_char(w, '.');
    lemma_snake_parts_no_upper(parts, parts.len() as int);
}

/// Whether character `i` of the word `w` starts a new snake_case word: an
/// uppercase letter, not the first character and not right after an
/// underscore, that follows a lowercase letter or digit or precedes a
/// lowercase letter.
pub open spec fn starts_word(w: Seq<char>, i: int) -> bool {
    &&& 0 < i < w.len()
    &&& is_upper(w[i])
    &&& w[i - 1] != '_'
    &&& (is_lower(w[i - 1]) || is_digit(w[i - 1]) || (i + 1 < w.len() && is_lower(w[i + 1])))
}

/// The snake_case form of the first `n` characters of the CamelCase word
/// `w`: each character lowered, with an underscore before each that starts a
/// new word.
pub open spec fn snake_word(w: Seq<char>, n: int) -> Seq<char>
    decreases n,
{
    if n <= 0 {
        Seq::empty()
    } else {
        snake_word(w, n - 1) + (if starts_word(w, n - 1) {
            seq!['_']
        } else {
            Seq::empty()
        }) + seq![to_lower(w[n - 1])]
    }
}

/// The snake_case forms of the first `n` dot-separated parts, joined by
/// underscores.
pub open spec fn snake_words(parts: Seq<Seq<char>>, n: int) -> Seq<char>
    decreases n,
{
    if n <= 0 {
        Seq::empty()
    } else {
        snake_words(parts, n - 1) + (if n > 1 {
            seq!['_']
        } else {
            Seq::empty()
        }) + snake_word(parts[n - 1], parts[n - 1].len() as int)
    }
}

proof fn lemma_to_lower_underscore(c: char)
    ensures
        (to_lower(c) == '_') == (c == '_'),
{
}

proof fn lemma_camel_upto_words(out: Seq<char>, w: Seq<char>, n: int)
    requires
        0 <= n <= w.len(),
    ensures
        camel_upto(out, w, n) == out + snake_word(w, n),
        n > 0 ==> snake_word(w, n).len() > 0 && snake_word(w, n).last() == to_lower(w[n - 1]),
    decreases n,
{
    if n > 0 {
        lemma_camel_upto_words(out, w, n - 1);
        let o = camel_upto(out, w, n - 1);
        let i = n - 1;
        if i > 0 {
            lemma_to_lower_underscore(w[i - 1]);
            assert(o.last() == to_lower(w[i - 1]));
        }
        let sw = snake_word(w, n);
        assert(camel_step(o, w, i) =~= out + sw);
    }
}

proof fn lemma_snake_parts_words(parts: Seq<Seq<char>>, n: int)
    requires
        0 <= n <= parts.len(),
    ensures
        snake_parts(parts, n) == snake_words(parts, n),
    decreases n,
{
    if n > 0 {
        lemma_snake_parts_words(parts, n - 1);
        let o = snake_parts(parts, n - 1);
        let o2 = if n - 1 > 0 {
            o.push('_')
        } else {
            o
        };
        lemma_camel_upto_words(o2, parts[n - 1], parts[n - 1].len() as int);
        assert(snake_parts(parts, n) =~= snake_words(parts, n));
    }
}

/// Snake names: `TypeCheck`, `TypeParameter` and `TypeSymbol` (with or
/// without the `Vala.` root) are written `typecheck`, `typeparameter` and
/// `typesymbol`; every other name is its dot-separated parts, each in
/// snake_case with an underscore before each new word, joined by underscores
/// (so `Vala.DataType` is `data_type`).
pub proof fn lemma_snake_rule(vala_name: Seq<char>)
    ensures
        ({
            let short = strip_prefix_or_keep(vala_name, "Vala."@);
            let parts = split_char(short, '.');
            snake_name(vala_name) == if short == "TypeCheck"@ {
                "typecheck"@
            } else if short == "TypeParameter"@ {
                "typeparameter"@
            } else if short == "TypeSymbol"@ {
                "typesymbol"@
            } else {
                snake_words(parts, parts.len() as int)
            }
        }),
{
    let short = strip_prefix_or_keep(vala_name, "Vala."@);
    let parts = split_char(short, '.');
    lemma_snake_parts_words(parts, parts.len() as int);
}

/// A C prefix is `vala_` followed by a name with no uppercase letter.
pub proof fn lemma_c_prefix_shape(vala_name: Seq<char>)
    ensures
        "vala_"@.is_prefix_of(c_prefix(vala_name)),
        no_upper(c_prefix(vala_name).skip("vala_"@.len() as int)),
{
    lemma_snake_name_lowercase(vala_name);
    assert(c_prefix(vala_name).skip("vala_"@.len() as int) =~= snake_name(vala_name));
    assert(c_prefix(vala_name).subrange(0, "vala_"@.len() as int) =~= "vala_"@);
}

/// A Rust wrapper name holds no dot.
pub proof fn lemma_rust_name_no_dot(vala_name: Seq<char>)
    ensures
        !rust_name(vala_name).contains('.'),
{
    let w = strip_prefix_or_keep(vala_name, "Vala."@);
    let pred = |c: char| c != '.';
    if rust_name(vala_name).contains('.') {
        let k = choose|k: int| 0 <= k < rust_name(vala_name).len() && rust_name(vala_name)[k] == '.';
        w.lemma_filter_pred(pred, k);
    }
}

/// The header named by the last `cheader_filename` line among the first `n`
/// lines, however far back it stands.
pub open spec fn last_header(ls: Seq<Seq<char>>, n: int) -> Option<Seq<char>>
    decreases n,
{
    if n <= 0 {
        None
    } else {
        match cheader(trim(ls[n - 1])) {
            Some(h) => Some(h),
            None => last_header(ls, n - 1),
        }
    }
}

/// While reading, the recorded header is the one named by the last
/// `cheader_filename` line read so far: declaration lines, namespace lines
/// and every other line leave it as it was.
pub proof fn lemma_header_is_last_seen(ls: Seq<Seq<char>>, n: int)
    requires
        0 <= n <= ls.len(),
    ensures
        parse_upto(ls, n).cheader == last_header(ls, n),
    decreases n,
{
    if n > 0 {
        lemma_header_is_last_seen(ls, n - 1);
    }
}

/// A class or interface declared on line `n` (not itself a header or
/// namespace line) is recorded under its qualified name right after that
/// line, with its own kind, and it is a gee class exactly when the last
/// `cheader_filename` line before it names `valagee.h`.
pub proof fn lemma_declaration_recorded(ls: Seq<Seq<char>>, n: int)
    requires
        0 <= n < ls.len(),
        cheader(trim(ls[n])) is None,
        namespace_open(trim(ls[n])) is None,
        type_decl(trim(ls[n])) is Some,
    ensures
        ({
            let d = type_decl(trim(ls[n]))->0;
            let before = parse_upto(ls, n);
            let name = ns_prefix(before.stack) + d.name;
            &&& lookup(parse_upto(ls, n + 1).classes, name) matches Some(c)
            &&& c.is_gee == (last_header(ls, n) == Some("valagee.h"@))
            &&& c.is_interface == d.is_interface
            &&& c.is_abstract == d.is_abstract
            &&& c.parent == d.parent
            &&& c.interfaces == d.interfaces
        }),
{
    lemma_header_is_last_seen(ls, n);
    let st = parse_upto(ls, n);
    let d = type_decl(trim(ls[n]))->0;
    let c = decl_class(d, st.stack, st.cheader);
    lemma_class_insert_lookup(st.classes, c, c.vala_name);
}

proof fn lemma_parse_upto_sorted(ls: Seq<Seq<char>>, n: int)
    requires
        0 <= n <= ls.len(),
    ensures
        sorted(names_of(parse_upto(ls, n).classes)),
    decreases n,
{
    if n > 0 {
        lemma_parse_upto_sorted(ls, n - 1);
        let st = parse_upto(ls, n - 1);
        let line = trim(ls[n - 1]);
        if cheader(line) is None && namespace_open(line) is None {
            if let Some(decl) = type_decl(line) {
                let c = decl_class(decl, st.stack, st.cheader);
                lemma_class_insert_names(st.classes, c);
                lemma_set_insert(names_of(st.classes), c.vala_name);
            }
        }
    }
}

/// The declarations read from a vapi are in strictly increasing name order,
/// so each fully qualified name occurs once.
pub proof fn lemma_parse_sorted(src: Seq<char>)
    ensures
        sorted(names_of(parse_vapi(src))),
{
    lemma_parse_upto_sorted(lines(src), lines(src).len() as int);
}

} // verus!
