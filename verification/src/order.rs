//! Lexicographic order on character sequences (the order of `String`'s `Ord`,
//! which compares UTF-8 bytes and so agrees with comparing code points) and
//! sorted sets of names built on it.

use vstd::prelude::*;

verus! {

/// `a < b` in lexicographic order by code point.
pub open spec fn lex_lt(a: Seq<char>, b: Seq<char>) -> bool
    decreases a.len(),
{
    if a.len() == 0 {
        b.len() > 0
    } else if b.len() == 0 {
        false
    } else if a[0] != b[0] {
        (a[0] as int) < (b[0] as int)
    } else {
        lex_lt(a.drop_first(), b.drop_first())
    }
}

/// Whether `a` comes before `b` the way strings are ordered: `a` is a proper
/// prefix of `b`, or at the first position where they differ `a` holds the
/// smaller code point.
pub open spec fn string_before(a: Seq<char>, b: Seq<char>) -> bool {
    ||| a.len() < b.len() && a == b.subrange(0, a.len() as int)
    ||| exists|i: int|
        0 <= i < a.len() && i < b.len() && a.subrange(0, i) == b.subrange(0, i) && (a[i] as int)
            < (#[trigger] b[i] as int)
}

/// The order of names is the order of strings by code point.
pub proof fn lemma_lex_is_string_order(a: Seq<char>, b: Seq<char>)
    ensures
        lex_lt(a, b) == string_before(a, b),
    decreases a.len(),
{
    if a.len() == 0 {
        if b.len() > 0 {
            assert(a =~= b.subrange(0, 0));
        }
    } else if b.len() == 0 {
    } else if a[0] != b[0] {
        if (a[0] as int) < (b[0] as int) {
            assert(a.subrange(0, 0) =~= b.subrange(0, 0));
            assert(b[0] == b[0]);
        } else {
            if a.len() < b.len() && a == b.subrange(0, a.len() as int) {
                assert(a[0] == b.subrange(0, a.len() as int)[0]);
            }
            assert forall|i: int|
                0 <= i < a.len() && i < b.len() && a.subrange(0, i) == b.subrange(0, i) implies !((
                a[i] as int) < (#[trigger] b[i] as int)) by {
                if i > 0 {
                    assert(a.subrange(0, i)[0] == b.subrange(0, i)[0]);
                }
            }
        }
    } else {
        let a1 = a.drop_first();
        let b1 = b.drop_first();
        lemma_lex_is_string_order(a1, b1);
        if a1.len() < b1.len() && a1 == b1.subrange(0, a1.len() as int) {
            assert forall|j: int| 0 <= j < a.len() implies #[trigger] a[j] == b.subrange(
                0,
                a.len() as int,
            )[j] by {
                if j > 0 {
                    assert(a1[j - 1] == b1.subrange(0, a1.len() as int)[j - 1]);
                }
            }
            assert(a =~= b.subrange(0, a.len() as int));
        }
        if a.len() < b.len() && a == b.subrange(0, a.len() as int) {
            assert(a1 =~= b1.subrange(0, a1.len() as int));
        }
        if exists|i: int|
            0 <= i < a1.len() && i < b1.len() && a1.subrange(0, i) == b1.subrange(0, i) && (
            a1[i] as int) < (#[trigger] b1[i] as int) {
            let i = choose|i: int|
                0 <= i < a1.len() && i < b1.len() && a1.subrange(0, i) == b1.subrange(0, i) && (
                a1[i] as int) < (#[trigger] b1[i] as int);
            assert forall|j: int| 0 <= j < i + 1 implies #[trigger] a.subrange(0, i + 1)[j]
                == b.subrange(0, i + 1)[j] by {
                if j > 0 {
                    assert(a1.subrange(0, i)[j - 1] == b1.subrange(0, i)[j - 1]);
                }
            }
            assert(a.subrange(0, i + 1) =~= b.subrange(0, i + 1));
            assert(a[i + 1] == a1[i]);
            assert(b[i + 1] == b1[i]);
        }
        if exists|i: int|
            0 <= i < a.len() && i < b.len() && a.subrange(0, i) == b.subrange(0, i) && (a[i] as int)
                < (#[trigger] b[i] as int) {
            let i = choose|i: int|
                0 <= i < a.len() && i < b.len() && a.subrange(0, i) == b.subrange(0, i) && (
                a[i] as int) < (#[trigger] b[i] as int);
            assert(i > 0);
            assert(a1.subrange(0, i - 1) =~= b1.subrange(0, i - 1)) by {
                assert forall|j: int| 0 <= j < i - 1 implies #[trigger] a1.subrange(0, i - 1)[j]
                    == b1.subrange(0, i - 1)[j] by {
                    assert(a.subrange(0, i)[j + 1] == b.subrange(0, i)[j + 1]);
                }
            }
            assert(a1[i - 1] == a[i]);
            assert(b1[i - 1] == b[i]);
        }
    }
}

pub proof fn lemma_lex_irreflexive(a: Seq<char>)
    ensures
        !lex_lt(a, a),
    decreases a.len(),
{
    if a.len() > 0 {
        lemma_lex_irreflexive(a.drop_first());
    }
}

pub proof fn lemma_lex_asymmetric(a: Seq<char>, b: Seq<char>)
    ensures
        !(lex_lt(a, b) && lex_lt(b, a)),
    decreases a.len(),
{
    if a.len() > 0 && b.len() > 0 && a[0] == b[0] {
        lemma_lex_asymmetric(a.drop_first(), b.drop_first());
    }
}

pub proof fn lemma_lex_transitive(a: Seq<char>, b: Seq<char>, c: Seq<char>)
    requires
        lex_lt(a, b),
        lex_lt(b, c),
    ensures
        lex_lt(a, c),
    decreases a.len(),
{
    if a.len() > 0 && b.len() > 0 && c.len() > 0 && a[0] == b[0] && b[0] == c[0] {
        lemma_lex_transitive(a.drop_first(), b.drop_first(), c.drop_first());
    }
}

pub proof fn lemma_lex_total(a: Seq<char>, b: Seq<char>)
    ensures
        a == b || lex_lt(a, b) || lex_lt(b, a),
    decreases a.len(),
{
    if a.len() > 0 && b.len() > 0 && a[0] == b[0] {
        lemma_lex_total(a.drop_first(), b.drop_first());
        if a.drop_first() == b.drop_first() {
            assert(a =~= seq![a[0]] + a.drop_first());
            assert(b =~= seq![b[0]] + b.drop_first());
            assert(a =~= b);
        }
    } else if a.len() == 0 && b.len() == 0 {
        assert(a =~= b);
    }
}

proof fn lemma_lex_skip(a: Seq<char>, b: Seq<char>, i: int)
    requires
        0 <= i < a.len(),
        i < b.len(),
        a[i] == b[i],
    ensures
        lex_lt(a.skip(i), b.skip(i)) == lex_lt(a.skip(i + 1), b.skip(i + 1)),
{
    assert(a.skip(i).drop_first() =~= a.skip(i + 1));
    assert(b.skip(i).drop_first() =~= b.skip(i + 1));
}

/// Three-way comparison result of two names.
pub enum Cmp3 {
    Less,
    Equal,
    Greater,
}

/// Compares `a` and `b` lexicographically.
pub fn compare(a: &Vec<char>, b: &Vec<char>) -> (r: Cmp3)
    ensures
        r is Less <==> lex_lt(a@, b@),
        r is Equal <==> a@ == b@,
        r is Greater <==> lex_lt(b@, a@),
{
    proof {
        lemma_lex_total(a@, b@);
        lemma_lex_asymmetric(a@, b@);
        lemma_lex_irreflexive(a@);
        assert(a@.skip(0) =~= a@);
        assert(b@.skip(0) =~= b@);
    }
    let mut i: usize = 0;
    while i < a.len() && i < b.len() && a[i] == b[i]
        invariant
            i <= a@.len(),
            i <= b@.len(),
            forall|k: int| 0 <= k < i ==> a@[k] == b@[k],
            lex_lt(a@, b@) == lex_lt(a@.skip(i as int), b@.skip(i as int)),
            lex_lt(b@, a@) == lex_lt(b@.skip(i as int), a@.skip(i as int)),
        decreases a.len() - i,
    {
        proof {
            lemma_lex_skip(a@, b@, i as int);
            lemma_lex_skip(b@, a@, i as int);
        }
        i += 1;
    }
    if i == a.len() && i == b.len() {
        assert(a@ =~= b@);
        Cmp3::Equal
    } else if i == a.len() {
        assert(a@.skip(i as int).len() == 0);
        proof {
            if a@ == b@ {
                assert(a@.len() == b@.len());
            }
        }
        Cmp3::Less
    } else if i == b.len() {
        assert(b@.skip(i as int).len() == 0);
        proof {
            if a@ == b@ {
                assert(a@.len() == b@.len());
            }
        }
        Cmp3::Greater
    } else {
        let x = a[i];
        let y = b[i];
        assert(x != y);
        assert(a@.skip(i as int)[0] == x);
        assert(b@.skip(i as int)[0] == y);
        assert(lex_lt(a@.skip(i as int), b@.skip(i as int)) == ((x as int) < (y as int)));
        assert(lex_lt(b@.skip(i as int), a@.skip(i as int)) == ((y as int) < (x as int)));
        proof {
            if a@ == b@ {
                assert(a@[i as int] == b@[i as int]);
            }
        }
        if x < y {
            Cmp3::Less
        } else {
            Cmp3::Greater
        }
    }
}

/// Whether `s` is strictly increasing.
pub open spec fn sorted(s: Seq<Seq<char>>) -> bool {
    forall|i: int, j: int| 0 <= i < j < s.len() ==> lex_lt(#[trigger] s[i], #[trigger] s[j])
}

/// `s` with `x` added at its place in the order, unless already present.
pub open spec fn set_insert(s: Seq<Seq<char>>, x: Seq<char>) -> Seq<Seq<char>>
    decreases s.len(),
{
    if s.len() == 0 {
        seq![x]
    } else if s[0] == x {
        s
    } else if lex_lt(x, s[0]) {
        seq![x] + s
    } else {
        seq![s[0]] + set_insert(s.drop_first(), x)
    }
}

/// `s` with every name of `xs` added, in turn.
pub open spec fn set_insert_all(s: Seq<Seq<char>>, xs: Seq<Seq<char>>) -> Seq<Seq<char>>
    decreases xs.len(),
{
    if xs.len() == 0 {
        s
    } else {
        set_insert(set_insert_all(s, xs.drop_last()), xs.last())
    }
}

/// Adding to a sorted sequence keeps it sorted and adds exactly `x`.
pub proof fn lemma_set_insert(s: Seq<Seq<char>>, x: Seq<char>)
    requires
        sorted(s),
    ensures
        sorted(set_insert(s, x)),
        forall|y: Seq<char>| #[trigger]
            set_insert(s, x).contains(y) <==> (s.contains(y) || y == x),
    decreases s.len(),
{
    let r = set_insert(s, x);
    if s.len() == 0 {
        assert(r[0] == x);
    } else if s[0] == x {
    } else if lex_lt(x, s[0]) {
        assert forall|i: int, j: int| 0 <= i < j < r.len() implies lex_lt(
            #[trigger] r[i],
            #[trigger] r[j],
        ) by {
            if i == 0 {
                if j > 1 {
                    lemma_lex_transitive(x, s[0], s[j - 1]);
                }
            } else {
                assert(r[i] == s[i - 1] && r[j] == s[j - 1]);
            }
        }
        assert forall|y: Seq<char>| #[trigger] r.contains(y) <==> (s.contains(y) || y == x) by {
            if r.contains(y) {
                let k = choose|k: int| 0 <= k < r.len() && r[k] == y;
                if k > 0 {
                    assert(s[k - 1] == y);
                }
            }
            if s.contains(y) {
                let k = choose|k: int| 0 <= k < s.len() && s[k] == y;
                assert(r[k + 1] == y);
            }
            if y == x {
                assert(r[0] == y);
            }
        }
    } else {
        let t = s.drop_first();
        assert(sorted(t)) by {
            assert forall|i: int, j: int| 0 <= i < j < t.len() implies lex_lt(
                #[trigger] t[i],
                #[trigger] t[j],
            ) by {
                assert(t[i] == s[i + 1] && t[j] == s[j + 1]);
            }
        }
        lemma_set_insert(t, x);
        lemma_lex_total(x, s[0]);
        let rt = set_insert(t, x);
        assert(r == seq![s[0]] + rt);
        assert forall|i: int, j: int| 0 <= i < j < r.len() implies lex_lt(
            #[trigger] r[i],
            #[trigger] r[j],
        ) by {
            if i == 0 {
                assert(r[j] == rt[j - 1]);
                assert(rt.contains(rt[j - 1]));
                if rt[j - 1] != x {
                    assert(t.contains(rt[j - 1]));
                    let k = choose|k: int| 0 <= k < t.len() && t[k] == rt[j - 1];
                    assert(s[k + 1] == t[k]);
                }
            } else {
                assert(r[i] == rt[i - 1] && r[j] == rt[j - 1]);
            }
        }
        assert forall|y: Seq<char>| #[trigger] r.contains(y) <==> (s.contains(y) || y == x) by {
            if r.contains(y) {
                let k = choose|k: int| 0 <= k < r.len() && r[k] == y;
                if k > 0 {
                    assert(rt[k - 1] == y);
                    assert(rt.contains(y));
                    if t.contains(y) {
                        let m = choose|m: int| 0 <= m < t.len() && t[m] == y;
                        assert(s[m + 1] == y);
                    }
                } else {
                    assert(s[0] == y);
                }
            }
            if s.contains(y) {
                let k = choose|k: int| 0 <= k < s.len() && s[k] == y;
                if k > 0 {
                    assert(t[k - 1] == y);
                    assert(t.contains(y));
                    assert(rt.contains(y));
                    let m = choose|m: int| 0 <= m < rt.len() && rt[m] == y;
                    assert(r[m + 1] == y);
                } else {
                    assert(r[0] == y);
                }
            }
            if y == x {
                assert(rt.contains(y));
                let m = choose|m: int| 0 <= m < rt.len() && rt[m] == y;
                assert(r[m + 1] == y);
            }
        }
    }
}

/// Adding a list of names to a sorted sequence keeps it sorted and adds
/// exactly those names.
pub proof fn lemma_set_insert_all(s: Seq<Seq<char>>, xs: Seq<Seq<char>>)
    requires
        sorted(s),
    ensures
        sorted(set_insert_all(s, xs)),
        forall|y: Seq<char>| #[trigger]
            set_insert_all(s, xs).contains(y) <==> (s.contains(y) || xs.contains(y)),
    decreases xs.len(),
{
    if xs.len() > 0 {
        let init = xs.drop_last();
        lemma_set_insert_all(s, init);
        lemma_set_insert(set_insert_all(s, init), xs.last());
        assert forall|y: Seq<char>| #[trigger]
            set_insert_all(s, xs).contains(y) <==> (s.contains(y) || xs.contains(y)) by {
            assert(set_insert_all(s, init).contains(y) <==> (s.contains(y) || init.contains(y)));
            if init.contains(y) {
                let k = choose|k: int| 0 <= k < init.len() && init[k] == y;
                assert(xs[k] == y);
            }
            if xs.contains(y) {
                let k = choose|k: int| 0 <= k < xs.len() && xs[k] == y;
                if k < xs.len() - 1 {
                    assert(init[k] == y);
                }
            }
        }
    }
}

/// Inserting past a prefix of smaller names leaves that prefix in place.
proof fn lemma_set_insert_after(s: Seq<Seq<char>>, x: Seq<char>, i: int)
    requires
        0 <= i <= s.len(),
        forall|k: int| 0 <= k < i ==> lex_lt(#[trigger] s[k], x),
    ensures
        set_insert(s, x) == s.take(i) + set_insert(s.skip(i), x),
    decreases i,
{
    if i == 0 {
        assert(s.take(0) + s.skip(0) =~= s);
        assert(s.take(0) + set_insert(s.skip(0), x) =~= set_insert(s, x));
    } else {
        lemma_lex_irreflexive(x);
        lemma_lex_asymmetric(x, s[0]);
        assert(lex_lt(s[0], x));
        let t = s.drop_first();
        assert forall|k: int| 0 <= k < i - 1 implies lex_lt(#[trigger] t[k], x) by {
            assert(t[k] == s[k + 1]);
        }
        lemma_set_insert_after(t, x, i - 1);
        assert(t.skip(i - 1) =~= s.skip(i));
        assert(seq![s[0]] + t.take(i - 1) =~= s.take(i));
        assert(seq![s[0]] + (t.take(i - 1) + set_insert(t.skip(i - 1), x)) =~= s.take(i)
            + set_insert(s.skip(i), x));
    }
}

/// Whether `vs` holds, element by element, the names `ss`.
pub open spec fn names_are(vs: Seq<Vec<char>>, ss: Seq<Seq<char>>) -> bool {
    vs.len() == ss.len() && forall|i: int| 0 <= i < vs.len() ==> #[trigger] vs[i]@ == ss[i]
}

/// A set of names kept in increasing order.
pub struct NameSet {
    items: Vec<Vec<char>>,
}

impl NameSet {
    /// The names, in increasing order.
    pub closed spec fn view(&self) -> Seq<Seq<char>> {
        self.items@.map_values(|v: Vec<char>| v@)
    }

    /// The names are strictly increasing.
    pub closed spec fn wf(&self) -> bool {
        sorted(self.view())
    }

    /// An empty set.
    pub fn new() -> (r: Self)
        ensures
            r.wf(),
            r.view() == Seq::<Seq<char>>::empty(),
    {
        let r = NameSet { items: Vec::new() };
        assert(r.view() =~= Seq::<Seq<char>>::empty());
        r
    }

    /// Number of names.
    pub fn len(&self) -> (n: usize)
        ensures
            n == self.view().len(),
    {
        self.items.len()
    }

    /// The `i`-th name in increasing order.
    pub fn get(&self, i: usize) -> (r: &Vec<char>)
        requires
            i < self.view().len(),
        ensures
            r@ == self.view()[i as int],
    {
        &self.items[i]
    }

    /// Adds `x` at its place in the order (no change when already present).
    pub fn insert(&mut self, x: Vec<char>)
        requires
            old(self).wf(),
        ensures
            final(self).wf(),
            final(self).view() == set_insert(old(self).view(), x@),
    {
        let ghost s = self.view();
        let mut i: usize = 0;
        let mut found = false;
        while i < self.items.len()
            invariant_except_break
                s == self.view(),
                sorted(s),
                i <= s.len(),
                forall|k: int| 0 <= k < i ==> lex_lt(#[trigger] s[k], x@),
                !found,
            ensures
                s == self.view(),
                sorted(s),
                i <= s.len(),
                forall|k: int| 0 <= k < i ==> lex_lt(#[trigger] s[k], x@),
                found ==> i < s.len() && s[i as int] == x@,
                !found ==> i == s.len() || lex_lt(x@, s[i as int]),
            decreases self.items.len() - i,
        {
            match compare(&self.items[i], &x) {
                Cmp3::Less => {},
                Cmp3::Equal => {
                    assert(s[i as int] == self.items@[i as int]@);
                    found = true;
                    break;
                },
                Cmp3::Greater => {
                    assert(s[i as int] == self.items@[i as int]@);
                    break;
                },
            }
            assert(s[i as int] == self.items@[i as int]@);
            i += 1;
        }
        proof {
            lemma_set_insert_after(s, x@, i as int);
            lemma_set_insert(s, x@);
        }
        if found {
            assert(s[i as int] == x@);
            assert(s.take(i as int) + s.skip(i as int) =~= s);
        } else {
            self.items.insert(i, x);
            assert(self.view() =~= s.take(i as int) + set_insert(s.skip(i as int), x@)) by {
                if i < s.len() {
                    assert(s.skip(i as int)[0] == s[i as int]);
                    lemma_lex_irreflexive(x@);
                    assert(set_insert(s.skip(i as int), x@) == seq![x@] + s.skip(i as int));
                } else {
                    assert(set_insert(s.skip(i as int), x@) == seq![x@]);
                }
                assert(self.view() =~= s.insert(i as int, x@));
            }
        }
    }
}

} // verus!
