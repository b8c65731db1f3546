//! The order of names: strings compared byte by byte in their UTF-8
//! encoding, as `Ord` orders `String`s.

use vstd::prelude::*;
use vstd::utf8::{encode_utf8, encode_utf8_decode_utf8};
use crate::broker::names::names_of;

verus! {

/// `a` comes before `b` in lexicographic byte order: at the first byte in
/// which they differ, `a`'s is smaller, or `a` is a proper prefix of `b`.
pub open spec fn bytes_before(a: Seq<u8>, b: Seq<u8>) -> bool
    decreases a.len(),
{
    if a.len() == 0 {
        b.len() > 0
    } else if b.len() == 0 {
        false
    } else if a[0] != b[0] {
        a[0] < b[0]
    } else {
        bytes_before(a.drop_first(), b.drop_first())
    }
}

/// The name `a` comes before the name `b`.
pub open spec fn name_before(a: Seq<char>, b: Seq<char>) -> bool {
    bytes_before(encode_utf8(a), encode_utf8(b))
}

/// Each name comes before every later one.
pub open spec fn strictly_ordered(s: Seq<Seq<char>>) -> bool {
    forall|i: int, j: int| 0 <= i < j < s.len() ==> name_before(#[trigger] s[i], #[trigger] s[j])
}

/// `s` lists the names of `names`, each once, in order.
pub open spec fn is_name_order(s: Seq<Seq<char>>, names: Set<Seq<char>>) -> bool {
    strictly_ordered(s) && s.to_set() == names
}

/// The names of a finite set, in order.
pub open spec fn name_order(names: Set<Seq<char>>) -> Seq<Seq<char>> {
    choose|s: Seq<Seq<char>>| is_name_order(s, names)
}

/// No byte string comes before itself.
pub proof fn lemma_bytes_irreflexive(a: Seq<u8>)
    ensures
        !bytes_before(a, a),
    decreases a.len(),
{
    if a.len() > 0 {
        lemma_bytes_irreflexive(a.drop_first());
    }
}

/// Byte order is transitive.
pub proof fn lemma_bytes_transitive(a: Seq<u8>, b: Seq<u8>, c: Seq<u8>)
    requires
        bytes_before(a, b),
        bytes_before(b, c),
    ensures
        bytes_before(a, c),
    decreases a.len(),
{
    if a.len() > 0 && b.len() > 0 && c.len() > 0 && a[0] == b[0] && b[0] == c[0] {
        lemma_bytes_transitive(a.drop_first(), b.drop_first(), c.drop_first());
    }
}

/// Of two different byte strings, one comes before the other.
pub proof fn lemma_bytes_total(a: Seq<u8>, b: Seq<u8>)
    requires
        a != b,
    ensures
        bytes_before(a, b) || bytes_before(b, a),
    decreases a.len(),
{
    if a.len() == 0 && b.len() == 0 {
        assert(a =~= b);
    } else if a.len() > 0 && b.len() > 0 && a[0] == b[0] {
        if a.drop_first() == b.drop_first() {
            assert(a =~= seq![a[0]] + a.drop_first());
            assert(b =~= seq![b[0]] + b.drop_first());
        }
        lemma_bytes_total(a.drop_first(), b.drop_first());
    }
}

/// Name order is irreflexive, transitive and total on different names.
pub proof fn lemma_name_order()
    ensures
        forall|a: Seq<char>| !#[trigger] name_before(a, a),
        forall|a: Seq<char>, b: Seq<char>, c: Seq<char>|
            #[trigger] name_before(a, b) && #[trigger] name_before(b, c) ==> name_before(a, c),
        forall|a: Seq<char>, b: Seq<char>|
            #![trigger name_before(a, b)]
            #![trigger name_before(b, a)]
            a != b ==> name_before(a, b) || name_before(b, a),
{
    assert forall|a: Seq<char>| !#[trigger] name_before(a, a) by {
        lemma_bytes_irreflexive(encode_utf8(a));
    }
    assert forall|a: Seq<char>, b: Seq<char>, c: Seq<char>|
        #[trigger] name_before(a, b) && #[trigger] name_before(b, c) implies name_before(a, c) by {
        lemma_bytes_transitive(encode_utf8(a), encode_utf8(b), encode_utf8(c));
    }
    assert forall|a: Seq<char>, b: Seq<char>|
        #![trigger name_before(a, b)]
        #![trigger name_before(b, a)]
        a != b implies name_before(a, b) || name_before(b, a) by {
        encode_utf8_decode_utf8(a);
        encode_utf8_decode_utf8(b);
        lemma_bytes_total(encode_utf8(a), encode_utf8(b));
    }
}

/// Two ordered lists of the same names are the same list.
pub proof fn lemma_name_order_unique(s: Seq<Seq<char>>, t: Seq<Seq<char>>)
    requires
        strictly_ordered(s),
        strictly_ordered(t),
        s.to_set() == t.to_set(),
    ensures
        s == t,
    decreases s.len(),
{
    lemma_name_order();
    if s.len() == 0 {
        if t.len() > 0 {
            assert(s.to_set().contains(t[0]));
        }
        assert(s =~= t);
    } else {
        assert(t.to_set().contains(s[0]));
        assert(t.len() > 0);
        assert(s.to_set().contains(t[0]));
        let i = choose|i: int| 0 <= i < s.len() && s[i] == t[0];
        let j = choose|j: int| 0 <= j < t.len() && t[j] == s[0];
        if s[0] != t[0] {
            assert(i > 0 && j > 0);
            assert(name_before(s[0], s[i]));
            assert(name_before(t[0], t[j]));
        }
        let s1 = s.drop_first();
        let t1 = t.drop_first();
        assert(strictly_ordered(s1)) by {
            assert forall|a: int, b: int| 0 <= a < b < s1.len() implies name_before(
                #[trigger] s1[a],
                #[trigger] s1[b],
            ) by {
                assert(s1[a] == s[a + 1] && s1[b] == s[b + 1]);
            }
        }
        assert(strictly_ordered(t1)) by {
            assert forall|a: int, b: int| 0 <= a < b < t1.len() implies name_before(
                #[trigger] t1[a],
                #[trigger] t1[b],
            ) by {
                assert(t1[a] == t[a + 1] && t1[b] == t[b + 1]);
            }
        }
        assert(s1.to_set() =~= t1.to_set()) by {
            assert forall|x: Seq<char>| s1.to_set().contains(x) implies t1.to_set().contains(x) by {
                let a = choose|a: int| 0 <= a < s1.len() && s1[a] == x;
                assert(s.to_set().contains(x));
                assert(x == s[a + 1]);
                assert(name_before(s[0], x));
                let b = choose|b: int| 0 <= b < t.len() && t[b] == x;
                if b == 0 {
                    assert(x == s[0]);
                }
                assert(t1[b - 1] == x);
            }
            assert forall|x: Seq<char>| t1.to_set().contains(x) implies s1.to_set().contains(x) by {
                let a = choose|a: int| 0 <= a < t1.len() && t1[a] == x;
                assert(t.to_set().contains(x));
                assert(x == t[a + 1]);
                assert(name_before(t[0], x));
                let b = choose|b: int| 0 <= b < s.len() && s[b] == x;
                if b == 0 {
                    assert(x == t[0]);
                }
                assert(s1[b - 1] == x);
            }
        }
        lemma_name_order_unique(s1, t1);
        assert(s =~= seq![s[0]] + s1);
        assert(t =~= seq![t[0]] + t1);
    }
}

/// Whether the byte string `a` comes before `b`.
pub fn bytes_before_exec(a: &[u8], b: &[u8]) -> (r: bool)
    ensures
        r == bytes_before(a@, b@),
{
    let mut i: usize = 0;
    assert(a@.skip(0) =~= a@ && b@.skip(0) =~= b@);
    while i < a.len() && i < b.len()
        invariant
            i <= a@.len(),
            i <= b@.len(),
            bytes_before(a@, b@) == bytes_before(a@.skip(i as int), b@.skip(i as int)),
        decreases a.len() - i,
    {
        if a[i] != b[i] {
            return a[i] < b[i];
        }
        assert(a@.skip(i as int).drop_first() =~= a@.skip(i + 1));
        assert(b@.skip(i as int).drop_first() =~= b@.skip(i + 1));
        i = i + 1;
    }
    i == a.len() && i < b.len()
}

/// Whether the name `a` comes before `b`.
pub fn name_before_exec(a: &String, b: &String) -> (r: bool)
    ensures
        r == name_before(a@, b@),
{
    bytes_before_exec(a.as_str().as_bytes(), b.as_str().as_bytes())
}

/// The names, sorted.
pub fn sort_names(names: &Vec<String>) -> (r: Vec<String>)
    requires
        names_of(names@).no_duplicates(),
    ensures
        is_name_order(names_of(r@), names_of(names@).to_set()),
        names_of(r@) == name_order(names_of(names@).to_set()),
{
    proof {
        lemma_name_order();
    }
    let mut r: Vec<String> = Vec::new();
    let mut i: usize = 0;
    while i < names.len()
        invariant
            i <= names@.len(),
            names_of(names@).no_duplicates(),
            strictly_ordered(names_of(r@)),
            names_of(r@).to_set() == names_of(names@).take(i as int).to_set(),
        decreases names.len() - i,
    {
        let name = &names[i];
        let mut pos: usize = 0;
        while pos < r.len() && !name_before_exec(name, &r[pos])
            invariant
                pos <= r@.len(),
                forall|j: int| 0 <= j < pos ==> !name_before(name@, #[trigger] r@[j]@),
            decreases r.len() - pos,
        {
            pos = pos + 1;
        }
        let ghost before = names_of(r@);
        let ghost taken = names_of(names@).take(i as int);
        proof {
            lemma_name_order();
            assert forall|j: int| 0 <= j < before.len() implies before[j] != name@ by {
                assert(taken.to_set().contains(before[j]));
                let k = choose|k: int| 0 <= k < taken.len() && taken[k] == before[j];
                assert(names_of(names@)[k] == before[j]);
                assert(names_of(names@)[i as int] == name@);
            }
            assert forall|j: int| 0 <= j < pos implies name_before(#[trigger] before[j], name@) by {
                assert(before[j] == r@[j]@);
                assert(!name_before(name@, before[j]));
                assert(before[j] != name@);
            }
            if pos < r@.len() {
                assert(name_before(name@, before[pos as int]));
            }
        }
        r.insert(pos, name.clone());
        proof {
            let after = names_of(r@);
            assert(after =~= before.insert(pos as int, name@));
            assert forall|a: int, b: int| 0 <= a < b < after.len() implies name_before(
                #[trigger] after[a],
                #[trigger] after[b],
            ) by {
                if b < pos {
                    assert(after[a] == before[a] && after[b] == before[b]);
                } else if b == pos {
                    assert(after[a] == before[a]);
                    assert(name_before(before[a], name@));
                } else if a == pos {
                    assert(after[b] == before[b - 1]);
                    if b - 1 > pos {
                        assert(name_before(before[pos as int], before[b - 1]));
                        assert(name_before(name@, before[pos as int]));
                    }
                } else if a < pos {
                    assert(after[a] == before[a] && after[b] == before[b - 1]);
                } else {
                    assert(after[a] == before[a - 1] && after[b] == before[b - 1]);
                }
            }
            let taken2 = names_of(names@).take(i + 1);
            assert(taken2 =~= taken.push(name@));
            assert(after.to_set() =~= taken2.to_set()) by {
                assert forall|x: Seq<char>| after.to_set().contains(x) implies taken2.to_set().contains(x) by {
                    let k = choose|k: int| 0 <= k < after.len() && after[k] == x;
                    if k == pos {
                        assert(taken2[i as int] == x);
                    } else {
                        let k0 = if k < pos { k } else { k - 1 };
                        assert(before[k0] == x);
                        assert(before.to_set().contains(x));
                        let m = choose|m: int| 0 <= m < taken.len() && taken[m] == x;
                        assert(taken2[m] == x);
                    }
                }
                assert forall|x: Seq<char>| taken2.to_set().contains(x) implies after.to_set().contains(x) by {
                    let k = choose|k: int| 0 <= k < taken2.len() && taken2[k] == x;
                    if k == i {
                        assert(after[pos as int] == x);
                    } else {
                        assert(taken[k] == x);
                        assert(taken.to_set().contains(x));
                        let m = choose|m: int| 0 <= m < before.len() && before[m] == x;
                        let m1 = if m < pos { m } else { m + 1 };
                        assert(after[m1] == x);
                    }
                }
            }
        }
        i = i + 1;
    }
    proof {
        assert(names_of(names@).take(names@.len() as int) =~= names_of(names@));
        let s = names_of(r@);
        let set = names_of(names@).to_set();
        assert(is_name_order(s, set));
        let c = name_order(set);
        assert(is_name_order(c, set));
        lemma_name_order_unique(s, c);
    }
    r
}

} // verus!
