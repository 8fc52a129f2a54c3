//! Ordered sets and counts of names, in the order of `String`: byte by byte.
//! A `Vec<String>` kept strictly ascending stands for the sets and maps keyed
//! by name that the commands collect.
use crate::post::views;
use crate::text::{bytes_le, bytes_le_x};
use vstd::prelude::*;
use vstd::utf8::{encode_utf8, encode_utf8_decode_utf8};

verus! {

/// The bytes by which a name is ordered.
pub open spec fn key(s: Seq<char>) -> Seq<u8> {
    encode_utf8(s)
}

/// `a < b` in the order of `String`.
pub open spec fn name_lt(a: Seq<char>, b: Seq<char>) -> bool {
    bytes_le(key(a), key(b)) && a != b
}

/// Each name comes before the next one: no name occurs twice.
pub open spec fn strictly_sorted(v: Seq<Seq<char>>) -> bool {
    forall|i: int, j: int| 0 <= i < j < v.len() ==> name_lt(#[trigger] v[i], #[trigger] v[j])
}

/// How many times `x` occurs in `s`.
pub open spec fn occurrences(s: Seq<Seq<char>>, x: Seq<char>) -> nat
    decreases s.len(),
{
    if s.len() == 0 {
        0
    } else {
        occurrences(s.drop_last(), x) + if s.last() == x {
            1nat
        } else {
            0nat
        }
    }
}

/// The names of a list of (name, count) pairs.
pub open spec fn count_names_of(v: Seq<(String, u32)>) -> Seq<Seq<char>> {
    v.map_values(|p: (String, u32)| p.0@)
}

/// The order of bytes is transitive.
pub proof fn lemma_bytes_le_trans(a: Seq<u8>, b: Seq<u8>, c: Seq<u8>)
    requires
        bytes_le(a, b),
        bytes_le(b, c),
    ensures
        bytes_le(a, c),
    decreases a.len(),
{
    if a.len() > 0 && b.len() > 0 && c.len() > 0 && a[0] == b[0] && b[0] == c[0] {
        lemma_bytes_le_trans(a.drop_first(), b.drop_first(), c.drop_first());
    }
}

/// The order of bytes is total and antisymmetric.
pub proof fn lemma_bytes_le_antisym(a: Seq<u8>, b: Seq<u8>)
    ensures
        bytes_le(a, b) || bytes_le(b, a),
        bytes_le(a, b) && bytes_le(b, a) ==> a == b,
{
    crate::post::lemma_bytes_le_total(a, b);
}

/// Two names with the same bytes are the same name.
pub proof fn lemma_key_injective(a: Seq<char>, b: Seq<char>)
    ensures
        key(a) == key(b) ==> a == b,
{
    encode_utf8_decode_utf8(a);
    encode_utf8_decode_utf8(b);
}

/// The order of `String` is a strict total order.
pub proof fn lemma_name_order(a: Seq<char>, b: Seq<char>, c: Seq<char>)
    ensures
        !name_lt(a, a),
        a != b ==> (name_lt(a, b) || name_lt(b, a)),
        name_lt(a, b) ==> !name_lt(b, a),
        name_lt(a, b) && name_lt(b, c) ==> name_lt(a, c),
{
    lemma_bytes_le_antisym(key(a), key(b));
    lemma_key_injective(a, b);
    lemma_key_injective(a, c);
    if name_lt(a, b) && name_lt(b, c) {
        lemma_bytes_le_trans(key(a), key(b), key(c));
        if a == c {
            lemma_bytes_le_antisym(key(a), key(b));
        }
    }
}

/// `a < b` in the order of `String`.
pub fn name_lt_x(a: &str, b: &str) -> (r: bool)
    ensures
        r == name_lt(a@, b@),
{
    let ab = a.as_bytes();
    let bb = b.as_bytes();
    proof {
        lemma_key_injective(a@, b@);
    }
    bytes_le_x(ab, bb) && !crate::text::bytes_eq_x(ab, bb)
}

/// Where `name` goes in a strictly ascending list: the number of names
/// before it.
fn position(set: &Vec<String>, name: &str) -> (k: usize)
    requires
        strictly_sorted(views(set@)),
    ensures
        k <= set@.len(),
        forall|i: int| 0 <= i < k ==> name_lt(#[trigger] set@[i]@, name@),
        forall|i: int| k <= i < set@.len() ==> name_lt(name@, #[trigger] set@[i]@) || set@[i]@
            == name@,
        forall|i: int| k < i < set@.len() ==> name_lt(name@, #[trigger] set@[i]@),
{
    let mut k: usize = 0;
    while k < set.len() && name_lt_x(set[k].as_str(), name)
        invariant
            k <= set@.len(),
            strictly_sorted(views(set@)),
            forall|i: int| 0 <= i < k ==> name_lt(#[trigger] set@[i]@, name@),
        decreases set.len() - k,
    {
        k = k + 1;
    }
    proof {
        if k < set@.len() {
            let x = set@[k as int]@;
            lemma_name_order(x, name@, x);
            assert forall|i: int| k <= i < set@.len() implies name_lt(name@, #[trigger] set@[i]@)
                || set@[i]@ == name@ by {
                if i > k {
                    assert(views(set@)[k as int] == x && views(set@)[i] == set@[i]@);
                    lemma_name_order(name@, x, set@[i]@);
                    lemma_name_order(x, set@[i]@, name@);
                }
            }
            assert forall|i: int| k < i < set@.len() implies name_lt(name@, #[trigger] set@[i]@) by {
                assert(views(set@)[k as int] == x && views(set@)[i] == set@[i]@);
                lemma_name_order(name@, x, set@[i]@);
            }
        }
    }
    k
}

/// Adds a name to a strictly ascending list, as `BTreeSet::insert` does;
/// `true` where it was not there yet.
pub fn insert_name(set: &mut Vec<String>, name: String) -> (inserted: bool)
    requires
        strictly_sorted(views(old(set)@)),
    ensures
        strictly_sorted(views(final(set)@)),
        forall|x: Seq<char>|
            views(final(set)@).contains(x) <==> (views(old(set)@).contains(x) || x == name@),
        inserted == !views(old(set)@).contains(name@),
        inserted ==> final(set)@.len() == old(set)@.len() + 1,
        !inserted ==> final(set)@ == old(set)@,
{
    let k = position(set, name.as_str());
    if k < set.len() && set[k] == name {
        proof {
            assert(views(set@)[k as int] == name@);
        }
        return false;
    }
    let ghost before = set@;
    let ghost n = name@;
    proof {
        assert forall|i: int| 0 <= i < before.len() implies #[trigger] before[i]@ != n by {
            if i < k {
                lemma_name_order(before[i]@, n, n);
            } else {
                lemma_name_order(n, before[i]@, n);
            }
        }
        assert(!views(before).contains(n)) by {
            if views(before).contains(n) {
                let i = choose|i: int| 0 <= i < views(before).len() && views(before)[i] == n;
                assert(before[i]@ == n);
            }
        }
    }
    set.insert(k, name);
    proof {
        assert(set@ == before.insert(k as int, set@[k as int]));
        let vs = views(set@);
        let vb = views(before);
        assert(vs =~= vb.insert(k as int, n));
        assert forall|i: int, j: int| 0 <= i < j < vs.len() implies name_lt(
            #[trigger] vs[i],
            #[trigger] vs[j],
        ) by {
            if j < k {
                assert(vs[i] == vb[i] && vs[j] == vb[j]);
            } else if j == k {
                assert(vs[i] == before[i]@);
            } else if i < k {
                assert(vs[i] == vb[i] && vs[j] == vb[j - 1]);
                lemma_name_order(vb[i], n, vb[j - 1]);
                assert(name_lt(vb[i], n));
                assert(vb[j - 1] == before[j - 1]@);
                assert(name_lt(n, before[j - 1]@) || before[j - 1]@ == n);
            } else if i == k {
                assert(vs[j] == vb[j - 1] && vb[j - 1] == before[j - 1]@);
            } else {
                assert(vs[i] == vb[i - 1] && vs[j] == vb[j - 1]);
            }
        }
        assert forall|x: Seq<char>| vs.contains(x) <==> (vb.contains(x) || x == n) by {
            if vs.contains(x) {
                let i = choose|i: int| 0 <= i < vs.len() && vs[i] == x;
                if i < k {
                    assert(vb[i] == x);
                } else if i > k {
                    assert(vb[i - 1] == x);
                }
            }
            if vb.contains(x) {
                let i = choose|i: int| 0 <= i < vb.len() && vb[i] == x;
                if i < k {
                    assert(vs[i] == x);
                } else {
                    assert(vs[i + 1] == x);
                }
            }
            if x == n {
                assert(vs[k as int] == x);
            }
        }
    }
    true
}

/// The distinct names of a list, in ascending order: what collecting them
/// into a `BTreeSet` and walking it gives.
pub fn sorted_names(names: &Vec<String>) -> (r: Vec<String>)
    ensures
        strictly_sorted(views(r@)),
        forall|x: Seq<char>| views(r@).contains(x) <==> views(names@).contains(x),
{
    let mut r: Vec<String> = Vec::new();
    let mut i: usize = 0;
    while i < names.len()
        invariant
            i <= names@.len(),
            strictly_sorted(views(r@)),
            forall|x: Seq<char>| views(r@).contains(x) <==> views(names@).take(i as int).contains(x),
        decreases names.len() - i,
    {
        let name = names[i].clone();
        let ghost before = views(names@).take(i as int);
        insert_name(&mut r, name);
        proof {
            let after = views(names@).take(i + 1);
            assert(after =~= before.push(names@[i as int]@));
            assert forall|x: Seq<char>| after.contains(x) <==> (before.contains(x) || x
                == names@[i as int]@) by {
                if after.contains(x) {
                    let j = choose|j: int| 0 <= j < after.len() && after[j] == x;
                    if j < i {
                        assert(before[j] == x);
                    }
                }
                if before.contains(x) {
                    let j = choose|j: int| 0 <= j < before.len() && before[j] == x;
                    assert(after[j] == x);
                }
                if x == names@[i as int]@ {
                    assert(after[i as int] == x);
                }
            }
        }
        i = i + 1;
    }
    assert(views(names@).take(names@.len() as int) =~= views(names@));
    r
}

/// The distinct names of a list in ascending order, each with the number of
/// times it occurs: what counting them in a `BTreeMap` and walking it gives.
pub fn count_names(names: &Vec<String>) -> (r: Vec<(String, u32)>)
    requires
        names@.len() <= u32::MAX,
    ensures
        strictly_sorted(count_names_of(r@)),
        forall|x: Seq<char>| count_names_of(r@).contains(x) <==> views(names@).contains(x),
        forall|k: int|
            0 <= k < r@.len() ==> #[trigger] r@[k].1 == occurrences(views(names@), r@[k].0@),
{
    let mut r: Vec<(String, u32)> = Vec::new();
    let mut i: usize = 0;
    while i < names.len()
        invariant
            i <= names@.len(),
            names@.len() <= u32::MAX,
            strictly_sorted(count_names_of(r@)),
            forall|x: Seq<char>|
                count_names_of(r@).contains(x) <==> views(names@).take(i as int).contains(x),
            forall|k: int|
                0 <= k < r@.len() ==> #[trigger] r@[k].1 == occurrences(
                    views(names@).take(i as int),
                    r@[k].0@,
                ),
            forall|k: int| 0 <= k < r@.len() ==> #[trigger] r@[k].1 <= i,
        decreases names.len() - i,
    {
        let ghost before = views(names@).take(i as int);
        let ghost n = names@[i as int]@;
        let ghost old_r = r@;
        let ghost after = views(names@).take(i + 1);
        proof {
            assert(after =~= before.push(n));
            assert(after.drop_last() =~= before);
            assert forall|x: Seq<char>| after.contains(x) <==> (before.contains(x) || x == n) by {
                if after.contains(x) {
                    let j = choose|j: int| 0 <= j < after.len() && after[j] == x;
                    if j < i {
                        assert(before[j] == x);
                    }
                }
                if before.contains(x) {
                    let j = choose|j: int| 0 <= j < before.len() && before[j] == x;
                    assert(after[j] == x);
                }
                if x == n {
                    assert(after[i as int] == x);
                }
            }
        }
        let mut k: usize = 0;
        while k < r.len() && name_lt_x(r[k].0.as_str(), names[i].as_str())
            invariant
                k <= r@.len(),
                r@ == old_r,
                n == names@[i as int]@,
                i < names@.len(),
                strictly_sorted(count_names_of(r@)),
                forall|j: int| 0 <= j < k ==> name_lt(#[trigger] r@[j].0@, n),
            decreases r.len() - k,
        {
            k = k + 1;
        }
        let ghost cn = count_names_of(old_r);
        proof {
            if k < r@.len() {
                let x = old_r[k as int].0@;
                assert(cn[k as int] == x);
                lemma_name_order(x, n, x);
                assert forall|j: int| k < j < old_r.len() implies name_lt(n, #[trigger] old_r[j].0@)
                    || x == n by {
                    assert(cn[j] == old_r[j].0@);
                    lemma_name_order(n, x, old_r[j].0@);
                }
            }
        }
        if k < r.len() && r[k].0 == names[i] {
            let c = r[k].1;
            let name = r[k].0.clone();
            r.set(k, (name, c + 1));
            proof {
                assert(count_names_of(r@) =~= cn);
                assert forall|j: int| 0 <= j < r@.len() implies #[trigger] r@[j].1 == occurrences(
                    after,
                    r@[j].0@,
                ) by {
                    assert(occurrences(after, r@[j].0@) == occurrences(before, r@[j].0@) + if n
                        == r@[j].0@ {
                        1nat
                    } else {
                        0nat
                    });
                    if j != k {
                        assert(cn[j] == old_r[j].0@ && cn[k as int] == old_r[k as int].0@);
                        assert(old_r[j].0@ != n);
                    }
                }
            }
        } else {
            let name = names[i].clone();
            r.insert(k, (name, 1));
            proof {
                let cr = count_names_of(r@);
                assert(cr =~= cn.insert(k as int, n));
                assert forall|j: int| 0 <= j < old_r.len() implies #[trigger] old_r[j].0@ != n by {
                    assert(cn[j] == old_r[j].0@);
                    if j < k {
                        lemma_name_order(n, n, n);
                    } else if j > k {
                        lemma_name_order(n, old_r[j].0@, n);
                    }
                }
                assert(!before.contains(n)) by {
                    if before.contains(n) {
                        assert(cn.contains(n));
                        let j = choose|j: int| 0 <= j < cn.len() && cn[j] == n;
                        assert(old_r[j].0@ == n);
                    }
                }
                lemma_occurrences_absent(before, n);
                assert forall|a: int, b: int| 0 <= a < b < cr.len() implies name_lt(
                    #[trigger] cr[a],
                    #[trigger] cr[b],
                ) by {
                    if b < k {
                        assert(cr[a] == cn[a] && cr[b] == cn[b]);
                    } else if b == k {
                        assert(cr[a] == cn[a] && cn[a] == old_r[a].0@);
                    } else if a < k {
                        assert(cr[a] == cn[a] && cr[b] == cn[b - 1]);
                        assert(cn[a] == old_r[a].0@ && cn[b - 1] == old_r[b - 1].0@);
                        lemma_name_order(cn[a], n, cn[b - 1]);
                    } else if a == k {
                        assert(cr[b] == cn[b - 1] && cn[b - 1] == old_r[b - 1].0@);
                    } else {
                        assert(cr[a] == cn[a - 1] && cr[b] == cn[b - 1]);
                    }
                }
                assert forall|x: Seq<char>| cr.contains(x) <==> after.contains(x) by {
                    if cr.contains(x) {
                        let j = choose|j: int| 0 <= j < cr.len() && cr[j] == x;
                        if j < k {
                            assert(cn[j] == x);
                        } else if j > k {
                            assert(cn[j - 1] == x);
                        }
                    }
                    if cn.contains(x) {
                        let j = choose|j: int| 0 <= j < cn.len() && cn[j] == x;
                        if j < k {
                            assert(cr[j] == x);
                        } else {
                            assert(cr[j + 1] == x);
                        }
                    }
                    if x == n {
                        assert(cr[k as int] == x);
                    }
                }
                assert forall|j: int| 0 <= j < r@.len() implies #[trigger] r@[j].1 == occurrences(
                    after,
                    r@[j].0@,
                ) && r@[j].1 <= i + 1 by {
                    if j < k {
                        assert(r@[j] == old_r[j]);
                    } else if j > k {
                        assert(r@[j] == old_r[j - 1]);
                    }
                }
            }
        }
        i = i + 1;
    }
    assert(views(names@).take(names@.len() as int) =~= views(names@));
    r
}

proof fn lemma_occurrences_absent(s: Seq<Seq<char>>, x: Seq<char>)
    requires
        !s.contains(x),
    ensures
        occurrences(s, x) == 0,
    decreases s.len(),
{
    if s.len() > 0 {
        assert(s.drop_last().len() < s.len());
        if s.drop_last().contains(x) {
            let j = choose|j: int| 0 <= j < s.drop_last().len() && s.drop_last()[j] == x;
            assert(s[j] == x);
        }
        assert(s[s.len() - 1] == s.last());
        lemma_occurrences_absent(s.drop_last(), x);
    }
}

} // verus!
