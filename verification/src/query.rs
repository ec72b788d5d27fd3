//! Query strings: parameters kept sorted by key, as a `BTreeMap` of `&str`
//! keeps them, a later value for a key replacing the earlier one.
use crate::proto::utf8;
use vstd::prelude::*;

verus! {

broadcast use vstd::utf8::encode_utf8_decode_utf8;

/// A parameter: its key and its value.
pub type Param = (String, String);

/// The order of `str`: byte by byte, a prefix first.
pub open spec fn bytes_lt(a: Seq<u8>, b: Seq<u8>) -> bool
    decreases a.len(),
{
    if a.len() == 0 {
        b.len() > 0
    } else if b.len() == 0 {
        false
    } else if a[0] != b[0] {
        a[0] < b[0]
    } else {
        bytes_lt(a.drop_first(), b.drop_first())
    }
}

/// The order of keys: the order of their UTF-8 bytes.
pub open spec fn key_lt(a: Seq<char>, b: Seq<char>) -> bool {
    bytes_lt(utf8(a), utf8(b))
}

proof fn lemma_bytes_lt_trans(a: Seq<u8>, b: Seq<u8>, c: Seq<u8>)
    requires
        bytes_lt(a, b),
        bytes_lt(b, c),
    ensures
        bytes_lt(a, c),
    decreases a.len(),
{
    if a.len() > 0 && b.len() > 0 && c.len() > 0 && a[0] == b[0] && b[0] == c[0] {
        lemma_bytes_lt_trans(a.drop_first(), b.drop_first(), c.drop_first());
    }
}

proof fn lemma_bytes_lt_total(a: Seq<u8>, b: Seq<u8>)
    requires
        a != b,
    ensures
        bytes_lt(a, b) || bytes_lt(b, a),
    decreases a.len(),
{
    if a.len() == 0 && b.len() == 0 {
        assert(a =~= b);
    }
    if a.len() > 0 && b.len() > 0 && a[0] == b[0] {
        if a.drop_first() == b.drop_first() {
            assert(a =~= seq![a[0]] + a.drop_first());
            assert(b =~= seq![b[0]] + b.drop_first());
            assert(a =~= b);
        } else {
            lemma_bytes_lt_total(a.drop_first(), b.drop_first());
        }
    }
}

proof fn lemma_bytes_lt_irrefl(a: Seq<u8>)
    ensures
        !bytes_lt(a, a),
    decreases a.len(),
{
    if a.len() > 0 {
        lemma_bytes_lt_irrefl(a.drop_first());
    }
}

/// Keys are strictly ordered: transitive, total on distinct keys, and
/// irreflexive.
pub proof fn lemma_key_order(a: Seq<char>, b: Seq<char>, c: Seq<char>)
    ensures
        key_lt(a, b) && key_lt(b, c) ==> key_lt(a, c),
        a != b ==> key_lt(a, b) || key_lt(b, a),
        !key_lt(a, a),
{
    if key_lt(a, b) && key_lt(b, c) {
        lemma_bytes_lt_trans(utf8(a), utf8(b), utf8(c));
    }
    if a != b {
        assert(vstd::utf8::decode_utf8(utf8(a)) == a);
        assert(vstd::utf8::decode_utf8(utf8(b)) == b);
        lemma_bytes_lt_total(utf8(a), utf8(b));
    }
    lemma_bytes_lt_irrefl(utf8(a));
}

/// Whether `a` comes before `b` in the order of `str`.
pub fn str_less(a: &str, b: &str) -> (r: bool)
    ensures
        r == key_lt(a@, b@),
{
    let x = a.as_bytes();
    let y = b.as_bytes();
    let mut i: usize = 0;
    assert(x@.skip(0) =~= x@);
    assert(y@.skip(0) =~= y@);
    while i < x.len() && i < y.len()
        invariant
            i <= x@.len(),
            i <= y@.len(),
            x@ == utf8(a@),
            y@ == utf8(b@),
            bytes_lt(x@, y@) == bytes_lt(x@.skip(i as int), y@.skip(i as int)),
        decreases x@.len() - i,
    {
        if x[i] != y[i] {
            return x[i] < y[i];
        }
        assert(x@.skip(i as int).drop_first() =~= x@.skip(i + 1));
        assert(y@.skip(i as int).drop_first() =~= y@.skip(i + 1));
        i = i + 1;
    }
    i < y.len()
}

/// The view of a list of parameters.
pub open spec fn params_view(l: Seq<Param>) -> Seq<(Seq<char>, Seq<char>)> {
    l.map_values(|p: Param| (p.0@, p.1@))
}

/// Whether the keys of `l` are strictly increasing.
pub open spec fn sorted(l: Seq<(Seq<char>, Seq<char>)>) -> bool {
    forall|i: int, j: int| 0 <= i < j < l.len() ==> key_lt(#[trigger] l[i].0, #[trigger] l[j].0)
}

/// Whether `l` holds the parameter `k` with value `v`.
pub open spec fn holds(l: Seq<(Seq<char>, Seq<char>)>, k: Seq<char>, v: Seq<char>) -> bool {
    exists|i: int| 0 <= i < l.len() && #[trigger] l[i] == (k, v)
}

/// The value of the last parameter `k` in `items`, if any.
pub open spec fn last_value(items: Seq<(Seq<char>, Seq<char>)>, k: Seq<char>) -> Option<Seq<char>>
    decreases items.len(),
{
    if items.len() == 0 {
        None
    } else if items.last().0 == k {
        Some(items.last().1)
    } else {
        last_value(items.drop_last(), k)
    }
}

/// Sets the parameter `k` to `v`, keeping the keys sorted.
pub fn set_param(list: &mut Vec<Param>, k: String, v: String)
    requires
        sorted(params_view(old(list)@)),
    ensures
        sorted(params_view(final(list)@)),
        forall|k2: Seq<char>, v2: Seq<char>|
            holds(params_view(final(list)@), k2, v2) <==> if k2 == k@ {
                v2 == v@
            } else {
                holds(params_view(old(list)@), k2, v2)
            },
{
    let ghost old_l = params_view(list@);
    let mut p: usize = 0;
    while p < list.len() && str_less(list[p].0.as_str(), k.as_str())
        invariant
            p <= list@.len(),
            list@ == old(list)@,
            old_l == params_view(list@),
            sorted(old_l),
            forall|i: int| 0 <= i < p ==> key_lt(#[trigger] old_l[i].0, k@),
        decreases list@.len() - p,
    {
        p = p + 1;
    }
    if p < list.len() && list[p].0 == k {
        let ghost prev = list@[p as int];
        list.set(p, (k, v));
        let ghost new_l = params_view(list@);
        assert(new_l =~= old_l.update(p as int, (prev.0@, v@)));
        assert forall|i: int, j: int| 0 <= i < j < new_l.len() implies key_lt(
            #[trigger] new_l[i].0,
            #[trigger] new_l[j].0,
        ) by {
            assert(key_lt(old_l[i].0, old_l[j].0));
        }
        assert forall|k2: Seq<char>, v2: Seq<char>|
            holds(new_l, k2, v2) <==> if k2 == prev.0@ {
                v2 == v@
            } else {
                holds(old_l, k2, v2)
            } by {
            if holds(new_l, k2, v2) {
                let i = choose|i: int| 0 <= i < new_l.len() && #[trigger] new_l[i] == (k2, v2);
                if i != p {
                    assert(old_l[i] == (k2, v2));
                    if k2 == prev.0@ {
                        if i < p {
                            assert(key_lt(old_l[i].0, old_l[p as int].0));
                        } else {
                            assert(key_lt(old_l[p as int].0, old_l[i].0));
                        }
                        lemma_key_order(k2, k2, k2);
                    }
                }
            }
            if k2 == prev.0@ && v2 == v@ {
                assert(new_l[p as int] == (k2, v2));
            }
            if k2 != prev.0@ && holds(old_l, k2, v2) {
                let i = choose|i: int| 0 <= i < old_l.len() && #[trigger] old_l[i] == (k2, v2);
                assert(new_l[i] == (k2, v2));
            }
        }
    } else {
        let ghost kv = (k@, v@);
        list.insert(p, (k, v));
        let ghost new_l = params_view(list@);
        assert(new_l =~= old_l.insert(p as int, kv));
        proof {
            if p < old_l.len() {
                assert(old_l[p as int].0 == old(list)@[p as int].0@);
                assert(old_l[p as int].0 != k@);
                assert(!key_lt(old_l[p as int].0, k@));
                lemma_key_order(k@, old_l[p as int].0, k@);
                assert(key_lt(k@, old_l[p as int].0));
            }
        }
        assert forall|i: int, j: int| 0 <= i < j < new_l.len() implies key_lt(
            #[trigger] new_l[i].0,
            #[trigger] new_l[j].0,
        ) by {
            if j < p {
                assert(key_lt(old_l[i].0, old_l[j].0));
            } else if j == p {
                assert(key_lt(old_l[i].0, k@));
            } else if i < p {
                assert(key_lt(old_l[i].0, k@));
                assert(key_lt(k@, old_l[p as int].0));
                if j - 1 > p {
                    assert(key_lt(old_l[p as int].0, old_l[j - 1].0));
                    lemma_key_order(k@, old_l[p as int].0, old_l[j - 1].0);
                }
                lemma_key_order(old_l[i].0, k@, old_l[j - 1].0);
            } else if i == p {
                assert(key_lt(k@, old_l[p as int].0));
                if j - 1 > p {
                    assert(key_lt(old_l[p as int].0, old_l[j - 1].0));
                    lemma_key_order(k@, old_l[p as int].0, old_l[j - 1].0);
                }
            } else {
                assert(key_lt(old_l[i - 1].0, old_l[j - 1].0));
            }
        }
        assert forall|k2: Seq<char>, v2: Seq<char>| holds(new_l, k2, v2) implies (if k2 == k@ {
            v2 == v@
        } else {
            holds(old_l, k2, v2)
        }) by {
            let i = choose|i: int| 0 <= i < new_l.len() && #[trigger] new_l[i] == (k2, v2);
            if i < p {
                assert(old_l[i] == (k2, v2));
                if k2 == k@ {
                    assert(key_lt(old_l[i].0, k@));
                    lemma_key_order(k2, k2, k2);
                }
            } else if i > p {
                assert(old_l[i - 1] == (k2, v2));
                if k2 == k@ {
                    assert(key_lt(k@, old_l[p as int].0));
                    if i - 1 > p {
                        assert(key_lt(old_l[p as int].0, old_l[i - 1].0));
                        lemma_key_order(k@, old_l[p as int].0, old_l[i - 1].0);
                    }
                    lemma_key_order(k2, k2, k2);
                }
            } else {
                assert(new_l[p as int] == kv);
            }
        }
        assert forall|k2: Seq<char>, v2: Seq<char>| (if k2 == k@ {
            v2 == v@
        } else {
            holds(old_l, k2, v2)
        }) implies holds(new_l, k2, v2) by {
            if k2 == k@ {
                assert(new_l[p as int] == (k2, v2));
            } else {
                let i = choose|i: int| 0 <= i < old_l.len() && #[trigger] old_l[i] == (k2, v2);
                if i < p {
                    assert(new_l[i] == (k2, v2));
                } else {
                    assert(new_l[i + 1] == (k2, v2));
                }
            }
        }
    }
}


/// The text of one parameter: `key=value`.
pub open spec fn param_text(p: (Seq<char>, Seq<char>)) -> Seq<char> {
    p.0 + "="@ + p.1
}

/// The parameters joined with `&`, in order.
pub open spec fn join_params(l: Seq<(Seq<char>, Seq<char>)>) -> Seq<char>
    decreases l.len(),
{
    if l.len() == 0 {
        Seq::empty()
    } else if l.len() == 1 {
        param_text(l[0])
    } else {
        join_params(l.drop_last()) + "&"@ + param_text(l.last())
    }
}

/// Whether `l` is the parameters of `items` sorted by key, each key with
/// the last value `items` gives it.
pub open spec fn sorted_params_of(
    l: Seq<(Seq<char>, Seq<char>)>,
    items: Seq<(Seq<char>, Seq<char>)>,
) -> bool {
    &&& sorted(l)
    &&& forall|k: Seq<char>, v: Seq<char>| holds(l, k, v) <==> last_value(items, k) == Some(v)
}

/// The query string of `items`: their parameters sorted by key, each with
/// the last value given, joined with `&`.
pub open spec fn is_query_of(q: Seq<char>, items: Seq<(Seq<char>, Seq<char>)>) -> bool {
    exists|l: Seq<(Seq<char>, Seq<char>)>| sorted_params_of(l, items) && q == join_params(l)
}

/// The parameters of `items` sorted by key, each with the last value given.
pub fn sort_params(items: &Vec<Param>) -> (r: Vec<Param>)
    ensures
        sorted_params_of(params_view(r@), params_view(items@)),
{
    let mut list: Vec<Param> = Vec::new();
    let mut i: usize = 0;
    let ghost iv = params_view(items@);
    while i < items.len()
        invariant
            i <= items@.len(),
            iv == params_view(items@),
            sorted(params_view(list@)),
            forall|k: Seq<char>, v: Seq<char>|
                holds(params_view(list@), k, v) <==> last_value(iv.take(i as int), k) == Some(v),
        decreases items@.len() - i,
    {
        let k = items[i].0.clone();
        let v = items[i].1.clone();
        set_param(&mut list, k, v);
        proof {
            assert(iv.take(i + 1).drop_last() =~= iv.take(i as int));
            assert(iv.take(i + 1).last() == iv[i as int]);
        }
        i = i + 1;
    }
    assert(iv.take(i as int) =~= iv);
    list
}

/// Joins parameters with `&`, each as `key=value`.
pub fn join(l: &Vec<Param>) -> (r: String)
    ensures
        r@ == join_params(params_view(l@)),
{
    let mut s = String::new();
    let mut i: usize = 0;
    proof {
        reveal_strlit("=");
        reveal_strlit("&");
    }
    while i < l.len()
        invariant
            i <= l@.len(),
            s@ == join_params(params_view(l@).take(i as int)),
        decreases l@.len() - i,
    {
        let ghost before = s@;
        if i > 0 {
            s.append("&");
        }
        s.append(l[i].0.as_str());
        s.append("=");
        s.append(l[i].1.as_str());
        proof {
            let t = params_view(l@).take(i + 1);
            assert(t.drop_last() =~= params_view(l@).take(i as int));
            assert(t.last() == params_view(l@)[i as int]);
            if i == 0 {
                assert(s@ =~= param_text(t[0]));
            } else {
                assert(s@ =~= before + "&"@ + param_text(t.last()));
            }
        }
        i = i + 1;
    }
    assert(params_view(l@).take(i as int) =~= params_view(l@));
    s
}

/// The query string of `items`.
pub fn query_string(items: &Vec<Param>) -> (r: String)
    ensures
        is_query_of(r@, params_view(items@)),
{
    let l = sort_params(items);
    join(&l)
}


/// Two key-sorted parameter lists that hold the same parameters are the same
/// list.
proof fn lemma_sorted_unique(l1: Seq<(Seq<char>, Seq<char>)>, l2: Seq<(Seq<char>, Seq<char>)>)
    requires
        sorted(l1),
        sorted(l2),
        forall|k: Seq<char>, v: Seq<char>| holds(l1, k, v) <==> holds(l2, k, v),
    ensures
        l1 == l2,
    decreases l1.len() + l2.len(),
{
    if l1.len() == 0 {
        if l2.len() > 0 {
            assert(holds(l2, l2[0].0, l2[0].1));
        }
        assert(l1 =~= l2);
    } else if l2.len() == 0 {
        assert(holds(l1, l1[0].0, l1[0].1));
    } else {
        // the first entries hold the least keys, so they are the same
        let a = l1[0];
        let b = l2[0];
        assert(holds(l1, a.0, a.1));
        assert(holds(l2, b.0, b.1));
        let j = choose|j: int| 0 <= j < l2.len() && #[trigger] l2[j] == (a.0, a.1);
        let i = choose|i: int| 0 <= i < l1.len() && #[trigger] l1[i] == (b.0, b.1);
        if j > 0 {
            assert(key_lt(l2[0].0, l2[j].0));
        }
        if i > 0 {
            assert(key_lt(l1[0].0, l1[i].0));
        }
        if i > 0 && j > 0 {
            lemma_key_order(a.0, b.0, a.0);
        }
        if i > 0 && j == 0 {
            lemma_key_order(a.0, a.0, a.0);
        }
        if i == 0 && j > 0 {
            lemma_key_order(b.0, b.0, b.0);
        }
        assert(a == b);
        let r1 = l1.drop_first();
        let r2 = l2.drop_first();
        assert forall|k: Seq<char>, v: Seq<char>| holds(r1, k, v) implies holds(r2, k, v) by {
            let x = choose|x: int| 0 <= x < r1.len() && #[trigger] r1[x] == (k, v);
            assert(l1[x + 1] == (k, v));
            assert(holds(l1, k, v));
            let y = choose|y: int| 0 <= y < l2.len() && #[trigger] l2[y] == (k, v);
            assert(key_lt(l1[0].0, l1[x + 1].0));
            if y == 0 {
                lemma_key_order(k, k, k);
            }
            assert(r2[y - 1] == (k, v));
        }
        assert forall|k: Seq<char>, v: Seq<char>| holds(r2, k, v) implies holds(r1, k, v) by {
            let y = choose|y: int| 0 <= y < r2.len() && #[trigger] r2[y] == (k, v);
            assert(l2[y + 1] == (k, v));
            assert(holds(l2, k, v));
            let x = choose|x: int| 0 <= x < l1.len() && #[trigger] l1[x] == (k, v);
            assert(key_lt(l2[0].0, l2[y + 1].0));
            if x == 0 {
                lemma_key_order(k, k, k);
            }
            assert(r1[x - 1] == (k, v));
        }
        assert forall|x: int, y: int| 0 <= x < y < r1.len() implies key_lt(
            #[trigger] r1[x].0,
            #[trigger] r1[y].0,
        ) by {
            assert(key_lt(l1[x + 1].0, l1[y + 1].0));
        }
        assert forall|x: int, y: int| 0 <= x < y < r2.len() implies key_lt(
            #[trigger] r2[x].0,
            #[trigger] r2[y].0,
        ) by {
            assert(key_lt(l2[x + 1].0, l2[y + 1].0));
        }
        lemma_sorted_unique(r1, r2);
        assert(l1 =~= seq![a] + r1);
        assert(l2 =~= seq![b] + r2);
    }
}

/// A query string is determined by its parameters, whatever order they
/// come in: two lists of parameters that give every key the same last value
/// give the same query string.
pub proof fn lemma_query_order_free(
    q1: Seq<char>,
    q2: Seq<char>,
    items1: Seq<(Seq<char>, Seq<char>)>,
    items2: Seq<(Seq<char>, Seq<char>)>,
)
    requires
        is_query_of(q1, items1),
        is_query_of(q2, items2),
        forall|k: Seq<char>| last_value(items1, k) == last_value(items2, k),
    ensures
        q1 == q2,
{
    let l1 = choose|l: Seq<(Seq<char>, Seq<char>)>| sorted_params_of(l, items1) && q1 == join_params(l);
    let l2 = choose|l: Seq<(Seq<char>, Seq<char>)>| sorted_params_of(l, items2) && q2 == join_params(l);
    assert forall|k: Seq<char>, v: Seq<char>| holds(l1, k, v) <==> holds(l2, k, v) by {
        assert(last_value(items1, k) == last_value(items2, k));
    }
    lemma_sorted_unique(l1, l2);
}

} // verus!
