use vstd::prelude::*;

verus! {

/// Result of comparing two values.
#[derive(PartialEq, Eq, Structural, Clone, Copy, Debug)]
pub enum Order {
    Less,
    Equal,
    Greater,
}

/// Lexicographic comparison of `a` and `b` from position `i` on, by code
/// point: `a` is smaller at the first position where they differ, or when it
/// is a proper prefix of `b`.
pub open spec fn chars_less_from(a: Seq<char>, b: Seq<char>, i: int) -> bool
    decreases a.len() - i,
{
    if i < 0 || i >= a.len() {
        i >= 0 && i == a.len() && i < b.len()
    } else if i >= b.len() {
        false
    } else if a[i] != b[i] {
        (a[i] as int) < (b[i] as int)
    } else {
        chars_less_from(a, b, i + 1)
    }
}

/// Strict lexicographic order of character sequences (byte order of their
/// UTF-8 encodings).
pub open spec fn chars_less(a: Seq<char>, b: Seq<char>) -> bool {
    chars_less_from(a, b, 0)
}

/// Lexicographic comparison of component sequences from position `i` on,
/// each component compared by `chars_less`.
pub open spec fn parts_less_from(a: Seq<Seq<char>>, b: Seq<Seq<char>>, i: int) -> bool
    decreases a.len() - i,
{
    if i < 0 || i >= a.len() {
        i >= 0 && i == a.len() && i < b.len()
    } else if i >= b.len() {
        false
    } else if a[i] != b[i] {
        chars_less(a[i], b[i])
    } else {
        parts_less_from(a, b, i + 1)
    }
}

/// Strict lexicographic order of component sequences: the order of paths.
pub open spec fn parts_less(a: Seq<Seq<char>>, b: Seq<Seq<char>>) -> bool {
    parts_less_from(a, b, 0)
}

proof fn lemma_chars_irreflexive(a: Seq<char>, i: int)
    requires
        0 <= i <= a.len(),
    ensures
        !chars_less_from(a, a, i),
    decreases a.len() - i,
{
    if i < a.len() {
        lemma_chars_irreflexive(a, i + 1);
    }
}

proof fn lemma_chars_transitive(a: Seq<char>, b: Seq<char>, c: Seq<char>, i: int)
    requires
        0 <= i <= a.len(),
        i <= b.len(),
        i <= c.len(),
        chars_less_from(a, b, i),
        chars_less_from(b, c, i),
    ensures
        chars_less_from(a, c, i),
    decreases a.len() - i,
{
    if i < a.len() && i < b.len() && i < c.len() && a[i] == b[i] && b[i] == c[i] {
        lemma_chars_transitive(a, b, c, i + 1);
    }
}

proof fn lemma_chars_total(a: Seq<char>, b: Seq<char>, i: int)
    requires
        0 <= i <= a.len(),
        i <= b.len(),
        forall|j: int| 0 <= j < i ==> a[j] == b[j],
        a != b,
    ensures
        chars_less_from(a, b, i) || chars_less_from(b, a, i),
    decreases a.len() - i,
{
    if i < a.len() && i < b.len() && a[i] == b[i] {
        lemma_chars_total(a, b, i + 1);
    } else if i == a.len() && i == b.len() {
        assert(a =~= b);
    }
}

/// `chars_less` is a strict total order.
pub proof fn lemma_chars_order(a: Seq<char>, b: Seq<char>, c: Seq<char>)
    ensures
        !chars_less(a, a),
        chars_less(a, b) && chars_less(b, c) ==> chars_less(a, c),
        a != b ==> chars_less(a, b) || chars_less(b, a),
        chars_less(a, b) ==> !chars_less(b, a),
{
    lemma_chars_irreflexive(a, 0);
    if chars_less(a, b) && chars_less(b, c) {
        lemma_chars_transitive(a, b, c, 0);
    }
    if chars_less(a, b) && chars_less(b, a) {
        lemma_chars_transitive(a, b, a, 0);
        lemma_chars_irreflexive(a, 0);
    }
    if a != b {
        lemma_chars_total(a, b, 0);
    }
}

proof fn lemma_parts_irreflexive(a: Seq<Seq<char>>, i: int)
    requires
        0 <= i <= a.len(),
    ensures
        !parts_less_from(a, a, i),
    decreases a.len() - i,
{
    if i < a.len() {
        lemma_parts_irreflexive(a, i + 1);
    }
}

proof fn lemma_parts_transitive(a: Seq<Seq<char>>, b: Seq<Seq<char>>, c: Seq<Seq<char>>, i: int)
    requires
        0 <= i <= a.len(),
        i <= b.len(),
        i <= c.len(),
        parts_less_from(a, b, i),
        parts_less_from(b, c, i),
    ensures
        parts_less_from(a, c, i),
    decreases a.len() - i,
{
    if i < a.len() && i < b.len() && i < c.len() {
        lemma_chars_order(a[i], b[i], c[i]);
        if a[i] == b[i] && b[i] == c[i] {
            lemma_parts_transitive(a, b, c, i + 1);
        }
    }
}

proof fn lemma_parts_total(a: Seq<Seq<char>>, b: Seq<Seq<char>>, i: int)
    requires
        0 <= i <= a.len(),
        i <= b.len(),
        forall|j: int| 0 <= j < i ==> a[j] == b[j],
        a != b,
    ensures
        parts_less_from(a, b, i) || parts_less_from(b, a, i),
    decreases a.len() - i,
{
    if i < a.len() && i < b.len() {
        lemma_chars_order(a[i], b[i], a[i]);
        if a[i] == b[i] {
            lemma_parts_total(a, b, i + 1);
        }
    } else if i == a.len() && i == b.len() {
        assert(a =~= b);
    }
}

/// `parts_less` is a strict total order.
pub proof fn lemma_parts_order(a: Seq<Seq<char>>, b: Seq<Seq<char>>, c: Seq<Seq<char>>)
    ensures
        !parts_less(a, a),
        parts_less(a, b) && parts_less(b, c) ==> parts_less(a, c),
        a != b ==> parts_less(a, b) || parts_less(b, a),
        parts_less(a, b) ==> !parts_less(b, a),
{
    lemma_parts_irreflexive(a, 0);
    if parts_less(a, b) && parts_less(b, c) {
        lemma_parts_transitive(a, b, c, 0);
    }
    if parts_less(a, b) && parts_less(b, a) {
        lemma_parts_transitive(a, b, a, 0);
        lemma_parts_irreflexive(a, 0);
    }
    if a != b {
        lemma_parts_total(a, b, 0);
    }
}

/// Compares two character sequences lexicographically.
pub fn compare_chars(a: &Vec<char>, b: &Vec<char>) -> (o: Order)
    ensures
        (o == Order::Less) == chars_less(a@, b@),
        (o == Order::Equal) == (a@ == b@),
        (o == Order::Greater) == chars_less(b@, a@),
{
    proof {
        lemma_chars_order(a@, b@, a@);
    }
    let mut i: usize = 0;
    while i < a.len() && i < b.len() && a[i] == b[i]
        invariant
            i <= a.len(),
            i <= b.len(),
            forall|j: int| 0 <= j < i ==> a@[j] == b@[j],
            chars_less(a@, b@) == chars_less_from(a@, b@, i as int),
            chars_less(b@, a@) == chars_less_from(b@, a@, i as int),
        decreases a.len() - i,
    {
        i = i + 1;
    }
    if i < a.len() && i < b.len() {
        if a[i] < b[i] {
            Order::Less
        } else {
            Order::Greater
        }
    } else if i < b.len() {
        Order::Less
    } else if i < a.len() {
        Order::Greater
    } else {
        assert(a@ =~= b@);
        Order::Equal
    }
}

/// The component sequences held by a vector of character vectors.
pub open spec fn parts_view(v: Seq<Vec<char>>) -> Seq<Seq<char>> {
    v.map_values(|p: Vec<char>| p@)
}

/// Compares two component sequences lexicographically.
pub fn compare_parts(a: &Vec<Vec<char>>, b: &Vec<Vec<char>>) -> (o: Order)
    ensures
        (o == Order::Less) == parts_less(parts_view(a@), parts_view(b@)),
        (o == Order::Equal) == (parts_view(a@) == parts_view(b@)),
        (o == Order::Greater) == parts_less(parts_view(b@), parts_view(a@)),
{
    let ghost av = parts_view(a@);
    let ghost bv = parts_view(b@);
    proof {
        lemma_parts_order(av, bv, av);
    }
    let mut i: usize = 0;
    while i < a.len() && i < b.len()
        invariant
            i <= a.len(),
            i <= b.len(),
            av == parts_view(a@),
            bv == parts_view(b@),
            forall|j: int| 0 <= j < i ==> av[j] == bv[j],
            parts_less(av, bv) == parts_less_from(av, bv, i as int),
            parts_less(bv, av) == parts_less_from(bv, av, i as int),
        decreases a.len() - i,
    {
        match compare_chars(&a[i], &b[i]) {
            Order::Less => {
                return Order::Less;
            },
            Order::Greater => {
                return Order::Greater;
            },
            Order::Equal => {},
        }
        i = i + 1;
    }
    if i < b.len() {
        Order::Less
    } else if i < a.len() {
        Order::Greater
    } else {
        assert(av =~= bv);
        Order::Equal
    }
}

/// `perm` lists each index of `keys` once, orders the keys without descent,
/// and keeps indices with equal keys in increasing order: the stable
/// sort of `keys`.
pub open spec fn stable_sort_of(keys: Seq<Seq<Seq<char>>>, perm: Seq<usize>) -> bool {
    &&& perm.len() == keys.len()
    &&& forall|i: int| 0 <= i < perm.len() ==> perm[i] < keys.len()
    &&& forall|i: int, j: int| 0 <= i < j < perm.len() ==> perm[i] != perm[j]
    &&& forall|k: usize| k < keys.len() ==> #[trigger] perm.contains(k)
    &&& forall|i: int, j: int|
        0 <= i < j < perm.len() ==> !parts_less(keys[perm[j] as int], keys[perm[i] as int])
    &&& forall|i: int, j: int|
        0 <= i < j < perm.len() && keys[perm[i] as int] == keys[perm[j] as int] ==> perm[i]
            < perm[j]
}

/// The positions of `keys` in stable sorted order of their keys.
pub fn stable_sort_indices(keys: &Vec<Vec<Vec<char>>>) -> (perm: Vec<usize>)
    ensures
        stable_sort_of(keys@.map_values(|k: Vec<Vec<char>>| parts_view(k@)), perm@),
{
    let ghost kv = keys@.map_values(|k: Vec<Vec<char>>| parts_view(k@));
    let mut perm: Vec<usize> = Vec::new();
    let mut idx: usize = 0;
    while idx < keys.len()
        invariant
            idx <= keys.len(),
            kv == keys@.map_values(|k: Vec<Vec<char>>| parts_view(k@)),
            perm.len() == idx,
            forall|i: int| 0 <= i < perm.len() ==> perm[i] < idx,
            forall|i: int, j: int| 0 <= i < j < perm.len() ==> perm[i] != perm[j],
            forall|k: usize| k < idx ==> #[trigger] perm@.contains(k),
            forall|i: int, j: int|
                0 <= i < j < perm.len() ==> !parts_less(kv[perm[j] as int], kv[perm[i] as int]),
            forall|i: int, j: int|
                0 <= i < j < perm.len() && kv[perm[i] as int] == kv[perm[j] as int] ==> perm[i]
                    < perm[j],
        decreases keys.len() - idx,
    {
        let ghost k = kv[idx as int];
        let mut pos: usize = 0;
        while pos < perm.len() && compare_parts(&keys[idx], &keys[perm[pos]]) != Order::Less
            invariant
                pos <= perm.len(),
                idx < keys.len(),
                k == kv[idx as int],
                kv == keys@.map_values(|k: Vec<Vec<char>>| parts_view(k@)),
                forall|i: int| 0 <= i < perm.len() ==> perm[i] < idx,
                forall|i: int| 0 <= i < pos ==> !parts_less(k, kv[perm[i] as int]),
            decreases perm.len() - pos,
        {
            pos = pos + 1;
        }
        proof {
            assert forall|i: int| pos <= i < perm.len() implies parts_less(k, kv[perm[i] as int]) by {
                let first = kv[perm[pos as int] as int];
                let other = kv[perm[i] as int];
                lemma_parts_order(k, first, other);
                lemma_parts_order(other, first, k);
            }
            assert forall|i: int| 0 <= i < pos implies !parts_less(k, kv[perm[i] as int]) && (kv[perm[i] as int] == k || parts_less(kv[perm[i] as int], k)) by {
                lemma_parts_order(k, kv[perm[i] as int], k);
            }
        }
        let ghost old_perm = perm@;
        perm.insert(pos, idx);
        proof {
            assert forall|i: int, j: int| 0 <= i < j < perm.len() implies !parts_less(kv[perm[j] as int], kv[perm[i] as int]) by {
                if i < pos && j > pos {
                    lemma_parts_order(kv[old_perm[i] as int], k, kv[old_perm[j - 1] as int]);
                    lemma_parts_order(kv[old_perm[j - 1] as int], kv[old_perm[i] as int], k);
                } else if j == pos {
                    lemma_parts_order(kv[old_perm[i] as int], k, kv[old_perm[i] as int]);
                } else if i == pos {
                    lemma_parts_order(k, kv[old_perm[j - 1] as int], k);
                }
            }
            assert forall|x: usize| x < idx + 1 implies #[trigger] perm@.contains(x) by {
                if x == idx {
                    assert(perm@[pos as int] == idx);
                } else {
                    assert(old_perm.contains(x));
                    let j = choose|j: int| 0 <= j < old_perm.len() && old_perm[j] == x;
                    if j < pos {
                        assert(perm@[j] == x);
                    } else {
                        assert(perm@[j + 1] == x);
                    }
                }
            }
            assert forall|i: int, j: int| 0 <= i < j < perm.len() && kv[perm[i] as int] == kv[perm[j] as int] implies perm[i] < perm[j] by {
                if i == pos {
                    lemma_parts_order(k, k, k);
                }
            }
        }
        idx = idx + 1;
    }
    perm
}

/// The stable sort of a sequence of keys is unique.
pub proof fn lemma_stable_sort_unique(keys: Seq<Seq<Seq<char>>>, p: Seq<usize>, q: Seq<usize>)
    requires
        stable_sort_of(keys, p),
        stable_sort_of(keys, q),
    ensures
        p == q,
{
    assert forall|i: int| 0 <= i < p.len() implies p[i] == q[i] by {
        lemma_stable_sort_position(keys, p, q, i);
    }
    assert(p =~= q);
}

proof fn lemma_stable_sort_position(keys: Seq<Seq<Seq<char>>>, p: Seq<usize>, q: Seq<usize>, i: int)
    requires
        stable_sort_of(keys, p),
        stable_sort_of(keys, q),
        0 <= i < p.len(),
    ensures
        p[i] == q[i],
    decreases i,
{
    assert forall|k: int| 0 <= k < i implies p[k] == q[k] by {
        lemma_stable_sort_position(keys, p, q, k);
    }
    let x = p[i];
    let y = q[i];
    assert(q.contains(x));
    let j = choose|j: int| 0 <= j < q.len() && q[j] == x;
    assert(p.contains(y));
    let m = choose|m: int| 0 <= m < p.len() && p[m] == y;
    if j < i {
        assert(p[j] == q[j]);
        assert(false);
    }
    if m < i {
        assert(p[m] == q[m]);
        assert(false);
    }
    let kx = keys[x as int];
    let ky = keys[y as int];
    lemma_parts_order(kx, ky, kx);
    if m > i && j > i {
        assert(!parts_less(ky, kx));
        assert(!parts_less(kx, ky));
        assert(kx == ky);
        assert(x < y);
        assert(y < x);
    }
}

/// Every element of `s` is smaller than every later one.
pub open spec fn strictly_ascending(s: Seq<Seq<Seq<char>>>) -> bool {
    forall|i: int, j: int| 0 <= i < j < s.len() ==> parts_less(s[i], s[j])
}

/// The elements of a finite set of paths in ascending order.
pub open spec fn ascending_list(set: Set<Seq<Seq<char>>>) -> Seq<Seq<Seq<char>>> {
    choose|s: Seq<Seq<Seq<char>>>| strictly_ascending(s) && s.to_set() == set
}

/// Two ascending sequences with the same elements are equal.
pub proof fn lemma_ascending_unique(s1: Seq<Seq<Seq<char>>>, s2: Seq<Seq<Seq<char>>>)
    requires
        strictly_ascending(s1),
        strictly_ascending(s2),
        s1.to_set() == s2.to_set(),
    ensures
        s1 == s2,
    decreases s1.len() + s2.len(),
{
    if s1.len() > 0 && s2.len() > 0 {
        assert(s1.to_set().contains(s1[0]));
        assert(s2.to_set().contains(s2[0]));
        let k = choose|k: int| 0 <= k < s2.len() && s2[k] == s1[0];
        let m = choose|m: int| 0 <= m < s1.len() && s1[m] == s2[0];
        if k > 0 && m > 0 {
            lemma_parts_order(s2[0], s1[0], s2[0]);
            assert(false);
        }
        assert(s1[0] == s2[0]) by {
            if k > 0 {
                assert(parts_less(s2[0], s2[k]));
                assert(m == 0);
            }
        }
        let t1 = s1.drop_first();
        let t2 = s2.drop_first();
        assert forall|x: Seq<Seq<char>>| t1.to_set().contains(x) implies t2.to_set().contains(x) by {
            let i = choose|i: int| 0 <= i < t1.len() && t1[i] == x;
            assert(s1[i + 1] == x);
            assert(parts_less(s1[0], x));
            lemma_parts_order(x, x, x);
            assert(s2.to_set().contains(x));
            let j = choose|j: int| 0 <= j < s2.len() && s2[j] == x;
            assert(j != 0);
            assert(t2[j - 1] == x);
        }
        assert forall|x: Seq<Seq<char>>| t2.to_set().contains(x) implies t1.to_set().contains(x) by {
            let i = choose|i: int| 0 <= i < t2.len() && t2[i] == x;
            assert(s2[i + 1] == x);
            assert(parts_less(s2[0], x));
            lemma_parts_order(x, x, x);
            assert(s1.to_set().contains(x));
            let j = choose|j: int| 0 <= j < s1.len() && s1[j] == x;
            assert(j != 0);
            assert(t1[j - 1] == x);
        }
        assert(t1.to_set() =~= t2.to_set());
        lemma_ascending_unique(t1, t2);
        assert(s1 =~= s2) by {
            assert forall|i: int| 0 <= i < s1.len() implies s1[i] == s2[i] by {
                if i > 0 {
                    assert(s1[i] == t1[i - 1]);
                }
            }
        }
    } else if s1.len() > 0 {
        assert(s1.to_set().contains(s1[0]));
    } else if s2.len() > 0 {
        assert(s2.to_set().contains(s2[0]));
    } else {
        assert(s1 =~= s2);
    }
}

/// `x` placed into the ascending sequence `l` where it belongs.
spec fn insert_ascending(l: Seq<Seq<Seq<char>>>, x: Seq<Seq<char>>) -> Seq<Seq<Seq<char>>>
    decreases l.len(),
{
    if l.len() == 0 {
        seq![x]
    } else if parts_less(x, l[0]) {
        seq![x] + l
    } else {
        seq![l[0]] + insert_ascending(l.drop_first(), x)
    }
}

proof fn lemma_insert_ascending(l: Seq<Seq<Seq<char>>>, x: Seq<Seq<char>>)
    requires
        strictly_ascending(l),
        !l.contains(x),
    ensures
        strictly_ascending(insert_ascending(l, x)),
        insert_ascending(l, x).to_set() == l.to_set().insert(x),
    decreases l.len(),
{
    let r = insert_ascending(l, x);
    if l.len() == 0 {
        assert forall|y: Seq<Seq<char>>| r.to_set().contains(y) <==> l.to_set().insert(x).contains(y) by {
            if y == x {
                assert(r[0] == y);
            }
        }
        assert(r.to_set() =~= l.to_set().insert(x));
    } else if parts_less(x, l[0]) {
        assert forall|i: int, j: int| 0 <= i < j < r.len() implies parts_less(r[i], r[j]) by {
            if i == 0 {
                if j > 1 {
                    lemma_parts_order(x, l[0], l[j - 1]);
                }
            } else {
                assert(r[i] == l[i - 1] && r[j] == l[j - 1]);
            }
        }
        assert forall|y: Seq<Seq<char>>| r.to_set().contains(y) <==> l.to_set().insert(x).contains(y) by {
            if r.to_set().contains(y) {
                let k = choose|k: int| 0 <= k < r.len() && r[k] == y;
                if k > 0 {
                    assert(l[k - 1] == y);
                }
            }
            if l.to_set().contains(y) {
                let k = choose|k: int| 0 <= k < l.len() && l[k] == y;
                assert(r[k + 1] == y);
            }
            if y == x {
                assert(r[0] == y);
            }
        }
        assert(r.to_set() =~= l.to_set().insert(x));
    } else {
        let t = l.drop_first();
        assert(!t.contains(x)) by {
            if t.contains(x) {
                let k = choose|k: int| 0 <= k < t.len() && t[k] == x;
                assert(l[k + 1] == x);
            }
        }
        assert(strictly_ascending(t)) by {
            assert forall|i: int, j: int| 0 <= i < j < t.len() implies parts_less(t[i], t[j]) by {
                assert(t[i] == l[i + 1] && t[j] == l[j + 1]);
            }
        }
        lemma_insert_ascending(t, x);
        let rt = insert_ascending(t, x);
        assert(r == seq![l[0]] + rt);
        assert(x != l[0]) by {
            assert(l.contains(l[0]));
        }
        lemma_parts_order(l[0], x, l[0]);
        assert forall|i: int, j: int| 0 <= i < j < r.len() implies parts_less(r[i], r[j]) by {
            if i == 0 {
                assert(r[j] == rt[j - 1]);
                assert(rt.to_set().contains(rt[j - 1]));
                assert(t.to_set().insert(x).contains(rt[j - 1]));
                if rt[j - 1] != x {
                    let k = choose|k: int| 0 <= k < t.len() && t[k] == rt[j - 1];
                    assert(t[k] == l[k + 1]);
                }
            } else {
                assert(r[i] == rt[i - 1] && r[j] == rt[j - 1]);
            }
        }
        assert forall|y: Seq<Seq<char>>| r.to_set().contains(y) <==> l.to_set().insert(x).contains(y) by {
            if r.to_set().contains(y) {
                let k = choose|k: int| 0 <= k < r.len() && r[k] == y;
                if k > 0 {
                    assert(rt[k - 1] == y);
                    assert(rt.to_set().contains(y));
                    if y != x {
                        assert(t.to_set().contains(y));
                        let m = choose|m: int| 0 <= m < t.len() && t[m] == y;
                        assert(l[m + 1] == y);
                    }
                } else {
                    assert(l[0] == y);
                }
            }
            if l.to_set().insert(x).contains(y) {
                if y == x {
                    assert(t.to_set().insert(x).contains(y));
                    assert(rt.to_set().contains(y));
                    let m = choose|m: int| 0 <= m < rt.len() && rt[m] == y;
                    assert(r[m + 1] == y);
                } else {
                    let k = choose|k: int| 0 <= k < l.len() && l[k] == y;
                    if k == 0 {
                        assert(r[0] == y);
                    } else {
                        assert(t[k - 1] == y);
                        assert(t.to_set().insert(x).contains(y));
                        assert(rt.to_set().contains(y));
                        let m = choose|m: int| 0 <= m < rt.len() && rt[m] == y;
                        assert(r[m + 1] == y);
                    }
                }
            }
        }
        assert(r.to_set() =~= l.to_set().insert(x));
    }
}

/// Every finite set of paths has an ascending listing, `ascending_list`.
pub proof fn lemma_ascending_list(set: Set<Seq<Seq<char>>>)
    requires
        set.finite(),
    ensures
        strictly_ascending(ascending_list(set)),
        ascending_list(set).to_set() == set,
    decreases set.len(),
{
    if set.len() == 0 {
        let e = Seq::<Seq<Seq<char>>>::empty();
        assert(e.to_set() =~= set);
        assert(strictly_ascending(e));
    } else {
        let x = set.choose();
        let rest = set.remove(x);
        lemma_ascending_list(rest);
        let l = ascending_list(rest);
        assert(!l.contains(x)) by {
            if l.contains(x) {
                assert(l.to_set().contains(x));
            }
        }
        lemma_insert_ascending(l, x);
        assert(insert_ascending(l, x).to_set() =~= set);
    }
}

/// `a` equals `b` or comes before it.
pub open spec fn chars_le(a: Seq<char>, b: Seq<char>) -> bool {
    a == b || chars_less(a, b)
}

proof fn lemma_concat_tail(p1: Seq<char>, b1: Seq<char>, p2: Seq<char>, b2: Seq<char>, j: int)
    requires
        p1.len() == p2.len(),
        0 <= j <= b1.len(),
    ensures
        chars_less_from(p1 + b1, p2 + b2, p1.len() + j) == chars_less_from(b1, b2, j),
    decreases b1.len() - j,
{
    let l = p1.len() as int;
    if j < b1.len() && j < b2.len() {
        assert((p1 + b1)[l + j] == b1[j]);
        assert((p2 + b2)[l + j] == b2[j]);
        lemma_concat_tail(p1, b1, p2, b2, j + 1);
    }
}

proof fn lemma_concat_head(a1: Seq<char>, b1: Seq<char>, a2: Seq<char>, b2: Seq<char>, i: int)
    requires
        a1.len() == a2.len(),
        0 <= i <= a1.len(),
    ensures
        chars_less_from(a1 + b1, a2 + b2, i) == (chars_less_from(a1, a2, i) || (a1.subrange(
            i,
            a1.len() as int,
        ) == a2.subrange(i, a2.len() as int) && chars_less(b1, b2))),
    decreases a1.len() - i,
{
    let l = a1.len() as int;
    if i == l {
        lemma_concat_tail(a1, b1, a2, b2, 0);
        assert(a1.subrange(i, l) =~= a2.subrange(i, l));
    } else {
        assert((a1 + b1)[i] == a1[i]);
        assert((a2 + b2)[i] == a2[i]);
        if a1[i] == a2[i] {
            lemma_concat_head(a1, b1, a2, b2, i + 1);
            if a1.subrange(i + 1, l) == a2.subrange(i + 1, l) {
                assert forall|k: int| 0 <= k < l - i implies a1.subrange(i, l)[k] == a2.subrange(i, l)[k] by {
                    if k > 0 {
                        assert(a1.subrange(i + 1, l)[k - 1] == a2.subrange(i + 1, l)[k - 1]);
                    }
                }
                assert(a1.subrange(i, l) =~= a2.subrange(i, l));
            } else {
                assert(a1.subrange(i, l) != a2.subrange(i, l)) by {
                    if a1.subrange(i, l) == a2.subrange(i, l) {
                        assert(a1.subrange(i + 1, l) =~= a1.subrange(i, l).subrange(1, l - i));
                        assert(a2.subrange(i + 1, l) =~= a2.subrange(i, l).subrange(1, l - i));
                    }
                }
            }
        } else {
            assert(a1.subrange(i, l)[0] != a2.subrange(i, l)[0]);
        }
    }
}

/// Strings made of a first part of a fixed width and a rest compare by
/// their first parts, then by their rests.
pub proof fn lemma_chars_le_concat(a1: Seq<char>, b1: Seq<char>, a2: Seq<char>, b2: Seq<char>)
    requires
        a1.len() == a2.len(),
        chars_less(a1, a2) || (a1 == a2 && chars_le(b1, b2)),
    ensures
        chars_le(a1 + b1, a2 + b2),
{
    lemma_concat_head(a1, b1, a2, b2, 0);
    assert(a1.subrange(0, a1.len() as int) =~= a1);
    assert(a2.subrange(0, a2.len() as int) =~= a2);
}

/// Strings made of a first part of a fixed width and a rest: an earlier
/// first part, or an equal one and an earlier rest, gives an earlier string.
pub proof fn lemma_chars_less_concat(a1: Seq<char>, b1: Seq<char>, a2: Seq<char>, b2: Seq<char>)
    requires
        a1.len() == a2.len(),
        chars_less(a1, a2) || (a1 == a2 && chars_less(b1, b2)),
    ensures
        chars_less(a1 + b1, a2 + b2),
{
    lemma_concat_head(a1, b1, a2, b2, 0);
    assert(a1.subrange(0, a1.len() as int) =~= a1);
    assert(a2.subrange(0, a2.len() as int) =~= a2);
}

/// One character against another.
pub proof fn lemma_single_char_less(c1: char, c2: char)
    requires
        (c1 as int) < (c2 as int),
    ensures
        chars_less(seq![c1], seq![c2]),
{
    reveal_with_fuel(chars_less_from, 2);
}

} // verus!
