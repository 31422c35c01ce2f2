//! The order in which the members of a JSON object stand: that of the UTF-8
//! bytes of their names.

use vstd::prelude::*;
use vstd::utf8::encode_utf8;
use crate::text::lemma_utf8_injective;

verus! {

/// `a` and `b` agree up to position `i`, where `a` ends or has the smaller byte.
pub open spec fn splits_before(a: Seq<u8>, b: Seq<u8>, i: int) -> bool {
    &&& 0 <= i <= a.len()
    &&& i < b.len()
    &&& forall|j: int| 0 <= j < i ==> a[j] == b[j]
    &&& i < a.len() ==> a[i] < b[i]
}

/// `a` comes before `b` in the lexicographic order of bytes.
pub open spec fn bytes_before(a: Seq<u8>, b: Seq<u8>) -> bool {
    exists|i: int| splits_before(a, b, i)
}

/// `a` comes before `b` in the order of names.
pub open spec fn name_before(a: Seq<char>, b: Seq<char>) -> bool {
    bytes_before(encode_utf8(a), encode_utf8(b))
}

/// The names of `list` ascend strictly, so none occurs twice.
pub open spec fn ascending(list: Seq<Seq<char>>) -> bool {
    forall|i: int, j: int| 0 <= i < j < list.len() ==> #[trigger] name_before(list[i], list[j])
}

/// `list` holds the names of `set`, each once, in ascending order.
pub open spec fn lists(list: Seq<Seq<char>>, set: Set<Seq<char>>) -> bool {
    &&& ascending(list)
    &&& forall|name: Seq<char>| #[trigger] set.contains(name) <==> list.contains(name)
}

/// The names of `set` in ascending order.
pub open spec fn in_order(set: Set<Seq<char>>) -> Seq<Seq<char>> {
    choose|list: Seq<Seq<char>>| lists(list, set)
}

/// No name comes before itself.
pub proof fn lemma_before_irreflexive(a: Seq<char>)
    ensures
        !name_before(a, a),
{
    let x = encode_utf8(a);
    assert forall|i: int| !splits_before(x, x, i) by {}
}

/// The order of names is transitive.
pub proof fn lemma_before_transitive(a: Seq<char>, b: Seq<char>, c: Seq<char>)
    requires
        name_before(a, b),
        name_before(b, c),
    ensures
        name_before(a, c),
{
    let x = encode_utf8(a);
    let y = encode_utf8(b);
    let z = encode_utf8(c);
    let i = choose|i: int| splits_before(x, y, i);
    let k = choose|k: int| splits_before(y, z, k);
    let m = if i <= k { i } else { k };
    assert(splits_before(x, z, m));
}

/// There is one listing of a set of names.
pub proof fn lemma_in_order(list: Seq<Seq<char>>, set: Set<Seq<char>>)
    requires
        lists(list, set),
    ensures
        in_order(set) == list,
{
    lemma_listing_unique(list, in_order(set), set);
}

proof fn lemma_listing_unique(p: Seq<Seq<char>>, q: Seq<Seq<char>>, set: Set<Seq<char>>)
    requires
        lists(p, set),
        lists(q, set),
    ensures
        p == q,
    decreases p.len(),
{
    if p.len() == 0 {
        if q.len() > 0 {
            assert(q.contains(q[0]));
            assert(set.contains(q[0]));
        }
        assert(p =~= q);
    } else {
        assert(p.contains(p.last()));
        assert(set.contains(p.last()));
        let j = choose|j: int| 0 <= j < q.len() && q[j] == p.last();
        if p.last() != q.last() {
            assert(name_before(q[j], q[q.len() - 1]));
            assert(q.contains(q.last()));
            assert(set.contains(q.last()));
            let i = choose|i: int| 0 <= i < p.len() && p[i] == q.last();
            assert(name_before(p[i], p[p.len() - 1]));
            lemma_before_transitive(p.last(), q.last(), p.last());
            lemma_before_irreflexive(p.last());
        }
        let less = set.remove(p.last());
        lemma_drop_last_lists(p, set);
        lemma_drop_last_lists(q, set);
        lemma_listing_unique(p.drop_last(), q.drop_last(), less);
        assert(p =~= p.drop_last().push(p.last()));
        assert(q =~= q.drop_last().push(q.last()));
    }
}

proof fn lemma_drop_last_lists(p: Seq<Seq<char>>, set: Set<Seq<char>>)
    requires
        lists(p, set),
        p.len() > 0,
    ensures
        lists(p.drop_last(), set.remove(p.last())),
{
    let less = set.remove(p.last());
    assert forall|name: Seq<char>| #[trigger] less.contains(name) <==> p.drop_last().contains(name) by {
        if less.contains(name) {
            assert(set.contains(name));
            let i = choose|i: int| 0 <= i < p.len() && p[i] == name;
            assert(p.drop_last()[i] == name);
        }
        if p.drop_last().contains(name) {
            let i = choose|i: int| 0 <= i < p.drop_last().len() && p.drop_last()[i] == name;
            assert(p[i] == name);
            assert(p.contains(name));
            assert(set.contains(name));
            assert(name_before(p[i], p[p.len() - 1]));
            lemma_before_irreflexive(name);
        }
    }
    assert forall|i: int, j: int| 0 <= i < j < p.drop_last().len() implies #[trigger] name_before(
        p.drop_last()[i],
        p.drop_last()[j],
    ) by {
        assert(name_before(p[i], p[j]));
    }
}

/// How two names stand to each other.
#[derive(Clone, Copy, Debug, PartialEq, Eq, Structural)]
pub enum Standing {
    Before,
    Same,
    After,
}

/// How `a` stands to `b` in the order of names.
pub fn standing(a: &str, b: &str) -> (r: Standing)
    ensures
        r is Before <==> name_before(a@, b@),
        r is Same <==> a@ == b@,
        r is After <==> name_before(b@, a@),
{
    let x: &[u8] = a.as_bytes();
    let y: &[u8] = b.as_bytes();
    proof {
        lemma_before_irreflexive(a@);
        if name_before(a@, b@) && name_before(b@, a@) {
            lemma_before_transitive(a@, b@, a@);
        }
    }
    let mut i: usize = 0;
    while i < x.len() && i < y.len()
        invariant
            x@ == encode_utf8(a@),
            y@ == encode_utf8(b@),
            !name_before(a@, a@),
            !(name_before(a@, b@) && name_before(b@, a@)),
            i <= x@.len(),
            i <= y@.len(),
            forall|j: int| 0 <= j < i ==> x@[j] == y@[j],
        decreases x@.len() - i,
    {
        if x[i] < y[i] {
            assert(splits_before(x@, y@, i as int));
            return Standing::Before;
        }
        if y[i] < x[i] {
            assert(splits_before(y@, x@, i as int));
            return Standing::After;
        }
        i = i + 1;
    }
    if i < y.len() {
        assert(splits_before(x@, y@, i as int));
        Standing::Before
    } else if i < x.len() {
        assert(splits_before(y@, x@, i as int));
        Standing::After
    } else {
        proof {
            assert(x@ =~= y@);
            lemma_utf8_injective(a@, b@);
        }
        Standing::Same
    }
}

/// Names stand in the order of their UTF-8 bytes: one whose bytes begin those of
/// another comes before it, and where two first differ the smaller byte comes first.
pub proof fn law_names_stand_in_byte_order(
    a: Seq<char>,
    b: Seq<char>,
    common: Seq<u8>,
    x: u8,
    y: u8,
    rest: (Seq<u8>, Seq<u8>),
)
    ensures
        encode_utf8(a) == common && encode_utf8(b) == common + seq![y] + rest.1 ==> name_before(
            a,
            b,
        ),
        encode_utf8(a) == common + seq![x] + rest.0 && encode_utf8(b) == common + seq![y] + rest.1
            && x < y ==> name_before(a, b),
        a != b ==> (name_before(a, b) <==> !name_before(b, a)),
        !name_before(a, a),
{
    let p = encode_utf8(a);
    let q = encode_utf8(b);
    let n = common.len() as int;
    if p == common && q == common + seq![y] + rest.1 {
        assert(splits_before(p, q, n));
    }
    if p == common + seq![x] + rest.0 && q == common + seq![y] + rest.1 && x < y {
        assert(splits_before(p, q, n));
    }
    lemma_before_irreflexive(a);
    if name_before(a, b) && name_before(b, a) {
        lemma_before_transitive(a, b, a);
    }
    if a != b {
        lemma_some_stands_first(p, q, 0);
        if p == q {
            lemma_utf8_injective(a, b);
        }
    }
}

proof fn lemma_some_stands_first(p: Seq<u8>, q: Seq<u8>, n: int)
    requires
        0 <= n <= p.len(),
        n <= q.len(),
        forall|j: int| 0 <= j < n ==> p[j] == q[j],
    ensures
        p == q || bytes_before(p, q) || bytes_before(q, p),
    decreases p.len() - n,
{
    if n == p.len() || n == q.len() {
        if n < q.len() {
            assert(splits_before(p, q, n));
        } else if n < p.len() {
            assert(splits_before(q, p, n));
        } else {
            assert(p =~= q);
        }
    } else if p[n] < q[n] {
        assert(splits_before(p, q, n));
    } else if q[n] < p[n] {
        assert(splits_before(q, p, n));
    } else {
        lemma_some_stands_first(p, q, n + 1);
    }
}

/// A listing in ascending order without repetition is the listing of its names.
pub proof fn law_ascending_names_are_listed(list: Seq<Seq<char>>, set: Set<Seq<char>>)
    requires
        forall|name: Seq<char>| #[trigger] set.contains(name) <==> list.contains(name),
        forall|i: int, j: int|
            0 <= i < j < list.len() ==> #[trigger] name_before(list[i], list[j]),
    ensures
        in_order(set) == list,
{
    assert(lists(list, set));
    lemma_in_order(list, set);
}

} // verus!
