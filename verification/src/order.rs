//! Lists in order, and the one list in order that given members make up.

use vstd::prelude::*;

verus! {

/// Whether a relation is a strict order: nothing comes before itself, and what comes before
/// something comes before all that comes after it.
pub open spec fn strict<A>(lt: spec_fn(A, A) -> bool) -> bool {
    &&& forall|a: A| !#[trigger] lt(a, a)
    &&& forall|a: A, b: A, c: A| #[trigger] lt(a, b) && #[trigger] lt(b, c) ==> lt(a, c)
}

/// Whether each member of a list comes before all that follow it.
pub open spec fn ordered<A>(list: Seq<A>, lt: spec_fn(A, A) -> bool) -> bool {
    forall|i: int, j: int| 0 <= i < j < list.len() ==> lt(#[trigger] list[i], #[trigger] list[j])
}

/// The members of a set, in order.
pub open spec fn listing<A>(set: Set<A>, lt: spec_fn(A, A) -> bool) -> Seq<A> {
    choose|list: Seq<A>| ordered(list, lt) && list.to_set() == set
}

/// A list from its end to its start, so that what came first can be taken off its end.
pub(crate) fn reversed<V>(list: Vec<V>) -> (reversed: Vec<V>)
    ensures
        reversed@ == list@.reverse(),
{
    let ghost whole = list@;
    let mut list = list;
    let mut reversed: Vec<V> = Vec::new();
    while list.len() > 0
        invariant
            list@.len() + reversed@.len() == whole.len(),
            list@ == whole.take(list@.len() as int),
            forall|j: int| 0 <= j < reversed@.len() ==> reversed@[j] == whole[whole.len() - 1 - j],
        decreases list@.len(),
    {
        if let Some(last) = list.pop() {
            reversed.push(last);
        }
    }
    assert(reversed@ =~= whole.reverse());
    reversed
}

/// Given members make up at most one list in order.
pub proof fn lemma_ordered_unique<A>(a: Seq<A>, b: Seq<A>, lt: spec_fn(A, A) -> bool)
    requires
        strict(lt),
        ordered(a, lt),
        ordered(b, lt),
        forall|x: A| a.contains(x) <==> b.contains(x),
    ensures
        a == b,
    decreases a.len(),
{
    if a.len() == 0 {
        if b.len() > 0 {
            assert(b.contains(b[0]));
        }
        assert(a =~= b);
    } else {
        assert(a.contains(a.last()));
        assert(b.len() > 0);
        assert(b.contains(b.last()));
        if a.last() != b.last() {
            let i = a.index_of(b.last());
            let j = b.index_of(a.last());
            assert(0 <= i < a.len() && a[i] == b.last());
            assert(0 <= j < b.len() && b[j] == a.last());
            assert(lt(b.last(), a.last()));
            assert(lt(a.last(), b.last()));
            assert(lt(a.last(), a.last()));
        }
        let x = a.drop_last();
        let y = b.drop_last();
        assert forall|e: A| x.contains(e) implies y.contains(e) by {
            let i = x.index_of(e);
            assert(a[i] == e);
            assert(lt(a[i], a.last()));
            assert(a.contains(e) && b.contains(e));
            let j = b.index_of(e);
            assert(b[j] == e && j < b.len() - 1);
            assert(y[j] == e);
        }
        assert forall|e: A| y.contains(e) implies x.contains(e) by {
            let i = y.index_of(e);
            assert(b[i] == e);
            assert(lt(b[i], b.last()));
            assert(b.contains(e) && a.contains(e));
            let j = a.index_of(e);
            assert(a[j] == e && j < a.len() - 1);
            assert(x[j] == e);
        }
        lemma_ordered_unique(x, y, lt);
        assert(a =~= x.push(a.last()));
        assert(b =~= y.push(b.last()));
    }
}

/// A list in order is the listing of its members.
pub proof fn lemma_listing<A>(list: Seq<A>, lt: spec_fn(A, A) -> bool)
    requires
        strict(lt),
        ordered(list, lt),
    ensures
        listing(list.to_set(), lt) == list,
{
    let other = listing(list.to_set(), lt);
    assert(ordered(other, lt) && other.to_set() == list.to_set());
    assert forall|x: A| list.contains(x) <==> other.contains(x) by {
        assert(list.contains(x) <==> list.to_set().contains(x));
        assert(other.contains(x) <==> other.to_set().contains(x));
    }
    lemma_ordered_unique(other, list, lt);
}

/// A list in order with one more member.
proof fn lemma_one_more<A>(list: Seq<A>, member: A, lt: spec_fn(A, A) -> bool) -> (more: Seq<A>)
    requires
        strict(lt),
        ordered(list, lt),
        forall|x: A| #[trigger] list.contains(x) ==> lt(x, member) || lt(member, x),
    ensures
        ordered(more, lt),
        forall|x: A| #[trigger] more.contains(x) <==> list.contains(x) || x == member,
    decreases list.len(),
{
    if list.len() == 0 {
        let more = seq![member];
        assert(more[0] == member);
        assert forall|x: A| #[trigger] more.contains(x) <==> list.contains(x) || x == member by {}
        more
    } else {
        let last = list.last();
        let fewer = list.drop_last();
        assert(list.contains(last));
        assert forall|x: A| list.contains(x) <==> fewer.contains(x) || x == last by {
            if list.contains(x) {
                let i = list.index_of(x);
                if i < fewer.len() {
                    assert(fewer[i] == x);
                }
            }
            if fewer.contains(x) {
                assert(list[fewer.index_of(x)] == x);
            }
        }
        if lt(last, member) {
            let more = list.push(member);
            assert forall|i: int, j: int| 0 <= i < j < more.len() implies lt(
                #[trigger] more[i],
                #[trigger] more[j],
            ) by {
                if j == list.len() && i < list.len() - 1 {
                    assert(lt(list[i], last));
                }
            }
            assert forall|x: A| #[trigger] more.contains(x) <==> list.contains(x) || x == member by {
                if list.contains(x) {
                    assert(more[list.index_of(x)] == x);
                }
                assert(more[list.len() as int] == member);
            }
            more
        } else {
            assert(ordered(fewer, lt));
            let inner = lemma_one_more(fewer, member, lt);
            let more = inner.push(last);
            assert forall|i: int, j: int| 0 <= i < j < more.len() implies lt(
                #[trigger] more[i],
                #[trigger] more[j],
            ) by {
                if j == inner.len() {
                    assert(inner.contains(inner[i]));
                    if fewer.contains(inner[i]) {
                        let k = fewer.index_of(inner[i]);
                        assert(lt(list[k], list[list.len() - 1]));
                    }
                }
            }
            assert forall|x: A| #[trigger] more.contains(x) <==> list.contains(x) || x == member by {
                if more.contains(x) {
                    let i = more.index_of(x);
                    if i < inner.len() {
                        assert(inner[i] == x);
                        assert(inner.contains(x));
                    }
                }
                if inner.contains(x) {
                    assert(more[inner.index_of(x)] == x);
                }
                assert(more[inner.len() as int] == last);
            }
            more
        }
    }
}

/// The members of a finite set, of which of any two one comes before the other, can be listed.
proof fn lemma_can_list<A>(set: Set<A>, lt: spec_fn(A, A) -> bool) -> (list: Seq<A>)
    requires
        strict(lt),
        set.finite(),
        forall|a: A, b: A| #[trigger]
            set.contains(a) && #[trigger] set.contains(b) && a != b ==> lt(a, b) || lt(b, a),
    ensures
        ordered(list, lt),
        list.to_set() == set,
    decreases set.len(),
{
    if set.len() == 0 {
        assert(set =~= Set::<A>::empty());
        assert(Seq::<A>::empty().to_set() =~= set);
        Seq::empty()
    } else {
        let member = set.choose();
        let rest = set.remove(member);
        let list = lemma_can_list(rest, lt);
        assert forall|x: A| #[trigger] list.contains(x) implies lt(x, member) || lt(member, x) by {
            assert(list.to_set().contains(x));
            assert(rest.contains(x));
        }
        let more = lemma_one_more(list, member, lt);
        assert forall|x: A| more.to_set().contains(x) <==> set.contains(x) by {
            assert(more.to_set().contains(x) <==> more.contains(x));
            assert(list.contains(x) <==> list.to_set().contains(x));
        }
        assert(more.to_set() =~= set);
        more
    }
}

/// The listing of a finite set, of whose members of any two one comes before the other, is in
/// order and holds all members and no others.
pub proof fn law_listing_holds_all<A>(set: Set<A>, lt: spec_fn(A, A) -> bool)
    requires
        strict(lt),
        set.finite(),
        forall|a: A, b: A| #[trigger]
            set.contains(a) && #[trigger] set.contains(b) && a != b ==> lt(a, b) || lt(b, a),
    ensures
        ordered(listing(set, lt), lt),
        listing(set, lt).to_set() == set,
{
    let list = lemma_can_list(set, lt);
    assert(ordered(list, lt) && list.to_set() == set);
}

} // verus!
