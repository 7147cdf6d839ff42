use vstd::prelude::*;
use crate::model::{
    add_pair, empty_catalog, has_feed, has_key, has_operator, ingest_all, ingest_embedded,
    ingest_feed, ingest_feeds, ingest_operator, ingest_operators, ingest_registry, link_refs,
    register_feed, register_operator, relate, resolve, CatalogView, FeedView, IndexView,
    OperatorView, RefView, RegistryView,
};

verus! {

/// Whether `id` is a key of each of the four tables: feeds, operators, the
/// operator index, the feed index.
pub open spec fn keys_hold(c: CatalogView, id: Seq<char>) -> (bool, bool, bool, bool) {
    (
        has_feed(c.feeds, id),
        has_operator(c.operators, id),
        has_key(c.operator_feeds, id),
        has_key(c.feed_operators, id),
    )
}

pub open spec fn either(a: (bool, bool, bool, bool), b: (bool, bool, bool, bool)) -> (bool, bool, bool, bool) {
    (a.0 || b.0, a.1 || b.1, a.2 || b.2, a.3 || b.3)
}

/// The keys of `r` are those of `c` together with those of `e`.
pub open spec fn keys_split(r: CatalogView, c: CatalogView, e: CatalogView) -> bool {
    forall|id: Seq<char>| #[trigger] keys_hold(r, id) == either(keys_hold(c, id), keys_hold(e, id))
}

proof fn lemma_chain(c: CatalogView, x: CatalogView, y: CatalogView, e1: CatalogView, e2: CatalogView, e3: CatalogView)
    requires
        keys_split(x, c, e1),
        keys_split(y, x, e2),
        keys_split(e3, e1, e2),
    ensures
        keys_split(y, c, e3),
{
    assert forall|id: Seq<char>| #[trigger] keys_hold(y, id) == either(keys_hold(c, id), keys_hold(e3, id)) by {
        assert(keys_hold(x, id) == either(keys_hold(c, id), keys_hold(e1, id)));
        assert(keys_hold(y, id) == either(keys_hold(x, id), keys_hold(e2, id)));
        assert(keys_hold(e3, id) == either(keys_hold(e1, id), keys_hold(e2, id)));
    }
}

proof fn lemma_split_self(c: CatalogView)
    ensures
        keys_split(c, c, empty_catalog()),
        keys_split(c, empty_catalog(), c),
{
    assert forall|id: Seq<char>| #[trigger] keys_hold(c, id) == either(keys_hold(c, id), keys_hold(empty_catalog(), id)) by {}
    assert forall|id: Seq<char>| #[trigger] keys_hold(c, id) == either(keys_hold(empty_catalog(), id), keys_hold(c, id)) by {}
}

proof fn lemma_add_pair_key(ix: IndexView, k: Seq<char>, v: Seq<char>, a: Option<Seq<char>>, x: Seq<char>)
    ensures
        has_key(add_pair(ix, k, v, a), x) == (has_key(ix, x) || x == k),
{
    let r = add_pair(ix, k, v, a);
    if has_key(ix, k) {
        let i = choose|i: int| 0 <= i < ix.len() && ix[i].0 == k;
        if has_key(r, x) {
            let p = choose|p: int| 0 <= p < r.len() && r[p].0 == x;
            assert(ix[p].0 == x);
        }
        if has_key(ix, x) {
            let p = choose|p: int| 0 <= p < ix.len() && ix[p].0 == x;
            assert(r[p].0 == x);
        }
    } else {
        if has_key(r, x) {
            let p = choose|p: int| 0 <= p < r.len() && r[p].0 == x;
            if p < ix.len() {
                assert(ix[p].0 == x);
            }
        }
        if has_key(ix, x) {
            let p = choose|p: int| 0 <= p < ix.len() && ix[p].0 == x;
            assert(r[p].0 == x);
        }
        assert(r[ix.len() as int].0 == k);
    }
}

proof fn lemma_relate_keys(c: CatalogView, o: Seq<char>, f: Seq<char>, a: Option<Seq<char>>)
    ensures
        keys_split(relate(c, o, f, a), c, relate(empty_catalog(), o, f, a)),
{
    let e = empty_catalog();
    assert forall|id: Seq<char>| #[trigger] keys_hold(relate(c, o, f, a), id) == either(
        keys_hold(c, id),
        keys_hold(relate(e, o, f, a), id),
    ) by {
        lemma_add_pair_key(c.operator_feeds, o, f, a, id);
        lemma_add_pair_key(c.feed_operators, f, o, a, id);
        lemma_add_pair_key(e.operator_feeds, o, f, a, id);
        lemma_add_pair_key(e.feed_operators, f, o, a, id);
    }
}

proof fn lemma_register_operator_keys(c: CatalogView, op: OperatorView)
    ensures
        keys_split(
            CatalogView { operators: register_operator(c.operators, op), ..c },
            c,
            CatalogView { operators: register_operator(empty_catalog().operators, op), ..empty_catalog() },
        ),
{
    let e = empty_catalog();
    let r = CatalogView { operators: register_operator(c.operators, op), ..c };
    let re = CatalogView { operators: register_operator(e.operators, op), ..e };
    assert forall|id: Seq<char>| #[trigger] keys_hold(r, id) == either(keys_hold(c, id), keys_hold(re, id)) by {
        if !has_operator(c.operators, op.onestop_id) {
            if has_operator(r.operators, id) {
                let p = choose|p: int| 0 <= p < r.operators.len() && r.operators[p].onestop_id == id;
                if p < c.operators.len() {
                    assert(c.operators[p].onestop_id == id);
                }
            }
            if has_operator(c.operators, id) {
                let p = choose|p: int| 0 <= p < c.operators.len() && c.operators[p].onestop_id == id;
                assert(r.operators[p].onestop_id == id);
            }
            assert(r.operators[c.operators.len() as int].onestop_id == op.onestop_id);
        }
        assert(re.operators[0].onestop_id == op.onestop_id);
    }
}

proof fn lemma_register_feed_keys(c: CatalogView, f: FeedView)
    ensures
        keys_split(
            CatalogView { feeds: register_feed(c.feeds, f), ..c },
            c,
            CatalogView { feeds: register_feed(empty_catalog().feeds, f), ..empty_catalog() },
        ),
{
    let e = empty_catalog();
    let r = CatalogView { feeds: register_feed(c.feeds, f), ..c };
    let re = CatalogView { feeds: register_feed(e.feeds, f), ..e };
    assert forall|id: Seq<char>| #[trigger] keys_hold(r, id) == either(keys_hold(c, id), keys_hold(re, id)) by {
        if !has_feed(c.feeds, f.id) {
            if has_feed(r.feeds, id) {
                let p = choose|p: int| 0 <= p < r.feeds.len() && r.feeds[p].id == id;
                if p < c.feeds.len() {
                    assert(c.feeds[p].id == id);
                }
            }
            if has_feed(c.feeds, id) {
                let p = choose|p: int| 0 <= p < c.feeds.len() && c.feeds[p].id == id;
                assert(r.feeds[p].id == id);
            }
            assert(r.feeds[c.feeds.len() as int].id == f.id);
        }
        assert(re.feeds[0].id == f.id);
    }
}

proof fn lemma_link_refs_keys(c: CatalogView, o: Seq<char>, refs: Seq<RefView>, parent: Option<Seq<char>>)
    ensures
        keys_split(link_refs(c, o, refs, parent), c, link_refs(empty_catalog(), o, refs, parent)),
    decreases refs.len(),
{
    let e = empty_catalog();
    if refs.len() == 0 {
        lemma_split_self(c);
    } else {
        lemma_link_refs_keys(c, o, refs.drop_last(), parent);
        let x = link_refs(c, o, refs.drop_last(), parent);
        let e1 = link_refs(e, o, refs.drop_last(), parent);
        match resolve(refs.last(), parent) {
            Some(f) => {
                let a = refs.last().1;
                lemma_relate_keys(x, o, f, a);
                lemma_relate_keys(e1, o, f, a);
                lemma_chain(c, x, relate(x, o, f, a), e1, relate(e, o, f, a), relate(e1, o, f, a));
            },
            None => {
                lemma_split_self(x);
                lemma_split_self(e1);
                lemma_chain(c, x, x, e1, e, e1);
            },
        }
    }
}

proof fn lemma_ingest_operator_keys(c: CatalogView, op: OperatorView, parent: Option<Seq<char>>)
    ensures
        keys_split(ingest_operator(c, op, parent), c, ingest_operator(empty_catalog(), op, parent)),
{
    let e = empty_catalog();
    let x = CatalogView { operators: register_operator(c.operators, op), ..c };
    let e1 = CatalogView { operators: register_operator(e.operators, op), ..e };
    lemma_register_operator_keys(c, op);
    lemma_link_refs_keys(x, op.onestop_id, op.associated_feeds, parent);
    lemma_link_refs_keys(e1, op.onestop_id, op.associated_feeds, parent);
    lemma_chain(
        c,
        x,
        link_refs(x, op.onestop_id, op.associated_feeds, parent),
        e1,
        link_refs(e, op.onestop_id, op.associated_feeds, parent),
        link_refs(e1, op.onestop_id, op.associated_feeds, parent),
    );
}

proof fn lemma_ingest_embedded_keys(c: CatalogView, ops: Seq<OperatorView>, f: Seq<char>)
    ensures
        keys_split(ingest_embedded(c, ops, f), c, ingest_embedded(empty_catalog(), ops, f)),
    decreases ops.len(),
{
    let e = empty_catalog();
    if ops.len() == 0 {
        lemma_split_self(c);
    } else {
        let op = ops.last();
        lemma_ingest_embedded_keys(c, ops.drop_last(), f);
        let x = ingest_embedded(c, ops.drop_last(), f);
        let e1 = ingest_embedded(e, ops.drop_last(), f);
        // one step: the operator, then its relationship to the feed
        lemma_ingest_operator_keys(x, op, Some(f));
        lemma_ingest_operator_keys(e1, op, Some(f));
        let x2 = ingest_operator(x, op, Some(f));
        let e2 = ingest_operator(e1, op, Some(f));
        lemma_chain(c, x, x2, e1, ingest_operator(e, op, Some(f)), e2);
        lemma_relate_keys(x2, op.onestop_id, f, None);
        lemma_relate_keys(e2, op.onestop_id, f, None);
        lemma_chain(
            c,
            x2,
            relate(x2, op.onestop_id, f, None),
            e2,
            relate(e, op.onestop_id, f, None),
            relate(e2, op.onestop_id, f, None),
        );
    }
}

proof fn lemma_ingest_feed_keys(c: CatalogView, f: FeedView)
    ensures
        keys_split(ingest_feed(c, f), c, ingest_feed(empty_catalog(), f)),
{
    let e = empty_catalog();
    let x = CatalogView { feeds: register_feed(c.feeds, f), ..c };
    let e1 = CatalogView { feeds: register_feed(e.feeds, f), ..e };
    lemma_register_feed_keys(c, f);
    lemma_ingest_embedded_keys(x, f.operators, f.id);
    lemma_ingest_embedded_keys(e1, f.operators, f.id);
    lemma_chain(
        c,
        x,
        ingest_embedded(x, f.operators, f.id),
        e1,
        ingest_embedded(e, f.operators, f.id),
        ingest_embedded(e1, f.operators, f.id),
    );
}

proof fn lemma_ingest_feeds_keys(c: CatalogView, fs: Seq<FeedView>)
    ensures
        keys_split(ingest_feeds(c, fs), c, ingest_feeds(empty_catalog(), fs)),
    decreases fs.len(),
{
    let e = empty_catalog();
    if fs.len() == 0 {
        lemma_split_self(c);
    } else {
        lemma_ingest_feeds_keys(c, fs.drop_last());
        let x = ingest_feeds(c, fs.drop_last());
        let e1 = ingest_feeds(e, fs.drop_last());
        lemma_ingest_feed_keys(x, fs.last());
        lemma_ingest_feed_keys(e1, fs.last());
        lemma_chain(c, x, ingest_feed(x, fs.last()), e1, ingest_feed(e, fs.last()), ingest_feed(e1, fs.last()));
    }
}

proof fn lemma_ingest_operators_keys(c: CatalogView, ops: Seq<OperatorView>)
    ensures
        keys_split(ingest_operators(c, ops), c, ingest_operators(empty_catalog(), ops)),
    decreases ops.len(),
{
    let e = empty_catalog();
    if ops.len() == 0 {
        lemma_split_self(c);
    } else {
        lemma_ingest_operators_keys(c, ops.drop_last());
        let x = ingest_operators(c, ops.drop_last());
        let e1 = ingest_operators(e, ops.drop_last());
        lemma_ingest_operator_keys(x, ops.last(), None);
        lemma_ingest_operator_keys(e1, ops.last(), None);
        lemma_chain(
            c,
            x,
            ingest_operator(x, ops.last(), None),
            e1,
            ingest_operator(e, ops.last(), None),
            ingest_operator(e1, ops.last(), None),
        );
    }
}

proof fn lemma_ingest_registry_keys(c: CatalogView, d: RegistryView)
    ensures
        keys_split(ingest_registry(c, d), c, ingest_registry(empty_catalog(), d)),
{
    let e = empty_catalog();
    lemma_ingest_feeds_keys(c, d.feeds);
    let x = ingest_feeds(c, d.feeds);
    let e1 = ingest_feeds(e, d.feeds);
    lemma_ingest_operators_keys(x, d.operators);
    lemma_ingest_operators_keys(e1, d.operators);
    lemma_chain(c, x, ingest_operators(x, d.operators), e1, ingest_operators(e, d.operators), ingest_operators(e1, d.operators));
}

/// A key of a catalog built from documents is a key of the catalog built from
/// one of them alone, and the other way round.
pub proof fn lemma_keys_from_documents(ds: Seq<RegistryView>, id: Seq<char>)
    ensures
        forall|k: int|
            #![trigger keys_hold(ingest_registry(empty_catalog(), ds[k]), id)]
            0 <= k < ds.len() ==> {
                let single = keys_hold(ingest_registry(empty_catalog(), ds[k]), id);
                let all = keys_hold(ingest_all(empty_catalog(), ds), id);
                (single.0 ==> all.0) && (single.1 ==> all.1) && (single.2 ==> all.2) && (single.3 ==> all.3)
            },
        keys_hold(ingest_all(empty_catalog(), ds), id).0 ==> exists|k: int|
            0 <= k < ds.len() && #[trigger] keys_hold(ingest_registry(empty_catalog(), ds[k]), id).0,
        keys_hold(ingest_all(empty_catalog(), ds), id).1 ==> exists|k: int|
            0 <= k < ds.len() && #[trigger] keys_hold(ingest_registry(empty_catalog(), ds[k]), id).1,
        keys_hold(ingest_all(empty_catalog(), ds), id).2 ==> exists|k: int|
            0 <= k < ds.len() && #[trigger] keys_hold(ingest_registry(empty_catalog(), ds[k]), id).2,
        keys_hold(ingest_all(empty_catalog(), ds), id).3 ==> exists|k: int|
            0 <= k < ds.len() && #[trigger] keys_hold(ingest_registry(empty_catalog(), ds[k]), id).3,
    decreases ds.len(),
{
    let e = empty_catalog();
    if ds.len() > 0 {
        let rest = ds.drop_last();
        lemma_keys_from_documents(rest, id);
        let x = ingest_all(e, rest);
        lemma_ingest_registry_keys(x, ds.last());
        assert(keys_hold(ingest_all(e, ds), id) == either(keys_hold(x, id), keys_hold(ingest_registry(e, ds.last()), id)));
        assert forall|k: int| 0 <= k < rest.len() implies #[trigger] ds[k] == rest[k] by {}
    }
}

proof fn lemma_found_in_permutation(ds1: Seq<RegistryView>, ds2: Seq<RegistryView>, k: int) -> (j: int)
    requires
        ds1.to_multiset() == ds2.to_multiset(),
        0 <= k < ds1.len(),
    ensures
        0 <= j < ds2.len(),
        ds2[j] == ds1[k],
{
    ds1.to_multiset_ensures();
    ds2.to_multiset_ensures();
    assert(ds1.contains(ds1[k]));
    assert(ds1.to_multiset().count(ds1[k]) > 0);
    assert(ds2.to_multiset().count(ds1[k]) > 0);
    assert(ds2.contains(ds1[k]));
    choose|j: int| 0 <= j < ds2.len() && ds2[j] == ds1[k]
}

proof fn lemma_keys_one_way(ds1: Seq<RegistryView>, ds2: Seq<RegistryView>, id: Seq<char>)
    requires
        ds1.to_multiset() == ds2.to_multiset(),
    ensures
        keys_hold(ingest_all(empty_catalog(), ds1), id).0 ==> keys_hold(ingest_all(empty_catalog(), ds2), id).0,
        keys_hold(ingest_all(empty_catalog(), ds1), id).1 ==> keys_hold(ingest_all(empty_catalog(), ds2), id).1,
        keys_hold(ingest_all(empty_catalog(), ds1), id).2 ==> keys_hold(ingest_all(empty_catalog(), ds2), id).2,
        keys_hold(ingest_all(empty_catalog(), ds1), id).3 ==> keys_hold(ingest_all(empty_catalog(), ds2), id).3,
{
    let e = empty_catalog();
    lemma_keys_from_documents(ds1, id);
    lemma_keys_from_documents(ds2, id);
    let all1 = keys_hold(ingest_all(e, ds1), id);
    if all1.0 {
        let k = choose|k: int| 0 <= k < ds1.len() && #[trigger] keys_hold(ingest_registry(e, ds1[k]), id).0;
        let j = lemma_found_in_permutation(ds1, ds2, k);
        assert(keys_hold(ingest_registry(e, ds2[j]), id).0);
    }
    if all1.1 {
        let k = choose|k: int| 0 <= k < ds1.len() && #[trigger] keys_hold(ingest_registry(e, ds1[k]), id).1;
        let j = lemma_found_in_permutation(ds1, ds2, k);
        assert(keys_hold(ingest_registry(e, ds2[j]), id).1);
    }
    if all1.2 {
        let k = choose|k: int| 0 <= k < ds1.len() && #[trigger] keys_hold(ingest_registry(e, ds1[k]), id).2;
        let j = lemma_found_in_permutation(ds1, ds2, k);
        assert(keys_hold(ingest_registry(e, ds2[j]), id).2);
    }
    if all1.3 {
        let k = choose|k: int| 0 <= k < ds1.len() && #[trigger] keys_hold(ingest_registry(e, ds1[k]), id).3;
        let j = lemma_found_in_permutation(ds1, ds2, k);
        assert(keys_hold(ingest_registry(e, ds2[j]), id).3);
    }
}

/// Order-independence of keys: the same documents ingested in another order
/// give a catalog with the same keys in all four tables (which of two records
/// with one id is kept may differ).
pub proof fn lemma_keys_ignore_order(ds1: Seq<RegistryView>, ds2: Seq<RegistryView>, id: Seq<char>)
    requires
        ds1.to_multiset() == ds2.to_multiset(),
    ensures
        keys_hold(ingest_all(empty_catalog(), ds1), id) == keys_hold(ingest_all(empty_catalog(), ds2), id),
{
    lemma_keys_one_way(ds1, ds2, id);
    lemma_keys_one_way(ds2, ds1, id);
}

} // verus!
