use vstd::prelude::*;
use crate::catalog::lemma_relate_wf;
use crate::model::{
    catalog_wf, empty_catalog, has_feed, has_pair, ingest_all,
    ingest_embedded, ingest_feed, ingest_feeds, ingest_operator, ingest_operators,
    link_refs, links, register_feed, register_operator, resolve, CatalogView, FeedView,
    OperatorView, RefView, RegistryView,
};

verus! {

pub(crate) proof fn lemma_register_operator_wf(c: CatalogView, op: OperatorView)
    requires
        catalog_wf(c),
    ensures
        catalog_wf(CatalogView { operators: register_operator(c.operators, op), ..c }),
{
    let v = register_operator(c.operators, op);
    assert forall|i: int, k: int| 0 <= i < k < v.len() implies v[i].onestop_id != v[k].onestop_id by {
        if k == c.operators.len() {
            assert(v[i] == c.operators[i]);
        }
    }
}

pub(crate) proof fn lemma_register_feed_wf(c: CatalogView, f: FeedView)
    requires
        catalog_wf(c),
    ensures
        catalog_wf(CatalogView { feeds: register_feed(c.feeds, f), ..c }),
{
    let v = register_feed(c.feeds, f);
    assert forall|i: int, k: int| 0 <= i < k < v.len() implies v[i].id != v[k].id by {
        if k == c.feeds.len() {
            assert(v[i] == c.feeds[i]);
        }
    }
}

pub(crate) proof fn lemma_link_refs(c: CatalogView, o: Seq<char>, refs: Seq<RefView>, parent: Option<Seq<char>>)
    requires
        catalog_wf(c),
    ensures
        catalog_wf(link_refs(c, o, refs, parent)),
        link_refs(c, o, refs, parent).feeds == c.feeds,
        link_refs(c, o, refs, parent).operators == c.operators,
    decreases refs.len(),
{
    if refs.len() > 0 {
        lemma_link_refs(c, o, refs.drop_last(), parent);
        let c1 = link_refs(c, o, refs.drop_last(), parent);
        if let Some(f) = resolve(refs.last(), parent) {
            lemma_relate_wf(c1, o, f, refs.last().1);
        }
    }
}

pub(crate) proof fn lemma_ingest_operator(c: CatalogView, op: OperatorView, parent: Option<Seq<char>>)
    requires
        catalog_wf(c),
    ensures
        catalog_wf(ingest_operator(c, op, parent)),
        ingest_operator(c, op, parent).feeds == c.feeds,
{
    lemma_register_operator_wf(c, op);
    lemma_link_refs(
        CatalogView { operators: register_operator(c.operators, op), ..c },
        op.onestop_id,
        op.associated_feeds,
        parent,
    );
}

proof fn lemma_ingest_embedded(c: CatalogView, ops: Seq<OperatorView>, f: Seq<char>)
    requires
        catalog_wf(c),
    ensures
        catalog_wf(ingest_embedded(c, ops, f)),
        ingest_embedded(c, ops, f).feeds == c.feeds,
    decreases ops.len(),
{
    if ops.len() > 0 {
        lemma_ingest_embedded(c, ops.drop_last(), f);
        let c1 = ingest_embedded(c, ops.drop_last(), f);
        lemma_ingest_operator(c1, ops.last(), Some(f));
        lemma_relate_wf(ingest_operator(c1, ops.last(), Some(f)), ops.last().onestop_id, f, None);
    }
}

proof fn lemma_ingest_feed(c: CatalogView, f: FeedView)
    requires
        catalog_wf(c),
    ensures
        catalog_wf(ingest_feed(c, f)),
        ingest_feed(c, f).feeds == register_feed(c.feeds, f),
{
    lemma_register_feed_wf(c, f);
    lemma_ingest_embedded(CatalogView { feeds: register_feed(c.feeds, f), ..c }, f.operators, f.id);
}

pub(crate) proof fn lemma_ingest_feeds(c: CatalogView, fs: Seq<FeedView>)
    requires
        catalog_wf(c),
    ensures
        catalog_wf(ingest_feeds(c, fs)),
    decreases fs.len(),
{
    if fs.len() > 0 {
        lemma_ingest_feeds(c, fs.drop_last());
        lemma_ingest_feed(ingest_feeds(c, fs.drop_last()), fs.last());
    }
}

pub(crate) proof fn lemma_ingest_operators(c: CatalogView, ops: Seq<OperatorView>)
    requires
        catalog_wf(c),
    ensures
        catalog_wf(ingest_operators(c, ops)),
    decreases ops.len(),
{
    if ops.len() > 0 {
        lemma_ingest_operators(c, ops.drop_last());
        lemma_ingest_operator(ingest_operators(c, ops.drop_last()), ops.last(), None);
    }
}

/// Ingesting documents in any number keeps the catalog invariant.
pub proof fn lemma_ingest_all_wf(c: CatalogView, ds: Seq<RegistryView>)
    requires
        catalog_wf(c),
    ensures
        catalog_wf(ingest_all(c, ds)),
    decreases ds.len(),
{
    if ds.len() > 0 {
        lemma_ingest_all_wf(c, ds.drop_last());
        let c1 = ingest_all(c, ds.drop_last());
        lemma_ingest_feeds(c1, ds.last().feeds);
        lemma_ingest_operators(ingest_feeds(c1, ds.last().feeds), ds.last().operators);
    }
}

/// Symmetry of the indices in every catalog built from documents: operator
/// `o` lists feed `f` with agency id `a` exactly when feed `f` lists operator
/// `o` with agency id `a`.
pub proof fn lemma_indices_symmetric(ds: Seq<RegistryView>, o: Seq<char>, f: Seq<char>, a: Option<Seq<char>>)
    ensures
        has_pair(ingest_all(empty_catalog(), ds).operator_feeds, o, f, a) <==> has_pair(
            ingest_all(empty_catalog(), ds).feed_operators,
            f,
            o,
            a,
        ),
        links(ingest_all(empty_catalog(), ds).operator_feeds, o, f) <==> links(
            ingest_all(empty_catalog(), ds).feed_operators,
            f,
            o,
        ),
{
    lemma_ingest_all_wf(empty_catalog(), ds);
    let c = ingest_all(empty_catalog(), ds);
    if links(c.operator_feeds, o, f) {
        let b = choose|b: Option<Seq<char>>| has_pair(c.operator_feeds, o, f, b);
        assert(has_pair(c.feed_operators, f, o, b));
    }
    if links(c.feed_operators, f, o) {
        let b = choose|b: Option<Seq<char>>| has_pair(c.feed_operators, f, o, b);
        assert(has_pair(c.operator_feeds, o, f, b));
    }
}

/// In every catalog built from documents, no operator lists a feed twice and
/// no feed lists an operator twice.
pub proof fn lemma_no_duplicate_pairs(ds: Seq<RegistryView>)
    ensures
        forall|i: int, j: int, l: int|
            0 <= i < ingest_all(empty_catalog(), ds).operator_feeds.len() && 0 <= j < l
                < ingest_all(empty_catalog(), ds).operator_feeds[i].1.len() ==> ingest_all(
                empty_catalog(),
                ds,
            ).operator_feeds[i].1[j].0 != ingest_all(empty_catalog(), ds).operator_feeds[i].1[l].0,
        forall|i: int, j: int, l: int|
            0 <= i < ingest_all(empty_catalog(), ds).feed_operators.len() && 0 <= j < l
                < ingest_all(empty_catalog(), ds).feed_operators[i].1.len() ==> ingest_all(
                empty_catalog(),
                ds,
            ).feed_operators[i].1[j].0 != ingest_all(empty_catalog(), ds).feed_operators[i].1[l].0,
{
    lemma_ingest_all_wf(empty_catalog(), ds);
}

/// First-write-wins: after feed `f1` and then feed `f2` with the same id are
/// ingested, the feed table holds `f1` under that id, and nothing of `f2`.
pub proof fn lemma_first_feed_wins(c: CatalogView, f1: FeedView, f2: FeedView)
    requires
        catalog_wf(c),
        !has_feed(c.feeds, f1.id),
        f2.id == f1.id,
    ensures
        ingest_feed(ingest_feed(c, f1), f2).feeds == c.feeds.push(f1),
{
    lemma_ingest_feed(c, f1);
    let c1 = ingest_feed(c, f1);
    assert(c1.feeds[c.feeds.len() as int].id == f2.id);
    assert(has_feed(c1.feeds, f2.id));
    lemma_ingest_feed(c1, f2);
}

} // verus!
