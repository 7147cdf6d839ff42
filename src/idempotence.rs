use vstd::prelude::*;
use crate::catalog::lemma_relate_wf;
use crate::index::{lemma_add_pair_has, lemma_unique_slot};
use crate::laws::{
    lemma_ingest_all_wf, lemma_ingest_feeds, lemma_ingest_operator,
    lemma_ingest_operators, lemma_link_refs, lemma_register_feed_wf, lemma_register_operator_wf,
};
use crate::model::{
    add_pair, catalog_wf, has_feed, has_operator, has_pair, index_wf,
    ingest_all, ingest_embedded, ingest_feed, ingest_feeds, ingest_operator, ingest_operators,
    ingest_registry, link_refs, links, lists_id, register_feed, register_operator, relate, resolve,
    CatalogView, FeedView, IndexView, OperatorView, RefView, RegistryView,
};

verus! {

/// Everything that `c` holds, `d` holds too.
pub open spec fn grows(c: CatalogView, d: CatalogView) -> bool {
    &&& forall|id: Seq<char>| #[trigger] has_feed(c.feeds, id) ==> has_feed(d.feeds, id)
    &&& forall|id: Seq<char>| #[trigger] has_operator(c.operators, id) ==> has_operator(d.operators, id)
    &&& forall|o: Seq<char>, f: Seq<char>|
        #[trigger] links(c.operator_feeds, o, f) ==> links(d.operator_feeds, o, f)
    &&& forall|f: Seq<char>, o: Seq<char>|
        #[trigger] links(c.feed_operators, f, o) ==> links(d.feed_operators, f, o)
}

/// Both indices relate `o` and `f`.
pub open spec fn related(c: CatalogView, o: Seq<char>, f: Seq<char>) -> bool {
    links(c.operator_feeds, o, f) && links(c.feed_operators, f, o)
}

pub open spec fn covers_refs(c: CatalogView, o: Seq<char>, refs: Seq<RefView>, parent: Option<Seq<char>>) -> bool {
    forall|i: int|
        0 <= i < refs.len() && (#[trigger] resolve(refs[i], parent)) is Some ==> related(
            c,
            o,
            resolve(refs[i], parent)->0,
        )
}

pub open spec fn covers_operator(c: CatalogView, op: OperatorView, parent: Option<Seq<char>>) -> bool {
    has_operator(c.operators, op.onestop_id) && covers_refs(c, op.onestop_id, op.associated_feeds, parent)
}

pub open spec fn covers_embedded(c: CatalogView, ops: Seq<OperatorView>, f: Seq<char>) -> bool {
    forall|i: int|
        0 <= i < ops.len() ==> covers_operator(c, #[trigger] ops[i], Some(f)) && related(c, ops[i].onestop_id, f)
}

pub open spec fn covers_feed(c: CatalogView, g: FeedView) -> bool {
    has_feed(c.feeds, g.id) && covers_embedded(c, g.operators, g.id)
}

pub open spec fn covers_feeds(c: CatalogView, fs: Seq<FeedView>) -> bool {
    forall|i: int| 0 <= i < fs.len() ==> covers_feed(c, #[trigger] fs[i])
}

pub open spec fn covers_operators(c: CatalogView, ops: Seq<OperatorView>) -> bool {
    forall|i: int| 0 <= i < ops.len() ==> covers_operator(c, #[trigger] ops[i], None)
}

/// Everything that document `d` contributes is already in `c`.
pub open spec fn covers_registry(c: CatalogView, d: RegistryView) -> bool {
    covers_feeds(c, d.feeds) && covers_operators(c, d.operators)
}

pub open spec fn covers_all(c: CatalogView, ds: Seq<RegistryView>) -> bool {
    forall|i: int| 0 <= i < ds.len() ==> covers_registry(c, #[trigger] ds[i])
}

proof fn lemma_grows_refl(c: CatalogView)
    ensures
        grows(c, c),
{
}

proof fn lemma_grows_trans(a: CatalogView, b: CatalogView, c: CatalogView)
    requires
        grows(a, b),
        grows(b, c),
    ensures
        grows(a, c),
{
}

proof fn lemma_covers_operator_grows(c: CatalogView, d: CatalogView, op: OperatorView, parent: Option<Seq<char>>)
    requires
        grows(c, d),
        covers_operator(c, op, parent),
    ensures
        covers_operator(d, op, parent),
{
    assert forall|i: int|
        0 <= i < op.associated_feeds.len() && (#[trigger] resolve(op.associated_feeds[i], parent)) is Some implies related(
            d,
            op.onestop_id,
            resolve(op.associated_feeds[i], parent)->0,
        ) by {
        let f = resolve(op.associated_feeds[i], parent)->0;
        assert(related(c, op.onestop_id, f));
    }
}

proof fn lemma_covers_feed_grows(c: CatalogView, d: CatalogView, g: FeedView)
    requires
        grows(c, d),
        covers_feed(c, g),
    ensures
        covers_feed(d, g),
{
    assert forall|i: int| 0 <= i < g.operators.len() implies covers_operator(d, #[trigger] g.operators[i], Some(g.id))
        && related(d, g.operators[i].onestop_id, g.id) by {
        lemma_covers_operator_grows(c, d, g.operators[i], Some(g.id));
        assert(related(c, g.operators[i].onestop_id, g.id));
    }
}

proof fn lemma_covers_registry_grows(c: CatalogView, d: CatalogView, r: RegistryView)
    requires
        grows(c, d),
        covers_registry(c, r),
    ensures
        covers_registry(d, r),
{
    assert forall|i: int| 0 <= i < r.feeds.len() implies covers_feed(d, #[trigger] r.feeds[i]) by {
        lemma_covers_feed_grows(c, d, r.feeds[i]);
    }
    assert forall|i: int| 0 <= i < r.operators.len() implies covers_operator(d, #[trigger] r.operators[i], None) by {
        lemma_covers_operator_grows(c, d, r.operators[i], None);
    }
}

/// Recording a pair that is there already changes nothing.
proof fn lemma_add_pair_present(ix: IndexView, k: Seq<char>, id: Seq<char>, a: Option<Seq<char>>)
    requires
        index_wf(ix),
        links(ix, k, id),
    ensures
        add_pair(ix, k, id, a) == ix,
{
    let b = choose|b: Option<Seq<char>>| has_pair(ix, k, id, b);
    let (i, j) = choose|i: int, j: int|
        0 <= i < ix.len() && ix[i].0 == k && 0 <= j < ix[i].1.len() && ix[i].1[j] == (id, b);
    lemma_unique_slot(ix, k, i);
    assert(lists_id(ix[i].1, id));
}

proof fn lemma_relate_grows(c: CatalogView, o: Seq<char>, f: Seq<char>, a: Option<Seq<char>>)
    requires
        catalog_wf(c),
    ensures
        grows(c, relate(c, o, f, a)),
        related(relate(c, o, f, a), o, f),
{
    let r = relate(c, o, f, a);
    assert forall|x: Seq<char>, y: Seq<char>| #[trigger] links(c.operator_feeds, x, y) implies links(
        r.operator_feeds,
        x,
        y,
    ) by {
        let b = choose|b: Option<Seq<char>>| has_pair(c.operator_feeds, x, y, b);
        lemma_add_pair_has(c.operator_feeds, o, f, a, x, y, b);
    }
    assert forall|y: Seq<char>, x: Seq<char>| #[trigger] links(c.feed_operators, y, x) implies links(
        r.feed_operators,
        y,
        x,
    ) by {
        let b = choose|b: Option<Seq<char>>| has_pair(c.feed_operators, y, x, b);
        lemma_add_pair_has(c.feed_operators, f, o, a, y, x, b);
    }
    lemma_add_pair_has(c.operator_feeds, o, f, a, o, f, a);
    lemma_add_pair_has(c.feed_operators, f, o, a, f, o, a);
    if links(c.operator_feeds, o, f) {
        assert(links(r.operator_feeds, o, f));
    } else {
        assert(has_pair(r.operator_feeds, o, f, a));
    }
    if links(c.feed_operators, f, o) {
        assert(links(r.feed_operators, f, o));
    } else {
        assert(has_pair(r.feed_operators, f, o, a));
    }
}

proof fn lemma_link_refs_grows(c: CatalogView, o: Seq<char>, refs: Seq<RefView>, parent: Option<Seq<char>>)
    requires
        catalog_wf(c),
    ensures
        grows(c, link_refs(c, o, refs, parent)),
        covers_refs(link_refs(c, o, refs, parent), o, refs, parent),
    decreases refs.len(),
{
    if refs.len() > 0 {
        let rest = refs.drop_last();
        lemma_link_refs_grows(c, o, rest, parent);
        lemma_link_refs(c, o, rest, parent);
        let x = link_refs(c, o, rest, parent);
        let y = link_refs(c, o, refs, parent);
        match resolve(refs.last(), parent) {
            Some(f) => {
                lemma_relate_grows(x, o, f, refs.last().1);
            },
            None => {},
        }
        assert(grows(x, y));
        assert forall|i: int|
            0 <= i < refs.len() && (#[trigger] resolve(refs[i], parent)) is Some implies related(
                y,
                o,
                resolve(refs[i], parent)->0,
            ) by {
            if i < rest.len() {
                assert(rest[i] == refs[i]);
                assert(resolve(rest[i], parent) is Some);
                assert(related(x, o, resolve(refs[i], parent)->0));
            }
        }
    }
}

proof fn lemma_link_refs_fixed(c: CatalogView, o: Seq<char>, refs: Seq<RefView>, parent: Option<Seq<char>>)
    requires
        catalog_wf(c),
        covers_refs(c, o, refs, parent),
    ensures
        link_refs(c, o, refs, parent) == c,
    decreases refs.len(),
{
    if refs.len() > 0 {
        let rest = refs.drop_last();
        assert forall|i: int|
            0 <= i < rest.len() && (#[trigger] resolve(rest[i], parent)) is Some implies related(
                c,
                o,
                resolve(rest[i], parent)->0,
            ) by {
            assert(rest[i] == refs[i]);
        }
        lemma_link_refs_fixed(c, o, rest, parent);
        match resolve(refs.last(), parent) {
            Some(f) => {
                assert(resolve(refs[refs.len() - 1], parent) is Some);
                lemma_add_pair_present(c.operator_feeds, o, f, refs.last().1);
                lemma_add_pair_present(c.feed_operators, f, o, refs.last().1);
            },
            None => {},
        }
    }
}

proof fn lemma_ingest_operator_grows(c: CatalogView, op: OperatorView, parent: Option<Seq<char>>)
    requires
        catalog_wf(c),
    ensures
        grows(c, ingest_operator(c, op, parent)),
        covers_operator(ingest_operator(c, op, parent), op, parent),
{
    let x = CatalogView { operators: register_operator(c.operators, op), ..c };
    lemma_register_operator_wf(c, op);
    if !has_operator(c.operators, op.onestop_id) {
        assert(x.operators[c.operators.len() as int].onestop_id == op.onestop_id);
    }
    assert forall|id: Seq<char>| #[trigger] has_operator(c.operators, id) implies has_operator(x.operators, id) by {
        let p = choose|p: int| 0 <= p < c.operators.len() && c.operators[p].onestop_id == id;
        assert(x.operators[p] == c.operators[p]);
    }
    assert(grows(c, x));
    assert(has_operator(x.operators, op.onestop_id));
    lemma_link_refs(x, op.onestop_id, op.associated_feeds, parent);
    lemma_link_refs_grows(x, op.onestop_id, op.associated_feeds, parent);
    lemma_grows_trans(c, x, ingest_operator(c, op, parent));
}

proof fn lemma_ingest_operator_fixed(c: CatalogView, op: OperatorView, parent: Option<Seq<char>>)
    requires
        catalog_wf(c),
        covers_operator(c, op, parent),
    ensures
        ingest_operator(c, op, parent) == c,
{
    let x = CatalogView { operators: register_operator(c.operators, op), ..c };
    assert(x == c);
    lemma_link_refs_fixed(c, op.onestop_id, op.associated_feeds, parent);
}

proof fn lemma_ingest_embedded_grows(c: CatalogView, ops: Seq<OperatorView>, f: Seq<char>)
    requires
        catalog_wf(c),
    ensures
        grows(c, ingest_embedded(c, ops, f)),
        covers_embedded(ingest_embedded(c, ops, f), ops, f),
        catalog_wf(ingest_embedded(c, ops, f)),
    decreases ops.len(),
{
    if ops.len() > 0 {
        let rest = ops.drop_last();
        let op = ops.last();
        lemma_ingest_embedded_grows(c, rest, f);
        let x = ingest_embedded(c, rest, f);
        lemma_ingest_operator_grows(x, op, Some(f));
        lemma_ingest_operator(x, op, Some(f));
        let x2 = ingest_operator(x, op, Some(f));
        lemma_relate_grows(x2, op.onestop_id, f, None);
        lemma_relate_wf(x2, op.onestop_id, f, None);
        let y = relate(x2, op.onestop_id, f, None);
        lemma_grows_trans(x, x2, y);
        lemma_grows_trans(c, x, y);
        lemma_covers_operator_grows(x2, y, op, Some(f));
        assert forall|i: int| 0 <= i < ops.len() implies covers_operator(y, #[trigger] ops[i], Some(f)) && related(
            y,
            ops[i].onestop_id,
            f,
        ) by {
            if i < rest.len() {
                assert(rest[i] == ops[i]);
                lemma_covers_operator_grows(x, y, ops[i], Some(f));
                assert(related(x, ops[i].onestop_id, f));
            }
        }
    }
}

proof fn lemma_ingest_embedded_fixed(c: CatalogView, ops: Seq<OperatorView>, f: Seq<char>)
    requires
        catalog_wf(c),
        covers_embedded(c, ops, f),
    ensures
        ingest_embedded(c, ops, f) == c,
    decreases ops.len(),
{
    if ops.len() > 0 {
        let rest = ops.drop_last();
        let op = ops.last();
        assert forall|i: int| 0 <= i < rest.len() implies covers_operator(c, #[trigger] rest[i], Some(f)) && related(
            c,
            rest[i].onestop_id,
            f,
        ) by {
            assert(rest[i] == ops[i]);
        }
        lemma_ingest_embedded_fixed(c, rest, f);
        assert(ops[ops.len() - 1] == op);
        lemma_ingest_operator_fixed(c, op, Some(f));
        lemma_add_pair_present(c.operator_feeds, op.onestop_id, f, None);
        lemma_add_pair_present(c.feed_operators, f, op.onestop_id, None);
    }
}

proof fn lemma_ingest_feed_grows(c: CatalogView, g: FeedView)
    requires
        catalog_wf(c),
    ensures
        grows(c, ingest_feed(c, g)),
        covers_feed(ingest_feed(c, g), g),
{
    let x = CatalogView { feeds: register_feed(c.feeds, g), ..c };
    lemma_register_feed_wf(c, g);
    if !has_feed(c.feeds, g.id) {
        assert(x.feeds[c.feeds.len() as int].id == g.id);
    }
    assert forall|id: Seq<char>| #[trigger] has_feed(c.feeds, id) implies has_feed(x.feeds, id) by {
        let p = choose|p: int| 0 <= p < c.feeds.len() && c.feeds[p].id == id;
        assert(x.feeds[p] == c.feeds[p]);
    }
    assert(grows(c, x));
    assert(has_feed(x.feeds, g.id));
    lemma_ingest_embedded_grows(x, g.operators, g.id);
    lemma_grows_trans(c, x, ingest_feed(c, g));
}

proof fn lemma_ingest_feed_fixed(c: CatalogView, g: FeedView)
    requires
        catalog_wf(c),
        covers_feed(c, g),
    ensures
        ingest_feed(c, g) == c,
{
    let x = CatalogView { feeds: register_feed(c.feeds, g), ..c };
    assert(x == c);
    lemma_ingest_embedded_fixed(c, g.operators, g.id);
}

proof fn lemma_ingest_feeds_grows(c: CatalogView, fs: Seq<FeedView>)
    requires
        catalog_wf(c),
    ensures
        grows(c, ingest_feeds(c, fs)),
        covers_feeds(ingest_feeds(c, fs), fs),
    decreases fs.len(),
{
    if fs.len() > 0 {
        let rest = fs.drop_last();
        lemma_ingest_feeds_grows(c, rest);
        lemma_ingest_feeds(c, rest);
        let x = ingest_feeds(c, rest);
        lemma_ingest_feed_grows(x, fs.last());
        let y = ingest_feeds(c, fs);
        lemma_grows_trans(c, x, y);
        assert forall|i: int| 0 <= i < fs.len() implies covers_feed(y, #[trigger] fs[i]) by {
            if i < rest.len() {
                assert(rest[i] == fs[i]);
                lemma_covers_feed_grows(x, y, fs[i]);
            }
        }
    }
}

proof fn lemma_ingest_feeds_fixed(c: CatalogView, fs: Seq<FeedView>)
    requires
        catalog_wf(c),
        covers_feeds(c, fs),
    ensures
        ingest_feeds(c, fs) == c,
    decreases fs.len(),
{
    if fs.len() > 0 {
        let rest = fs.drop_last();
        assert forall|i: int| 0 <= i < rest.len() implies covers_feed(c, #[trigger] rest[i]) by {
            assert(rest[i] == fs[i]);
        }
        lemma_ingest_feeds_fixed(c, rest);
        assert(fs[fs.len() - 1] == fs.last());
        lemma_ingest_feed_fixed(c, fs.last());
    }
}

proof fn lemma_ingest_operators_grows(c: CatalogView, ops: Seq<OperatorView>)
    requires
        catalog_wf(c),
    ensures
        grows(c, ingest_operators(c, ops)),
        covers_operators(ingest_operators(c, ops), ops),
    decreases ops.len(),
{
    if ops.len() > 0 {
        let rest = ops.drop_last();
        lemma_ingest_operators_grows(c, rest);
        lemma_ingest_operators(c, rest);
        let x = ingest_operators(c, rest);
        lemma_ingest_operator_grows(x, ops.last(), None);
        let y = ingest_operators(c, ops);
        lemma_grows_trans(c, x, y);
        assert forall|i: int| 0 <= i < ops.len() implies covers_operator(y, #[trigger] ops[i], None) by {
            if i < rest.len() {
                assert(rest[i] == ops[i]);
                lemma_covers_operator_grows(x, y, ops[i], None);
            }
        }
    }
}

proof fn lemma_ingest_operators_fixed(c: CatalogView, ops: Seq<OperatorView>)
    requires
        catalog_wf(c),
        covers_operators(c, ops),
    ensures
        ingest_operators(c, ops) == c,
    decreases ops.len(),
{
    if ops.len() > 0 {
        let rest = ops.drop_last();
        assert forall|i: int| 0 <= i < rest.len() implies covers_operator(c, #[trigger] rest[i], None) by {
            assert(rest[i] == ops[i]);
        }
        lemma_ingest_operators_fixed(c, rest);
        assert(ops[ops.len() - 1] == ops.last());
        lemma_ingest_operator_fixed(c, ops.last(), None);
    }
}

proof fn lemma_ingest_registry_grows(c: CatalogView, d: RegistryView)
    requires
        catalog_wf(c),
    ensures
        grows(c, ingest_registry(c, d)),
        covers_registry(ingest_registry(c, d), d),
{
    lemma_ingest_feeds_grows(c, d.feeds);
    lemma_ingest_feeds(c, d.feeds);
    let x = ingest_feeds(c, d.feeds);
    lemma_ingest_operators_grows(x, d.operators);
    let y = ingest_registry(c, d);
    lemma_grows_trans(c, x, y);
    assert forall|i: int| 0 <= i < d.feeds.len() implies covers_feed(y, #[trigger] d.feeds[i]) by {
        lemma_covers_feed_grows(x, y, d.feeds[i]);
    }
}

proof fn lemma_ingest_all_grows(c: CatalogView, ds: Seq<RegistryView>)
    requires
        catalog_wf(c),
    ensures
        covers_all(ingest_all(c, ds), ds),
    decreases ds.len(),
{
    if ds.len() > 0 {
        let rest = ds.drop_last();
        lemma_ingest_all_grows(c, rest);
        lemma_ingest_all_wf(c, rest);
        let x = ingest_all(c, rest);
        lemma_ingest_registry_grows(x, ds.last());
        let y = ingest_all(c, ds);
        assert forall|i: int| 0 <= i < ds.len() implies covers_registry(y, #[trigger] ds[i]) by {
            if i < rest.len() {
                assert(rest[i] == ds[i]);
                lemma_covers_registry_grows(x, y, ds[i]);
            }
        }
    }
}

proof fn lemma_ingest_all_fixed(c: CatalogView, ds: Seq<RegistryView>)
    requires
        catalog_wf(c),
        covers_all(c, ds),
    ensures
        ingest_all(c, ds) == c,
    decreases ds.len(),
{
    if ds.len() > 0 {
        let rest = ds.drop_last();
        assert forall|i: int| 0 <= i < rest.len() implies covers_registry(c, #[trigger] rest[i]) by {
            assert(rest[i] == ds[i]);
        }
        lemma_ingest_all_fixed(c, rest);
        assert(ds[ds.len() - 1] == ds.last());
        lemma_ingest_feeds_fixed(c, ds.last().feeds);
        lemma_ingest_operators_fixed(c, ds.last().operators);
    }
}

/// Re-ingesting the documents that built a catalog, in the same order,
/// leaves it exactly as it was.
pub proof fn lemma_reingest_changes_nothing(c: CatalogView, ds: Seq<RegistryView>)
    requires
        catalog_wf(c),
    ensures
        ingest_all(ingest_all(c, ds), ds) == ingest_all(c, ds),
{
    lemma_ingest_all_grows(c, ds);
    lemma_ingest_all_wf(c, ds);
    lemma_ingest_all_fixed(ingest_all(c, ds), ds);
}

} // verus!
