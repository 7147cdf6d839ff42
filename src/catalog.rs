use vstd::prelude::*;
use crate::index::{add_feed_to_operator, add_operator_to_feed, clone_opt, lemma_add_pair_agree, lemma_add_pair_wf};
use crate::model::{
    add_pair, catalog_wf, feed_index_view, has_feed, has_operator, index_wf, indices_agree,
    empty_catalog, ingest_embedded, ingest_feed, ingest_feeds, ingest_operator, ingest_operators,
    ingest_registry, unresolved_refs, Registry, link_refs, operator_index_view, register_feed,
    register_operator, relate, resolve, unresolved_positions, opt_view, AssociatedFeed, CatalogView, Feed,
    FeedOperators, OperatorFeeds, Operator,
};

verus! {

/// The catalog that four tables stand for.
pub open spec fn catalog_view(
    feeds: Seq<Feed>,
    operators: Seq<Operator>,
    operator_feeds: Seq<OperatorFeeds>,
    feed_operators: Seq<FeedOperators>,
) -> CatalogView {
    CatalogView {
        feeds: feeds.map_values(|f: Feed| f@),
        operators: operators.map_values(|o: Operator| o@),
        operator_feeds: operator_index_view(operator_feeds),
        feed_operators: feed_index_view(feed_operators),
    }
}

pub open spec fn parent_view(p: Option<&str>) -> Option<Seq<char>> {
    match p {
        Some(s) => Some(s@),
        None => None,
    }
}

impl AssociatedFeed {
    /// A copy with the same contents.
    pub fn copied(&self) -> (r: AssociatedFeed)
        ensures
            r@ == self@,
    {
        AssociatedFeed {
            feed_onestop_id: clone_opt(&self.feed_onestop_id),
            gtfs_agency_id: clone_opt(&self.gtfs_agency_id),
        }
    }
}

impl Operator {
    /// A copy with the same contents.
    pub fn copied(&self) -> (r: Operator)
        ensures
            r@ == self@,
    {
        let mut refs: Vec<AssociatedFeed> = Vec::new();
        let mut i: usize = 0;
        while i < self.associated_feeds.len()
            invariant
                i <= self.associated_feeds@.len(),
                refs@.len() == i,
                forall|k: int| 0 <= k < i ==> refs@[k]@ == self.associated_feeds@[k]@,
            decreases self.associated_feeds@.len() - i,
        {
            refs.push(self.associated_feeds[i].copied());
            i = i + 1;
        }
        let r = Operator { onestop_id: self.onestop_id.clone(), name: self.name.clone(), associated_feeds: refs };
        assert(r@.associated_feeds =~= self@.associated_feeds);
        r
    }
}

impl Feed {
    /// A copy with the same contents.
    pub fn copied(&self) -> (r: Feed)
        ensures
            r@ == self@,
    {
        let mut ops: Vec<Operator> = Vec::new();
        let mut i: usize = 0;
        while i < self.operators.len()
            invariant
                i <= self.operators@.len(),
                ops@.len() == i,
                forall|k: int| 0 <= k < i ==> ops@[k]@ == self.operators@[k]@,
            decreases self.operators@.len() - i,
        {
            ops.push(self.operators[i].copied());
            i = i + 1;
        }
        let r = Feed { id: self.id.clone(), name: clone_opt(&self.name), operators: ops };
        assert(r@.operators =~= self@.operators);
        r
    }
}

/// Whether a feed with this id is in the table.
fn contains_feed(feeds: &Vec<Feed>, id: &String) -> (r: bool)
    ensures
        r == has_feed(feeds@.map_values(|f: Feed| f@), id@),
{
    let ghost v = feeds@.map_values(|f: Feed| f@);
    let mut i: usize = 0;
    while i < feeds.len()
        invariant
            i <= feeds@.len(),
            v == feeds@.map_values(|f: Feed| f@),
            forall|k: int| 0 <= k < i ==> v[k].id != id@,
        decreases feeds@.len() - i,
    {
        if feeds[i].id == *id {
            assert(v[i as int].id == id@);
            return true;
        }
        i = i + 1;
    }
    false
}

/// Whether an operator with this id is in the table.
fn contains_operator(operators: &Vec<Operator>, id: &String) -> (r: bool)
    ensures
        r == has_operator(operators@.map_values(|o: Operator| o@), id@),
{
    let ghost v = operators@.map_values(|o: Operator| o@);
    let mut i: usize = 0;
    while i < operators.len()
        invariant
            i <= operators@.len(),
            v == operators@.map_values(|o: Operator| o@),
            forall|k: int| 0 <= k < i ==> v[k].onestop_id != id@,
        decreases operators@.len() - i,
    {
        if operators[i].onestop_id == *id {
            assert(v[i as int].onestop_id == id@);
            return true;
        }
        i = i + 1;
    }
    false
}

/// Recording one relationship in both indices keeps the catalog invariant.
pub proof fn lemma_relate_wf(c: CatalogView, o: Seq<char>, f: Seq<char>, a: Option<Seq<char>>)
    requires
        catalog_wf(c),
    ensures
        catalog_wf(relate(c, o, f, a)),
{
    lemma_add_pair_wf(c.operator_feeds, o, f, a);
    lemma_add_pair_wf(c.feed_operators, f, o, a);
    lemma_add_pair_agree(c.operator_feeds, c.feed_operators, o, f, a);
}

/// Records `(operator_id, feed_id)` with agency id `agency` in both indices,
/// each of which keeps the pair once.
fn relate_both(
    operator_feeds: &mut Vec<OperatorFeeds>,
    feed_operators: &mut Vec<FeedOperators>,
    operator_id: &String,
    feed_id: &String,
    agency: &Option<String>,
)
    requires
        index_wf(operator_index_view(old(operator_feeds)@)),
        index_wf(feed_index_view(old(feed_operators)@)),
        indices_agree(operator_index_view(old(operator_feeds)@), feed_index_view(old(feed_operators)@)),
    ensures
        operator_index_view(final(operator_feeds)@) == add_pair(
            operator_index_view(old(operator_feeds)@),
            operator_id@,
            feed_id@,
            opt_view(*agency),
        ),
        feed_index_view(final(feed_operators)@) == add_pair(
            feed_index_view(old(feed_operators)@),
            feed_id@,
            operator_id@,
            opt_view(*agency),
        ),
        index_wf(operator_index_view(final(operator_feeds)@)),
        index_wf(feed_index_view(final(feed_operators)@)),
        indices_agree(operator_index_view(final(operator_feeds)@), feed_index_view(final(feed_operators)@)),
{
    proof {
        lemma_add_pair_agree(
            operator_index_view(operator_feeds@),
            feed_index_view(feed_operators@),
            operator_id@,
            feed_id@,
            opt_view(*agency),
        );
    }
    add_feed_to_operator(operator_feeds, operator_id, feed_id, agency);
    add_operator_to_feed(feed_operators, feed_id, operator_id, agency);
}

/// Ingests one operator: registers it in the operator table unless its id is
/// there already (the first record wins), then records in both indices the
/// relationship of each of its associated-feed references, in order, with the
/// reference's agency id. A reference without a feed id stands for
/// `parent_feed_id`; where there is none it is skipped, and its position is
/// among those returned.
pub fn process_operator(
    operator: &Operator,
    feed_hashmap: &mut Vec<Feed>,
    operator_hashmap: &mut Vec<Operator>,
    operator_to_feed_hashmap: &mut Vec<OperatorFeeds>,
    feed_to_operator_pairs_hashmap: &mut Vec<FeedOperators>,
    parent_feed_id: Option<&str>,
) -> (unresolved: Vec<usize>)
    requires
        catalog_wf(
            catalog_view(
                old(feed_hashmap)@,
                old(operator_hashmap)@,
                old(operator_to_feed_hashmap)@,
                old(feed_to_operator_pairs_hashmap)@,
            ),
        ),
    ensures
        catalog_view(
            final(feed_hashmap)@,
            final(operator_hashmap)@,
            final(operator_to_feed_hashmap)@,
            final(feed_to_operator_pairs_hashmap)@,
        ) == ingest_operator(
            catalog_view(
                old(feed_hashmap)@,
                old(operator_hashmap)@,
                old(operator_to_feed_hashmap)@,
                old(feed_to_operator_pairs_hashmap)@,
            ),
            operator@,
            parent_view(parent_feed_id),
        ),
        catalog_wf(
            catalog_view(
                final(feed_hashmap)@,
                final(operator_hashmap)@,
                final(operator_to_feed_hashmap)@,
                final(feed_to_operator_pairs_hashmap)@,
            ),
        ),
        final(feed_hashmap)@ == old(feed_hashmap)@,
        unresolved@.map_values(|i: usize| i as int) == unresolved_positions(
            operator@.associated_feeds,
            parent_view(parent_feed_id),
        ),
{
    let ghost c0 = catalog_view(
        feed_hashmap@,
        operator_hashmap@,
        operator_to_feed_hashmap@,
        feed_to_operator_pairs_hashmap@,
    );
    let ghost parent = parent_view(parent_feed_id);
    let ghost refs = operator@.associated_feeds;
    if !contains_operator(operator_hashmap, &operator.onestop_id) {
        operator_hashmap.push(operator.copied());
    }
    let ghost c1 = CatalogView { operators: register_operator(c0.operators, operator@), ..c0 };
    proof {
        let v = operator_hashmap@.map_values(|o: Operator| o@);
        assert(v =~= c1.operators);
        assert forall|i: int, k: int| 0 <= i < k < v.len() implies v[i].onestop_id != v[k].onestop_id by {
            if k == c0.operators.len() && !has_operator(c0.operators, operator@.onestop_id) {
                assert(v[i] == c0.operators[i]);
            }
        }
        assert(link_refs(c1, operator@.onestop_id, refs.take(0), parent) == c1);
        assert(unresolved_positions(refs.take(0), parent) =~= Seq::<int>::empty());
    }
    let mut unresolved: Vec<usize> = Vec::new();
    let mut i: usize = 0;
    while i < operator.associated_feeds.len()
        invariant
            i <= refs.len(),
            refs == operator@.associated_feeds,
            parent == parent_view(parent_feed_id),
            feed_hashmap@ == old(feed_hashmap)@,
            catalog_view(
                feed_hashmap@,
                operator_hashmap@,
                operator_to_feed_hashmap@,
                feed_to_operator_pairs_hashmap@,
            ) == link_refs(c1, operator@.onestop_id, refs.take(i as int), parent),
            catalog_wf(
                catalog_view(
                    feed_hashmap@,
                    operator_hashmap@,
                    operator_to_feed_hashmap@,
                    feed_to_operator_pairs_hashmap@,
                ),
            ),
            unresolved@.map_values(|k: usize| k as int) == unresolved_positions(refs.take(i as int), parent),
        decreases refs.len() - i,
    {
        let r = &operator.associated_feeds[i];
        assert(refs[i as int] == r@);
        let target: Option<String> = match &r.feed_onestop_id {
            Some(f) => {
                let t = f.clone();
                assert(r@.0 == Some(t@));
                Some(t)
            },
            None => match parent_feed_id {
                Some(p) => {
                    let t = p.to_owned();
                    assert(parent == Some(t@));
                    Some(t)
                },
                None => None,
            },
        };
        assert(opt_view(target) == resolve(r@, parent));
        match target {
            Some(f) => {
                relate_both(
                    operator_to_feed_hashmap,
                    feed_to_operator_pairs_hashmap,
                    &operator.onestop_id,
                    &f,
                    &r.gtfs_agency_id,
                );
            },
            None => {
                unresolved.push(i);
            },
        }
        proof {
            assert(refs.take(i + 1).drop_last() =~= refs.take(i as int));
            assert(refs.take(i + 1).last() == r@);
            assert(unresolved@.map_values(|k: usize| k as int) =~= unresolved_positions(
                refs.take(i + 1),
                parent,
            ));
        }
        i = i + 1;
    }
    proof {
        assert(refs.take(refs.len() as int) =~= refs);
    }
    unresolved
}

/// Ingests one feed: registers it in the feed table unless its id is there
/// already (the first record wins), then ingests each embedded operator, in
/// order, with the feed as parent, and records the relationship between that
/// operator and the feed, with no agency id, in both indices.
pub fn process_feed(
    feed: &Feed,
    feed_hashmap: &mut Vec<Feed>,
    operator_hashmap: &mut Vec<Operator>,
    operator_to_feed_hashmap: &mut Vec<OperatorFeeds>,
    feed_to_operator_pairs_hashmap: &mut Vec<FeedOperators>,
)
    requires
        catalog_wf(
            catalog_view(
                old(feed_hashmap)@,
                old(operator_hashmap)@,
                old(operator_to_feed_hashmap)@,
                old(feed_to_operator_pairs_hashmap)@,
            ),
        ),
    ensures
        catalog_view(
            final(feed_hashmap)@,
            final(operator_hashmap)@,
            final(operator_to_feed_hashmap)@,
            final(feed_to_operator_pairs_hashmap)@,
        ) == ingest_feed(
            catalog_view(
                old(feed_hashmap)@,
                old(operator_hashmap)@,
                old(operator_to_feed_hashmap)@,
                old(feed_to_operator_pairs_hashmap)@,
            ),
            feed@,
        ),
        catalog_wf(
            catalog_view(
                final(feed_hashmap)@,
                final(operator_hashmap)@,
                final(operator_to_feed_hashmap)@,
                final(feed_to_operator_pairs_hashmap)@,
            ),
        ),
{
    let ghost c0 = catalog_view(
        feed_hashmap@,
        operator_hashmap@,
        operator_to_feed_hashmap@,
        feed_to_operator_pairs_hashmap@,
    );
    let ghost ops = feed@.operators;
    if !contains_feed(feed_hashmap, &feed.id) {
        feed_hashmap.push(feed.copied());
    }
    let ghost c1 = CatalogView { feeds: register_feed(c0.feeds, feed@), ..c0 };
    proof {
        let v = feed_hashmap@.map_values(|f: Feed| f@);
        assert(v =~= c1.feeds);
        assert forall|i: int, k: int| 0 <= i < k < v.len() implies v[i].id != v[k].id by {
            if k == c0.feeds.len() && !has_feed(c0.feeds, feed@.id) {
                assert(v[i] == c0.feeds[i]);
            }
        }
        assert(ingest_embedded(c1, ops.take(0), feed@.id) == c1);
    }
    let no_agency: Option<String> = None;
    let mut i: usize = 0;
    while i < feed.operators.len()
        invariant
            i <= ops.len(),
            ops == feed@.operators,
            no_agency is None,
            catalog_view(
                feed_hashmap@,
                operator_hashmap@,
                operator_to_feed_hashmap@,
                feed_to_operator_pairs_hashmap@,
            ) == ingest_embedded(c1, ops.take(i as int), feed@.id),
            catalog_wf(
                catalog_view(
                    feed_hashmap@,
                    operator_hashmap@,
                    operator_to_feed_hashmap@,
                    feed_to_operator_pairs_hashmap@,
                ),
            ),
        decreases ops.len() - i,
    {
        let op = &feed.operators[i];
        assert(ops[i as int] == op@);
        process_operator(
            op,
            feed_hashmap,
            operator_hashmap,
            operator_to_feed_hashmap,
            feed_to_operator_pairs_hashmap,
            Some(feed.id.as_str()),
        );
        relate_both(
            operator_to_feed_hashmap,
            feed_to_operator_pairs_hashmap,
            &op.onestop_id,
            &feed.id,
            &no_agency,
        );
        proof {
            assert(ops.take(i + 1).drop_last() =~= ops.take(i as int));
            assert(ops.take(i + 1).last() == op@);
        }
        i = i + 1;
    }
    proof {
        assert(ops.take(ops.len() as int) =~= ops);
    }
}

/// A reference of a standalone operator that named no feed: the operator's
/// id and the reference's position among its associated feeds.
#[derive(Debug, Clone)]
pub struct UnresolvedFeedReference {
    pub operator_id: String,
    pub position: usize,
}

impl View for UnresolvedFeedReference {
    type V = (Seq<char>, int);

    open spec fn view(&self) -> (Seq<char>, int) {
        (self.operator_id@, self.position as int)
    }
}

/// The catalog: feeds by id, operators by id, and the two relationship
/// indices, each keyed table in order of first registration.
pub struct ReturnDmfrAnalysis {
    pub feed_hashmap: Vec<Feed>,
    pub operator_hashmap: Vec<Operator>,
    pub operator_to_feed_hashmap: Vec<OperatorFeeds>,
    pub feed_to_operator_pairs_hashmap: Vec<FeedOperators>,
}

impl View for ReturnDmfrAnalysis {
    type V = CatalogView;

    open spec fn view(&self) -> CatalogView {
        catalog_view(
            self.feed_hashmap@,
            self.operator_hashmap@,
            self.operator_to_feed_hashmap@,
            self.feed_to_operator_pairs_hashmap@,
        )
    }
}

impl ReturnDmfrAnalysis {
    /// An empty catalog.
    pub fn new() -> (r: ReturnDmfrAnalysis)
        ensures
            r@ == empty_catalog(),
            catalog_wf(r@),
    {
        let r = ReturnDmfrAnalysis {
            feed_hashmap: Vec::new(),
            operator_hashmap: Vec::new(),
            operator_to_feed_hashmap: Vec::new(),
            feed_to_operator_pairs_hashmap: Vec::new(),
        };
        assert(r@.feeds =~= empty_catalog().feeds);
        assert(r@.operators =~= empty_catalog().operators);
        assert(r@.operator_feeds =~= empty_catalog().operator_feeds);
        assert(r@.feed_operators =~= empty_catalog().feed_operators);
        r
    }

    /// Ingests one registry document: all its feeds, then all its top-level
    /// operators, which have no parent feed. Returns the references of those
    /// operators that named no feed and were skipped.
    pub fn ingest_registry(&mut self, registry: &Registry) -> (unresolved: Vec<UnresolvedFeedReference>)
        requires
            catalog_wf(old(self)@),
        ensures
            final(self)@ == ingest_registry(old(self)@, registry@),
            catalog_wf(final(self)@),
            unresolved@.map_values(|u: UnresolvedFeedReference| u@) == unresolved_refs(registry@.operators),
    {
        let ghost c0 = self@;
        let ghost feeds = registry@.feeds;
        let ghost ops = registry@.operators;
        proof {
            assert(ingest_feeds(c0, feeds.take(0)) == c0);
        }
        let mut i: usize = 0;
        while i < registry.feeds.len()
            invariant
                i <= feeds.len(),
                feeds == registry@.feeds,
                self@ == ingest_feeds(c0, feeds.take(i as int)),
                catalog_wf(self@),
            decreases feeds.len() - i,
        {
            let feed = &registry.feeds[i];
            assert(feeds[i as int] == feed@);
            process_feed(
                feed,
                &mut self.feed_hashmap,
                &mut self.operator_hashmap,
                &mut self.operator_to_feed_hashmap,
                &mut self.feed_to_operator_pairs_hashmap,
            );
            proof {
                assert(feeds.take(i + 1).drop_last() =~= feeds.take(i as int));
            }
            i = i + 1;
        }
        let ghost c1 = self@;
        proof {
            assert(feeds.take(feeds.len() as int) =~= feeds);
            assert(ingest_operators(c1, ops.take(0)) == c1);
            assert(unresolved_refs(ops.take(0)) =~= Seq::<(Seq<char>, int)>::empty());
        }
        let mut unresolved: Vec<UnresolvedFeedReference> = Vec::new();
        let mut k: usize = 0;
        while k < registry.operators.len()
            invariant
                k <= ops.len(),
                ops == registry@.operators,
                self@ == ingest_operators(c1, ops.take(k as int)),
                catalog_wf(self@),
                unresolved@.map_values(|u: UnresolvedFeedReference| u@) == unresolved_refs(ops.take(k as int)),
            decreases ops.len() - k,
        {
            let op = &registry.operators[k];
            assert(ops[k as int] == op@);
            let positions = process_operator(
                op,
                &mut self.feed_hashmap,
                &mut self.operator_hashmap,
                &mut self.operator_to_feed_hashmap,
                &mut self.feed_to_operator_pairs_hashmap,
                None,
            );
            let ghost before = unresolved@.map_values(|u: UnresolvedFeedReference| u@);
            let ghost found = unresolved_positions(op@.associated_feeds, None).map_values(
                |p: int| (op@.onestop_id, p),
            );
            let mut j: usize = 0;
            while j < positions.len()
                invariant
                    j <= positions@.len(),
                    positions@.map_values(|p: usize| p as int) == unresolved_positions(op@.associated_feeds, None),
                    found.len() == positions@.len(),
                    found == unresolved_positions(op@.associated_feeds, None).map_values(
                        |p: int| (op@.onestop_id, p),
                    ),
                    unresolved@.map_values(|u: UnresolvedFeedReference| u@) == before + found.take(j as int),
                decreases positions@.len() - j,
            {
                let ghost prev = unresolved@;
                let u = UnresolvedFeedReference { operator_id: op.onestop_id.clone(), position: positions[j] };
                proof {
                    assert(positions@.map_values(|p: usize| p as int)[j as int] == positions@[j as int] as int);
                    assert(u@ == found[j as int]);
                }
                unresolved.push(u);
                proof {
                    assert(unresolved@ == prev.push(u));
                    assert(unresolved@.map_values(|u: UnresolvedFeedReference| u@) =~= prev.map_values(
                        |u: UnresolvedFeedReference| u@,
                    ).push(u@));
                    assert(found.take(j + 1) =~= found.take(j as int).push(found[j as int]));
                    assert(unresolved@.map_values(|u: UnresolvedFeedReference| u@) =~= before + found.take(j + 1));
                }
                j = j + 1;
            }
            proof {
                assert(found.take(found.len() as int) =~= found);
                assert(ops.take(k + 1).drop_last() =~= ops.take(k as int));
                assert(ops.take(k + 1).last() == op@);
            }
            k = k + 1;
        }
        proof {
            assert(ops.take(ops.len() as int) =~= ops);
        }
        unresolved
    }
}

} // verus!
