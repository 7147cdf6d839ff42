use vstd::prelude::*;

verus! {

/// One side of a relationship, as stored under an operator: the feed it
/// publishes through, and its agency id within that feed's data.
#[derive(Debug, Clone)]
pub struct FeedPairInfo {
    pub feed_onestop_id: String,
    pub gtfs_agency_id: Option<String>,
}

/// One side of a relationship, as stored under a feed: the operator that
/// publishes through it, and that operator's agency id within the feed.
#[derive(Debug, Clone)]
pub struct OperatorPairInfo {
    pub operator_id: String,
    pub gtfs_agency_id: Option<String>,
}

/// An operator's declared link to a feed. Without a feed id it refers to the
/// feed that the operator is embedded in.
#[derive(Debug, Clone)]
pub struct AssociatedFeed {
    pub feed_onestop_id: Option<String>,
    pub gtfs_agency_id: Option<String>,
}

/// A transit agency, identified by its Onestop id.
#[derive(Debug, Clone)]
pub struct Operator {
    pub onestop_id: String,
    pub name: String,
    pub associated_feeds: Vec<AssociatedFeed>,
}

/// A published transit data source, with the operators embedded in it.
#[derive(Debug, Clone)]
pub struct Feed {
    pub id: String,
    pub name: Option<String>,
    pub operators: Vec<Operator>,
}

/// One registry document: feeds (each with its embedded operators) and
/// top-level operators that have no enclosing feed.
#[derive(Debug, Clone)]
pub struct Registry {
    pub feeds: Vec<Feed>,
    pub operators: Vec<Operator>,
}

/// The feeds that one operator publishes through.
#[derive(Debug, Clone)]
pub struct OperatorFeeds {
    pub operator_id: String,
    pub feeds: Vec<FeedPairInfo>,
}

/// The operators that publish through one feed.
#[derive(Debug, Clone)]
pub struct FeedOperators {
    pub feed_onestop_id: String,
    pub operators: Vec<OperatorPairInfo>,
}

/// A relationship entry in the abstract: the id on the other side, and the
/// agency id.
pub type PairView = (Seq<char>, Option<Seq<char>>);

/// An index in the abstract: for each key in order of first appearance, its
/// entries in order of insertion.
pub type IndexView = Seq<(Seq<char>, Seq<PairView>)>;

pub open spec fn opt_view(o: Option<String>) -> Option<Seq<char>> {
    match o {
        Some(s) => Some(s@),
        None => None,
    }
}

impl View for FeedPairInfo {
    type V = PairView;

    open spec fn view(&self) -> PairView {
        (self.feed_onestop_id@, opt_view(self.gtfs_agency_id))
    }
}

impl View for OperatorPairInfo {
    type V = PairView;

    open spec fn view(&self) -> PairView {
        (self.operator_id@, opt_view(self.gtfs_agency_id))
    }
}

impl View for OperatorFeeds {
    type V = (Seq<char>, Seq<PairView>);

    open spec fn view(&self) -> (Seq<char>, Seq<PairView>) {
        (self.operator_id@, self.feeds@.map_values(|p: FeedPairInfo| p@))
    }
}

impl View for FeedOperators {
    type V = (Seq<char>, Seq<PairView>);

    open spec fn view(&self) -> (Seq<char>, Seq<PairView>) {
        (self.feed_onestop_id@, self.operators@.map_values(|p: OperatorPairInfo| p@))
    }
}

pub open spec fn operator_index_view(ix: Seq<OperatorFeeds>) -> IndexView {
    ix.map_values(|e: OperatorFeeds| e@)
}

pub open spec fn feed_index_view(ix: Seq<FeedOperators>) -> IndexView {
    ix.map_values(|e: FeedOperators| e@)
}

/// Whether `key` has an entry in the index.
pub open spec fn has_key(ix: IndexView, key: Seq<char>) -> bool {
    exists|i: int| 0 <= i < ix.len() && ix[i].0 == key
}

/// Whether the entries hold one for `id`.
pub open spec fn lists_id(items: Seq<PairView>, id: Seq<char>) -> bool {
    exists|j: int| 0 <= j < items.len() && items[j].0 == id
}

/// Whether the pair `(key, id)` stands in the index with agency id `a`.
pub open spec fn has_pair(ix: IndexView, key: Seq<char>, id: Seq<char>, a: Option<Seq<char>>) -> bool {
    exists|i: int, j: int|
        0 <= i < ix.len() && ix[i].0 == key && 0 <= j < ix[i].1.len() && ix[i].1[j] == (id, a)
}

/// Whether the pair `(key, id)` stands in the index, whatever its agency id.
pub open spec fn links(ix: IndexView, key: Seq<char>, id: Seq<char>) -> bool {
    exists|a: Option<Seq<char>>| has_pair(ix, key, id, a)
}

/// No key stands twice, and under each key no id stands twice.
pub open spec fn index_wf(ix: IndexView) -> bool {
    &&& forall|i: int, k: int| 0 <= i < k < ix.len() ==> ix[i].0 != ix[k].0
    &&& forall|i: int, j: int, l: int|
        0 <= i < ix.len() && 0 <= j < l < ix[i].1.len() ==> ix[i].1[j].0 != ix[i].1[l].0
}

/// The index after the relationship `(key, id)` with agency id `a` is
/// recorded: nothing changes where the pair is already there (whatever its
/// agency id); otherwise the entry is appended under the key, which is added
/// at the end when it is new.
pub open spec fn add_pair(ix: IndexView, key: Seq<char>, id: Seq<char>, a: Option<Seq<char>>) -> IndexView {
    if has_key(ix, key) {
        let i = choose|i: int| 0 <= i < ix.len() && ix[i].0 == key;
        if lists_id(ix[i].1, id) {
            ix
        } else {
            ix.update(i, (key, ix[i].1.push((id, a))))
        }
    } else {
        ix.push((key, seq![(id, a)]))
    }
}

/// The two indices hold the same relationships: `(o, f, a)` under operator
/// `o` exactly when `(f, o, a)` stands under feed `f`.
pub open spec fn indices_agree(of: IndexView, fo: IndexView) -> bool {
    forall|o: Seq<char>, f: Seq<char>, a: Option<Seq<char>>|
        #[trigger] has_pair(of, o, f, a) <==> #[trigger] has_pair(fo, f, o, a)
}

/// An associated-feed reference in the abstract: feed id, agency id.
pub type RefView = (Option<Seq<char>>, Option<Seq<char>>);

/// An operator in the abstract.
pub struct OperatorView {
    pub onestop_id: Seq<char>,
    pub name: Seq<char>,
    pub associated_feeds: Seq<RefView>,
}

/// A feed in the abstract.
pub struct FeedView {
    pub id: Seq<char>,
    pub name: Option<Seq<char>>,
    pub operators: Seq<OperatorView>,
}

/// A registry document in the abstract.
pub struct RegistryView {
    pub feeds: Seq<FeedView>,
    pub operators: Seq<OperatorView>,
}

impl View for AssociatedFeed {
    type V = RefView;

    open spec fn view(&self) -> RefView {
        (opt_view(self.feed_onestop_id), opt_view(self.gtfs_agency_id))
    }
}

impl View for Operator {
    type V = OperatorView;

    open spec fn view(&self) -> OperatorView {
        OperatorView {
            onestop_id: self.onestop_id@,
            name: self.name@,
            associated_feeds: self.associated_feeds@.map_values(|r: AssociatedFeed| r@),
        }
    }
}

impl View for Feed {
    type V = FeedView;

    open spec fn view(&self) -> FeedView {
        FeedView {
            id: self.id@,
            name: opt_view(self.name),
            operators: self.operators@.map_values(|o: Operator| o@),
        }
    }
}

impl View for Registry {
    type V = RegistryView;

    open spec fn view(&self) -> RegistryView {
        RegistryView {
            feeds: self.feeds@.map_values(|f: Feed| f@),
            operators: self.operators@.map_values(|o: Operator| o@),
        }
    }
}

/// The whole catalog in the abstract: feeds by id and operators by id, each
/// in order of first registration, and the two relationship indices.
pub struct CatalogView {
    pub feeds: Seq<FeedView>,
    pub operators: Seq<OperatorView>,
    pub operator_feeds: IndexView,
    pub feed_operators: IndexView,
}

pub open spec fn has_feed(feeds: Seq<FeedView>, id: Seq<char>) -> bool {
    exists|i: int| 0 <= i < feeds.len() && feeds[i].id == id
}

pub open spec fn has_operator(ops: Seq<OperatorView>, id: Seq<char>) -> bool {
    exists|i: int| 0 <= i < ops.len() && ops[i].onestop_id == id
}

/// Feeds by id under first-write-wins: a feed whose id is there is dropped.
pub open spec fn register_feed(feeds: Seq<FeedView>, f: FeedView) -> Seq<FeedView> {
    if has_feed(feeds, f.id) {
        feeds
    } else {
        feeds.push(f)
    }
}

/// Operators by id under first-write-wins.
pub open spec fn register_operator(ops: Seq<OperatorView>, o: OperatorView) -> Seq<OperatorView> {
    if has_operator(ops, o.onestop_id) {
        ops
    } else {
        ops.push(o)
    }
}

pub open spec fn feeds_unique(feeds: Seq<FeedView>) -> bool {
    forall|i: int, k: int| 0 <= i < k < feeds.len() ==> feeds[i].id != feeds[k].id
}

pub open spec fn operators_unique(ops: Seq<OperatorView>) -> bool {
    forall|i: int, k: int| 0 <= i < k < ops.len() ==> ops[i].onestop_id != ops[k].onestop_id
}

/// The invariant of every catalog: ids unique in both tables, keys and pairs
/// unique in both indices, and the indices in agreement.
pub open spec fn catalog_wf(c: CatalogView) -> bool {
    &&& feeds_unique(c.feeds)
    &&& operators_unique(c.operators)
    &&& index_wf(c.operator_feeds)
    &&& index_wf(c.feed_operators)
    &&& indices_agree(c.operator_feeds, c.feed_operators)
}

pub open spec fn empty_catalog() -> CatalogView {
    CatalogView {
        feeds: Seq::empty(),
        operators: Seq::empty(),
        operator_feeds: Seq::empty(),
        feed_operators: Seq::empty(),
    }
}

/// The feed a reference resolves to: its own feed id, else the parent feed.
pub open spec fn resolve(r: RefView, parent: Option<Seq<char>>) -> Option<Seq<char>> {
    match r.0 {
        Some(f) => Some(f),
        None => parent,
    }
}

/// Records `(o, f)` with agency id `a` in both indices.
pub open spec fn relate(c: CatalogView, o: Seq<char>, f: Seq<char>, a: Option<Seq<char>>) -> CatalogView {
    CatalogView {
        operator_feeds: add_pair(c.operator_feeds, o, f, a),
        feed_operators: add_pair(c.feed_operators, f, o, a),
        ..c
    }
}

/// Records, in order, the relationship of each resolvable reference of
/// operator `o`; a reference that does not resolve is skipped.
pub open spec fn link_refs(c: CatalogView, o: Seq<char>, refs: Seq<RefView>, parent: Option<Seq<char>>) -> CatalogView
    decreases refs.len(),
{
    if refs.len() == 0 {
        c
    } else {
        let c1 = link_refs(c, o, refs.drop_last(), parent);
        match resolve(refs.last(), parent) {
            Some(f) => relate(c1, o, f, refs.last().1),
            None => c1,
        }
    }
}

/// The positions, in order, of the references that do not resolve.
pub open spec fn unresolved_positions(refs: Seq<RefView>, parent: Option<Seq<char>>) -> Seq<int>
    decreases refs.len(),
{
    if refs.len() == 0 {
        Seq::empty()
    } else {
        let p = unresolved_positions(refs.drop_last(), parent);
        if resolve(refs.last(), parent) is None {
            p.push(refs.len() - 1)
        } else {
            p
        }
    }
}

/// Ingesting an operator: register it, then link its references.
pub open spec fn ingest_operator(c: CatalogView, op: OperatorView, parent: Option<Seq<char>>) -> CatalogView {
    link_refs(
        CatalogView { operators: register_operator(c.operators, op), ..c },
        op.onestop_id,
        op.associated_feeds,
        parent,
    )
}

/// Ingesting the operators embedded in feed `f`, in order: each is ingested
/// with `f` as parent and then related to `f` with no agency id.
pub open spec fn ingest_embedded(c: CatalogView, ops: Seq<OperatorView>, f: Seq<char>) -> CatalogView
    decreases ops.len(),
{
    if ops.len() == 0 {
        c
    } else {
        let c1 = ingest_embedded(c, ops.drop_last(), f);
        let op = ops.last();
        relate(ingest_operator(c1, op, Some(f)), op.onestop_id, f, None)
    }
}

/// Ingesting a feed: register it, then its embedded operators.
pub open spec fn ingest_feed(c: CatalogView, f: FeedView) -> CatalogView {
    ingest_embedded(CatalogView { feeds: register_feed(c.feeds, f), ..c }, f.operators, f.id)
}

pub open spec fn ingest_feeds(c: CatalogView, fs: Seq<FeedView>) -> CatalogView
    decreases fs.len(),
{
    if fs.len() == 0 {
        c
    } else {
        ingest_feed(ingest_feeds(c, fs.drop_last()), fs.last())
    }
}

/// Ingesting standalone operators, which have no parent feed.
pub open spec fn ingest_operators(c: CatalogView, ops: Seq<OperatorView>) -> CatalogView
    decreases ops.len(),
{
    if ops.len() == 0 {
        c
    } else {
        ingest_operator(ingest_operators(c, ops.drop_last()), ops.last(), None)
    }
}

/// Ingesting a document: all its feeds, then all its top-level operators.
pub open spec fn ingest_registry(c: CatalogView, d: RegistryView) -> CatalogView {
    ingest_operators(ingest_feeds(c, d.feeds), d.operators)
}

/// Ingesting documents in order.
pub open spec fn ingest_all(c: CatalogView, ds: Seq<RegistryView>) -> CatalogView
    decreases ds.len(),
{
    if ds.len() == 0 {
        c
    } else {
        ingest_registry(ingest_all(c, ds.drop_last()), ds.last())
    }
}

/// The references of standalone operators `ops` that do not resolve, in
/// order, each as the operator's id and the reference's position.
pub open spec fn unresolved_refs(ops: Seq<OperatorView>) -> Seq<(Seq<char>, int)>
    decreases ops.len(),
{
    if ops.len() == 0 {
        Seq::empty()
    } else {
        let op = ops.last();
        unresolved_refs(ops.drop_last()) + unresolved_positions(op.associated_feeds, None).map_values(
            |p: int| (op.onestop_id, p),
        )
    }
}

} // verus!
