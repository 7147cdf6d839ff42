use dmfr_catalog::catalog::{process_feed, process_operator, ReturnDmfrAnalysis};
use dmfr_catalog::model::{AssociatedFeed, Feed, FeedOperators, Operator, OperatorFeeds, Registry};

fn s(x: &str) -> String {
    String::from(x)
}

fn reference(feed: Option<&str>, agency: Option<&str>) -> AssociatedFeed {
    AssociatedFeed { feed_onestop_id: feed.map(s), gtfs_agency_id: agency.map(s) }
}

fn operator(id: &str, refs: Vec<AssociatedFeed>) -> Operator {
    Operator { onestop_id: s(id), name: format!("{} name", id), associated_feeds: refs }
}

fn feed(id: &str, name: Option<&str>, ops: Vec<Operator>) -> Feed {
    Feed { id: s(id), name: name.map(s), operators: ops }
}

fn feeds_of<'a>(c: &'a ReturnDmfrAnalysis, op: &str) -> Option<&'a OperatorFeeds> {
    c.operator_to_feed_hashmap.iter().find(|e| e.operator_id == op)
}

fn operators_of<'a>(c: &'a ReturnDmfrAnalysis, f: &str) -> Option<&'a FeedOperators> {
    c.feed_to_operator_pairs_hashmap.iter().find(|e| e.feed_onestop_id == f)
}

fn pairs_of_operator(c: &ReturnDmfrAnalysis, op: &str) -> Vec<(String, Option<String>)> {
    feeds_of(c, op)
        .map(|e| e.feeds.iter().map(|p| (p.feed_onestop_id.clone(), p.gtfs_agency_id.clone())).collect())
        .unwrap_or_default()
}

fn pairs_of_feed(c: &ReturnDmfrAnalysis, f: &str) -> Vec<(String, Option<String>)> {
    operators_of(c, f)
        .map(|e| e.operators.iter().map(|p| (p.operator_id.clone(), p.gtfs_agency_id.clone())).collect())
        .unwrap_or_default()
}

fn ingest_feed(c: &mut ReturnDmfrAnalysis, f: &Feed) {
    process_feed(
        f,
        &mut c.feed_hashmap,
        &mut c.operator_hashmap,
        &mut c.operator_to_feed_hashmap,
        &mut c.feed_to_operator_pairs_hashmap,
    );
}

fn ingest_operator(c: &mut ReturnDmfrAnalysis, o: &Operator, parent: Option<&str>) -> Vec<usize> {
    process_operator(
        o,
        &mut c.feed_hashmap,
        &mut c.operator_hashmap,
        &mut c.operator_to_feed_hashmap,
        &mut c.feed_to_operator_pairs_hashmap,
        parent,
    )
}

/// A rendering of the whole catalog, to compare two catalogs exactly.
fn render(c: &ReturnDmfrAnalysis) -> String {
    format!(
        "{:?}|{:?}|{:?}|{:?}",
        c.feed_hashmap, c.operator_hashmap, c.operator_to_feed_hashmap, c.feed_to_operator_pairs_hashmap
    )
}

fn sorted_keys(c: &ReturnDmfrAnalysis) -> Vec<Vec<String>> {
    let mut a: Vec<String> = c.feed_hashmap.iter().map(|f| f.id.clone()).collect();
    let mut b: Vec<String> = c.operator_hashmap.iter().map(|o| o.onestop_id.clone()).collect();
    let mut d: Vec<String> = c.operator_to_feed_hashmap.iter().map(|e| e.operator_id.clone()).collect();
    let mut e: Vec<String> = c.feed_to_operator_pairs_hashmap.iter().map(|e| e.feed_onestop_id.clone()).collect();
    a.sort();
    b.sort();
    d.sort();
    e.sort();
    vec![a, b, d, e]
}

fn sample_documents() -> Vec<Registry> {
    vec![
        Registry {
            feeds: vec![
                feed("f-a", Some("A"), vec![operator("o-a", vec![])]),
                feed("f-b", None, vec![operator("o-c", vec![reference(None, Some("7"))])]),
            ],
            operators: vec![operator("o-b", vec![reference(Some("f-a"), Some("42"))])],
        },
        Registry {
            feeds: vec![feed("f-a", Some("A again"), vec![operator("o-d", vec![])])],
            operators: vec![
                operator("o-e", vec![reference(Some("f-z"), None), reference(None, Some("1"))]),
                operator("o-b", vec![reference(Some("f-a"), Some("43"))]),
            ],
        },
    ]
}

fn assert_symmetric_and_unique(c: &ReturnDmfrAnalysis) {
    for e in c.operator_to_feed_hashmap.iter() {
        for (k, p) in e.feeds.iter().enumerate() {
            assert!(e.feeds[k + 1..].iter().all(|q| q.feed_onestop_id != p.feed_onestop_id));
            let back = pairs_of_feed(c, &p.feed_onestop_id);
            assert!(back.contains(&(e.operator_id.clone(), p.gtfs_agency_id.clone())));
        }
    }
    for e in c.feed_to_operator_pairs_hashmap.iter() {
        for (k, p) in e.operators.iter().enumerate() {
            assert!(e.operators[k + 1..].iter().all(|q| q.operator_id != p.operator_id));
            let back = pairs_of_operator(c, &p.operator_id);
            assert!(back.contains(&(e.feed_onestop_id.clone(), p.gtfs_agency_id.clone())));
        }
    }
}

#[test]
fn embedded_operator_is_related_to_its_feed() {
    let mut c = ReturnDmfrAnalysis::new();
    ingest_feed(&mut c, &feed("f-a", None, vec![operator("o-a", vec![])]));
    assert_eq!(c.feed_hashmap.len(), 1);
    assert_eq!(c.feed_hashmap[0].id, "f-a");
    assert_eq!(c.operator_hashmap.len(), 1);
    assert_eq!(c.operator_hashmap[0].onestop_id, "o-a");
    assert_eq!(pairs_of_operator(&c, "o-a"), vec![(s("f-a"), None)]);
    assert_eq!(pairs_of_feed(&c, "f-a"), vec![(s("o-a"), None)]);
}

#[test]
fn standalone_operator_reference_keeps_agency_id() {
    let mut c = ReturnDmfrAnalysis::new();
    ingest_feed(&mut c, &feed("f-a", None, vec![operator("o-a", vec![])]));
    let skipped = ingest_operator(&mut c, &operator("o-b", vec![reference(Some("f-a"), Some("42"))]), None);
    assert!(skipped.is_empty());
    assert_eq!(pairs_of_operator(&c, "o-b"), vec![(s("f-a"), Some(s("42")))]);
    assert_eq!(pairs_of_feed(&c, "f-a"), vec![(s("o-a"), None), (s("o-b"), Some(s("42")))]);
}

#[test]
fn repeated_reference_is_recorded_once() {
    let mut c = ReturnDmfrAnalysis::new();
    ingest_feed(&mut c, &feed("f-a", None, vec![operator("o-a", vec![])]));
    ingest_operator(&mut c, &operator("o-b", vec![reference(Some("f-a"), Some("42"))]), None);
    ingest_operator(&mut c, &operator("o-b", vec![reference(Some("f-a"), Some("42"))]), None);
    ingest_operator(&mut c, &operator("o-b", vec![reference(Some("f-a"), Some("99"))]), None);
    assert_eq!(pairs_of_operator(&c, "o-b"), vec![(s("f-a"), Some(s("42")))]);
    assert_eq!(pairs_of_feed(&c, "f-a"), vec![(s("o-a"), None), (s("o-b"), Some(s("42")))]);
    assert_eq!(c.operator_hashmap.len(), 2);
}

#[test]
fn reference_without_feed_or_parent_is_skipped() {
    let mut c = ReturnDmfrAnalysis::new();
    let doc = Registry {
        feeds: vec![],
        operators: vec![
            operator("o-x", vec![reference(Some("f-1"), None), reference(None, Some("9"))]),
            operator("o-y", vec![reference(Some("f-2"), Some("3"))]),
        ],
    };
    let skipped = c.ingest_registry(&doc);
    assert_eq!(skipped.len(), 1);
    assert_eq!(skipped[0].operator_id, "o-x");
    assert_eq!(skipped[0].position, 1);
    assert_eq!(pairs_of_operator(&c, "o-x"), vec![(s("f-1"), None)]);
    assert_eq!(pairs_of_operator(&c, "o-y"), vec![(s("f-2"), Some(s("3")))]);
    assert_eq!(c.operator_hashmap.len(), 2);
}

#[test]
fn reference_without_feed_uses_parent_feed() {
    let mut c = ReturnDmfrAnalysis::new();
    let skipped = ingest_operator(&mut c, &operator("o-p", vec![reference(None, Some("5"))]), Some("f-p"));
    assert!(skipped.is_empty());
    assert_eq!(pairs_of_operator(&c, "o-p"), vec![(s("f-p"), Some(s("5")))]);
    assert_eq!(pairs_of_feed(&c, "f-p"), vec![(s("o-p"), Some(s("5")))]);
    assert!(c.feed_hashmap.is_empty());
}

#[test]
fn embedded_reference_agency_comes_first() {
    let mut c = ReturnDmfrAnalysis::new();
    ingest_feed(&mut c, &feed("f-b", None, vec![operator("o-c", vec![reference(None, Some("7"))])]));
    assert_eq!(pairs_of_operator(&c, "o-c"), vec![(s("f-b"), Some(s("7")))]);
    assert_eq!(pairs_of_feed(&c, "f-b"), vec![(s("o-c"), Some(s("7")))]);
}

#[test]
fn first_feed_with_an_id_wins() {
    let mut c = ReturnDmfrAnalysis::new();
    ingest_feed(&mut c, &feed("f-x", Some("first"), vec![]));
    ingest_feed(&mut c, &feed("f-x", Some("second"), vec![operator("o-1", vec![])]));
    assert_eq!(c.feed_hashmap.len(), 1);
    assert_eq!(c.feed_hashmap[0].name, Some(s("first")));
    assert!(c.feed_hashmap[0].operators.is_empty());
    assert_eq!(pairs_of_feed(&c, "f-x"), vec![(s("o-1"), None)]);
}

#[test]
fn first_operator_with_an_id_wins() {
    let mut c = ReturnDmfrAnalysis::new();
    ingest_operator(&mut c, &operator("o-1", vec![]), None);
    let mut later = operator("o-1", vec![reference(Some("f-1"), None)]);
    later.name = s("renamed");
    ingest_operator(&mut c, &later, None);
    assert_eq!(c.operator_hashmap.len(), 1);
    assert_eq!(c.operator_hashmap[0].name, "o-1 name");
    assert!(c.operator_hashmap[0].associated_feeds.is_empty());
    assert_eq!(pairs_of_operator(&c, "o-1"), vec![(s("f-1"), None)]);
}

#[test]
fn reingesting_documents_changes_nothing() {
    let docs = sample_documents();
    let mut once = ReturnDmfrAnalysis::new();
    for d in docs.iter() {
        once.ingest_registry(d);
    }
    let mut twice = ReturnDmfrAnalysis::new();
    for d in docs.iter() {
        twice.ingest_registry(d);
    }
    for d in docs.iter() {
        twice.ingest_registry(d);
    }
    assert_eq!(render(&once), render(&twice));
}

#[test]
fn document_order_does_not_change_keys() {
    let docs = sample_documents();
    let mut forward = ReturnDmfrAnalysis::new();
    for d in docs.iter() {
        forward.ingest_registry(d);
    }
    let mut backward = ReturnDmfrAnalysis::new();
    for d in docs.iter().rev() {
        backward.ingest_registry(d);
    }
    assert_eq!(sorted_keys(&forward), sorted_keys(&backward));
    assert_eq!(
        sorted_keys(&forward)[3],
        vec![s("f-a"), s("f-b"), s("f-z")]
    );
    assert_eq!(forward.feed_hashmap.iter().find(|f| f.id == "f-a").unwrap().name, Some(s("A")));
    assert_eq!(backward.feed_hashmap.iter().find(|f| f.id == "f-a").unwrap().name, Some(s("A again")));
}

#[test]
fn built_catalog_is_symmetric_without_duplicates() {
    let mut c = ReturnDmfrAnalysis::new();
    for d in sample_documents().iter() {
        c.ingest_registry(d);
    }
    assert_symmetric_and_unique(&c);
    assert_eq!(pairs_of_operator(&c, "o-b"), vec![(s("f-a"), Some(s("42")))]);
    assert_eq!(pairs_of_operator(&c, "o-e"), vec![(s("f-z"), None)]);
}

#[test]
fn empty_document_leaves_catalog_empty() {
    let mut c = ReturnDmfrAnalysis::new();
    let skipped = c.ingest_registry(&Registry { feeds: vec![], operators: vec![] });
    assert!(skipped.is_empty());
    assert!(c.feed_hashmap.is_empty());
    assert!(c.operator_hashmap.is_empty());
    assert!(c.operator_to_feed_hashmap.is_empty());
    assert!(c.feed_to_operator_pairs_hashmap.is_empty());
}

#[test]
fn copies_keep_contents() {
    let f = feed("f-c", Some("C"), vec![operator("o-c", vec![reference(Some("f-d"), Some("2"))])]);
    let g = f.copied();
    assert_eq!(format!("{:?}", f), format!("{:?}", g));
}
