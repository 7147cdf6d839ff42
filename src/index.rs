use vstd::prelude::*;
use crate::model::{
    add_pair, feed_index_view, has_pair, indices_agree, links, IndexView, has_key, index_wf, lists_id, operator_index_view, opt_view,
    FeedOperators, FeedPairInfo, OperatorFeeds, OperatorPairInfo,
};

verus! {

/// A copy of an optional string.
pub fn clone_opt(o: &Option<String>) -> (r: Option<String>)
    ensures
        r == *o,
        opt_view(r) == opt_view(*o),
{
    match o {
        Some(s) => Some(s.clone()),
        None => None,
    }
}

/// Under a unique key, `choose` finds the one slot that holds it.
pub(crate) proof fn lemma_unique_slot(ix: IndexView, key: Seq<char>, i: int)
    requires
        index_wf(ix),
        0 <= i < ix.len(),
        ix[i].0 == key,
    ensures
        has_key(ix, key),
        (choose|k: int| 0 <= k < ix.len() && ix[k].0 == key) == i,
{
    let k = choose|k: int| 0 <= k < ix.len() && ix[k].0 == key;
    assert(0 <= k < ix.len() && ix[k].0 == key);
    if k < i {
        assert(ix[k].0 != ix[i].0);
    } else if i < k {
        assert(ix[i].0 != ix[k].0);
    }
}

/// The slot of `operator_id` in the operator index, if it has one.
fn find_operator(ix: &Vec<OperatorFeeds>, operator_id: &String) -> (r: Option<usize>)
    ensures
        match r {
            Some(i) => i < ix@.len() && ix@[i as int].operator_id@ == operator_id@,
            None => !has_key(operator_index_view(ix@), operator_id@),
        },
{
    let mut i: usize = 0;
    while i < ix.len()
        invariant
            i <= ix@.len(),
            forall|k: int| 0 <= k < i ==> ix@[k].operator_id@ != operator_id@,
        decreases ix@.len() - i,
    {
        if ix[i].operator_id == *operator_id {
            return Some(i);
        }
        i = i + 1;
    }
    proof {
        let v = operator_index_view(ix@);
        assert forall|k: int| 0 <= k < v.len() implies v[k].0 != operator_id@ by {
            assert(v[k] == ix@[k]@);
        }
    }
    None
}

/// The slot of `feed_id` in the feed index, if it has one.
fn find_feed(ix: &Vec<FeedOperators>, feed_id: &String) -> (r: Option<usize>)
    ensures
        match r {
            Some(i) => i < ix@.len() && ix@[i as int].feed_onestop_id@ == feed_id@,
            None => !has_key(feed_index_view(ix@), feed_id@),
        },
{
    let mut i: usize = 0;
    while i < ix.len()
        invariant
            i <= ix@.len(),
            forall|k: int| 0 <= k < i ==> ix@[k].feed_onestop_id@ != feed_id@,
        decreases ix@.len() - i,
    {
        if ix[i].feed_onestop_id == *feed_id {
            return Some(i);
        }
        i = i + 1;
    }
    proof {
        let v = feed_index_view(ix@);
        assert forall|k: int| 0 <= k < v.len() implies v[k].0 != feed_id@ by {
            assert(v[k] == ix@[k]@);
        }
    }
    None
}

/// Whether an operator's entries already name `feed_id`.
fn lists_feed(items: &Vec<FeedPairInfo>, feed_id: &String) -> (r: bool)
    ensures
        r == lists_id(items@.map_values(|p: FeedPairInfo| p@), feed_id@),
{
    let ghost v = items@.map_values(|p: FeedPairInfo| p@);
    let mut j: usize = 0;
    while j < items.len()
        invariant
            j <= items@.len(),
            v == items@.map_values(|p: FeedPairInfo| p@),
            forall|l: int| 0 <= l < j ==> v[l].0 != feed_id@,
        decreases items@.len() - j,
    {
        if items[j].feed_onestop_id == *feed_id {
            assert(v[j as int].0 == feed_id@);
            return true;
        }
        j = j + 1;
    }
    false
}

/// Whether a feed's entries already name `operator_id`.
fn lists_operator(items: &Vec<OperatorPairInfo>, operator_id: &String) -> (r: bool)
    ensures
        r == lists_id(items@.map_values(|p: OperatorPairInfo| p@), operator_id@),
{
    let ghost v = items@.map_values(|p: OperatorPairInfo| p@);
    let mut j: usize = 0;
    while j < items.len()
        invariant
            j <= items@.len(),
            v == items@.map_values(|p: OperatorPairInfo| p@),
            forall|l: int| 0 <= l < j ==> v[l].0 != operator_id@,
        decreases items@.len() - j,
    {
        if items[j].operator_id == *operator_id {
            assert(v[j as int].0 == operator_id@);
            return true;
        }
        j = j + 1;
    }
    false
}

/// Adding a pair keeps an index free of repeated keys and repeated ids.
pub proof fn lemma_add_pair_wf(ix: IndexView, key: Seq<char>, id: Seq<char>, a: Option<Seq<char>>)
    requires
        index_wf(ix),
    ensures
        index_wf(add_pair(ix, key, id, a)),
{
    let r = add_pair(ix, key, id, a);
    if has_key(ix, key) {
        let i = choose|i: int| 0 <= i < ix.len() && ix[i].0 == key;
        if !lists_id(ix[i].1, id) {
            assert forall|p: int, j: int, l: int|
                0 <= p < r.len() && 0 <= j < l < r[p].1.len() implies r[p].1[j].0 != r[p].1[l].0 by {
                if p == i && l == ix[i].1.len() {
                    assert(r[p].1[j] == ix[i].1[j]);
                }
            }
        }
    } else {
        assert forall|p: int, k: int| 0 <= p < k < r.len() implies r[p].0 != r[k].0 by {
            if k == ix.len() {
                assert(r[p] == ix[p]);
            }
        }
    }
}

/// Which pairs an index holds after one is added: those it held, and the new
/// one where its key and id were not yet paired.
pub proof fn lemma_add_pair_has(
    ix: IndexView,
    key: Seq<char>,
    id: Seq<char>,
    a: Option<Seq<char>>,
    x: Seq<char>,
    y: Seq<char>,
    b: Option<Seq<char>>,
)
    requires
        index_wf(ix),
    ensures
        has_pair(add_pair(ix, key, id, a), x, y, b) <==> (has_pair(ix, x, y, b) || (x == key
            && y == id && b == a && !links(ix, key, id))),
{
    let r = add_pair(ix, key, id, a);
    if has_key(ix, key) {
        let i = choose|i: int| 0 <= i < ix.len() && ix[i].0 == key;
        if lists_id(ix[i].1, id) {
            let j = choose|j: int| 0 <= j < ix[i].1.len() && ix[i].1[j].0 == id;
            assert(has_pair(ix, key, id, ix[i].1[j].1));
        } else {
            if links(ix, key, id) {
                let c = choose|c: Option<Seq<char>>| has_pair(ix, key, id, c);
                let (p, q) = choose|p: int, q: int|
                    0 <= p < ix.len() && ix[p].0 == key && 0 <= q < ix[p].1.len() && ix[p].1[q] == (id, c);
                lemma_unique_slot(ix, key, p);
                assert(ix[i].1[q].0 == id);
            }
            if has_pair(r, x, y, b) {
                let (p, q) = choose|p: int, q: int|
                    0 <= p < r.len() && r[p].0 == x && 0 <= q < r[p].1.len() && r[p].1[q] == (y, b);
                if p != i || q < ix[i].1.len() {
                    assert(ix[p].1[q] == (y, b));
                }
            }
            if has_pair(ix, x, y, b) {
                let (p, q) = choose|p: int, q: int|
                    0 <= p < ix.len() && ix[p].0 == x && 0 <= q < ix[p].1.len() && ix[p].1[q] == (y, b);
                assert(r[p].1[q] == (y, b));
            }
            if x == key && y == id && b == a && !links(ix, key, id) {
                assert(r[i].1[ix[i].1.len() as int] == (y, b));
            }
        }
    } else {
        if links(ix, key, id) {
            let c = choose|c: Option<Seq<char>>| has_pair(ix, key, id, c);
            let (p, q) = choose|p: int, q: int|
                0 <= p < ix.len() && ix[p].0 == key && 0 <= q < ix[p].1.len() && ix[p].1[q] == (id, c);
            assert(false);
        }
        if has_pair(r, x, y, b) {
            let (p, q) = choose|p: int, q: int|
                0 <= p < r.len() && r[p].0 == x && 0 <= q < r[p].1.len() && r[p].1[q] == (y, b);
            if p < ix.len() {
                assert(ix[p].1[q] == (y, b));
            }
        }
        if has_pair(ix, x, y, b) {
            let (p, q) = choose|p: int, q: int|
                0 <= p < ix.len() && ix[p].0 == x && 0 <= q < ix[p].1.len() && ix[p].1[q] == (y, b);
            assert(r[p].1[q] == (y, b));
        }
        if x == key && y == id && b == a {
            assert(r[ix.len() as int].1[0] == (y, b));
        }
    }
}

/// Adding the same relationship to both indices keeps them in agreement.
pub proof fn lemma_add_pair_agree(
    of: IndexView,
    fo: IndexView,
    o: Seq<char>,
    f: Seq<char>,
    a: Option<Seq<char>>,
)
    requires
        index_wf(of),
        index_wf(fo),
        indices_agree(of, fo),
    ensures
        indices_agree(add_pair(of, o, f, a), add_pair(fo, f, o, a)),
{
    assert(links(of, o, f) <==> links(fo, f, o)) by {
        if links(of, o, f) {
            let c = choose|c: Option<Seq<char>>| has_pair(of, o, f, c);
            assert(has_pair(fo, f, o, c));
        }
        if links(fo, f, o) {
            let c = choose|c: Option<Seq<char>>| has_pair(fo, f, o, c);
            assert(has_pair(of, o, f, c));
        }
    }
    assert forall|x: Seq<char>, y: Seq<char>, b: Option<Seq<char>>|
        #[trigger] has_pair(add_pair(of, o, f, a), x, y, b) <==> #[trigger] has_pair(
            add_pair(fo, f, o, a),
            y,
            x,
            b,
        ) by {
        lemma_add_pair_has(of, o, f, a, x, y, b);
        lemma_add_pair_has(fo, f, o, a, y, x, b);
        assert(has_pair(of, x, y, b) <==> has_pair(fo, y, x, b));
    }
}

/// Records the relationship `(operator_id, feed_id)` with agency id `agency`
/// under the operator, unless the pair is there already.
pub fn add_feed_to_operator(
    ix: &mut Vec<OperatorFeeds>,
    operator_id: &String,
    feed_id: &String,
    agency: &Option<String>,
)
    requires
        index_wf(operator_index_view(old(ix)@)),
    ensures
        operator_index_view(final(ix)@) == add_pair(
            operator_index_view(old(ix)@),
            operator_id@,
            feed_id@,
            opt_view(*agency),
        ),
        index_wf(operator_index_view(final(ix)@)),
{
    let ghost v0 = operator_index_view(ix@);
    let ghost a = opt_view(*agency);
    proof {
        lemma_add_pair_wf(v0, operator_id@, feed_id@, a);
    }
    let entry = FeedPairInfo { feed_onestop_id: feed_id.clone(), gtfs_agency_id: clone_opt(agency) };
    match find_operator(ix, operator_id) {
        Some(i) => {
            proof {
                assert(v0[i as int] == ix@[i as int]@);
                lemma_unique_slot(v0, operator_id@, i as int);
            }
            if lists_feed(&ix[i].feeds, feed_id) {
                return;
            }
            let ghost old_items = ix@[i as int].feeds@;
            ix[i].feeds.push(entry);
            proof {
                let v1 = operator_index_view(ix@);
                let target = add_pair(v0, operator_id@, feed_id@, a);
                assert(ix@[i as int].feeds@ == old_items.push(entry));
                assert(ix@[i as int]@.1 =~= v0[i as int].1.push((feed_id@, a)));
                assert forall|k: int| 0 <= k < v1.len() implies v1[k] == target[k] by {
                    if k != i {
                        assert(v1[k] == ix@[k]@);
                    }
                }
                assert(v1 =~= target);
            }
        },
        None => {
            let mut items: Vec<FeedPairInfo> = Vec::new();
            items.push(entry);
            ix.push(OperatorFeeds { operator_id: operator_id.clone(), feeds: items });
            proof {
                let v1 = operator_index_view(ix@);
                assert(ix@.last()@.1 =~= seq![(feed_id@, a)]);
                assert(v1 =~= v0.push((operator_id@, seq![(feed_id@, a)])));
            }
        },
    }
}

/// Records the relationship `(operator_id, feed_id)` with agency id `agency`
/// under the feed, unless the pair is there already.
pub fn add_operator_to_feed(
    ix: &mut Vec<FeedOperators>,
    feed_id: &String,
    operator_id: &String,
    agency: &Option<String>,
)
    requires
        index_wf(feed_index_view(old(ix)@)),
    ensures
        feed_index_view(final(ix)@) == add_pair(
            feed_index_view(old(ix)@),
            feed_id@,
            operator_id@,
            opt_view(*agency),
        ),
        index_wf(feed_index_view(final(ix)@)),
{
    let ghost v0 = feed_index_view(ix@);
    let ghost a = opt_view(*agency);
    proof {
        lemma_add_pair_wf(v0, feed_id@, operator_id@, a);
    }
    let entry = OperatorPairInfo { operator_id: operator_id.clone(), gtfs_agency_id: clone_opt(agency) };
    match find_feed(ix, feed_id) {
        Some(i) => {
            proof {
                assert(v0[i as int] == ix@[i as int]@);
                lemma_unique_slot(v0, feed_id@, i as int);
            }
            if lists_operator(&ix[i].operators, operator_id) {
                return;
            }
            let ghost old_items = ix@[i as int].operators@;
            ix[i].operators.push(entry);
            proof {
                let v1 = feed_index_view(ix@);
                let target = add_pair(v0, feed_id@, operator_id@, a);
                assert(ix@[i as int].operators@ == old_items.push(entry));
                assert(ix@[i as int]@.1 =~= v0[i as int].1.push((operator_id@, a)));
                assert forall|k: int| 0 <= k < v1.len() implies v1[k] == target[k] by {
                    if k != i {
                        assert(v1[k] == ix@[k]@);
                    }
                }
                assert(v1 =~= target);
            }
        },
        None => {
            let mut items: Vec<OperatorPairInfo> = Vec::new();
            items.push(entry);
            ix.push(FeedOperators { feed_onestop_id: feed_id.clone(), operators: items });
            proof {
                let v1 = feed_index_view(ix@);
                assert(ix@.last()@.1 =~= seq![(operator_id@, a)]);
                assert(v1 =~= v0.push((feed_id@, seq![(operator_id@, a)])));
            }
        },
    }
}

} // verus!
