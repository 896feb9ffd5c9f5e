//! Which of the embeddings that a search brings up count as hits, and in what order.

use vstd::prelude::*;

use crate::float_bits::{at_most, is_nan, not_above, rank, rank_of, LARGEST};
use crate::json::{value_as_string, views, Json, Value};
use crate::sorting::{
    arranged, goes_before, is_stable_order, key_ranks, stable_order, stable_order_is_unique,
};
use crate::text::same_text;

verus! {

/// An embedding that a search has brought up: the bit pattern of its distance from the query, its
/// id, and the kind of unit that it stands for.
#[derive(Debug)]
pub struct Hit {
    pub distance: u64,
    pub id: i64,
    pub unit_kind: String,
}

/// The mathematical content of a [`Hit`].
#[verifier::ext_equal]
pub ghost struct HitContent {
    pub distance: u64,
    pub id: i64,
    pub unit_kind: Seq<char>,
}

impl View for Hit {
    type V = HitContent;

    open spec fn view(&self) -> HitContent {
        HitContent { distance: self.distance, id: self.id, unit_kind: self.unit_kind@ }
    }
}

/// The contents of a run of hits.
pub open spec fn hit_views(hits: Seq<Hit>) -> Seq<HitContent> {
    hits.map_values(|h: Hit| h@)
}

/// Units that indexing keeps for itself: they are no content.
pub open spec fn is_bookkeeping(unit_kind: Seq<char>) -> bool {
    unit_kind == "file_path"@ || unit_kind == "video_index_state"@
}

/// What a row says of an embedding. A missing kind is empty, a missing distance is the largest there
/// is, a missing id is -1.
pub open spec fn row_content(row: Json) -> HitContent {
    HitContent {
        distance: match row.float_at("$distance"@) {
            Some(bits) => bits,
            None => LARGEST,
        },
        id: match row.integer_at("$id"@) {
            Some(id) => id,
            None => (-1) as i64,
        },
        unit_kind: match row.text_at("unit_kind"@) {
            Some(kind) => kind,
            None => Seq::empty(),
        },
    }
}

/// A row counts as a hit: it is an object, its unit is content, it has an id, and it is no farther
/// away than the threshold.
pub open spec fn is_hit(row: Json, threshold: u64) -> bool {
    let hit = row_content(row);
    &&& row is Object
    &&& !is_bookkeeping(hit.unit_kind)
    &&& at_most(hit.distance, threshold)
    &&& hit.id >= 0
}

/// The hits among some rows, in the order of the rows.
pub open spec fn hits_in(rows: Seq<Json>, threshold: u64) -> Seq<HitContent>
    decreases rows.len(),
{
    if rows.len() == 0 {
        Seq::empty()
    } else {
        let before = hits_in(rows.drop_last(), threshold);
        if is_hit(rows.last(), threshold) {
            before.push(row_content(rows.last()))
        } else {
            before
        }
    }
}

/// What hits are ordered by.
pub open spec fn distance_ranks(hits: Seq<HitContent>) -> Seq<i64> {
    hits.map_values(|h: HitContent| rank(h.distance) as i64)
}

/// `ranked` is `found` by distance, nearest first; hits at equal distance keep their order.
pub open spec fn is_ranking(found: Seq<HitContent>, ranked: Seq<HitContent>) -> bool {
    exists|order: Seq<usize>| #[trigger]
        is_stable_order(distance_ranks(found), order) && ranked == arranged(found, order)
}

fn bookkeeping(unit_kind: &str) -> (yes: bool)
    ensures
        yes == is_bookkeeping(unit_kind@),
{
    same_text(unit_kind, "file_path") || same_text(unit_kind, "video_index_state")
}

/// The hit that a row stands for, if it counts as one.
pub fn hit_of(row: &Value, threshold: u64) -> (hit: Option<Hit>)
    ensures
        match hit {
            Some(h) => is_hit(row@, threshold) && h@ == row_content(row@),
            None => !is_hit(row@, threshold),
        },
{
    if row.as_object().is_none() {
        return None;
    }
    let unit_kind = match value_as_string(row.get("unit_kind")) {
        Some(kind) => kind,
        None => String::new(),
    };
    if bookkeeping(unit_kind.as_str()) {
        return None;
    }
    let distance = match row.float_at("$distance") {
        Some(bits) => bits,
        None => LARGEST,
    };
    let id = match row.integer_at("$id") {
        Some(id) => id,
        None => -1,
    };
    if not_above(distance, threshold) && id >= 0 {
        let hit = Hit { distance, id, unit_kind };
        assert(hit@ =~= row_content(row@));
        Some(hit)
    } else {
        None
    }
}

/// The hits among some rows, nearest first.
pub fn ranked_hits(rows: &Vec<Value>, threshold: u64) -> (ranked: Vec<Hit>)
    ensures
        is_ranking(hits_in(views(rows@), threshold), hit_views(ranked@)),
{
    let ghost all = views(rows@);
    let mut found: Vec<Hit> = Vec::new();
    let mut keys: Vec<i64> = Vec::new();
    let mut i: usize = 0;
    while i < rows.len()
        invariant
            i <= rows.len(),
            all == views(rows@),
            hit_views(found@) == hits_in(all.take(i as int), threshold),
            keys@ == distance_ranks(hit_views(found@)),
        decreases rows.len() - i,
    {
        let ghost before = found@;
        assert(all.take(i + 1).drop_last() == all.take(i as int));
        assert(all.take(i + 1).last() == rows@[i as int]@);
        if let Some(hit) = hit_of(&rows[i], threshold) {
            keys.push(rank_of(hit.distance));
            found.push(hit);
            assert(hit_views(found@) =~= hit_views(before).push(hit@));
            assert(keys@ =~= distance_ranks(hit_views(found@)));
        }
        i = i + 1;
    }
    assert(all.take(all.len() as int) == all);
    let order = stable_order(&keys);
    assert(key_ranks(keys@) =~= keys@);
    let mut ranked: Vec<Hit> = Vec::new();
    let mut n: usize = 0;
    while n < order.len()
        invariant
            n <= order.len(),
            order.len() == found.len(),
            is_stable_order(keys@, order@),
            keys@.len() == found@.len(),
            hit_views(ranked@) == arranged(hit_views(found@), order@.take(n as int)),
        decreases order.len() - n,
    {
        let hit = &found[order[n]];
        let ghost before = ranked@;
        ranked.push(Hit { distance: hit.distance, id: hit.id, unit_kind: hit.unit_kind.clone() });
        assert(order@.take(n + 1) == order@.take(n as int).push(order@[n as int]));
        assert(hit_views(ranked@) =~= hit_views(before).push(
            hit_views(found@)[order@[n as int] as int],
        ));
        assert(hit_views(ranked@) =~= arranged(hit_views(found@), order@.take(n + 1)));
        n = n + 1;
    }
    assert(order@.take(order@.len() as int) == order@);
    ranked
}

/// The ids of some hits, in order.
pub fn ids_of(hits: &Vec<Hit>) -> (ids: Vec<i64>)
    ensures
        ids@ == hit_views(hits@).map_values(|h: HitContent| h.id),
{
    let mut ids: Vec<i64> = Vec::new();
    let mut i: usize = 0;
    while i < hits.len()
        invariant
            i <= hits.len(),
            ids@.len() == i,
            forall|j: int| 0 <= j < i ==> ids@[j] == hits@[j].id,
        decreases hits.len() - i,
    {
        ids.push(hits[i].id);
        i = i + 1;
    }
    assert(ids@ =~= hit_views(hits@).map_values(|h: HitContent| h.id));
    ids
}

/// Every hit comes from a row that counts, and every row that counts gives a hit.
pub proof fn hits_are_the_rows_that_count(rows: Seq<Json>, threshold: u64)
    ensures
        forall|h: HitContent| #[trigger]
            hits_in(rows, threshold).contains(h) <==> exists|i: int|
                0 <= i < rows.len() && is_hit(#[trigger] rows[i], threshold) && row_content(rows[i])
                    == h,
    decreases rows.len(),
{
    let found = hits_in(rows, threshold);
    if rows.len() > 0 {
        let rest = rows.drop_last();
        let before = hits_in(rest, threshold);
        hits_are_the_rows_that_count(rest, threshold);
        assert forall|h: HitContent| #[trigger] found.contains(h) implies exists|i: int|
            0 <= i < rows.len() && is_hit(#[trigger] rows[i], threshold) && row_content(rows[i])
                == h by {
            let p = choose|p: int| 0 <= p < found.len() && found[p] == h;
            if p < before.len() {
                assert(before[p] == h);
                assert(before.contains(h));
                let i = choose|i: int|
                    0 <= i < rest.len() && is_hit(#[trigger] rest[i], threshold) && row_content(
                        rest[i],
                    ) == h;
                assert(rows[i] == rest[i]);
            } else {
                assert(rows[rows.len() - 1] == rows.last());
            }
        }
        assert forall|h: HitContent|
            (exists|i: int|
                0 <= i < rows.len() && is_hit(#[trigger] rows[i], threshold) && row_content(rows[i])
                    == h) implies #[trigger] found.contains(h) by {
            let i = choose|i: int|
                0 <= i < rows.len() && is_hit(#[trigger] rows[i], threshold) && row_content(rows[i])
                    == h;
            if i < rest.len() {
                assert(rest[i] == rows[i]);
                assert(before.contains(h));
                let p = choose|p: int| 0 <= p < before.len() && before[p] == h;
                assert(found[p] == h);
            } else {
                assert(found[before.len() as int] == h);
            }
        }
    }
}

/// The best match comes first: distances never fall along a ranking.
pub proof fn ranking_is_by_distance(found: Seq<HitContent>, ranked: Seq<HitContent>)
    requires
        is_ranking(found, ranked),
    ensures
        ranked.len() == found.len(),
        forall|p: int, q: int|
            #![trigger ranked[p], ranked[q]]
            0 <= p < q < ranked.len() ==> rank(ranked[p].distance) <= rank(ranked[q].distance),
{
    let order = choose|order: Seq<usize>| #[trigger]
        is_stable_order(distance_ranks(found), order) && ranked == arranged(found, order);
    assert forall|p: int, q: int|
        #![trigger ranked[p], ranked[q]]
        0 <= p < q < ranked.len() implies rank(ranked[p].distance) <= rank(ranked[q].distance) by {
        assert(goes_before(distance_ranks(found), order[p] as int, order[q] as int));
    }
}

/// A ranking holds the hits that it was made from.
pub proof fn ranking_keeps_the_hits(found: Seq<HitContent>, ranked: Seq<HitContent>, h: HitContent)
    requires
        is_ranking(found, ranked),
        found.len() <= usize::MAX,
    ensures
        ranked.contains(h) <==> found.contains(h),
{
    let order = choose|order: Seq<usize>| #[trigger]
        is_stable_order(distance_ranks(found), order) && ranked == arranged(found, order);
    if ranked.contains(h) {
        let p = choose|p: int| 0 <= p < ranked.len() && ranked[p] == h;
        assert(found[order[p] as int] == h);
    }
    if found.contains(h) {
        let i = choose|i: int| 0 <= i < found.len() && found[i] == h;
        crate::sorting::stable_order_is_complete(distance_ranks(found), order, i as usize);
        let p = choose|p: int| 0 <= p < order.len() && order[p] == i as usize;
        assert(ranked[p] == h);
    }
}

/// The same hits have one ranking only.
pub proof fn ranking_is_unique(
    found: Seq<HitContent>,
    one: Seq<HitContent>,
    two: Seq<HitContent>,
)
    requires
        is_ranking(found, one),
        is_ranking(found, two),
    ensures
        one == two,
{
    let keys = distance_ranks(found);
    let first = choose|order: Seq<usize>| #[trigger]
        is_stable_order(keys, order) && one == arranged(found, order);
    let second = choose|order: Seq<usize>| #[trigger]
        is_stable_order(keys, order) && two == arranged(found, order);
    stable_order_is_unique(keys, first, second);
}

/// A wider threshold loses no hit.
pub proof fn wider_threshold_keeps_hits(row: Json, narrow: u64, wide: u64)
    requires
        at_most(narrow, wide),
        is_hit(row, narrow),
    ensures
        is_hit(row, wide),
{
}

/// A threshold that is no number lets nothing through.
pub proof fn no_number_lets_nothing_through(rows: Seq<Json>, threshold: u64)
    requires
        is_nan(threshold),
    ensures
        hits_in(rows, threshold).len() == 0,
    decreases rows.len(),
{
    if rows.len() > 0 {
        no_number_lets_nothing_through(rows.drop_last(), threshold);
    }
}

/// The kinds of units that are kept out of a search are these two and no others.
pub proof fn bookkeeping_is_two_kinds(unit_kind: Seq<char>)
    ensures
        is_bookkeeping(unit_kind) <==> unit_kind == "file_path"@ || unit_kind
            == "video_index_state"@,
{
}

/// The hits among two runs of rows are those of the one, then those of the other.
pub proof fn hits_come_run_by_run(one: Seq<Json>, two: Seq<Json>, threshold: u64)
    ensures
        hits_in(Seq::<Json>::empty(), threshold) == Seq::<HitContent>::empty(),
        hits_in(one + two, threshold) == hits_in(one, threshold) + hits_in(two, threshold),
    decreases two.len(),
{
    if two.len() == 0 {
        assert(one + two =~= one);
    } else {
        assert((one + two).drop_last() =~= one + two.drop_last());
        hits_come_run_by_run(one, two.drop_last(), threshold);
    }
    assert(hits_in(one + two, threshold) =~= hits_in(one, threshold) + hits_in(two, threshold));
}

/// A row gives a hit exactly where it is an object whose `unit_kind` is neither `file_path` nor
/// `video_index_state`, whose `$id` is an integer and not negative, and whose `$distance` is at most
/// the threshold; a row without a distance is as far away as can be. The hit tells what stands there.
pub proof fn row_gives_a_hit_where_it_counts(row: Json, threshold: u64, id: i64, distance: u64)
    requires
        row.integer_at("$id"@) == Some(id) || (row.integer_at("$id"@) is None && id == -1),
        row.float_at("$distance"@) == Some(distance) || (row.float_at("$distance"@) is None
            && distance == 0x7FEF_FFFF_FFFF_FFFF),
    ensures
        ({
            let counts = {
                &&& row is Object
                &&& row.text_at("unit_kind"@) != Some("file_path"@)
                &&& row.text_at("unit_kind"@) != Some("video_index_state"@)
                &&& id >= 0
                &&& at_most(distance, threshold)
            };
            let unit_kind = match row.text_at("unit_kind"@) {
                Some(kind) => kind,
                None => Seq::empty(),
            };
            &&& is_hit(row, threshold) == counts
            &&& counts ==> row_content(row) == (HitContent { distance, id, unit_kind })
            &&& hits_in(seq![row], threshold) == if counts {
                seq![HitContent { distance, id, unit_kind }]
            } else {
                Seq::empty()
            }
        }),
{
    reveal_strlit("file_path");
    reveal_strlit("video_index_state");
    let one = seq![row];
    assert(one.last() == row);
    assert(one.drop_last() =~= Seq::<Json>::empty());
    assert(hits_in(one.drop_last(), threshold) =~= Seq::<HitContent>::empty());
    let empty_kind: Seq<char> = Seq::empty();
    assert("file_path"@.len() > 0 && "video_index_state"@.len() > 0);
    assert(empty_kind != "file_path"@ && empty_kind != "video_index_state"@);
    assert(Seq::<HitContent>::empty().push(row_content(row)) =~= seq![row_content(row)]);
}

/// Content within the threshold is found, whatever its kind is called and whatever else was brought
/// up.
pub proof fn content_within_the_threshold_is_found(
    rows: Seq<Json>,
    threshold: u64,
    i: int,
    id: i64,
    distance: u64,
    unit_kind: Seq<char>,
)
    requires
        0 <= i < rows.len(),
        rows[i].text_at("unit_kind"@) == Some(unit_kind),
        unit_kind != "file_path"@,
        unit_kind != "video_index_state"@,
        rows[i].integer_at("$id"@) == Some(id),
        id >= 0,
        rows[i].float_at("$distance"@) == Some(distance),
        at_most(distance, threshold),
    ensures
        hits_in(rows, threshold).contains(HitContent { distance, id, unit_kind }),
{
    hits_are_the_rows_that_count(rows, threshold);
    assert(is_hit(rows[i], threshold) && row_content(rows[i]) == HitContent {
        distance,
        id,
        unit_kind,
    });
}

/// A ranking is the hits put in another order: each once, those with the smaller distance before the
/// others, and those at equal distance as they stood.
pub proof fn ranking_is_a_stable_order(found: Seq<HitContent>, ranked: Seq<HitContent>)
    requires
        is_ranking(found, ranked),
        found.len() <= usize::MAX,
    ensures
        exists|order: Seq<usize>|
            #![trigger order.len()]
            {
                &&& order.len() == found.len()
                &&& ranked.len() == found.len()
                &&& forall|p: int|
                    0 <= p < order.len() ==> #[trigger] order[p] < found.len() && ranked[p]
                        == found[order[p] as int]
                &&& forall|i: usize| 0 <= i < found.len() ==> #[trigger] order.contains(i)
                &&& forall|p: int, q: int|
                    #![trigger order[p], order[q]]
                    0 <= p < q < order.len() ==> {
                        ||| rank(ranked[p].distance) < rank(ranked[q].distance)
                        ||| rank(ranked[p].distance) == rank(ranked[q].distance) && order[p]
                            < order[q]
                    }
            },
{
    let keys = distance_ranks(found);
    let order = choose|order: Seq<usize>| #[trigger]
        is_stable_order(keys, order) && ranked == arranged(found, order);
    assert forall|p: int| 0 <= p < order.len() implies #[trigger] order[p] < found.len()
        && ranked[p] == found[order[p] as int] by {}
    assert forall|i: usize| 0 <= i < found.len() implies #[trigger] order.contains(i) by {
        crate::sorting::stable_order_is_complete(keys, order, i);
    }
    assert forall|p: int, q: int|
        #![trigger order[p], order[q]]
        0 <= p < q < order.len() implies {
        ||| rank(ranked[p].distance) < rank(ranked[q].distance)
        ||| rank(ranked[p].distance) == rank(ranked[q].distance) && order[p] < order[q]
    } by {
        assert(goes_before(keys, order[p] as int, order[q] as int));
        assert(keys[order[p] as int] == rank(ranked[p].distance));
        assert(keys[order[q] as int] == rank(ranked[q].distance));
    }
}

/// The content of hits is what their fields hold.
pub proof fn hit_contents_are_the_fields(hits: Seq<Hit>, i: int)
    requires
        0 <= i < hits.len(),
    ensures
        hit_views(hits).len() == hits.len(),
        hit_views(hits)[i].distance == hits[i].distance,
        hit_views(hits)[i].id == hits[i].id,
        hit_views(hits)[i].unit_kind == hits[i].unit_kind@,
{
}

} // verus!
