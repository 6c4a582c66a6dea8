//! The aggregation engine: folds raw watch events into deduplicated
//! per-video records and a global watch timeline.

use vstd::prelude::*;

use crate::schema::{filter_matches, item_wf, sorted_asc, Metadata, MetadataView};
use crate::schema::{FilterView, MetadataFilter, Order};
use crate::pagination::Pagination;
use crate::v1::{Schema, SchemaView};

verus! {

broadcast use vstd::seq_lib::group_to_multiset_ensures, vstd::seq_lib::group_filter_ensures;

/// The views of a sequence of records.
pub open spec fn views_of(items: Seq<Metadata>) -> Seq<MetadataView> {
    items.map_values(|m: Metadata| m@)
}

/// The views of a sequence of raw events.
pub open spec fn event_views(records: Seq<Schema>) -> Seq<SchemaView> {
    records.map_values(|r: Schema| r@)
}

/// The timestamps of a vector of times, as mathematical integers.
pub open spec fn times(v: Seq<i64>) -> Seq<int> {
    v.map_values(|t: i64| t as int)
}

/// Every watch time in a raw event sequence, in event order.
pub open spec fn all_times(rs: Seq<SchemaView>) -> Seq<int> {
    rs.map_values(|r: SchemaView| r.time)
}

/// The watch times of the raw events carrying identifier `id`, in
/// event order.
pub open spec fn times_of(rs: Seq<SchemaView>, id: Seq<char>) -> Seq<int> {
    rs.filter(|r: SchemaView| r.id == id).map_values(|r: SchemaView| r.time)
}

/// Some raw event carries identifier `id`.
pub open spec fn has_id(rs: Seq<SchemaView>, id: Seq<char>) -> bool {
    exists|k: int| 0 <= k < rs.len() && rs[k].id == id
}

/// The first raw event carrying identifier `id`.
pub open spec fn first_with(rs: Seq<SchemaView>, id: Seq<char>) -> SchemaView
    decreases rs.len(),
{
    if rs.len() == 0 {
        arbitrary()
    } else if rs[0].id == id {
        rs[0]
    } else {
        first_with(rs.drop_first(), id)
    }
}

/// Some aggregated record carries identifier `id`.
pub open spec fn id_present(items: Seq<MetadataView>, id: Seq<char>) -> bool {
    exists|i: int| 0 <= i < items.len() && items[i].id == id
}

/// Descending order of earliest watch time, duplicates allowed.
pub open spec fn sorted_desc(items: Seq<MetadataView>) -> bool {
    forall|i: int, j: int|
        0 <= i <= j < items.len() ==> items[i].watched_at >= items[j].watched_at
}

/// No two aggregated records share an identifier.
pub open spec fn distinct_ids(items: Seq<MetadataView>) -> bool {
    forall|i: int, j: int| 0 <= i < j < items.len() ==> items[i].id != items[j].id
}

/// One aggregated record correctly summarizes the raw events carrying
/// its identifier: the watch count is their number, the timeline holds
/// exactly their times, and title and channel come from the first of
/// them.
pub open spec fn item_summarizes(m: MetadataView, rs: Seq<SchemaView>) -> bool {
    &&& has_id(rs, m.id)
    &&& m.watch_count == times_of(rs, m.id).len()
    &&& m.watch_timeline.to_multiset() == times_of(rs, m.id).to_multiset()
    &&& m.title == first_with(rs, m.id).title
    &&& m.channel == first_with(rs, m.id).channel
}

proof fn lemma_filter_push(rs: Seq<SchemaView>, r: SchemaView, pred: spec_fn(SchemaView) -> bool)
    ensures
        pred(r) ==> rs.push(r).filter(pred) == rs.filter(pred).push(r),
        !pred(r) ==> rs.push(r).filter(pred) == rs.filter(pred),
{
    assert(rs.push(r) =~= rs + seq![r]);
    Seq::filter_distributes_over_add(rs, seq![r], pred);
    assert(seq![r].filter(pred) == if pred(r) {
        seq![r]
    } else {
        Seq::<SchemaView>::empty()
    }) by {
        reveal_with_fuel(Seq::filter, 2);
        assert(seq![r].drop_last() =~= Seq::<SchemaView>::empty());
        assert(seq![r].last() == r);
    };
    if pred(r) {
        assert(rs.filter(pred) + seq![r] =~= rs.filter(pred).push(r));
    } else {
        assert(rs.filter(pred) + Seq::<SchemaView>::empty() =~= rs.filter(pred));
    }
}

proof fn lemma_times_of_push(rs: Seq<SchemaView>, r: SchemaView, id: Seq<char>)
    ensures
        r.id == id ==> times_of(rs.push(r), id) == times_of(rs, id).push(r.time),
        r.id != id ==> times_of(rs.push(r), id) == times_of(rs, id),
{
    let pred = |x: SchemaView| x.id == id;
    lemma_filter_push(rs, r, pred);
    if r.id == id {
        assert(times_of(rs.push(r), id) =~= times_of(rs, id).push(r.time));
    } else {
        assert(times_of(rs.push(r), id) =~= times_of(rs, id));
    }
}

proof fn lemma_all_times_push(rs: Seq<SchemaView>, r: SchemaView)
    ensures
        all_times(rs.push(r)) == all_times(rs).push(r.time),
{
    assert(all_times(rs.push(r)) =~= all_times(rs).push(r.time));
}

proof fn lemma_first_with_push(rs: Seq<SchemaView>, r: SchemaView, id: Seq<char>)
    ensures
        has_id(rs, id) ==> first_with(rs.push(r), id) == first_with(rs, id),
        !has_id(rs, id) && r.id == id ==> first_with(rs.push(r), id) == r,
    decreases rs.len(),
{
    if rs.len() == 0 {
        assert(!has_id(rs, id));
        if r.id == id {
            assert(rs.push(r)[0] == r);
        }
    } else {
        assert(rs.push(r)[0] == rs[0]);
        if rs[0].id == id {
            assert(has_id(rs, id));
        } else {
            assert(rs.push(r).drop_first() =~= rs.drop_first().push(r));
            lemma_first_with_push(rs.drop_first(), r, id);
            assert(has_id(rs, id) == has_id(rs.drop_first(), id)) by {
                if has_id(rs, id) {
                    let k = choose|k: int| 0 <= k < rs.len() && rs[k].id == id;
                    assert(k >= 1);
                    assert(rs.drop_first()[k - 1].id == id);
                }
                if has_id(rs.drop_first(), id) {
                    let k = choose|k: int|
                        0 <= k < rs.drop_first().len() && rs.drop_first()[k].id == id;
                    assert(rs[k + 1].id == id);
                }
            };
        }
    }
}

proof fn lemma_no_id_no_times(rs: Seq<SchemaView>, id: Seq<char>)
    requires
        !has_id(rs, id),
    ensures
        times_of(rs, id) == Seq::<int>::empty(),
    decreases rs.len(),
{
    let pred = |x: SchemaView| x.id == id;
    if rs.len() == 0 {
        assert(rs.filter(pred) =~= Seq::<SchemaView>::empty());
        assert(times_of(rs, id) =~= Seq::<int>::empty());
    } else {
        assert(!has_id(rs.drop_last(), id)) by {
            if has_id(rs.drop_last(), id) {
                let k = choose|k: int|
                    0 <= k < rs.drop_last().len() && rs.drop_last()[k].id == id;
                assert(rs[k].id == id);
            }
        };
        lemma_no_id_no_times(rs.drop_last(), id);
        assert(!pred(rs.last()));
        assert(rs =~= rs.drop_last().push(rs.last()));
        lemma_filter_push(rs.drop_last(), rs.last(), pred);
        assert(times_of(rs, id) =~= Seq::<int>::empty());
    }
}

/// Insert a timestamp into an ascending timeline, keeping it ascending.
fn insert_time(v: &mut Vec<i64>, x: i64)
    requires
        sorted_asc(times(old(v)@)),
        old(v)@.len() < usize::MAX,
    ensures
        final(v)@.len() == old(v)@.len() + 1,
        sorted_asc(times(final(v)@)),
        times(final(v)@).to_multiset() == times(old(v)@).to_multiset().insert(x as int),
        final(v)@[0] == (if old(v)@.len() == 0 {
            x
        } else if x < old(v)@[0] {
            x
        } else {
            old(v)@[0]
        }),
{
    let ghost s = v@;
    let mut pos: usize = 0;
    while pos < v.len() && v[pos] <= x
        invariant
            pos <= v@.len(),
            v@ == s,
            forall|i: int| 0 <= i < pos ==> s[i] <= x,
        decreases v@.len() - pos,
    {
        pos += 1;
    }
    v.insert(pos, x);
    proof {
        assert(v@ == s.insert(pos as int, x));
        assert(times(v@) =~= times(s).insert(pos as int, x as int));
        assert forall|i: int| pos <= i < s.len() implies s[i] > x by {
            assert(s[pos as int] > x);
            assert(times(s)[pos as int] <= times(s)[i]);
            assert(times(s)[i] == s[i] as int);
        };
        assert(sorted_asc(times(v@))) by {
            assert(forall|i: int| 0 <= i < pos ==> times(v@)[i] == s[i] as int);
            assert(times(v@)[pos as int] == x as int);
            assert(forall|i: int|
                pos < i < times(v@).len() ==> times(v@)[i] == s[i - 1] as int);
        };
    }
}

/// Index of the record carrying `id`, if one does.
fn find_by_id(items: &Vec<Metadata>, id: &String) -> (r: Option<usize>)
    ensures
        match r {
            Some(j) => 0 <= j < items@.len() && items@[j as int].id@ == id@,
            None => forall|i: int| 0 <= i < items@.len() ==> views_of(items@)[i].id != id@,
        },
{
    let mut i: usize = 0;
    while i < items.len()
        invariant
            i <= items@.len(),
            forall|k: int| 0 <= k < i ==> views_of(items@)[k].id != id@,
        decreases items@.len() - i,
    {
        if items[i].id == *id {
            return Some(i);
        }
        i += 1;
    }
    None
}

/// First position whose record was first watched strictly before `t`;
/// inserting at this position keeps the sequence descending.
fn find_desc_pos(items: &Vec<Metadata>, t: i64) -> (pos: usize)
    requires
        sorted_desc(views_of(items@)),
    ensures
        pos <= items@.len(),
        forall|i: int| 0 <= i < pos ==> views_of(items@)[i].watched_at >= t,
        forall|i: int| pos <= i < items@.len() ==> views_of(items@)[i].watched_at < t,
{
    let mut pos: usize = 0;
    while pos < items.len() && items[pos].watched_at >= t
        invariant
            pos <= items@.len(),
            forall|i: int| 0 <= i < pos ==> views_of(items@)[i].watched_at >= t,
        decreases items@.len() - pos,
    {
        pos += 1;
    }
    proof {
        if pos < items@.len() {
            assert forall|i: int| pos <= i < items@.len() implies views_of(items@)[i].watched_at
                < t by {
                assert(views_of(items@)[i].watched_at <= views_of(items@)[pos as int].watched_at);
                assert(views_of(items@)[pos as int].watched_at < t);
            };
        }
    }
    pos
}

proof fn lemma_views_remove(items: Seq<Metadata>, j: int)
    requires
        0 <= j < items.len(),
    ensures
        views_of(items.remove(j)) == views_of(items).remove(j),
{
    items.remove_ensures(j);
    views_of(items).remove_ensures(j);
    assert(views_of(items.remove(j)) =~= views_of(items).remove(j));
}

/// A pointwise property of every record survives removing one.
proof fn lemma_all_remove(s: Seq<MetadataView>, j: int, p: spec_fn(MetadataView) -> bool)
    requires
        0 <= j < s.len(),
        forall|i: int| 0 <= i < s.len() ==> p(#[trigger] s[i]),
    ensures
        forall|i: int| 0 <= i < s.remove(j).len() ==> p(#[trigger] s.remove(j)[i]),
{
    s.remove_ensures(j);
}

/// A pointwise property of every record survives inserting one that has it.
proof fn lemma_all_insert(s: Seq<MetadataView>, pos: int, m: MetadataView, p: spec_fn(
    MetadataView,
) -> bool)
    requires
        0 <= pos <= s.len(),
        forall|i: int| 0 <= i < s.len() ==> p(#[trigger] s[i]),
        p(m),
    ensures
        forall|i: int| 0 <= i < s.insert(pos, m).len() ==> p(#[trigger] s.insert(pos, m)[i]),
{
    s.insert_ensures(pos, m);
    assert forall|i: int| 0 <= i < s.insert(pos, m).len() implies p(
        #[trigger] s.insert(pos, m)[i],
    ) by {
        if i < pos {
            assert(s.insert(pos, m)[i] == s[i]);
        } else if i == pos {
            assert(s.insert(pos, m)[i] == m);
        } else {
            assert(s.insert(pos, m)[i] == s[i - 1]);
        }
    };
}

proof fn lemma_sorted_remove(s: Seq<MetadataView>, j: int)
    requires
        0 <= j < s.len(),
        sorted_desc(s),
    ensures
        sorted_desc(s.remove(j)),
{
    s.remove_ensures(j);
    assert forall|a: int, b: int|
        0 <= a <= b < s.remove(j).len() implies s.remove(j)[a].watched_at >= s.remove(
        j,
    )[b].watched_at by {
        let a2 = if a < j {
            a
        } else {
            a + 1
        };
        let b2 = if b < j {
            b
        } else {
            b + 1
        };
        assert(s.remove(j)[a] == s[a2]);
        assert(s.remove(j)[b] == s[b2]);
    };
}

proof fn lemma_distinct_remove(s: Seq<MetadataView>, j: int)
    requires
        0 <= j < s.len(),
        distinct_ids(s),
    ensures
        distinct_ids(s.remove(j)),
        forall|i: int| 0 <= i < s.remove(j).len() ==> (#[trigger] s.remove(j)[i]).id != s[j].id,
{
    s.remove_ensures(j);
    assert forall|a: int, b: int| 0 <= a < b < s.remove(j).len() implies s.remove(j)[a].id
        != s.remove(j)[b].id by {
        let a2 = if a < j {
            a
        } else {
            a + 1
        };
        let b2 = if b < j {
            b
        } else {
            b + 1
        };
        assert(s.remove(j)[a] == s[a2]);
        assert(s.remove(j)[b] == s[b2]);
    };
    assert forall|i: int| 0 <= i < s.remove(j).len() implies (#[trigger] s.remove(j)[i]).id
        != s[j].id by {
        let i2 = if i < j {
            i
        } else {
            i + 1
        };
        assert(s.remove(j)[i] == s[i2]);
    };
}

proof fn lemma_distinct_insert(s: Seq<MetadataView>, pos: int, m: MetadataView)
    requires
        0 <= pos <= s.len(),
        distinct_ids(s),
        forall|i: int| 0 <= i < s.len() ==> (#[trigger] s[i]).id != m.id,
    ensures
        distinct_ids(s.insert(pos, m)),
{
    s.insert_ensures(pos, m);
    assert forall|a: int, b: int| 0 <= a < b < s.insert(pos, m).len() implies s.insert(
        pos,
        m,
    )[a].id != s.insert(pos, m)[b].id by {
        if a < pos {
            assert(s.insert(pos, m)[a] == s[a]);
        } else if a == pos {
            assert(s.insert(pos, m)[a] == m);
        } else {
            assert(s.insert(pos, m)[a] == s[a - 1]);
        }
        if b < pos {
            assert(s.insert(pos, m)[b] == s[b]);
        } else if b == pos {
            assert(s.insert(pos, m)[b] == m);
        } else {
            assert(s.insert(pos, m)[b] == s[b - 1]);
        }
    };
}

proof fn lemma_present_insert(s: Seq<MetadataView>, pos: int, m: MetadataView, id: Seq<char>)
    requires
        0 <= pos <= s.len(),
        id_present(s, id) || m.id == id,
    ensures
        id_present(s.insert(pos, m), id),
{
    s.insert_ensures(pos, m);
    if m.id == id {
        assert(s.insert(pos, m)[pos] == m);
    } else {
        let i = choose|i: int| 0 <= i < s.len() && s[i].id == id;
        if i < pos {
            assert(s.insert(pos, m)[i] == s[i]);
        } else {
            assert(s.insert(pos, m)[i + 1] == s[i]);
        }
    }
}

/// Insert a record into a descending sequence, keeping it descending.
fn insert_item(items: &mut Vec<Metadata>, m: Metadata) -> (pos: usize)
    requires
        sorted_desc(views_of(old(items)@)),
        old(items)@.len() < usize::MAX,
    ensures
        pos <= old(items)@.len(),
        final(items)@ == old(items)@.insert(pos as int, m),
        views_of(final(items)@) == views_of(old(items)@).insert(pos as int, m@),
        sorted_desc(views_of(final(items)@)),
{
    let pos = find_desc_pos(items, m.watched_at);
    let ghost pre = items@;
    let ghost mfull = m;
    let ghost mv = m@;
    items.insert(pos, m);
    proof {
        pre.insert_ensures(pos as int, mfull);
        assert(items@ == pre.insert(pos as int, mfull));
        let vold = views_of(pre);
        let vnew = views_of(items@);
        vold.insert_ensures(pos as int, mv);
        assert(vnew =~= vold.insert(pos as int, mv));
        assert forall|a: int, b: int| 0 <= a <= b < vnew.len() implies vnew[a].watched_at
            >= vnew[b].watched_at by {
            if a < pos {
                assert(vnew[a] == vold[a]);
            } else if a == pos {
                assert(vnew[a] == mv);
            } else {
                assert(vnew[a] == vold[a - 1]);
            }
            if b < pos {
                assert(vnew[b] == vold[b]);
            } else if b == pos {
                assert(vnew[b] == mv);
            } else {
                assert(vnew[b] == vold[b - 1]);
            }
        };
    }
    pos
}

/// The aggregated watch-history table, built once at startup and then
/// only read.
pub struct MetadataTable {
    pub(crate) total_count_raw: usize,
    pub(crate) total_count: usize,
    pub(crate) watch_timeline: Vec<i64>,
    pub(crate) data: Vec<Metadata>,
}

impl MetadataTable {
    /// Number of raw watch events ingested.
    pub closed spec fn raw_count(self) -> int {
        self.total_count_raw as int
    }

    /// Number of distinct videos.
    pub closed spec fn item_count(self) -> int {
        self.total_count as int
    }

    /// Every raw watch time, ascending.
    pub closed spec fn timeline(self) -> Seq<int> {
        times(self.watch_timeline@)
    }

    /// The aggregated records, most recently first-watched first.
    pub closed spec fn items(self) -> Seq<MetadataView> {
        views_of(self.data@)
    }

    /// The table invariant: counts agree, the global timeline is
    /// ascending with one entry per raw event, records descend by
    /// earliest watch time, identifiers are unique, and every record is
    /// internally consistent.
    pub open spec fn wf(self) -> bool {
        &&& self.item_count() == self.items().len()
        &&& self.timeline().len() == self.raw_count()
        &&& sorted_asc(self.timeline())
        &&& sorted_desc(self.items())
        &&& distinct_ids(self.items())
        &&& forall|i: int| 0 <= i < self.items().len() ==> item_wf(#[trigger] self.items()[i])
    }

    pub fn total_count_raw(&self) -> (r: usize)
        ensures
            r as int == self.raw_count(),
    {
        self.total_count_raw
    }

    pub fn total_count(&self) -> (r: usize)
        ensures
            r as int == self.item_count(),
    {
        self.total_count
    }

    pub fn watch_timeline(&self) -> (r: Vec<i64>)
        ensures
            times(r@) == self.timeline(),
    {
        let mut out: Vec<i64> = Vec::new();
        let mut i: usize = 0;
        while i < self.watch_timeline.len()
            invariant
                i <= self.watch_timeline@.len(),
                out@ == self.watch_timeline@.take(i as int),
            decreases self.watch_timeline@.len() - i,
        {
            out.push(self.watch_timeline[i]);
            proof {
                assert(out@ =~= self.watch_timeline@.take(i + 1));
            }
            i += 1;
        }
        proof {
            assert(self.watch_timeline@.take(i as int) =~= self.watch_timeline@);
        }
        out
    }

    /// Fold a decoded export into the aggregated table: one record per
    /// distinct video identifier, each counting and timing exactly the
    /// raw events that carry it.
    pub fn build(records: Vec<Schema>) -> (r: MetadataTable)
        ensures
            r.wf(),
            r.raw_count() == records@.len(),
            r.item_count() <= records@.len(),
            r.timeline().to_multiset() == all_times(event_views(records@)).to_multiset(),
            forall|i: int|
                0 <= i < r.items().len() ==> item_summarizes(
                    #[trigger] r.items()[i],
                    event_views(records@),
                ),
            forall|k: int|
                0 <= k < records@.len() ==> id_present(
                    r.items(),
                    (#[trigger] event_views(records@)[k]).id,
                ),
    {
        let ghost rs = event_views(records@);
        let mut data: Vec<Metadata> = Vec::new();
        let mut timeline: Vec<i64> = Vec::new();
        proof {
            assert(rs.take(0) =~= Seq::<SchemaView>::empty());
            assert(times(timeline@) =~= Seq::<int>::empty());
            assert(all_times(rs.take(0)) =~= Seq::<int>::empty());
        }
        let mut n: usize = 0;
        while n < records.len()
            invariant
                rs == event_views(records@),
                n <= records@.len(),
                timeline@.len() == n,
                sorted_asc(times(timeline@)),
                times(timeline@).to_multiset() == all_times(rs.take(n as int)).to_multiset(),
                data@.len() <= n,
                sorted_desc(views_of(data@)),
                distinct_ids(views_of(data@)),
                forall|i: int| 0 <= i < data@.len() ==> item_wf(#[trigger] views_of(data@)[i]),
                forall|i: int|
                    0 <= i < data@.len() ==> item_summarizes(
                        #[trigger] views_of(data@)[i],
                        rs.take(n as int),
                    ),
                forall|k: int| 0 <= k < n ==> id_present(views_of(data@), (#[trigger] rs[k]).id),
            decreases records@.len() - n,
        {
            let rec = &records[n];
            let ghost prs = rs.take(n as int);
            let ghost nrs = rs.take(n as int + 1);
            proof {
                assert(rs[n as int] == records@[n as int]@);
                assert(nrs =~= prs.push(rs[n as int]));
                lemma_all_times_push(prs, rs[n as int]);
            }
            insert_time(&mut timeline, rec.time);
            let found = find_by_id(&data, &rec.id);
            match found {
                Some(j) => {
                    let ghost pre = data@;
                    let ghost vpre = views_of(pre);
                    let mut m = data.remove(j);
                    proof {
                        pre.remove_ensures(j as int);
                        vpre.remove_ensures(j as int);
                        lemma_views_remove(pre, j as int);
                        lemma_sorted_remove(vpre, j as int);
                        lemma_distinct_remove(vpre, j as int);
                        lemma_all_remove(vpre, j as int, |e: MetadataView| item_wf(e));
                        lemma_all_remove(
                            vpre,
                            j as int,
                            |e: MetadataView| item_summarizes(e, prs),
                        );
                        assert(m@ == vpre[j as int]);
                        assert(item_summarizes(m@, prs));
                        assert(times_of(prs, m@.id).len() <= prs.len());
                    }
                    let ghost m0 = m@;
                    if rec.time < m.watched_at {
                        m.watched_at = rec.time;
                    }
                    m.watch_count = m.watch_count + 1;
                    insert_time(&mut m.watch_timeline, rec.time);
                    proof {
                        lemma_times_of_push(prs, rs[n as int], m0.id);
                        lemma_first_with_push(prs, rs[n as int], m0.id);
                        assert(rs[n as int].id == m0.id);
                        assert(times_of(nrs, m0.id) == times_of(prs, m0.id).push(
                            rs[n as int].time,
                        ));
                        assert(m@.id == m0.id);
                        assert(item_wf(m@));
                        assert(has_id(nrs, m0.id)) by {
                            assert(nrs[n as int].id == m0.id);
                        };
                        assert(item_summarizes(m@, nrs));
                    }
                    let ghost vrem = views_of(data@);
                    let ghost mv = m@;
                    let pos = insert_item(&mut data, m);
                    proof {
                        let vnew = views_of(data@);
                        assert(vnew == vrem.insert(pos as int, mv));
                        lemma_all_insert(vrem, pos as int, mv, |e: MetadataView| item_wf(e));
                        assert forall|i: int| 0 <= i < vrem.len() implies item_summarizes(
                            #[trigger] vrem[i],
                            nrs,
                        ) by {
                            assert(item_summarizes(vrem[i], prs));
                            assert(vrem[i].id != m0.id);
                            lemma_times_of_push(prs, rs[n as int], vrem[i].id);
                            lemma_first_with_push(prs, rs[n as int], vrem[i].id);
                            assert(has_id(nrs, vrem[i].id)) by {
                                let k = choose|k: int|
                                    0 <= k < prs.len() && prs[k].id == vrem[i].id;
                                assert(nrs[k] == prs[k]);
                            };
                        };
                        lemma_all_insert(
                            vrem,
                            pos as int,
                            mv,
                            |e: MetadataView| item_summarizes(e, nrs),
                        );
                        lemma_distinct_insert(vrem, pos as int, mv);
                        assert forall|k: int| 0 <= k < n + 1 implies id_present(
                            vnew,
                            (#[trigger] rs[k]).id,
                        ) by {
                            if k < n {
                                if rs[k].id == m0.id {
                                    lemma_present_insert(vrem, pos as int, mv, rs[k].id);
                                } else {
                                    let i = choose|i: int|
                                        0 <= i < vpre.len() && vpre[i].id == rs[k].id;
                                    assert(i != j);
                                    if i < j {
                                        assert(vrem[i] == vpre[i]);
                                    } else {
                                        assert(vrem[i - 1] == vpre[i]);
                                    }
                                    assert(id_present(vrem, rs[k].id));
                                    lemma_present_insert(vrem, pos as int, mv, rs[k].id);
                                }
                            } else {
                                assert(rs[k].id == m0.id);
                                lemma_present_insert(vrem, pos as int, mv, rs[k].id);
                            }
                        };
                    }
                },
                None => {
                    proof {
                        assert(!has_id(prs, rec.id@)) by {
                            if has_id(prs, rec.id@) {
                                let k = choose|k: int| 0 <= k < prs.len() && prs[k].id == rec.id@;
                                assert(rs[k].id == rec.id@);
                                assert(id_present(views_of(data@), rs[k].id));
                            }
                        };
                        lemma_no_id_no_times(prs, rec.id@);
                        lemma_times_of_push(prs, rs[n as int], rec.id@);
                        lemma_first_with_push(prs, rs[n as int], rec.id@);
                    }
                    let mut tl: Vec<i64> = Vec::new();
                    tl.push(rec.time);
                    let m = Metadata {
                        id: rec.id.clone(),
                        title: rec.title.clone(),
                        channel: rec.channel.clone(),
                        watched_at: rec.time,
                        watch_count: 1,
                        watch_timeline: tl,
                    };
                    let ghost vrem = views_of(data@);
                    let ghost mv = m@;
                    proof {
                        assert(mv.watch_timeline =~= seq![rec.time as int]);
                        assert(item_wf(mv));
                        assert(rs[n as int].id == rec.id@);
                        assert(times_of(nrs, mv.id) == times_of(prs, mv.id).push(
                            rs[n as int].time,
                        ));
                        assert(times_of(nrs, mv.id) =~= seq![rec.time as int]);
                        assert(mv.watch_timeline.to_multiset() == times_of(
                            nrs,
                            mv.id,
                        ).to_multiset());
                        assert(has_id(nrs, mv.id)) by {
                            assert(nrs[n as int].id == mv.id);
                        };
                        assert(first_with(nrs, mv.id) == rs[n as int]);
                        assert(item_summarizes(mv, nrs));
                    }
                    let pos = insert_item(&mut data, m);
                    proof {
                        let vnew = views_of(data@);
                        assert(vnew == vrem.insert(pos as int, mv));
                        lemma_all_insert(vrem, pos as int, mv, |e: MetadataView| item_wf(e));
                        assert forall|i: int| 0 <= i < vrem.len() implies item_summarizes(
                            #[trigger] vrem[i],
                            nrs,
                        ) by {
                            assert(item_summarizes(vrem[i], prs));
                            assert(vrem[i].id != rec.id@);
                            lemma_times_of_push(prs, rs[n as int], vrem[i].id);
                            lemma_first_with_push(prs, rs[n as int], vrem[i].id);
                            assert(has_id(nrs, vrem[i].id)) by {
                                let k = choose|k: int|
                                    0 <= k < prs.len() && prs[k].id == vrem[i].id;
                                assert(nrs[k] == prs[k]);
                            };
                        };
                        lemma_all_insert(
                            vrem,
                            pos as int,
                            mv,
                            |e: MetadataView| item_summarizes(e, nrs),
                        );
                        lemma_distinct_insert(vrem, pos as int, mv);
                        assert forall|k: int| 0 <= k < n + 1 implies id_present(
                            vnew,
                            (#[trigger] rs[k]).id,
                        ) by {
                            lemma_present_insert(vrem, pos as int, mv, rs[k].id);
                        };
                    }
                },
            }
            n += 1;
        }
        proof {
            assert(rs.take(records@.len() as int) =~= rs);
        }
        let total_count = data.len();
        MetadataTable { total_count_raw: n, total_count, watch_timeline: timeline, data }
    }
}

/// The records passing every predicate of `f`, in table order.
pub open spec fn matched_views(items: Seq<MetadataView>, f: FilterView) -> Seq<MetadataView>
    decreases items.len(),
{
    if items.len() == 0 {
        Seq::<MetadataView>::empty()
    } else {
        let rest = matched_views(items.drop_last(), f);
        if filter_matches(items.last(), f) {
            rest.push(items.last())
        } else {
            rest
        }
    }
}

/// Filtering never yields more records than it was given.
pub proof fn lemma_matched_len(items: Seq<MetadataView>, f: FilterView)
    ensures
        matched_views(items, f).len() <= items.len(),
    decreases items.len(),
{
    if items.len() > 0 {
        lemma_matched_len(items.drop_last(), f);
    }
}

/// Every record kept by filtering passes the filter.
pub proof fn lemma_matched_pred(items: Seq<MetadataView>, f: FilterView)
    ensures
        forall|i: int|
            0 <= i < matched_views(items, f).len() ==> filter_matches(
                #[trigger] matched_views(items, f)[i],
                f,
            ),
    decreases items.len(),
{
    if items.len() > 0 {
        lemma_matched_pred(items.drop_last(), f);
        let m = matched_views(items, f);
        let rest = matched_views(items.drop_last(), f);
        if filter_matches(items.last(), f) {
            assert(m == rest.push(items.last()));
            assert forall|i: int| 0 <= i < m.len() implies filter_matches(#[trigger] m[i], f) by {
                if i < m.len() - 1 {
                    assert(m[i] == rest[i]);
                } else {
                    assert(m[i] == items.last());
                }
            };
        }
    }
}

/// A lower bound on every earliest watch time survives filtering.
proof fn lemma_matched_lower_bound(items: Seq<MetadataView>, f: FilterView, t: int)
    requires
        forall|k: int| 0 <= k < items.len() ==> (#[trigger] items[k]).watched_at >= t,
    ensures
        forall|i: int|
            0 <= i < matched_views(items, f).len() ==> (#[trigger] matched_views(items, f)[i]).watched_at
                >= t,
    decreases items.len(),
{
    if items.len() > 0 {
        assert(forall|k: int|
            0 <= k < items.drop_last().len() ==> (#[trigger] items.drop_last()[k]).watched_at >= t);
        lemma_matched_lower_bound(items.drop_last(), f, t);
        let m = matched_views(items, f);
        let rest = matched_views(items.drop_last(), f);
        if filter_matches(items.last(), f) {
            assert(m == rest.push(items.last()));
            assert(items.last().watched_at >= t);
            assert forall|i: int| 0 <= i < m.len() implies (#[trigger] m[i]).watched_at >= t by {
                if i < m.len() - 1 {
                    assert(m[i] == rest[i]);
                } else {
                    assert(m[i] == items.last());
                }
            };
        }
    }
}

/// Filtering a sequence that descends by earliest watch time yields one
/// that still descends.
pub proof fn lemma_matched_sorted(items: Seq<MetadataView>, f: FilterView)
    requires
        sorted_desc(items),
    ensures
        sorted_desc(matched_views(items, f)),
    decreases items.len(),
{
    if items.len() > 0 {
        let rest = items.drop_last();
        assert(sorted_desc(rest));
        lemma_matched_sorted(rest, f);
        let last = items.last();
        assert(forall|k: int| 0 <= k < rest.len() ==> (#[trigger] rest[k]).watched_at >= last.watched_at);
        lemma_matched_lower_bound(rest, f, last.watched_at);
        if filter_matches(last, f) {
            let m = matched_views(items, f);
            assert(m == matched_views(rest, f).push(last));
            assert forall|a: int, b: int| 0 <= a <= b < m.len() implies m[a].watched_at
                >= m[b].watched_at by {
                if b < m.len() - 1 {
                    assert(m[a] == matched_views(rest, f)[a]);
                    assert(m[b] == matched_views(rest, f)[b]);
                } else if a < m.len() - 1 {
                    assert(m[a] == matched_views(rest, f)[a]);
                    assert(m[b] == last);
                }
            };
        }
    }
}

impl MetadataTable {
    /// The records passing `filter`, cloned out of the table in order.
    fn collect_matches(&self, filter: &MetadataFilter) -> (r: Vec<Metadata>)
        ensures
            views_of(r@) == matched_views(self.items(), filter@),
    {
        let ghost vs = views_of(self.data@);
        let mut out: Vec<Metadata> = Vec::new();
        proof {
            assert(vs.take(0) =~= Seq::<MetadataView>::empty());
        }
        let mut i: usize = 0;
        while i < self.data.len()
            invariant
                i <= self.data@.len(),
                vs == views_of(self.data@),
                views_of(out@) == matched_views(vs.take(i as int), filter@),
            decreases self.data@.len() - i,
        {
            proof {
                assert(vs.take(i as int + 1).drop_last() =~= vs.take(i as int));
                assert(vs.take(i as int + 1).last() == vs[i as int]);
                assert(vs[i as int] == self.data@[i as int]@);
            }
            let ghost before = views_of(out@);
            if self.data[i].matches_filter(filter) {
                out.push(self.data[i].clone());
                proof {
                    assert(views_of(out@) =~= before.push(self.data@[i as int]@));
                }
            }
            proof {
                assert(views_of(out@) == matched_views(vs.take(i as int + 1), filter@));
            }
            i += 1;
        }
        proof {
            assert(vs.take(self.data@.len() as int) =~= vs);
        }
        out
    }
}

/// Ascending order of watch count, duplicates allowed.
pub open spec fn sorted_asc_by_count(s: Seq<MetadataView>) -> bool {
    forall|i: int, j: int| 0 <= i <= j < s.len() ==> s[i].watch_count <= s[j].watch_count
}

/// The least watch count in a nonempty sequence of records.
pub open spec fn min_count(s: Seq<MetadataView>) -> int
    recommends
        s.len() > 0,
    decreases s.len(),
{
    if s.len() <= 1 {
        s[0].watch_count
    } else {
        let m = min_count(s.drop_last());
        if s.last().watch_count < m {
            s.last().watch_count
        } else {
            m
        }
    }
}

proof fn lemma_min_count(s: Seq<MetadataView>)
    requires
        s.len() > 0,
    ensures
        exists|i: int| 0 <= i < s.len() && (#[trigger] s[i]).watch_count == min_count(s),
        forall|i: int| 0 <= i < s.len() ==> (#[trigger] s[i]).watch_count >= min_count(s),
    decreases s.len(),
{
    if s.len() == 1 {
        assert(s[0].watch_count == min_count(s));
    } else {
        lemma_min_count(s.drop_last());
        let m = min_count(s.drop_last());
        if s.last().watch_count < m {
            assert(s[s.len() - 1].watch_count == min_count(s));
        } else {
            let i = choose|i: int|
                0 <= i < s.drop_last().len() && (#[trigger] s.drop_last()[i]).watch_count == m;
            assert(s[i].watch_count == min_count(s));
        }
        assert forall|i: int| 0 <= i < s.len() implies (#[trigger] s[i]).watch_count >= min_count(
            s,
        ) by {
            if i < s.len() - 1 {
                assert(s[i] == s.drop_last()[i]);
            }
        };
    }
}

/// The records whose watch count is exactly `c`, in order.
pub open spec fn keep_count(s: Seq<MetadataView>, c: int) -> Seq<MetadataView>
    decreases s.len(),
{
    if s.len() == 0 {
        Seq::<MetadataView>::empty()
    } else {
        let rest = keep_count(s.drop_last(), c);
        if s.last().watch_count == c {
            rest.push(s.last())
        } else {
            rest
        }
    }
}

/// The records whose watch count is not `c`, in order.
pub open spec fn drop_count(s: Seq<MetadataView>, c: int) -> Seq<MetadataView>
    decreases s.len(),
{
    if s.len() == 0 {
        Seq::<MetadataView>::empty()
    } else {
        let rest = drop_count(s.drop_last(), c);
        if s.last().watch_count != c {
            rest.push(s.last())
        } else {
            rest
        }
    }
}

proof fn lemma_split_count(s: Seq<MetadataView>, c: int)
    ensures
        keep_count(s, c).len() + drop_count(s, c).len() == s.len(),
        forall|i: int|
            0 <= i < keep_count(s, c).len() ==> (#[trigger] keep_count(s, c)[i]).watch_count == c,
        forall|i: int|
            0 <= i < drop_count(s, c).len() ==> (#[trigger] drop_count(s, c)[i]).watch_count != c,
    decreases s.len(),
{
    if s.len() > 0 {
        lemma_split_count(s.drop_last(), c);
        let k = keep_count(s, c);
        let kr = keep_count(s.drop_last(), c);
        let d = drop_count(s, c);
        let dr = drop_count(s.drop_last(), c);
        assert forall|i: int| 0 <= i < k.len() implies (#[trigger] k[i]).watch_count == c by {
            if s.last().watch_count == c && i == k.len() - 1 {
                assert(k[i] == s.last());
            } else {
                assert(k[i] == kr[i]);
            }
        };
        assert forall|i: int| 0 <= i < d.len() implies (#[trigger] d[i]).watch_count != c by {
            if s.last().watch_count != c && i == d.len() - 1 {
                assert(d[i] == s.last());
            } else {
                assert(d[i] == dr[i]);
            }
        };
    }
}

proof fn lemma_drop_count_bound(s: Seq<MetadataView>, c: int, t: int)
    requires
        forall|i: int| 0 <= i < s.len() ==> (#[trigger] s[i]).watch_count >= t,
    ensures
        forall|i: int|
            0 <= i < drop_count(s, c).len() ==> (#[trigger] drop_count(s, c)[i]).watch_count >= t,
    decreases s.len(),
{
    if s.len() > 0 {
        assert(forall|i: int|
            0 <= i < s.drop_last().len() ==> (#[trigger] s.drop_last()[i]).watch_count >= t);
        lemma_drop_count_bound(s.drop_last(), c, t);
        let d = drop_count(s, c);
        let dr = drop_count(s.drop_last(), c);
        assert forall|i: int| 0 <= i < d.len() implies (#[trigger] d[i]).watch_count >= t by {
            if s.last().watch_count != c && i == d.len() - 1 {
                assert(d[i] == s.last());
                assert(s[s.len() - 1].watch_count >= t);
            } else {
                assert(d[i] == dr[i]);
            }
        };
    }
}

proof fn lemma_drop_count_smaller(s: Seq<MetadataView>, c: int)
    requires
        exists|i: int| 0 <= i < s.len() && (#[trigger] s[i]).watch_count == c,
    ensures
        drop_count(s, c).len() < s.len(),
    decreases s.len(),
{
    lemma_split_count(s, c);
    let i = choose|i: int| 0 <= i < s.len() && (#[trigger] s[i]).watch_count == c;
    if i == s.len() - 1 {
        assert(s.last().watch_count == c);
        lemma_split_count(s.drop_last(), c);
    } else {
        assert(s.drop_last()[i].watch_count == c);
        lemma_drop_count_smaller(s.drop_last(), c);
    }
}

/// A stable ascending sort by watch count: the records of the least
/// count, in their given order, then the rest sorted the same way.
pub open spec fn sort_by_count(s: Seq<MetadataView>) -> Seq<MetadataView>
    decreases s.len(),
    via sort_by_count_decreases
{
    if s.len() == 0 {
        s
    } else {
        keep_count(s, min_count(s)) + sort_by_count(drop_count(s, min_count(s)))
    }
}

#[via_fn]
proof fn sort_by_count_decreases(s: Seq<MetadataView>) {
    if s.len() != 0 {
        lemma_min_count(s);
        lemma_drop_count_smaller(s, min_count(s));
    }
}

/// Sorting by watch count keeps the record count.
pub proof fn lemma_sort_len(s: Seq<MetadataView>)
    ensures
        sort_by_count(s).len() == s.len(),
    decreases s.len(),
{
    if s.len() > 0 {
        lemma_min_count(s);
        lemma_drop_count_smaller(s, min_count(s));
        lemma_split_count(s, min_count(s));
        lemma_sort_len(drop_count(s, min_count(s)));
    }
}

proof fn lemma_sort_lower_bound(s: Seq<MetadataView>, t: int)
    requires
        forall|i: int| 0 <= i < s.len() ==> (#[trigger] s[i]).watch_count >= t,
    ensures
        forall|i: int|
            0 <= i < sort_by_count(s).len() ==> (#[trigger] sort_by_count(s)[i]).watch_count >= t,
    decreases s.len(),
{
    if s.len() > 0 {
        let c = min_count(s);
        lemma_min_count(s);
        lemma_drop_count_smaller(s, c);
        lemma_split_count(s, c);
        lemma_drop_count_bound(s, c, t);
        lemma_sort_lower_bound(drop_count(s, c), t);
        let out = sort_by_count(s);
        let k = keep_count(s, c);
        assert forall|i: int| 0 <= i < out.len() implies (#[trigger] out[i]).watch_count >= t by {
            if i < k.len() {
                assert(out[i] == k[i]);
                assert(k[i].watch_count == c);
                assert(c >= t) by {
                    let w = choose|w: int| 0 <= w < s.len() && (#[trigger] s[w]).watch_count == c;
                }
            } else {
                assert(out[i] == sort_by_count(drop_count(s, c))[i - k.len()]);
            }
        };
    }
}

/// Sorting by watch count yields ascending watch counts.
pub proof fn lemma_sort_sorted(s: Seq<MetadataView>)
    ensures
        sorted_asc_by_count(sort_by_count(s)),
    decreases s.len(),
{
    if s.len() > 0 {
        let c = min_count(s);
        lemma_min_count(s);
        lemma_drop_count_smaller(s, c);
        lemma_split_count(s, c);
        lemma_drop_count_bound(s, c, c);
        lemma_sort_lower_bound(drop_count(s, c), c);
        lemma_sort_sorted(drop_count(s, c));
        let out = sort_by_count(s);
        let k = keep_count(s, c);
        let rest = sort_by_count(drop_count(s, c));
        assert forall|i: int, j: int| 0 <= i <= j < out.len() implies out[i].watch_count
            <= out[j].watch_count by {
            if i < k.len() {
                assert(out[i] == k[i]);
            } else {
                assert(out[i] == rest[i - k.len()]);
            }
            if j < k.len() {
                assert(out[j] == k[j]);
            } else {
                assert(out[j] == rest[j - k.len()]);
            }
        };
    }
}

/// The matched records in the order a request asks for.
pub open spec fn ordered_views(matched: Seq<MetadataView>, o: Order) -> Seq<MetadataView> {
    match o {
        Order::Latest => matched,
        Order::Oldest => matched.reverse(),
        Order::MostWatched => sort_by_count(matched).reverse(),
        Order::LeastWatched => sort_by_count(matched),
    }
}

/// Number of pages needed for `total` records at `limit` per page.
pub open spec fn ceil_div(total: int, limit: int) -> int
    recommends
        limit >= 1,
{
    if total == 0 {
        0
    } else {
        (total - 1) / limit + 1
    }
}

/// Exclusive upper bound of the requested result window.
pub open spec fn page_upper(total: int, page: int, limit: int) -> int {
    if page * limit < total {
        page * limit
    } else {
        total
    }
}

/// Inclusive lower bound of the requested result window. A page past
/// the data snaps to the start of the last full-or-partial page.
pub open spec fn page_lower(total: int, page: int, limit: int) -> int {
    if page * limit < total {
        page * limit - limit
    } else {
        total - (total % limit)
    }
}

fn min_count_exec(v: &Vec<Metadata>) -> (c: usize)
    requires
        v@.len() > 0,
    ensures
        c as int == min_count(views_of(v@)),
{
    let ghost vs = views_of(v@);
    let mut c: usize = v[0].watch_count;
    proof {
        assert(vs.take(1).len() == 1);
        assert(vs.take(1)[0] == vs[0]);
    }
    let mut i: usize = 1;
    while i < v.len()
        invariant
            1 <= i <= vs.len(),
            vs == views_of(v@),
            c as int == min_count(vs.take(i as int)),
        decreases vs.len() - i,
    {
        proof {
            assert(vs.take(i as int + 1).drop_last() =~= vs.take(i as int));
            assert(vs.take(i as int + 1).last() == vs[i as int]);
            assert(vs[i as int] == v@[i as int]@);
        }
        if v[i].watch_count < c {
            c = v[i].watch_count;
        }
        proof {
            assert(c as int == min_count(vs.take(i as int + 1)));
        }
        i += 1;
    }
    proof {
        assert(vs.take(vs.len() as int) =~= vs);
    }
    c
}

fn partition_by_count(v: &Vec<Metadata>, c: usize) -> (r: (Vec<Metadata>, Vec<Metadata>))
    ensures
        views_of(r.0@) == keep_count(views_of(v@), c as int),
        views_of(r.1@) == drop_count(views_of(v@), c as int),
{
    let ghost vs = views_of(v@);
    let mut kept: Vec<Metadata> = Vec::new();
    let mut rest: Vec<Metadata> = Vec::new();
    proof {
        assert(vs.take(0) =~= Seq::<MetadataView>::empty());
        assert(views_of(kept@) =~= Seq::<MetadataView>::empty());
        assert(views_of(rest@) =~= Seq::<MetadataView>::empty());
    }
    let mut i: usize = 0;
    while i < v.len()
        invariant
            i <= vs.len(),
            vs == views_of(v@),
            views_of(kept@) == keep_count(vs.take(i as int), c as int),
            views_of(rest@) == drop_count(vs.take(i as int), c as int),
        decreases vs.len() - i,
    {
        proof {
            assert(vs.take(i as int + 1).drop_last() =~= vs.take(i as int));
            assert(vs.take(i as int + 1).last() == vs[i as int]);
            assert(vs[i as int] == v@[i as int]@);
        }
        let ghost kept0 = views_of(kept@);
        let ghost rest0 = views_of(rest@);
        if v[i].watch_count == c {
            kept.push(v[i].clone());
            proof {
                assert(views_of(kept@) =~= kept0.push(v@[i as int]@));
            }
        } else {
            rest.push(v[i].clone());
            proof {
                assert(views_of(rest@) =~= rest0.push(v@[i as int]@));
            }
        }
        proof {
            assert(views_of(kept@) == keep_count(vs.take(i as int + 1), c as int));
            assert(views_of(rest@) == drop_count(vs.take(i as int + 1), c as int));
        }
        i += 1;
    }
    proof {
        assert(vs.take(vs.len() as int) =~= vs);
    }
    (kept, rest)
}

fn sort_items_by_count(items: Vec<Metadata>) -> (r: Vec<Metadata>)
    ensures
        views_of(r@) == sort_by_count(views_of(items@)),
{
    let ghost vs0 = views_of(items@);
    let mut out: Vec<Metadata> = Vec::new();
    let mut rem = items;
    proof {
        assert(views_of(out@) =~= Seq::<MetadataView>::empty());
        assert(views_of(out@) + sort_by_count(views_of(rem@)) =~= sort_by_count(vs0));
    }
    while rem.len() > 0
        invariant
            views_of(out@) + sort_by_count(views_of(rem@)) == sort_by_count(vs0),
        decreases rem@.len(),
    {
        let ghost vr = views_of(rem@);
        let c = min_count_exec(&rem);
        proof {
            lemma_min_count(vr);
            lemma_drop_count_smaller(vr, c as int);
            assert(sort_by_count(vr) == keep_count(vr, c as int) + sort_by_count(
                drop_count(vr, c as int),
            ));
        }
        let pair = partition_by_count(&rem, c);
        let mut kept = pair.0;
        let rest = pair.1;
        let ghost out0 = views_of(out@);
        out.append(&mut kept);
        proof {
            assert(views_of(out@) =~= out0 + keep_count(vr, c as int));
            assert(out0 + keep_count(vr, c as int) + sort_by_count(drop_count(vr, c as int))
                =~= out0 + (keep_count(vr, c as int) + sort_by_count(drop_count(vr, c as int))));
        }
        rem = rest;
    }
    proof {
        assert(views_of(rem@) =~= Seq::<MetadataView>::empty());
        assert(sort_by_count(views_of(rem@)) == views_of(rem@));
        assert(views_of(out@) + views_of(rem@) =~= views_of(out@));
    }
    out
}

fn reverse_items(items: Vec<Metadata>) -> (r: Vec<Metadata>)
    ensures
        views_of(r@) == views_of(items@).reverse(),
{
    let ghost vs = views_of(items@);
    let ghost n = vs.len();
    let mut out: Vec<Metadata> = Vec::new();
    let mut rem = items;
    while rem.len() > 0
        invariant
            n == vs.len(),
            rem@.len() + out@.len() == n,
            views_of(rem@) == vs.take(rem@.len() as int),
            forall|k: int| 0 <= k < out@.len() ==> views_of(out@)[k] == vs[n - 1 - k],
        decreases rem@.len(),
    {
        let ghost l = rem@.len() as int;
        let ghost rem0 = rem@;
        let ghost out0 = views_of(out@);
        let popped = rem.pop();
        match popped {
            Some(m) => {
                proof {
                    assert(m == rem0[l - 1]);
                    assert(rem@ == rem0.subrange(0, l - 1));
                    assert(views_of(rem@) =~= views_of(rem0).take(l - 1));
                    assert(views_of(rem0).take(l - 1) =~= vs.take(l).take(l - 1));
                    assert(vs.take(l).take(l - 1) =~= vs.take(l - 1));
                    assert(m@ == views_of(rem0)[l - 1]);
                    assert(views_of(rem0)[l - 1] == vs.take(l)[l - 1]);
                    assert(m@ == vs[l - 1]);
                }
                out.push(m);
                proof {
                    assert(views_of(out@) =~= out0.push(m@));
                }
            },
            None => {
                proof {
                    assert(false);
                }
            },
        }
    }
    proof {
        assert(views_of(out@) =~= vs.reverse());
    }
    out
}

fn slice_items(items: &Vec<Metadata>, left: usize, right: usize) -> (r: Vec<Metadata>)
    requires
        left <= right <= items@.len(),
    ensures
        views_of(r@) == views_of(items@).subrange(left as int, right as int),
{
    let ghost vs = views_of(items@);
    let mut out: Vec<Metadata> = Vec::new();
    proof {
        assert(views_of(out@) =~= vs.subrange(left as int, left as int));
    }
    let mut i: usize = left;
    while i < right
        invariant
            left <= i <= right <= vs.len(),
            vs == views_of(items@),
            views_of(out@) == vs.subrange(left as int, i as int),
        decreases right - i,
    {
        let ghost out0 = views_of(out@);
        out.push(items[i].clone());
        proof {
            assert(vs[i as int] == items@[i as int]@);
            assert(views_of(out@) =~= out0.push(vs[i as int]));
            assert(views_of(out@) =~= vs.subrange(left as int, i as int + 1));
        }
        i += 1;
    }
    out
}

impl MetadataTable {
    /// Answer one filter/sort/pagination request: the matching records
    /// are ordered as asked, the requested window is cut out of them,
    /// and pagination metadata is computed for the whole matched set.
    /// The table itself is never changed by a query.
    pub fn get_collection(&self, filter: &MetadataFilter) -> (r: (Pagination, Vec<Metadata>))
        requires
            self.wf(),
            filter@.page >= 1,
            filter@.limit >= 1,
            filter@.page + 2 <= usize::MAX,
            filter@.page * filter@.limit <= usize::MAX,
        ensures
            ({
                let matched = matched_views(self.items(), filter@);
                let ordered = ordered_views(matched, filter@.order);
                let total = matched.len() as int;
                &&& r.0.wf(filter@.page, ceil_div(total, filter@.limit), filter@.limit)
                &&& views_of(r.1@) == ordered.subrange(
                    page_lower(total, filter@.page, filter@.limit),
                    page_upper(total, filter@.page, filter@.limit),
                )
            }),
    {
        let ghost matched = matched_views(self.items(), filter@);
        let filtered = self.collect_matches(filter);
        let total = filtered.len();
        let ordered: Vec<Metadata> = match filter.order {
            Order::Latest => filtered,
            Order::Oldest => reverse_items(filtered),
            Order::MostWatched => reverse_items(sort_items_by_count(filtered)),
            Order::LeastWatched => sort_items_by_count(filtered),
        };
        proof {
            lemma_sort_len(matched);
            assert(views_of(ordered@) == ordered_views(matched, filter@.order));
            assert(ordered@.len() == total);
        }
        let limit = filter.limit;
        let page = filter.page;
        let total_page = if total == 0 {
            0
        } else {
            (total - 1) / limit + 1
        };
        let page_offset = page * limit;
        proof {
            vstd::arithmetic::mul::lemma_mul_inequality(1, page as int, limit as int);
        }
        let right = if page_offset < total {
            page_offset
        } else {
            total
        };
        let left = if page_offset < total {
            page_offset - limit
        } else {
            let m = total % limit;
            proof {
                if limit > total {
                    vstd::arithmetic::div_mod::lemma_small_mod(total as nat, limit as nat);
                }
            }
            total - m
        };
        let window = slice_items(&ordered, left, right);
        let pagination = Pagination::new(page, total_page, limit);
        (pagination, window)
    }
}

/// Ascending order of earliest watch time, duplicates allowed.
pub open spec fn sorted_asc_time(items: Seq<MetadataView>) -> bool {
    forall|i: int, j: int|
        0 <= i <= j < items.len() ==> items[i].watched_at <= items[j].watched_at
}

/// Descending order of watch count, duplicates allowed.
pub open spec fn sorted_desc_by_count(s: Seq<MetadataView>) -> bool {
    forall|i: int, j: int| 0 <= i <= j < s.len() ==> s[i].watch_count >= s[j].watch_count
}

/// A well-formed record's earliest watch time is the minimum of its
/// timeline, which is ascending.
pub proof fn lemma_timeline_min(m: MetadataView)
    requires
        item_wf(m),
    ensures
        sorted_asc(m.watch_timeline),
        forall|i: int|
            0 <= i < m.watch_timeline.len() ==> m.watched_at <= #[trigger] m.watch_timeline[i],
{
    crate::schema::lemma_first_is_min(m.watch_timeline);
}

/// `g` refines `f`: it keeps every predicate `f` names, and may name
/// more of its own.
pub open spec fn filter_refines(g: FilterView, f: FilterView) -> bool {
    &&& (f.id is Some ==> g.id == f.id)
    &&& (f.title is Some ==> g.title == f.title)
    &&& (f.channel_name is Some ==> g.channel_name == f.channel_name)
    &&& (f.from is Some ==> g.from == f.from)
    &&& (f.to is Some ==> g.to == f.to)
}

/// Filter monotonicity: adding predicates to a request never lets more
/// records through.
pub proof fn lemma_filter_monotone(items: Seq<MetadataView>, f: FilterView, g: FilterView)
    requires
        filter_refines(g, f),
    ensures
        matched_views(items, g).len() <= matched_views(items, f).len(),
    decreases items.len(),
{
    if items.len() > 0 {
        lemma_filter_monotone(items.drop_last(), f, g);
        assert(filter_matches(items.last(), g) ==> filter_matches(items.last(), f));
    }
}

/// Pagination coverage: each page's window starts where the previous
/// one ended, the first starts at zero, and the last ends at the total,
/// so in-range windows partition the result set. The one exception is a
/// last page of records that exactly fills it: the stated window
/// formula snaps that page to an empty trailing window, so it is left
/// out here.
pub proof fn lemma_pagination_coverage(total: int, page: int, limit: int)
    requires
        limit >= 1,
        total >= 0,
        1 <= page <= ceil_div(total, limit),
        page < ceil_div(total, limit) || total % limit != 0,
    ensures
        page_lower(total, page, limit) == (page - 1) * limit,
        page < ceil_div(total, limit) ==> page_upper(total, page, limit) == page * limit,
        page == ceil_div(total, limit) ==> page_upper(total, page, limit) == total,
        page_lower(total, page, limit) < page_upper(total, page, limit),
{
    vstd::arithmetic::div_mod::lemma_fundamental_div_mod(total, limit);
    vstd::arithmetic::div_mod::lemma_mod_bound(total, limit);
    let q = total / limit;
    let r = total % limit;
    assert(total > 0) by {
        if total == 0 {
            assert(ceil_div(total, limit) == 0);
        }
    };
    vstd::arithmetic::div_mod::lemma_fundamental_div_mod(total - 1, limit);
    vstd::arithmetic::div_mod::lemma_mod_bound(total - 1, limit);
    let tp = ceil_div(total, limit);
    assert(tp == (total - 1) / limit + 1);
    assert((total - 1) / limit * limit <= total - 1);
    if page < tp {
        assert(page <= (total - 1) / limit);
        vstd::arithmetic::mul::lemma_mul_inequality(page, (total - 1) / limit, limit);
        assert(page * limit <= (total - 1) / limit * limit);
        assert(page * limit < total);
        assert(page_lower(total, page, limit) == page * limit - limit);
        assert(page * limit - limit == (page - 1) * limit) by {
            vstd::arithmetic::mul::lemma_mul_is_distributive_sub_other_way(limit, page, 1);
        };
        vstd::arithmetic::mul::lemma_mul_inequality(1, page, limit);
    } else {
        assert(page == tp);
        if page * limit < total {
            assert(page * limit <= total - 1);
            assert(total - 1 < ((total - 1) / limit + 1) * limit) by {
                vstd::arithmetic::div_mod::lemma_fundamental_div_mod(total - 1, limit);
                vstd::arithmetic::mul::lemma_mul_is_distributive_add_other_way(limit, (total - 1) / limit, 1);
            };
            assert(tp * limit > total - 1);
            assert(page * limit > total - 1);
            assert(false);
        }
        assert(page_upper(total, page, limit) == total);
        assert(r != 0);
        assert(page_lower(total, page, limit) == total - r);
        assert(total - r == q * limit);
        assert((total - 1) / limit == q) by {
            vstd::arithmetic::div_mod::lemma_fundamental_div_mod_converse(
                total - 1,
                limit,
                q,
                r - 1,
            );
        };
        assert(page - 1 == q);
        assert((page - 1) * limit == q * limit) by {
            vstd::arithmetic::mul::lemma_mul_is_commutative(page - 1, limit);
            vstd::arithmetic::mul::lemma_mul_is_commutative(q, limit);
        };
        assert(q * limit < total);
    }
}

/// Order correctness: each ordering choice yields the documented
/// monotonicity in earliest watch time or watch count.
pub proof fn lemma_order_correct(matched: Seq<MetadataView>, o: Order)
    requires
        sorted_desc(matched),
    ensures
        o == Order::Latest ==> sorted_desc(ordered_views(matched, o)),
        o == Order::Oldest ==> sorted_asc_time(ordered_views(matched, o)),
        o == Order::MostWatched ==> sorted_desc_by_count(ordered_views(matched, o)),
        o == Order::LeastWatched ==> sorted_asc_by_count(ordered_views(matched, o)),
{
    let out = ordered_views(matched, o);
    match o {
        Order::Latest => {},
        Order::Oldest => {
            assert forall|i: int, j: int| 0 <= i <= j < out.len() implies out[i].watched_at
                <= out[j].watched_at by {
                assert(out[i] == matched[matched.len() - 1 - i]);
                assert(out[j] == matched[matched.len() - 1 - j]);
            };
        },
        Order::MostWatched => {
            lemma_sort_sorted(matched);
            lemma_sort_len(matched);
            let sorted = sort_by_count(matched);
            assert forall|i: int, j: int| 0 <= i <= j < out.len() implies out[i].watch_count
                >= out[j].watch_count by {
                assert(out[i] == sorted[sorted.len() - 1 - i]);
                assert(out[j] == sorted[sorted.len() - 1 - j]);
            };
        },
        Order::LeastWatched => {
            lemma_sort_sorted(matched);
        },
    }
}

/// Every window of an ordered result keeps its ordering.
pub proof fn lemma_window_ordered(s: Seq<MetadataView>, lo: int, hi: int)
    requires
        0 <= lo <= hi <= s.len(),
    ensures
        sorted_desc(s) ==> sorted_desc(s.subrange(lo, hi)),
        sorted_asc_time(s) ==> sorted_asc_time(s.subrange(lo, hi)),
        sorted_desc_by_count(s) ==> sorted_desc_by_count(s.subrange(lo, hi)),
        sorted_asc_by_count(s) ==> sorted_asc_by_count(s.subrange(lo, hi)),
{
    assert(forall|i: int| 0 <= i < hi - lo ==> #[trigger] s.subrange(lo, hi)[i] == s[lo + i]);
}

} // verus!
