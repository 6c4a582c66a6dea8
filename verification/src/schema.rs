//! Data model of the aggregated watch history: per-video records, the
//! filter request, and the result ordering choices.

use vstd::prelude::*;

use crate::text::{contains_sub, is_substring, lower_of, lowercase};
use crate::utils::{all_keywords_found, is_buffer_contains_keywords, str_views};

verus! {

/// Default page number for a request that names none.
pub fn default_page() -> (r: usize)
    ensures
        r == 1,
{
    1
}

/// Default page size for a request that names none.
pub fn default_limit() -> (r: usize)
    ensures
        r == 20,
{
    20
}

/// Default result ordering for a request that names none.
pub fn default_order() -> (r: Order)
    ensures
        r == Order::Latest,
{
    Order::Latest
}

/// A channel a video belongs to; identity is `id`, `name` is display-only.
pub struct Channel {
    pub id: String,
    pub name: String,
}

pub ghost struct ChannelView {
    pub id: Seq<char>,
    pub name: Seq<char>,
}

impl View for Channel {
    type V = ChannelView;

    open spec fn view(&self) -> ChannelView {
        ChannelView { id: self.id@, name: self.name@ }
    }
}

impl Channel {
    /// Placeholder channel used when the export carries none.
    pub fn placeholder() -> (r: Channel)
        ensures
            r@.id == "-"@,
            r@.name == "-"@,
    {
        Channel { id: String::from_str("-"), name: String::from_str("-") }
    }
}

impl Clone for Channel {
    fn clone(&self) -> (r: Self)
        ensures
            r@ == self@,
    {
        Channel { id: self.id.clone(), name: self.name.clone() }
    }
}

/// One deduplicated, aggregated record for a distinct video.
pub struct Metadata {
    pub id: String,
    pub title: String,
    pub channel: Channel,
    /// Earliest watch time, as seconds since the Unix epoch.
    pub watched_at: i64,
    pub watch_count: usize,
    /// Every watch time of this video, ascending.
    pub watch_timeline: Vec<i64>,
}

pub ghost struct MetadataView {
    pub id: Seq<char>,
    pub title: Seq<char>,
    pub channel: ChannelView,
    pub watched_at: int,
    pub watch_count: int,
    pub watch_timeline: Seq<int>,
}

impl View for Metadata {
    type V = MetadataView;

    open spec fn view(&self) -> MetadataView {
        MetadataView {
            id: self.id@,
            title: self.title@,
            channel: self.channel@,
            watched_at: self.watched_at as int,
            watch_count: self.watch_count as int,
            watch_timeline: self.watch_timeline@.map_values(|t: i64| t as int),
        }
    }
}

impl Clone for Metadata {
    fn clone(&self) -> (r: Self)
        ensures
            r@ == self@,
    {
        Metadata {
            id: self.id.clone(),
            title: self.title.clone(),
            channel: self.channel.clone(),
            watched_at: self.watched_at,
            watch_count: self.watch_count,
            watch_timeline: self.watch_timeline.clone(),
        }
    }
}

/// A per-video record is internally consistent: the timeline is
/// ascending, the watch count is its length, and the earliest watch
/// time is its first (hence least) entry.
pub open spec fn item_wf(m: MetadataView) -> bool {
    &&& m.watch_count == m.watch_timeline.len()
    &&& m.watch_count >= 1
    &&& sorted_asc(m.watch_timeline)
    &&& m.watched_at == m.watch_timeline[0]
}

/// Ascending order, duplicates allowed.
pub open spec fn sorted_asc(s: Seq<int>) -> bool {
    forall|i: int, j: int| 0 <= i <= j < s.len() ==> s[i] <= s[j]
}

/// The first entry of an ascending sequence is its minimum.
pub proof fn lemma_first_is_min(s: Seq<int>)
    requires
        s.len() >= 1,
        sorted_asc(s),
    ensures
        forall|i: int| 0 <= i < s.len() ==> s[0] <= #[trigger] s[i],
{
}

/// How a result set is ordered.
#[derive(Clone, Copy, Debug, PartialEq, Eq, Structural)]
pub enum Order {
    Latest,
    Oldest,
    MostWatched,
    LeastWatched,
}

/// The request key naming each ordering.
pub open spec fn order_key(o: Order) -> Seq<char> {
    match o {
        Order::Latest => "latest"@,
        Order::Oldest => "oldest"@,
        Order::MostWatched => "most_watched"@,
        Order::LeastWatched => "least_watched"@,
    }
}

/// The display label of each ordering.
pub open spec fn order_label(o: Order) -> Seq<char> {
    match o {
        Order::Latest => "Latest"@,
        Order::Oldest => "Oldest"@,
        Order::MostWatched => "Most Watched"@,
        Order::LeastWatched => "Least Watched"@,
    }
}

impl Order {
    /// The key under which requests name this ordering.
    pub fn to_key(&self) -> (r: String)
        ensures
            r@ == order_key(*self),
    {
        match self {
            Order::Latest => String::from_str("latest"),
            Order::Oldest => String::from_str("oldest"),
            Order::MostWatched => String::from_str("most_watched"),
            Order::LeastWatched => String::from_str("least_watched"),
        }
    }

    /// The human-readable label of this ordering.
    pub fn to_string_label(&self) -> (r: String)
        ensures
            r@ == order_label(*self),
    {
        match self {
            Order::Latest => String::from_str("Latest"),
            Order::Oldest => String::from_str("Oldest"),
            Order::MostWatched => String::from_str("Most Watched"),
            Order::LeastWatched => String::from_str("Least Watched"),
        }
    }

    /// The ordering a request key names, if any.
    pub fn from_key(s: &str) -> (r: Option<Order>)
        ensures
            r == (if s@ == order_key(Order::Latest) {
                Some(Order::Latest)
            } else if s@ == order_key(Order::Oldest) {
                Some(Order::Oldest)
            } else if s@ == order_key(Order::MostWatched) {
                Some(Order::MostWatched)
            } else if s@ == order_key(Order::LeastWatched) {
                Some(Order::LeastWatched)
            } else {
                None::<Order>
            }),
    {
        let owned = s.to_owned();
        if owned == String::from_str("latest") {
            Some(Order::Latest)
        } else if owned == String::from_str("oldest") {
            Some(Order::Oldest)
        } else if owned == String::from_str("most_watched") {
            Some(Order::MostWatched)
        } else if owned == String::from_str("least_watched") {
            Some(Order::LeastWatched)
        } else {
            None
        }
    }

    /// Every ordering, as a `(request key, display label)` pair.
    pub fn collect_key_label_pair() -> (r: Vec<(String, String)>)
        ensures
            r@.len() == 4,
            r@[0].0@ == order_key(Order::Latest) && r@[0].1@ == order_label(Order::Latest),
            r@[1].0@ == order_key(Order::Oldest) && r@[1].1@ == order_label(Order::Oldest),
            r@[2].0@ == order_key(Order::MostWatched) && r@[2].1@ == order_label(
                Order::MostWatched,
            ),
            r@[3].0@ == order_key(Order::LeastWatched) && r@[3].1@ == order_label(
                Order::LeastWatched,
            ),
    {
        let mut r: Vec<(String, String)> = Vec::new();
        let latest = Order::Latest;
        let oldest = Order::Oldest;
        let most = Order::MostWatched;
        let least = Order::LeastWatched;
        r.push((latest.to_key(), latest.to_string_label()));
        r.push((oldest.to_key(), oldest.to_string_label()));
        r.push((most.to_key(), most.to_string_label()));
        r.push((least.to_key(), least.to_string_label()));
        r
    }
}

/// A filter/sort/pagination request over the aggregated table.
pub struct MetadataFilter {
    /// Exact video identifier to match.
    pub id: Option<String>,
    /// Case-insensitive substring of the title.
    pub title: Option<String>,
    /// Case-insensitive substring of the channel name.
    pub channel_name: Option<String>,
    /// Exclusive lower bound on the earliest watch time.
    pub from: Option<i64>,
    /// Exclusive upper bound on the earliest watch time.
    pub to: Option<i64>,
    pub order: Order,
    pub page: usize,
    pub limit: usize,
}

pub ghost struct FilterView {
    pub id: Option<Seq<char>>,
    pub title: Option<Seq<char>>,
    pub channel_name: Option<Seq<char>>,
    pub from: Option<int>,
    pub to: Option<int>,
    pub order: Order,
    pub page: int,
    pub limit: int,
}

impl View for MetadataFilter {
    type V = FilterView;

    open spec fn view(&self) -> FilterView {
        FilterView {
            id: match self.id {
                Some(s) => Some(s@),
                None => None,
            },
            title: match self.title {
                Some(s) => Some(s@),
                None => None,
            },
            channel_name: match self.channel_name {
                Some(s) => Some(s@),
                None => None,
            },
            from: match self.from {
                Some(t) => Some(t as int),
                None => None,
            },
            to: match self.to {
                Some(t) => Some(t as int),
                None => None,
            },
            order: self.order,
            page: self.page as int,
            limit: self.limit as int,
        }
    }
}

/// Whether one record passes every predicate a request names; absent
/// predicates pass everything.
pub open spec fn filter_matches(m: MetadataView, f: FilterView) -> bool {
    &&& (f.id matches Some(v) ==> m.id == v)
    &&& (f.title matches Some(v) ==> is_substring(lower_of(m.title), lower_of(v)))
    &&& (f.channel_name matches Some(v) ==> is_substring(lower_of(m.channel.name), lower_of(v)))
    &&& (f.from matches Some(v) ==> m.watched_at > v)
    &&& (f.to matches Some(v) ==> m.watched_at < v)
}

impl MetadataFilter {
    /// Build a request, falling back to the documented defaults where a
    /// part is absent.
    pub fn from_parts(
        id: Option<String>,
        title: Option<String>,
        channel_name: Option<String>,
        from: Option<i64>,
        to: Option<i64>,
        order: Option<Order>,
        page: Option<usize>,
        limit: Option<usize>,
    ) -> (r: MetadataFilter)
        ensures
            r.id == id,
            r.title == title,
            r.channel_name == channel_name,
            r.from == from,
            r.to == to,
            r.order == (if order is Some {
                order->0
            } else {
                Order::Latest
            }),
            r.page == (if page is Some {
                page->0
            } else {
                1usize
            }),
            r.limit == (if limit is Some {
                limit->0
            } else {
                20usize
            }),
    {
        MetadataFilter {
            id,
            title,
            channel_name,
            from,
            to,
            order: match order {
                Some(o) => o,
                None => default_order(),
            },
            page: match page {
                Some(p) => p,
                None => default_page(),
            },
            limit: match limit {
                Some(l) => l,
                None => default_limit(),
            },
        }
    }

    /// All optional predicates are absent, so filtering passes everything.
    pub fn skip(&self) -> (r: bool)
        ensures
            r == (self@.id is None && self@.title is None && self@.channel_name is None
                && self@.from is None && self@.to is None),
            r ==> forall|m: MetadataView| filter_matches(m, self@),
    {
        self.id.is_none() && self.title.is_none() && self.channel_name.is_none()
            && self.from.is_none() && self.to.is_none()
    }
}

impl Metadata {
    /// Whether this record passes every predicate of `f`.
    pub fn matches_filter(&self, f: &MetadataFilter) -> (r: bool)
        ensures
            r == filter_matches(self@, f@),
    {
        if f.skip() {
            return true;
        }
        let id_ok = match &f.id {
            Some(v) => self.id == *v,
            None => true,
        };
        let title_ok = match &f.title {
            Some(v) => {
                let hay = lowercase(self.title.as_str());
                let needle = lowercase(v.as_str());
                contains_sub(hay.as_str(), needle.as_str())
            },
            None => true,
        };
        let channel_ok = match &f.channel_name {
            Some(v) => {
                let hay = lowercase(self.channel.name.as_str());
                let needle = lowercase(v.as_str());
                contains_sub(hay.as_str(), needle.as_str())
            },
            None => true,
        };
        let from_ok = match &f.from {
            Some(v) => self.watched_at > *v,
            None => true,
        };
        let to_ok = match &f.to {
            Some(v) => self.watched_at < *v,
            None => true,
        };
        id_ok && title_ok && channel_ok && from_ok && to_ok
    }
}

/// The marker keywords whose joint presence classifies an export as the
/// recognized schema.
pub open spec fn v1_marker_views() -> Seq<Seq<char>> {
    seq![
        "\"header\""@,
        "\"title\""@,
        "\"titleUrl\""@,
        "\"subtitles\""@,
        "\"name\""@,
        "\"url\""@,
        "\"time\""@,
        "\"products\""@,
    ]
}

/// The marker keywords of the recognized schema, as strings.
pub fn v1_markers() -> (r: Vec<String>)
    ensures
        str_views(r@) == v1_marker_views(),
{
    let mut r: Vec<String> = Vec::new();
    r.push(String::from_str("\"header\""));
    r.push(String::from_str("\"title\""));
    r.push(String::from_str("\"titleUrl\""));
    r.push(String::from_str("\"subtitles\""));
    r.push(String::from_str("\"name\""));
    r.push(String::from_str("\"url\""));
    r.push(String::from_str("\"time\""));
    r.push(String::from_str("\"products\""));
    proof {
        assert(str_views(r@) =~= v1_marker_views());
    }
    r
}

/// Whether the given input lines look like the recognized schema: every
/// marker keyword occurs in some line.
pub fn is_v1(lines: &Vec<String>) -> (r: bool)
    ensures
        r == all_keywords_found(str_views(lines@), v1_marker_views()),
{
    let keys = v1_markers();
    is_buffer_contains_keywords(lines, &keys)
}

} // verus!
