//! The weather oracle: whitelisted nodes submit readings per geo cell and reading type;
//! each feed keeps a bounded history and the median of its recent readings.

use vstd::prelude::*;

use crate::table::{
    keys_distinct, lemma_pairs_map_dom, lemma_pairs_map_lookup, pairs_map, Table, TableKey,
};

verus! {

#[derive(Debug, Clone, Copy, PartialEq, Eq, Structural)]
pub enum Error {
    AlreadyInitialized,
    NotInitialized,
    NoReadingsAvailable,
    InvalidHistorySize,
    NotAuthorized,
    NotWhitelisted,
    StaleReading,
    InvalidTimestamp,
    NoAggregatedReading,
}

/// The order in which readings are ranked for the median.
pub open spec fn value_leq() -> spec_fn(u32, u32) -> bool {
    |a: u32, b: u32| a <= b
}

/// The readings' values in ascending order.
pub open spec fn sorted_values(values: Seq<u32>) -> Seq<u32> {
    values.sort_by(value_leq())
}

/// The median of a non-empty list of values: the middle value once sorted, or the
/// mean (rounded down) of the two middle values when the count is even.
pub open spec fn median_of(values: Seq<u32>) -> int
    recommends
        values.len() > 0,
{
    let s = sorted_values(values);
    let n = values.len() as int;
    if n % 2 == 0 {
        (s[n / 2 - 1] + s[n / 2]) / 2
    } else {
        s[n / 2] as int
    }
}

proof fn lemma_value_leq_total()
    ensures
        vstd::relations::total_ordering(value_leq()),
{
}

/// Sorting a list keeps its length and its values, and puts them in ascending order.
pub proof fn lemma_sorted_values_len(values: Seq<u32>)
    ensures
        sorted_values(values).len() == values.len(),
        vstd::relations::sorted_by(sorted_values(values), value_leq()),
        sorted_values(values).to_multiset() == values.to_multiset(),
{
    broadcast use vstd::seq_lib::group_to_multiset_ensures;

    lemma_value_leq_total();
    values.lemma_sort_by_ensures(value_leq());
    vstd::seq_lib::to_multiset_len(values);
    vstd::seq_lib::to_multiset_len(sorted_values(values));
}


/// Readings kept per geo cell and reading type, unless configured otherwise.
pub const DEFAULT_MAX_HISTORY_SIZE: u32 = 100;

#[derive(Debug, Clone, Copy, PartialEq, Eq, Structural)]
pub enum ReadingType {
    Rainfall,
    NDVI,
    SoilMoisture,
}

/// The most recent reading for a geo cell and reading type.
#[derive(Debug)]
pub struct LatestReading {
    pub geo_cell: String,
    pub reading_type: ReadingType,
    pub value: u32,
    /// When the reading was accepted.
    pub timestamp: u64,
}

impl Clone for LatestReading {
    fn clone(&self) -> (r: Self)
        ensures
            r == *self,
    {
        LatestReading {
            geo_cell: self.geo_cell.clone(),
            reading_type: self.reading_type,
            value: self.value,
            timestamp: self.timestamp,
        }
    }
}

/// One accepted reading, with the oracle node that submitted it.
#[derive(Debug)]
pub struct HistoricalReading {
    pub value: u32,
    /// When the reading was taken, as its submitter gave it; its age is counted from here.
    pub timestamp: u64,
    pub submitter: String,
}

impl Clone for HistoricalReading {
    fn clone(&self) -> (r: Self)
        ensures
            r == *self,
    {
        HistoricalReading {
            value: self.value,
            timestamp: self.timestamp,
            submitter: self.submitter.clone(),
        }
    }
}

/// The median of the recent readings of a geo cell and reading type.
#[derive(Debug)]
pub struct AggregatedReading {
    pub geo_cell: String,
    pub reading_type: ReadingType,
    pub value: u32,
    pub timestamp: u64,
    pub sample_count: u32,
}

impl Clone for AggregatedReading {
    fn clone(&self) -> (r: Self)
        ensures
            r == *self,
    {
        AggregatedReading {
            geo_cell: self.geo_cell.clone(),
            reading_type: self.reading_type,
            value: self.value,
            timestamp: self.timestamp,
            sample_count: self.sample_count,
        }
    }
}

/// The oracle's configuration, fixed at initialization.
#[derive(Debug)]
pub struct Config {
    pub admin: String,
    pub max_history_size: u32,
    /// Maximum age of an accepted reading, in seconds.
    pub max_reading_age: u64,
}

impl Clone for Config {
    fn clone(&self) -> (r: Self)
        ensures
            r == *self,
    {
        Config {
            admin: self.admin.clone(),
            max_history_size: self.max_history_size,
            max_reading_age: self.max_reading_age,
        }
    }
}

/// Identifies one feed of readings: a geo cell and a reading type.
pub struct FeedKey {
    pub geo_cell: String,
    pub reading_type: ReadingType,
}

impl View for FeedKey {
    type V = (Seq<char>, ReadingType);

    open spec fn view(&self) -> (Seq<char>, ReadingType) {
        (self.geo_cell@, self.reading_type)
    }
}

impl TableKey for FeedKey {
    fn key_eq(&self, other: &Self) -> (r: bool) {
        self.geo_cell == other.geo_cell && self.reading_type == other.reading_type
    }

    fn key_clone(&self) -> (r: Self) {
        FeedKey { geo_cell: self.geo_cell.clone(), reading_type: self.reading_type }
    }
}

/// What the oracle stores for one feed.
pub struct Feed {
    pub latest: Option<LatestReading>,
    pub history: Vec<HistoricalReading>,
    pub aggregated: Option<AggregatedReading>,
}

/// The abstract state of an oracle.
#[verifier::ext_equal]
pub struct OracleState {
    pub config: Option<Config>,
    pub whitelist: Set<Seq<char>>,
    pub feeds: Map<(Seq<char>, ReadingType), Feed>,
}

impl OracleState {
    pub open spec fn latest(self, geo_cell: Seq<char>, reading_type: ReadingType) -> Option<LatestReading> {
        if self.feeds.contains_key((geo_cell, reading_type)) {
            self.feeds[(geo_cell, reading_type)].latest
        } else {
            None
        }
    }

    pub open spec fn history(self, geo_cell: Seq<char>, reading_type: ReadingType) -> Seq<HistoricalReading> {
        if self.feeds.contains_key((geo_cell, reading_type)) {
            self.feeds[(geo_cell, reading_type)].history@
        } else {
            Seq::empty()
        }
    }

    pub open spec fn aggregated(self, geo_cell: Seq<char>, reading_type: ReadingType) -> Option<AggregatedReading> {
        if self.feeds.contains_key((geo_cell, reading_type)) {
            self.feeds[(geo_cell, reading_type)].aggregated
        } else {
            None
        }
    }
}

/// Every reading in `h` is no later than `now`.
pub open spec fn readings_not_after(h: Seq<HistoricalReading>, now: u64) -> bool {
    forall|i: int| 0 <= i < h.len() ==> #[trigger] h[i].timestamp <= now
}

/// Appends `x` to a history of at most `cap` readings, dropping the oldest reading when it is full.
pub open spec fn bounded_push<T>(h: Seq<T>, x: T, cap: nat) -> Seq<T> {
    if h.len() >= cap {
        h.drop_first().push(x)
    } else {
        h.push(x)
    }
}

/// The values of the readings in `h` that are at most `max_age` seconds old at `now`, oldest first.
pub open spec fn recent_values(h: Seq<HistoricalReading>, now: u64, max_age: u64) -> Seq<u32>
    decreases h.len(),
{
    if h.len() == 0 {
        Seq::empty()
    } else {
        let rest = recent_values(h.drop_last(), now, max_age);
        if now - h.last().timestamp <= max_age {
            rest.push(h.last().value)
        } else {
            rest
        }
    }
}

/// Whether a reading is at most `max_age` seconds old at `now`.
pub open spec fn taken_within(now: u64, max_age: u64) -> spec_fn(HistoricalReading) -> bool {
    |r: HistoricalReading| now - r.timestamp <= max_age
}

/// The value of a reading.
pub open spec fn value_of() -> spec_fn(HistoricalReading) -> u32 {
    |r: HistoricalReading| r.value
}

/// The sample an aggregation takes is exactly the values of the readings that are at most
/// `max_age` seconds old at `now`, each once and in the order they were submitted, so the
/// sample count is the number of such readings.
pub proof fn lemma_window_sample(h: Seq<HistoricalReading>, now: u64, max_age: u64)
    ensures
        recent_values(h, now, max_age) == h.filter(taken_within(now, max_age)).map_values(
            value_of(),
        ),
        recent_values(h, now, max_age).len() == h.filter(taken_within(now, max_age)).len(),
        recent_values(h, now, max_age).to_multiset() == h.filter(
            taken_within(now, max_age),
        ).map_values(value_of()).to_multiset(),
    decreases h.len(),
{
    reveal(Seq::filter);
    let pred = taken_within(now, max_age);
    let val = value_of();
    if h.len() > 0 {
        lemma_window_sample(h.drop_last(), now, max_age);
        let rest = h.drop_last().filter(pred);
        assert(h.filter(pred) == (if pred(h.last()) {
            rest.push(h.last())
        } else {
            rest
        }));
        if pred(h.last()) {
            assert(rest.push(h.last()).map_values(val) =~= rest.map_values(val).push(
                h.last().value,
            ));
        }
    } else {
        assert(h.filter(pred) =~= Seq::<HistoricalReading>::empty());
        assert(h.filter(pred).map_values(val) =~= Seq::<u32>::empty());
    }
}

/// The values of all readings in `h`, oldest first.
pub open spec fn history_values(h: Seq<HistoricalReading>) -> Seq<u32> {
    h.map_values(|r: HistoricalReading| r.value)
}

/// A feed holds between one and `DEFAULT_MAX_HISTORY_SIZE` readings, its latest reading has
/// the value of its last reading and was accepted no earlier than that reading was taken,
/// and its readings and median belong to the feed's key.
pub open spec fn feed_consistent(k: (Seq<char>, ReadingType), f: Feed) -> bool {
    &&& 0 < f.history@.len() <= DEFAULT_MAX_HISTORY_SIZE
    &&& f.latest matches Some(l) && l.geo_cell@ == k.0 && l.reading_type == k.1 && l.value
        == f.history@.last().value && l.timestamp >= f.history@.last().timestamp
    &&& f.aggregated matches Some(a) ==> a.geo_cell@ == k.0 && a.reading_type == k.1
}

/// Whitelisted addresses as table entries.
pub open spec fn whitelist_pairs(whitelist: Seq<String>) -> Seq<(String, ())> {
    whitelist.map_values(|a: String| (a, ()))
}

/// An oracle's state as plain values, as it is kept in storage.
pub struct OracleRecord {
    pub config: Option<Config>,
    pub whitelist: Vec<String>,
    pub feeds: Vec<(FeedKey, Feed)>,
}

impl OracleRecord {
    /// The oracle state the record describes.
    pub open spec fn state(&self) -> OracleState {
        OracleState {
            config: self.config,
            whitelist: pairs_map(whitelist_pairs(self.whitelist@)).dom(),
            feeds: pairs_map(self.feeds@),
        }
    }

    /// Whether the record describes an oracle that operations can have produced: no address
    /// or feed occurs twice, every feed is consistent, a configured oracle keeps the default
    /// history size and a positive reading age, and an unconfigured one holds nothing.
    pub open spec fn consistent(&self) -> bool {
        &&& keys_distinct(whitelist_pairs(self.whitelist@))
        &&& keys_distinct(self.feeds@)
        &&& match self.config {
            Some(c) => c.max_history_size == DEFAULT_MAX_HISTORY_SIZE && c.max_reading_age > 0,
            None => self.whitelist@.len() == 0 && self.feeds@.len() == 0,
        }
        &&& forall|i: int|
            0 <= i < self.feeds@.len() ==> feed_consistent(
                (#[trigger] self.feeds@[i]).0@,
                self.feeds@[i].1,
            )
    }
}

fn check_feed(key: &FeedKey, feed: &Feed) -> (r: bool)
    ensures
        r == feed_consistent(key@, *feed),
{
    let n = feed.history.len();
    if n == 0 || n > DEFAULT_MAX_HISTORY_SIZE as usize {
        return false;
    }
    let last = &feed.history[n - 1];
    let latest_ok = match &feed.latest {
        Some(l) => l.geo_cell == key.geo_cell && l.reading_type == key.reading_type && l.value
            == last.value && l.timestamp >= last.timestamp,
        None => false,
    };
    let aggregated_ok = match &feed.aggregated {
        Some(a) => a.geo_cell == key.geo_cell && a.reading_type == key.reading_type,
        None => true,
    };
    latest_ok && aggregated_ok
}

/// The median lies between the least and the greatest of the values; for an odd count it
/// is one of them.
pub proof fn lemma_median_bounds(values: Seq<u32>)
    requires
        values.len() > 0,
    ensures
        exists|i: int| 0 <= i < values.len() && values[i] <= median_of(values),
        exists|j: int| 0 <= j < values.len() && median_of(values) <= values[j],
        values.len() % 2 == 1 ==> exists|i: int| 0 <= i < values.len() && values[i] == median_of(
            values,
        ),
{
    broadcast use vstd::seq_lib::group_to_multiset_ensures;

    let s = sorted_values(values);
    let n = values.len() as int;
    lemma_sorted_values_len(values);
    let lo = if n % 2 == 0 {
        n / 2 - 1
    } else {
        n / 2
    };
    let hi = n / 2;
    assert(s.contains(s[lo]));
    assert(s.contains(s[hi]));
    assert(values.to_multiset().count(s[lo]) > 0);
    assert(values.to_multiset().count(s[hi]) > 0);
    assert(values.contains(s[lo]));
    assert(values.contains(s[hi]));
    let i = choose|i: int| 0 <= i < values.len() && values[i] == s[lo];
    let j = choose|j: int| 0 <= j < values.len() && values[j] == s[hi];
    if n % 2 == 0 {
        assert(value_leq()(s[lo], s[hi]));
    }
    assert(values[i] <= median_of(values));
    assert(median_of(values) <= values[j]);
}

/// The median is taken from the values in ascending order: for any ascending arrangement `t`
/// of the values, it is the middle one of an odd count, or the mean, rounded down, of the
/// two middle ones of an even count.
pub proof fn lemma_median_is_middle(values: Seq<u32>, t: Seq<u32>)
    requires
        values.len() > 0,
        t.to_multiset() == values.to_multiset(),
        forall|i: int, j: int| 0 <= i <= j < t.len() ==> t[i] <= t[j],
    ensures
        t.len() == values.len(),
        values.len() % 2 == 1 ==> median_of(values) == t[(values.len() / 2) as int] as int,
        values.len() % 2 == 0 ==> median_of(values) == (t[values.len() / 2 - 1] + t[(
        values.len() / 2) as int]) / 2,
{
    broadcast use vstd::seq_lib::group_to_multiset_ensures;

    lemma_value_leq_total();
    lemma_sorted_values_len(values);
    assert(vstd::relations::sorted_by(t, value_leq()));
    vstd::seq_lib::lemma_sorted_unique(t, sorted_values(values), value_leq());
}

/// The median does not depend on the order of the values: lists holding the same values,
/// each as often, have the same median.
pub proof fn lemma_median_order_free(a: Seq<u32>, b: Seq<u32>)
    requires
        a.to_multiset() == b.to_multiset(),
    ensures
        median_of(a) == median_of(b),
{
    broadcast use vstd::seq_lib::group_to_multiset_ensures;

    lemma_value_leq_total();
    lemma_sorted_values_len(a);
    lemma_sorted_values_len(b);
    vstd::seq_lib::lemma_sorted_unique(sorted_values(a), sorted_values(b), value_leq());
    vstd::seq_lib::to_multiset_len(a);
    vstd::seq_lib::to_multiset_len(b);
}

/// The history left by appending `xs`, oldest first, one at a time to the bounded history `h`.
pub open spec fn bounded_pushes<T>(h: Seq<T>, xs: Seq<T>, cap: nat) -> Seq<T>
    decreases xs.len(),
{
    if xs.len() == 0 {
        h
    } else {
        bounded_push(bounded_pushes(h, xs.drop_last(), cap), xs.last(), cap)
    }
}

/// A bounded history keeps the most recent readings: after readings `xs` are appended to a
/// history `h` of at most `cap` readings, it holds the last `min(|h| + |xs|, cap)` readings
/// of `h` followed by `xs`, oldest first.
pub proof fn lemma_bounded_history_keeps_latest<T>(h: Seq<T>, xs: Seq<T>, cap: nat)
    requires
        cap > 0,
        h.len() <= cap,
    ensures
        bounded_pushes(h, xs, cap) == (h + xs).skip(
            if h.len() + xs.len() > cap {
                h.len() + xs.len() - cap
            } else {
                0
            },
        ),
        bounded_pushes(h, xs, cap).len() == (if h.len() + xs.len() > cap {
            cap as int
        } else {
            h.len() + xs.len() as int
        }),
    decreases xs.len(),
{
    if xs.len() == 0 {
        assert((h + xs).skip(0) =~= h);
    } else {
        let prev = xs.drop_last();
        lemma_bounded_history_keeps_latest(h, prev, cap);
        let n = h.len() + xs.len();
        let ys = bounded_pushes(h, prev, cap);
        let all = h + xs;
        assert((h + prev) =~= all.drop_last());
        if ys.len() >= cap {
            let k = n - cap;
            assert(ys =~= all.drop_last().skip(k - 1));
            assert(ys.drop_first().push(xs.last()) =~= all.skip(k));
        } else {
            assert(ys =~= all.drop_last());
            assert(ys.push(xs.last()) =~= all.skip(0));
        }
    }
}

/// The history of a feed over a run of accepted submissions: when each state of `states`
/// follows the one before by appending the next of `readings` to the feed's history, as
/// `submit_reading` does, the final history holds the most recent readings of the first
/// history followed by `readings`, oldest first, at most `DEFAULT_MAX_HISTORY_SIZE` of them;
/// from an empty feed, the last `min(n, DEFAULT_MAX_HISTORY_SIZE)` of the `n` readings.
pub proof fn lemma_history_of_submissions(
    states: Seq<OracleState>,
    readings: Seq<HistoricalReading>,
    geo_cell: Seq<char>,
    reading_type: ReadingType,
)
    requires
        states.len() == readings.len() + 1,
        states[0].history(geo_cell, reading_type).len() <= DEFAULT_MAX_HISTORY_SIZE,
        forall|i: int|
            0 <= i < readings.len() ==> states[i + 1].history(geo_cell, reading_type)
                == bounded_push(
                states[i].history(geo_cell, reading_type),
                #[trigger] readings[i],
                DEFAULT_MAX_HISTORY_SIZE as nat,
            ),
    ensures
        ({
            let first = states[0].history(geo_cell, reading_type);
            let last = states.last().history(geo_cell, reading_type);
            let n: int = first.len() + readings.len() as int;
            let cap: int = DEFAULT_MAX_HISTORY_SIZE as int;
            &&& last == bounded_pushes(first, readings, DEFAULT_MAX_HISTORY_SIZE as nat)
            &&& last == (first + readings).skip(
                if n > cap {
                    n - cap
                } else {
                    0
                },
            )
            &&& last.len() == (if n > cap {
                cap
            } else {
                n
            })
        }),
    decreases readings.len(),
{
    let first = states[0].history(geo_cell, reading_type);
    let cap = DEFAULT_MAX_HISTORY_SIZE as nat;
    if readings.len() > 0 {
        let k = readings.len() - 1;
        lemma_history_of_submissions(states.drop_last(), readings.drop_last(), geo_cell, reading_type);
        assert(states[k + 1].history(geo_cell, reading_type) == bounded_push(
            states[k].history(geo_cell, reading_type),
            readings[k],
            cap,
        ));
        assert(states.drop_last().last() == states[k]);
    }
    lemma_bounded_history_keeps_latest(first, readings, cap);
}

/// An oracle: whitelisted nodes submit readings per geo cell and reading type.
pub struct OracleContract {
    config: Option<Config>,
    whitelist: Table<String, ()>,
    feeds: Table<FeedKey, Feed>,
}

impl View for OracleContract {
    type V = OracleState;

    closed spec fn view(&self) -> OracleState {
        OracleState { config: self.config, whitelist: self.whitelist@.dom(), feeds: self.feeds@ }
    }
}

fn copy_history(h: &Vec<HistoricalReading>) -> (r: Vec<HistoricalReading>)
    ensures
        r@ == h@,
{
    let mut r: Vec<HistoricalReading> = Vec::new();
    let mut i: usize = 0;
    while i < h.len()
        invariant
            i <= h.len(),
            r@ == h@.take(i as int),
        decreases h.len() - i,
    {
        r.push(h[i].clone());
        proof {
            assert(h@.take(i + 1) =~= h@.take(i as int).push(h@[i as int]));
        }
        i = i + 1;
    }
    proof {
        assert(h@.take(h@.len() as int) =~= h@);
    }
    r
}

/// The values of the readings of `history` at most `max_age` seconds old at `now`, oldest first.
fn recent_readings(history: &Vec<HistoricalReading>, now: u64, max_age: u64) -> (r: Vec<u32>)
    requires
        readings_not_after(history@, now),
    ensures
        r@ == recent_values(history@, now, max_age),
        r.len() <= history.len(),
{
    let ghost h = history@;
    let mut valid: Vec<u32> = Vec::new();
    let mut i: usize = 0;
    while i < history.len()
        invariant
            history@ == h,
            i <= h.len(),
            readings_not_after(h, now),
            valid@ == recent_values(h.take(i as int), now, max_age),
            valid.len() <= i,
        decreases h.len() - i,
    {
        let reading = &history[i];
        let reading_age = now - reading.timestamp;
        proof {
            assert(h.take(i + 1).drop_last() =~= h.take(i as int));
        }
        if reading_age <= max_age {
            valid.push(reading.value);
        }
        i = i + 1;
    }
    proof {
        assert(h.take(h.len() as int) =~= h);
    }
    valid
}

/// The values of the readings of `history`, oldest first.
fn values_of(history: &Vec<HistoricalReading>) -> (r: Vec<u32>)
    ensures
        r@ == history_values(history@),
{
    let ghost h = history@;
    let mut values: Vec<u32> = Vec::new();
    let mut i: usize = 0;
    while i < history.len()
        invariant
            history@ == h,
            i <= h.len(),
            values@ == history_values(h.take(i as int)),
        decreases h.len() - i,
    {
        values.push(history[i].value);
        proof {
            assert(history_values(h.take(i + 1)) =~= history_values(h.take(i as int)).push(
                h[i as int].value,
            ));
        }
        i = i + 1;
    }
    proof {
        assert(h.take(h.len() as int) =~= h);
    }
    values
}

impl OracleContract {
    /// Well-formedness of an oracle's state.
    pub closed spec fn wf(&self) -> bool {
        &&& self.whitelist.wf()
        &&& self.feeds.wf()
        &&& match self.config {
            Some(c) => c.max_history_size == DEFAULT_MAX_HISTORY_SIZE && c.max_reading_age > 0,
            None => self.whitelist@.dom().is_empty() && self.feeds@.dom().is_empty(),
        }
        &&& forall|k: (Seq<char>, ReadingType)| #[trigger]
            self.feeds@.contains_key(k) ==> feed_consistent(k, self.feeds@[k])
    }

    /// Every feed keeps at most `DEFAULT_MAX_HISTORY_SIZE` readings and has a latest reading
    /// exactly when it has readings; the latest reading has the value of the last reading of
    /// its history and was accepted no earlier than that reading was taken.
    pub proof fn lemma_feed_consistency(&self, geo_cell: Seq<char>, reading_type: ReadingType)
        requires
            self.wf(),
        ensures
            self@.history(geo_cell, reading_type).len() <= DEFAULT_MAX_HISTORY_SIZE,
            self@.latest(geo_cell, reading_type) is Some <==> self@.history(geo_cell, reading_type).len()
                > 0,
            self@.latest(geo_cell, reading_type) matches Some(l) ==> {
                &&& l.geo_cell@ == geo_cell
                &&& l.reading_type == reading_type
                &&& l.value == self@.history(geo_cell, reading_type).last().value
                &&& l.timestamp >= self@.history(geo_cell, reading_type).last().timestamp
            },
    {
        let k = (geo_cell, reading_type);
        if self.feeds@.contains_key(k) {
            assert(feed_consistent(k, self.feeds@[k]));
        }
    }

    /// The oracle's state as plain values, for storage.
    pub fn into_record(self) -> (r: OracleRecord)
        requires
            self.wf(),
        ensures
            r.consistent(),
            r.state() == self@,
    {
        let ghost old_self = self;
        let OracleContract { config, whitelist, feeds } = self;
        let pairs = whitelist.into_pairs();
        let ghost ps = pairs@;
        let mut addresses: Vec<String> = Vec::new();
        let mut i: usize = 0;
        while i < pairs.len()
            invariant
                pairs@ == ps,
                i <= ps.len(),
                addresses@.len() == i,
                forall|j: int| 0 <= j < i ==> #[trigger] addresses@[j] == ps[j].0,
            decreases ps.len() - i,
        {
            addresses.push(pairs[i].0.clone());
            i = i + 1;
        }
        let feeds = feeds.into_pairs();
        let r = OracleRecord { config, whitelist: addresses, feeds };
        proof {
            assert forall|j: int| 0 <= j < ps.len() implies #[trigger] whitelist_pairs(r.whitelist@)[j]
                == ps[j] by {
                let (a, u) = ps[j];
                assert(u == ());
                assert(r.whitelist@[j] == a);
            }
            assert(whitelist_pairs(r.whitelist@) =~= ps);
            assert forall|i: int| 0 <= i < r.feeds@.len() implies feed_consistent(
                (#[trigger] r.feeds@[i]).0@,
                r.feeds@[i].1,
            ) by {
                lemma_pairs_map_lookup(r.feeds@, i);
            }
            if r.config is None {
                if r.whitelist@.len() > 0 {
                    lemma_pairs_map_lookup(ps, 0);
                    assert(old_self.whitelist@.dom().contains(ps[0].0@));
                }
                if r.feeds@.len() > 0 {
                    lemma_pairs_map_lookup(r.feeds@, 0);
                    assert(old_self.feeds@.dom().contains(r.feeds@[0].0@));
                }
            }
            assert(r.state() =~= old_self@);
        }
        r
    }

    /// Restores an oracle from its record; there is none when the record is not consistent.
    pub fn from_record(record: OracleRecord) -> (r: Option<OracleContract>)
        ensures
            r is Some <==> record.consistent(),
            r matches Some(oracle) ==> oracle.wf() && oracle@ == record.state(),
    {
        let ghost rec = record;
        let OracleRecord { config, whitelist, feeds } = record;
        match &config {
            Some(c) => {
                if c.max_history_size != DEFAULT_MAX_HISTORY_SIZE || c.max_reading_age == 0 {
                    return None;
                }
            },
            None => {
                if whitelist.len() > 0 || feeds.len() > 0 {
                    return None;
                }
            },
        }
        let mut i: usize = 0;
        while i < feeds.len()
            invariant
                rec == record,
                feeds@ == rec.feeds@,
                i <= feeds@.len(),
                forall|j: int|
                    0 <= j < i ==> feed_consistent((#[trigger] feeds@[j]).0@, feeds@[j].1),
            decreases feeds.len() - i,
        {
            if !check_feed(&feeds[i].0, &feeds[i].1) {
                return None;
            }
            i = i + 1;
        }
        let ghost w = whitelist@;
        let mut pairs: Vec<(String, ())> = Vec::new();
        let mut i: usize = 0;
        while i < whitelist.len()
            invariant
                whitelist@ == w,
                i <= w.len(),
                pairs@ == whitelist_pairs(w.take(i as int)),
            decreases w.len() - i,
        {
            pairs.push((whitelist[i].clone(), ()));
            proof {
                assert(whitelist_pairs(w.take(i + 1)) =~= whitelist_pairs(w.take(i as int)).push(
                    (w[i as int], ()),
                ));
            }
            i = i + 1;
        }
        proof {
            assert(w.take(w.len() as int) =~= w);
        }
        let whitelist = match Table::from_pairs(pairs) {
            Some(t) => t,
            None => return None,
        };
        let feeds = match Table::from_pairs(feeds) {
            Some(t) => t,
            None => return None,
        };
        let oracle = OracleContract { config, whitelist, feeds };
        proof {
            assert forall|k: (Seq<char>, ReadingType)| #[trigger]
                oracle.feeds@.contains_key(k) implies feed_consistent(k, oracle.feeds@[k]) by {
                lemma_pairs_map_dom(rec.feeds@, k);
                let j = choose|j: int| 0 <= j < rec.feeds@.len() && #[trigger] rec.feeds@[j].0@ == k;
                lemma_pairs_map_lookup(rec.feeds@, j);
            }
            if oracle.config is None {
                assert(whitelist_pairs(w) =~= Seq::<(String, ())>::empty());
                assert(oracle.whitelist@ =~= Map::<Seq<char>, ()>::empty());
                assert(oracle.feeds@ =~= Map::<(Seq<char>, ReadingType), Feed>::empty());
            }
            assert(oracle@ =~= rec.state());
        }
        Some(oracle)
    }

    /// An oracle that has not been initialized.
    pub fn new() -> (r: Self)
        ensures
            r.wf(),
            r@.config is None,
            r@.whitelist == Set::<Seq<char>>::empty(),
            r@.feeds == Map::<(Seq<char>, ReadingType), Feed>::empty(),
    {
        let r = OracleContract { config: None, whitelist: Table::new(), feeds: Table::new() };
        proof {
            assert(r@.whitelist =~= Set::<Seq<char>>::empty());
        }
        r
    }

    /// Sets up the oracle: `admin` manages the whitelist and is itself whitelisted,
    /// and readings older than `max_reading_age` seconds are refused.
    pub fn initialize(&mut self, admin: String, max_reading_age: u64) -> (r: Result<(), Error>)
        requires
            old(self).wf(),
        ensures
            final(self).wf(),
            old(self)@.config is Some ==> r == Err::<(), Error>(Error::AlreadyInitialized)
                && final(self)@ == old(self)@,
            old(self)@.config is None && max_reading_age == 0 ==> r == Err::<(), Error>(
                Error::InvalidHistorySize,
            ) && final(self)@ == old(self)@,
            old(self)@.config is None && max_reading_age > 0 ==> {
                &&& r is Ok
                &&& final(self)@.config == Some(
                    (Config { admin, max_history_size: DEFAULT_MAX_HISTORY_SIZE, max_reading_age }),
                )
                &&& final(self)@.whitelist == old(self)@.whitelist.insert(admin@)
                &&& final(self)@.feeds == old(self)@.feeds
            },
    {
        if self.config.is_some() {
            return Err(Error::AlreadyInitialized);
        }
        if max_reading_age == 0 {
            return Err(Error::InvalidHistorySize);
        }
        self.whitelist.insert(&admin, ());
        self.config = Some(Config { admin, max_history_size: DEFAULT_MAX_HISTORY_SIZE, max_reading_age });
        Ok(())
    }

    fn get_config(&self) -> (r: Result<Config, Error>)
        ensures
            match self@.config {
                Some(c) => r == Ok::<Config, Error>(c),
                None => r == Err::<Config, Error>(Error::NotInitialized),
            },
    {
        match &self.config {
            Some(c) => Ok(c.clone()),
            None => Err(Error::NotInitialized),
        }
    }

    fn validate_submitter(&self, submitter: String) -> (r: Result<(), Error>)
        requires
            self.wf(),
        ensures
            self@.whitelist.contains(submitter@) ==> r is Ok,
            !self@.whitelist.contains(submitter@) ==> r == Err::<(), Error>(Error::NotWhitelisted),
    {
        if !self.is_whitelisted(submitter) {
            return Err(Error::NotWhitelisted);
        }
        Ok(())
    }

    /// Signatures are accepted as opaque values; no scheme is checked yet.
    fn validate_signature(
        _submitter: &String,
        _geo_cell: &String,
        _reading_type: ReadingType,
        _value: u32,
        _timestamp: u64,
        _signature: &[u8; 64],
    ) -> (r: Result<(), Error>)
        ensures
            r is Ok,
    {
        Ok(())
    }

    /// Records a reading from a whitelisted node: it becomes the feed's latest reading,
    /// stamped with `current_time`, the time it was accepted, and is appended, with the
    /// time it was taken, to the feed's bounded history.
    pub fn submit_reading(
        &mut self,
        submitter: String,
        geo_cell: String,
        reading_type: ReadingType,
        value: u32,
        reading_timestamp: u64,
        signature: [u8; 64],
        current_time: u64,
    ) -> (r: Result<(), Error>)
        requires
            old(self).wf(),
        ensures
            final(self).wf(),
            r is Err ==> final(self)@ == old(self)@,
            old(self)@.config is None ==> r == Err::<(), Error>(Error::NotInitialized),
            old(self)@.config is Some && !old(self)@.whitelist.contains(submitter@) ==> r == Err::<
                (),
                Error,
            >(Error::NotWhitelisted),
            old(self)@.config is Some && old(self)@.whitelist.contains(submitter@) && (
            reading_timestamp == 0 || reading_timestamp > current_time) ==> r == Err::<(), Error>(
                Error::InvalidTimestamp,
            ),
            old(self)@.config matches Some(c) && old(self)@.whitelist.contains(submitter@) && 0
                < reading_timestamp <= current_time && current_time - reading_timestamp
                > c.max_reading_age ==> r == Err::<(), Error>(Error::StaleReading),
            old(self)@.config matches Some(c) && old(self)@.whitelist.contains(submitter@) && 0
                < reading_timestamp <= current_time && current_time - reading_timestamp
                <= c.max_reading_age ==> {
                &&& r is Ok
                &&& final(self)@.config == old(self)@.config
                &&& final(self)@.whitelist == old(self)@.whitelist
                &&& final(self)@.feeds.remove((geo_cell@, reading_type)) == old(self)@.feeds.remove(
                    (geo_cell@, reading_type),
                )
                &&& final(self)@.latest(geo_cell@, reading_type) == Some(
                    (LatestReading { geo_cell, reading_type, value, timestamp: current_time }),
                )
                &&& final(self)@.history(geo_cell@, reading_type) == bounded_push(
                    old(self)@.history(geo_cell@, reading_type),
                    (HistoricalReading { value, timestamp: reading_timestamp, submitter }),
                    DEFAULT_MAX_HISTORY_SIZE as nat,
                )
                &&& final(self)@.aggregated(geo_cell@, reading_type) == old(self)@.aggregated(
                    geo_cell@,
                    reading_type,
                )
            },
    {
        let config = self.get_config()?;
        self.validate_submitter(submitter.clone())?;
        Self::validate_timestamp(current_time, reading_timestamp, config.max_reading_age)?;
        Self::validate_signature(
            &submitter,
            &geo_cell,
            reading_type,
            value,
            reading_timestamp,
            &signature,
        )?;

        let key = FeedKey { geo_cell: geo_cell.clone(), reading_type };
        let ghost old_self = *self;
        let (mut history, aggregated) = match self.feeds.remove(&key) {
            Some(feed) => (feed.history, feed.aggregated),
            None => (Vec::new(), None),
        };
        let ghost old_history = history@;
        assert(old_history == old_self@.history(geo_cell@, reading_type));
        if history.len() >= config.max_history_size as usize {
            history.remove(0);
            assert(history@ =~= old_history.drop_first());
        }
        history.push(HistoricalReading { value, timestamp: reading_timestamp, submitter });
        let reading = LatestReading { geo_cell, reading_type, value, timestamp: current_time };
        self.feeds.insert(&key, Feed { latest: Some(reading), history, aggregated });
        proof {
            assert(self@.feeds.remove(key@) =~= old_self@.feeds.remove(key@));
            assert forall|k: (Seq<char>, ReadingType)| #[trigger]
                self.feeds@.contains_key(k) && k != key@ implies old_self.feeds@.contains_key(k)
                && self.feeds@[k] == old_self.feeds@[k] by {
                assert(self.feeds@.remove(key@).contains_key(k));
            }
        }
        Ok(())
    }

    /// Stores, for a feed, the median of the readings at most `max_reading_age`
    /// seconds old at `current_time`, with the number of readings it was taken over.
    /// Only the configured admin may aggregate; an oracle without configuration holds no
    /// readings to aggregate.
    pub fn aggregate_readings(
        &mut self,
        admin: String,
        geo_cell: String,
        reading_type: ReadingType,
        max_reading_age: u64,
        current_time: u64,
    ) -> (r: Result<(), Error>)
        requires
            old(self).wf(),
            old(self)@.config matches Some(c) && c.admin@ == admin@ ==> readings_not_after(
                old(self)@.history(geo_cell@, reading_type),
                current_time,
            ),
        ensures
            final(self).wf(),
            r is Err ==> final(self)@ == old(self)@,
            old(self)@.config is None ==> r == Err::<(), Error>(Error::NoReadingsAvailable),
            old(self)@.config matches Some(c) && c.admin@ != admin@ ==> r == Err::<(), Error>(
                Error::NotAuthorized,
            ),
            old(self)@.config matches Some(c) && c.admin@ == admin@ ==> ({
                let recent = recent_values(
                    old(self)@.history(geo_cell@, reading_type),
                    current_time,
                    max_reading_age,
                );
                &&& recent.len() == 0 ==> r == Err::<(), Error>(Error::NoReadingsAvailable)
                &&& recent.len() > 0 ==> {
                    &&& r is Ok
                    &&& final(self)@.config == old(self)@.config
                    &&& final(self)@.whitelist == old(self)@.whitelist
                    &&& final(self)@.feeds.remove((geo_cell@, reading_type)) == old(self)@.feeds.remove((geo_cell@, reading_type))
                    &&& final(self)@.latest(geo_cell@, reading_type) == old(self)@.latest(
                        geo_cell@,
                        reading_type,
                    )
                    &&& final(self)@.history(geo_cell@, reading_type) == old(self)@.history(
                        geo_cell@,
                        reading_type,
                    )
                    &&& final(self)@.aggregated(geo_cell@, reading_type) == Some(
                        (AggregatedReading {
                            geo_cell,
                            reading_type,
                            value: median_of(recent) as u32,
                            timestamp: current_time,
                            sample_count: recent.len() as u32,
                        }),
                    )
                }
            }),
    {
        let config = match self.get_config() {
            Ok(c) => c,
            Err(_) => return Err(Error::NoReadingsAvailable),
        };
        if admin != config.admin {
            return Err(Error::NotAuthorized);
        }
        let key = FeedKey { geo_cell: geo_cell.clone(), reading_type };
        let ghost old_self = *self;
        let ghost h = old_self@.history(geo_cell@, reading_type);
        let feed = match self.feeds.remove(&key) {
            Some(feed) => feed,
            None => {
                assert(self@ =~= old_self@);
                return Err(Error::NoReadingsAvailable);
            },
        };
        assert(feed.history@ == h);
        let valid = recent_readings(&feed.history, current_time, max_reading_age);
        if valid.len() == 0 {
            self.feeds.insert(&key, feed);
            assert(self@ =~= old_self@);
            return Err(Error::NoReadingsAvailable);
        }
        let sample_count = valid.len() as u32;
        let median = match Self::calculate_median(valid) {
            Ok(m) => m,
            Err(e) => {
                self.feeds.insert(&key, feed);
                assert(self@ =~= old_self@);
                return Err(e);
            },
        };
        let aggregated = AggregatedReading {
            geo_cell,
            reading_type,
            value: median,
            timestamp: current_time,
            sample_count,
        };
        self.feeds.insert(
            &key,
            Feed { latest: feed.latest, history: feed.history, aggregated: Some(aggregated) },
        );
        proof {
            assert(self@.feeds.remove(key@) =~= old_self@.feeds.remove(key@));
            assert forall|k: (Seq<char>, ReadingType)| #[trigger]
                self.feeds@.contains_key(k) && k != key@ implies old_self.feeds@.contains_key(k)
                && self.feeds@[k] == old_self.feeds@[k] by {
                assert(self.feeds@.remove(key@).contains_key(k));
            }
        }
        Ok(())
    }

    /// The last median stored for a feed.
    pub fn get_aggregated(&self, geo_cell: String, reading_type: ReadingType) -> (r: Result<
        AggregatedReading,
        Error,
    >)
        requires
            self.wf(),
        ensures
            match self@.aggregated(geo_cell@, reading_type) {
                Some(a) => r == Ok::<AggregatedReading, Error>(a),
                None => r == Err::<AggregatedReading, Error>(Error::NoAggregatedReading),
            },
    {
        let key = FeedKey { geo_cell, reading_type };
        match self.feeds.get(&key) {
            Some(feed) => match &feed.aggregated {
                Some(a) => Ok(a.clone()),
                None => Err(Error::NoAggregatedReading),
            },
            None => Err(Error::NoAggregatedReading),
        }
    }

    /// The latest reading of a feed.
    pub fn get_latest(&self, geo_cell: String, reading_type: ReadingType) -> (r: Result<
        LatestReading,
        Error,
    >)
        requires
            self.wf(),
        ensures
            match self@.latest(geo_cell@, reading_type) {
                Some(l) => r == Ok::<LatestReading, Error>(l),
                None => r == Err::<LatestReading, Error>(Error::NoReadingsAvailable),
            },
    {
        let key = FeedKey { geo_cell, reading_type };
        match self.feeds.get(&key) {
            Some(feed) => match &feed.latest {
                Some(l) => Ok(l.clone()),
                None => Err(Error::NoReadingsAvailable),
            },
            None => Err(Error::NoReadingsAvailable),
        }
    }

    /// The readings kept for a feed, oldest first.
    pub fn get_history(&self, geo_cell: String, reading_type: ReadingType) -> (r: Result<
        Vec<HistoricalReading>,
        Error,
    >)
        requires
            self.wf(),
        ensures
            self@.history(geo_cell@, reading_type).len() == 0 ==> r == Err::<
                Vec<HistoricalReading>,
                Error,
            >(Error::NoReadingsAvailable),
            self@.history(geo_cell@, reading_type).len() > 0 ==> (r matches Ok(h) && h@
                == self@.history(geo_cell@, reading_type)),
    {
        let key = FeedKey { geo_cell, reading_type };
        match self.feeds.get(&key) {
            Some(feed) => Ok(copy_history(&feed.history)),
            None => Err(Error::NoReadingsAvailable),
        }
    }

    /// The median of all readings kept for a feed.
    pub fn get_median(&self, geo_cell: String, reading_type: ReadingType) -> (r: Result<u32, Error>)
        requires
            self.wf(),
        ensures
            self@.history(geo_cell@, reading_type).len() == 0 ==> r == Err::<u32, Error>(
                Error::NoReadingsAvailable,
            ),
            self@.history(geo_cell@, reading_type).len() > 0 ==> r == Ok::<u32, Error>(
                median_of(history_values(self@.history(geo_cell@, reading_type))) as u32,
            ),
    {
        let ghost h = self@.history(geo_cell@, reading_type);
        let history = self.get_history(geo_cell, reading_type)?;
        if history.len() == 0 {
            return Err(Error::NoReadingsAvailable);
        }
        let values = values_of(&history);
        Self::calculate_median(values)
    }

    /// The number of readings kept for a feed.
    pub fn get_history_count(&self, geo_cell: String, reading_type: ReadingType) -> (r: Result<
        u32,
        Error,
    >)
        requires
            self.wf(),
        ensures
            self@.history(geo_cell@, reading_type).len() == 0 ==> r == Err::<u32, Error>(
                Error::NoReadingsAvailable,
            ),
            self@.history(geo_cell@, reading_type).len() > 0 ==> r == Ok::<u32, Error>(
                self@.history(geo_cell@, reading_type).len() as u32,
            ),
    {
        let ghost k = (geo_cell@, reading_type);
        let history = self.get_history(geo_cell, reading_type)?;
        proof {
            if self.feeds@.contains_key(k) {
                assert(feed_consistent(k, self.feeds@[k]));
            }
        }
        Ok(history.len() as u32)
    }

    /// Whether every reading of a feed was taken no later than `current_time`, so that its
    /// age at `current_time` can be measured when the feed is aggregated.
    pub fn aggregation_in_range(&self, geo_cell: String, reading_type: ReadingType, current_time: u64) -> (r: bool)
        requires
            self.wf(),
        ensures
            r == readings_not_after(self@.history(geo_cell@, reading_type), current_time),
    {
        let key = FeedKey { geo_cell, reading_type };
        match self.feeds.get(&key) {
            None => true,
            Some(feed) => {
                let ghost h = feed.history@;
                let mut i: usize = 0;
                while i < feed.history.len()
                    invariant
                        feed.history@ == h,
                        h == self@.history(geo_cell@, reading_type),
                        i <= h.len(),
                        forall|j: int| 0 <= j < i ==> #[trigger] h[j].timestamp <= current_time,
                    decreases h.len() - i,
                {
                    if feed.history[i].timestamp > current_time {
                        assert(!readings_not_after(h, current_time)) by {
                            assert(h[i as int].timestamp > current_time);
                        }
                        return false;
                    }
                    i = i + 1;
                }
                true
            },
        }
    }

    /// Whitelists `oracle_address`; only the configured admin may do so.
    pub fn add_oracle_node(&mut self, admin: String, oracle_address: String) -> (r: Result<
        (),
        Error,
    >)
        requires
            old(self).wf(),
        ensures
            final(self).wf(),
            r is Err ==> final(self)@ == old(self)@,
            old(self)@.config is None ==> r == Err::<(), Error>(Error::NotInitialized),
            old(self)@.config matches Some(c) && c.admin@ != admin@ ==> r == Err::<(), Error>(
                Error::NotAuthorized,
            ),
            old(self)@.config matches Some(c) && c.admin@ == admin@ ==> r is Ok && final(self)@
                == (OracleState { whitelist: old(self)@.whitelist.insert(oracle_address@), ..old(self)@ }),
    {
        let config = self.get_config()?;
        if admin != config.admin {
            return Err(Error::NotAuthorized);
        }
        self.whitelist.insert(&oracle_address, ());
        assert(self@.whitelist =~= old(self)@.whitelist.insert(oracle_address@));
        Ok(())
    }

    /// Takes `oracle_address` off the whitelist; only the configured admin may do so.
    pub fn remove_oracle_node(&mut self, admin: String, oracle_address: String) -> (r: Result<
        (),
        Error,
    >)
        requires
            old(self).wf(),
        ensures
            final(self).wf(),
            r is Err ==> final(self)@ == old(self)@,
            old(self)@.config is None ==> r == Err::<(), Error>(Error::NotInitialized),
            old(self)@.config matches Some(c) && c.admin@ != admin@ ==> r == Err::<(), Error>(
                Error::NotAuthorized,
            ),
            old(self)@.config matches Some(c) && c.admin@ == admin@ ==> r is Ok && final(self)@
                == (OracleState { whitelist: old(self)@.whitelist.remove(oracle_address@), ..old(self)@ }),
    {
        let config = self.get_config()?;
        if admin != config.admin {
            return Err(Error::NotAuthorized);
        }
        let _ = self.whitelist.remove(&oracle_address);
        assert(self@.whitelist =~= old(self)@.whitelist.remove(oracle_address@));
        Ok(())
    }

    /// Whether `oracle_address` may submit readings.
    pub fn is_whitelisted(&self, oracle_address: String) -> (r: bool)
        requires
            self.wf(),
        ensures
            r == self@.whitelist.contains(oracle_address@),
    {
        self.whitelist.contains_key(&oracle_address)
    }

    /// Sorts `values` in ascending order (bubble sort).
    fn sort_values(values: Vec<u32>) -> (r: Vec<u32>)
        ensures
            r@ == sorted_values(values@),
    {
        let ghost unsorted = values@;
        let mut values = values;
        let len = values.len();
        let mut i: usize = 0;
        while i < len
            invariant
                values.len() == len,
                len == unsorted.len(),
                i <= len,
                values@.to_multiset() == unsorted.to_multiset(),
                forall|a: int, b: int| len - i <= a < b < len ==> values@[a] <= values@[b],
                forall|a: int, b: int| 0 <= a < len - i <= b < len ==> values@[a] <= values@[b],
            decreases len - i,
        {
            let mut j: usize = 0;
            while j < len - i - 1
                invariant
                    values.len() == len,
                    len == unsorted.len(),
                    i < len,
                    j <= len - i - 1,
                    values@.to_multiset() == unsorted.to_multiset(),
                    forall|a: int, b: int| len - i <= a < b < len ==> values@[a] <= values@[b],
                    forall|a: int, b: int| 0 <= a < len - i <= b < len ==> values@[a] <= values@[b],
                    forall|a: int| 0 <= a <= j ==> values@[a] <= values@[j as int],
                decreases len - i - 1 - j,
            {
                let x = values[j];
                let y = values[j + 1];
                if x > y {
                    proof {
                        broadcast use vstd::multiset::group_multiset_axioms;
                        broadcast use vstd::seq_lib::group_to_multiset_ensures;

                        let s0 = values@;
                        assert(s0.contains(x));
                        assert(s0.to_multiset().count(x) > 0);
                        vstd::seq_lib::to_multiset_update(s0, j as int, y);
                        vstd::seq_lib::to_multiset_update(s0.update(j as int, y), j + 1, x);
                        assert(s0.update(j as int, y).update(j + 1, x).to_multiset() =~= s0.to_multiset());
                    }
                    values.set(j, y);
                    values.set(j + 1, x);
                }
                j = j + 1;
            }
            i = i + 1;
        }
        proof {
            lemma_value_leq_total();
            assert(vstd::relations::sorted_by(values@, value_leq()));
            lemma_sorted_values_len(unsorted);
            vstd::seq_lib::lemma_sorted_unique(values@, sorted_values(unsorted), value_leq());
        }
        values
    }

    /// The median of `values`.
    pub fn calculate_median(values: Vec<u32>) -> (r: Result<u32, Error>)
        ensures
            values@.len() == 0 ==> r == Err::<u32, Error>(Error::NoReadingsAvailable),
            values@.len() > 0 ==> (r matches Ok(m) && m == median_of(values@)),
    {
        if values.len() == 0 {
            return Err(Error::NoReadingsAvailable);
        }
        let ghost unsorted = values@;
        let values = Self::sort_values(values);
        proof {
            lemma_sorted_values_len(unsorted);
        }
        let len = values.len();
        let median = if len % 2 == 0 {
            (((values[len / 2 - 1] as u64) + (values[len / 2] as u64)) / 2) as u32
        } else {
            values[len / 2]
        };
        Ok(median)
    }

    /// Checks that a reading's timestamp is neither zero nor in the future, and
    /// that the reading is at most `max_age` seconds old at `current_time`.
    pub fn validate_timestamp(current_time: u64, reading_timestamp: u64, max_age: u64) -> (r: Result<(), Error>)
        ensures
            r == Err::<(), Error>(Error::InvalidTimestamp) <==> (reading_timestamp == 0 || reading_timestamp > current_time),
            r == Err::<(), Error>(Error::StaleReading) <==> (0 < reading_timestamp <= current_time && current_time - reading_timestamp > max_age),
            r is Ok <==> (0 < reading_timestamp <= current_time && current_time - reading_timestamp <= max_age),
    {
        if reading_timestamp == 0 || reading_timestamp > current_time {
            return Err(Error::InvalidTimestamp);
        }
        let reading_age = current_time - reading_timestamp;
        if reading_age > max_age {
            return Err(Error::StaleReading);
        }
        Ok(())
    }
}

} // verus!
