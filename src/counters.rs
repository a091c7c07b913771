//! Counter series: values keyed by name, sampled into fixed time buckets, with keys that
//! rest at their baseline left out of the samples.

use vstd::prelude::*;
use std::collections::HashMap;

use crate::error::TraceError;

verus! {

/// The width of a bucket, in microseconds.
pub const BUCKET_DURATION_US: u64 = 10_000;

/// The largest timestamp, in microseconds since the epoch, that the series accept.
pub const MAX_TIMESTAMP_US: u64 = 0x4000_0000_0000_0000;

/// A timestamp the series can work with: after the epoch and within range.
pub open spec fn valid_timestamp(ts: u64) -> bool {
    1 <= ts <= MAX_TIMESTAMP_US
}

/// An exact counter value: the rational number `num / den`.
#[derive(Clone, Copy, PartialEq, Eq, Debug, Structural)]
pub struct CounterValue {
    pub num: i128,
    pub den: u64,
}

/// The value `num / den`, with zero always written as `0 / 1`.
pub open spec fn normalized(num: i128, den: u64) -> CounterValue {
    if num == 0 {
        CounterValue { num: 0, den: 1 }
    } else {
        CounterValue { num, den }
    }
}

/// `x`, held to the range of `i128`.
pub open spec fn clamp_i128(x: int) -> i128 {
    if x > i128::MAX {
        i128::MAX
    } else if x < i128::MIN {
        i128::MIN
    } else {
        x as i128
    }
}

/// `v + amount`, saturating at the range of the numerator.
pub open spec fn shifted(v: CounterValue, amount: int) -> CounterValue {
    normalized(clamp_i128(v.num + amount * v.den), v.den)
}

impl CounterValue {
    pub open spec fn zero() -> CounterValue {
        CounterValue { num: 0, den: 1 }
    }

    pub fn integer(n: i64) -> (r: CounterValue)
        ensures
            r == (CounterValue { num: n as i128, den: 1 }),
    {
        CounterValue { num: n as i128, den: 1 }
    }

    pub fn ratio(num: i128, den: u64) -> (r: CounterValue)
        ensures
            r == normalized(num, den),
    {
        if num == 0 {
            CounterValue { num: 0, den: 1 }
        } else {
            CounterValue { num, den }
        }
    }

    pub fn shift(&self, amount: i64) -> (r: CounterValue)
        ensures
            r == shifted(*self, amount as int),
    {
        proof {
            assert((amount as int) * (self.den as int) <= (i64::MAX as int) * (u64::MAX as int))
                by (nonlinear_arith)
                requires amount <= i64::MAX, 0 <= self.den <= u64::MAX;
            assert((amount as int) * (self.den as int) >= (i64::MIN as int) * (u64::MAX as int))
                by (nonlinear_arith)
                requires amount >= i64::MIN, 0 <= self.den <= u64::MAX;
            assert((i64::MAX as int) * (u64::MAX as int) < i128::MAX as int);
            assert((i64::MIN as int) * (u64::MAX as int) > i128::MIN as int);
        }
        let delta: i128 = (amount as i128) * (self.den as i128);
        let num = match self.num.checked_add(delta) {
            Some(n) => n,
            None => if delta > 0 {
                i128::MAX
            } else {
                i128::MIN
            },
        };
        CounterValue::ratio(num, self.den)
    }
}

/// One sample of a series: its name, the bucket's time, and the keys that were not left out.
#[derive(Debug)]
pub struct CounterRecord {
    pub name: String,
    pub ts: u64,
    pub args: Vec<(String, CounterValue)>,
}

pub struct CounterRecordModel {
    pub name: Seq<char>,
    pub ts: u64,
    pub args: Seq<(Seq<char>, CounterValue)>,
}

impl View for CounterRecord {
    type V = CounterRecordModel;

    open spec fn view(&self) -> CounterRecordModel {
        CounterRecordModel {
            name: self.name@,
            ts: self.ts,
            args: self.args@.map_values(|p: (String, CounterValue)| (p.0@, p.1)),
        }
    }
}

/// The state of a series. A key whose value is `None` is left out of samples.
pub struct SeriesModel {
    pub name: Seq<char>,
    pub next_flush: u64,
    pub keys: Seq<Seq<char>>,
    pub values: Seq<Option<CounterValue>>,
    pub start_value: CounterValue,
    pub records: Seq<CounterRecordModel>,
}

/// The keys among the first `n` that are not left out, with their values, in order.
pub open spec fn emitted(
    keys: Seq<Seq<char>>,
    values: Seq<Option<CounterValue>>,
    n: int,
) -> Seq<(Seq<char>, CounterValue)>
    decreases n,
{
    if n <= 0 {
        Seq::empty()
    } else {
        let prev = emitted(keys, values, n - 1);
        match values[n - 1] {
            Some(v) => prev.push((keys[n - 1], v)),
            None => prev,
        }
    }
}

/// The values after a sample: those that rest at the baseline are left out from now on.
pub open spec fn suppressed(values: Seq<Option<CounterValue>>, start: CounterValue) -> Seq<
    Option<CounterValue>,
> {
    values.map_values(
        |o: Option<CounterValue>|
            if o == Some(start) {
                None
            } else {
                o
            },
    )
}

impl SeriesModel {
    pub open spec fn wf(self) -> bool {
        &&& self.keys.len() == self.values.len()
        &&& self.keys.no_duplicates()
        &&& self.next_flush <= MAX_TIMESTAMP_US + BUCKET_DURATION_US
    }

    pub open spec fn new_series(name: Seq<char>, start_value: CounterValue) -> SeriesModel {
        SeriesModel {
            name,
            next_flush: 0,
            keys: Seq::empty(),
            values: Seq::empty(),
            start_value,
            records: Seq::empty(),
        }
    }

    /// Where `key` stands among the keys, if it is there.
    pub open spec fn find(self, key: Seq<char>) -> Option<int> {
        key_index(self.keys, key)
    }

    /// The value of `key`; `None` where it was never set or is left out.
    pub open spec fn value_of(self, key: Seq<char>) -> Option<CounterValue> {
        match self.find(key) {
            Some(i) => self.values[i],
            None => None,
        }
    }

    /// The series with `key` holding `v`, added at the end if it is new.
    pub open spec fn upsert(self, key: Seq<char>, v: Option<CounterValue>) -> SeriesModel {
        match self.find(key) {
            Some(i) => SeriesModel { values: self.values.update(i, v), ..self },
            None => SeriesModel { keys: self.keys.push(key), values: self.values.push(v), ..self },
        }
    }

    pub open spec fn at(self, next_flush: int) -> SeriesModel {
        SeriesModel { next_flush: next_flush as u64, ..self }
    }

    /// One sample at `next_flush`, after which the clock moves on by a bucket.
    pub open spec fn flush(self) -> SeriesModel {
        SeriesModel {
            next_flush: (self.next_flush + BUCKET_DURATION_US) as u64,
            values: suppressed(self.values, self.start_value),
            records: self.records.push(
                CounterRecordModel {
                    name: self.name,
                    ts: self.next_flush,
                    args: emitted(self.keys, self.values, self.values.len() as int),
                },
            ),
            ..self
        }
    }

    /// Starts the clock on the first timestamp, and after an idle gap samples once and
    /// moves the clock to just before `ts`.
    pub open spec fn process_timestamp(self, ts: u64) -> SeriesModel {
        let s = if self.next_flush == 0 {
            self.at(ts + BUCKET_DURATION_US)
        } else {
            self
        };
        if ts > s.next_flush + BUCKET_DURATION_US {
            s.flush().at(ts - 1)
        } else {
            s
        }
    }

    /// Before a key moves away from being left out, samples its baseline just before `ts`;
    /// otherwise samples when `ts` is past the clock. Also gives the key's current value.
    pub open spec fn initialize_entry(self, ts: u64, key: Seq<char>) -> (SeriesModel, CounterValue) {
        match self.value_of(key) {
            None => (
                self.at(ts - 1).upsert(key, Some(self.start_value)).flush().at(ts as int),
                self.start_value,
            ),
            Some(v) => if ts > self.next_flush {
                (self.flush().at(ts + BUCKET_DURATION_US), v)
            } else {
                (self, v)
            },
        }
    }

    pub open spec fn set(self, ts: u64, key: Seq<char>, amount: CounterValue) -> SeriesModel {
        self.process_timestamp(ts).upsert(key, Some(amount))
    }

    /// Adds `amount` (negative to take away) to the value of `key`.
    pub open spec fn bump(self, ts: u64, key: Seq<char>, amount: int) -> SeriesModel {
        let s = self.process_timestamp(ts);
        let (s2, v) = s.initialize_entry(ts, key);
        s2.upsert(key, Some(shifted(v, amount)))
    }
}

proof fn lemma_upsert_wf(s: SeriesModel, key: Seq<char>, v: Option<CounterValue>)
    requires
        s.wf(),
    ensures
        s.upsert(key, v).wf(),
{
    match s.find(key) {
        Some(i) => {},
        None => {
            let k2 = s.keys.push(key);
            assert forall|a: int, b: int| 0 <= a < b < k2.len() implies k2[a] != k2[b] by {
                if b == s.keys.len() {
                    assert(k2[a] == s.keys[a]);
                }
            }
        },
    }
}

/// A series of counter values, sampled every bucket.
pub struct SimpleCounters {
    name: String,
    next_flush: u64,
    keys: Vec<String>,
    values: Vec<Option<CounterValue>>,
    start_value: CounterValue,
    trace_events: Vec<CounterRecord>,
}

impl View for SimpleCounters {
    type V = SeriesModel;

    closed spec fn view(&self) -> SeriesModel {
        SeriesModel {
            name: self.name@,
            next_flush: self.next_flush,
            keys: self.keys@.map_values(|k: String| k@),
            values: self.values@,
            start_value: self.start_value,
            records: self.trace_events@.map_values(|r: CounterRecord| r@),
        }
    }
}

impl SimpleCounters {
    pub fn new(name: String, start_value: CounterValue) -> (r: Self)
        ensures
            r@ == SeriesModel::new_series(name@, start_value),
            r@.wf(),
    {
        let r = SimpleCounters {
            name,
            next_flush: 0,
            keys: Vec::new(),
            values: Vec::new(),
            start_value,
            trace_events: Vec::new(),
        };
        assert(r@.keys =~= Seq::<Seq<char>>::empty());
        assert(r@.records =~= Seq::<CounterRecordModel>::empty());
        r
    }

    fn upsert(&mut self, key: &String, v: Option<CounterValue>)
        requires
            old(self)@.wf(),
        ensures
            final(self)@ == old(self)@.upsert(key@, v),
            final(self)@.wf(),
    {
        proof {
            lemma_upsert_wf(self@, key@, v);
        }
        match find_key_in(&self.keys, key) {
            Some(i) => {
                self.values.set(i, v);
            },
            None => {
                self.keys.push(key.clone());
                self.values.push(v);
                assert(self@.keys =~= old(self)@.keys.push(key@));
            },
        }
        assert(self@ =~= old(self)@.upsert(key@, v));
    }

    fn flush(&mut self)
        requires
            old(self)@.wf(),
        ensures
            final(self)@ == old(self)@.flush(),
            final(self)@.next_flush == old(self)@.next_flush + BUCKET_DURATION_US,
    {
        let ghost old_values = self@.values;
        let n = self.values.len();
        let mut args: Vec<(String, CounterValue)> = Vec::new();
        let mut i: usize = 0;
        while i < n
            invariant
                0 <= i <= n,
                n == self.values@.len(),
                n == self@.keys.len(),
                n == old_values.len(),
                old(self)@.wf(),
                self@.keys == old(self)@.keys,
                self.start_value == old(self)@.start_value,
                self@.name == old(self)@.name,
                self@.records == old(self)@.records,
                self.next_flush == old(self)@.next_flush,
                forall|j: int| 0 <= j < i ==> self.values@[j] == suppressed(old_values, self.start_value)[j],
                forall|j: int| i <= j < n ==> self.values@[j] == old_values[j],
                args@.map_values(|p: (String, CounterValue)| (p.0@, p.1)) == emitted(
                    self@.keys,
                    old_values,
                    i as int,
                ),
            decreases n - i,
        {
            let ghost before = args@;
            assert(suppressed(old_values, self.start_value)[i as int] == (if old_values[i as int]
                == Some(self.start_value) {
                None
            } else {
                old_values[i as int]
            }));
            match self.values[i] {
                Some(v) => {
                    args.push((self.keys[i].clone(), v));
                    if v == self.start_value {
                        self.values.set(i, None);
                    }
                    assert(args@.map_values(|p: (String, CounterValue)| (p.0@, p.1)) =~= before.map_values(
                        |p: (String, CounterValue)| (p.0@, p.1),
                    ).push((self@.keys[i as int], v)));
                },
                None => {},
            }
            i = i + 1;
        }
        let name = self.name.clone();
        let rec = CounterRecord { name, ts: self.next_flush, args };
        self.trace_events.push(rec);
        self.next_flush = self.next_flush + BUCKET_DURATION_US;
        assert(self@.values =~= suppressed(old_values, self.start_value));
        assert(self@.records =~= old(self)@.records.push(rec@));
        assert(self@ =~= old(self)@.flush());
    }

    fn process_timestamp(&mut self, ts: u64)
        requires
            old(self)@.wf(),
            valid_timestamp(ts),
        ensures
            final(self)@ == old(self)@.process_timestamp(ts),
            final(self)@.wf(),
    {
        if self.next_flush == 0 {
            self.next_flush = ts + BUCKET_DURATION_US;
        }
        if ts > self.next_flush + BUCKET_DURATION_US {
            self.flush();
            self.next_flush = ts - 1;
        }
    }

    fn initialize_first_entry_if_needed(&mut self, ts: u64, key: &String) -> (r: CounterValue)
        requires
            old(self)@.wf(),
            valid_timestamp(ts),
        ensures
            (final(self)@, r) == old(self)@.initialize_entry(ts, key@),
            final(self)@.wf(),
    {
        let entry = match find_key_in(&self.keys, key) {
            Some(i) => self.values[i],
            None => None,
        };
        match entry {
            None => {
                self.next_flush = ts - 1;
                let start = self.start_value;
                self.upsert(key, Some(start));
                self.flush();
                self.next_flush = ts;
                start
            },
            Some(v) => {
                if ts > self.next_flush {
                    self.flush();
                    self.next_flush = ts + BUCKET_DURATION_US;
                }
                v
            },
        }
    }

    pub fn set(&mut self, ts: u64, key: &String, amount: CounterValue)
        requires
            old(self)@.wf(),
            valid_timestamp(ts),
        ensures
            final(self)@ == old(self)@.set(ts, key@, amount),
            final(self)@.wf(),
    {
        self.process_timestamp(ts);
        self.upsert(key, Some(amount));
    }

    pub fn bump(&mut self, ts: u64, key: &String, amount: i64)
        requires
            old(self)@.wf(),
            valid_timestamp(ts),
        ensures
            final(self)@ == old(self)@.bump(ts, key@, amount as int),
            final(self)@.wf(),
    {
        self.process_timestamp(ts);
        let entry = self.initialize_first_entry_if_needed(ts, key);
        let v = entry.shift(amount);
        self.upsert(key, Some(v));
    }

    pub fn subtract(&mut self, ts: u64, key: &String, amount: i32)
        requires
            old(self)@.wf(),
            valid_timestamp(ts),
        ensures
            final(self)@ == old(self)@.bump(ts, key@, -amount),
            final(self)@.wf(),
    {
        self.bump(ts, key, -(amount as i64));
    }

    /// Takes a last sample and moves every sample taken so far to the end of `output`.
    pub fn flush_all_to(&mut self, output: &mut Vec<CounterRecord>)
        requires
            old(self)@.wf(),
        ensures
            final(self)@ == (SeriesModel { records: Seq::empty(), ..old(self)@.flush() }),
            final(output)@.map_values(|r: CounterRecord| r@) == old(output)@.map_values(
                |r: CounterRecord| r@,
            ) + old(self)@.flush().records,
    {
        self.flush();
        let ghost recs = self@.records;
        let ghost out = output@;
        output.append(&mut self.trace_events);
        assert(output@.map_values(|r: CounterRecord| r@) =~= out.map_values(|r: CounterRecord| r@)
            + recs);
        assert(self@.records =~= Seq::<CounterRecordModel>::empty());
    }
}

/// Where `key` stands in a sequence of distinct keys, if it is there.
pub open spec fn key_index(keys: Seq<Seq<char>>, key: Seq<char>) -> Option<int> {
    if exists|i: int| 0 <= i < keys.len() && keys[i] == key {
        Some(choose|i: int| 0 <= i < keys.len() && keys[i] == key)
    } else {
        None
    }
}

/// A key that stands at `i` among distinct keys is found there.
pub proof fn lemma_key_index(keys: Seq<Seq<char>>, key: Seq<char>, i: int)
    requires
        keys.no_duplicates(),
        0 <= i < keys.len(),
        keys[i] == key,
    ensures
        key_index(keys, key) == Some(i),
{
    let j = choose|j: int| 0 <= j < keys.len() && keys[j] == key;
    if i != j {
        assert(keys[i] == keys[j]);
    }
}

fn find_key_in(keys: &Vec<String>, key: &String) -> (r: Option<usize>)
    requires
        keys@.map_values(|k: String| k@).no_duplicates(),
    ensures
        r matches Some(i) ==> key_index(keys@.map_values(|k: String| k@), key@) == Some(i as int),
        r is None ==> key_index(keys@.map_values(|k: String| k@), key@) is None,
{
    let ghost ks = keys@.map_values(|k: String| k@);
    let n = keys.len();
    let mut i: usize = 0;
    while i < n
        invariant
            0 <= i <= n,
            n == keys@.len(),
            ks == keys@.map_values(|k: String| k@),
            ks.no_duplicates(),
            forall|j: int| 0 <= j < i ==> ks[j] != key@,
        decreases n - i,
    {
        if keys[i] == *key {
            proof {
                lemma_key_index(ks, key@, i as int);
            }
            return Some(i);
        }
        i = i + 1;
    }
    None
}

/// The rate of change per second between two samples, `elapsed_us` microseconds apart.
pub open spec fn rate_per_second(delta: int, elapsed_us: u64) -> CounterValue {
    normalized((delta * 1_000_000) as i128, elapsed_us)
}

pub struct RateModel {
    pub series: SeriesModel,
    pub keys: Seq<Seq<char>>,
    /// For each key, the timestamp and amount of its last sample.
    pub previous: Seq<(u64, u64)>,
}

impl RateModel {
    pub open spec fn wf(self) -> bool {
        &&& self.series.wf()
        &&& self.keys.len() == self.previous.len()
        &&& self.keys.no_duplicates()
    }

    /// Records a sample of a cumulative amount; from the second sample of a key on, feeds
    /// the series the average rate of change since the previous one.
    pub open spec fn sample(self, ts: u64, key: Seq<char>, amount: u64) -> Result<
        RateModel,
        TraceError,
    > {
        let series = match key_index(self.keys, key) {
            Some(i) => {
                let (pts, pamount) = self.previous[i];
                if ts > pts {
                    self.series.set(ts, key, rate_per_second(amount - pamount, (ts - pts) as u64))
                } else {
                    self.series
                }
            },
            None => self.series,
        };
        let stale = match key_index(self.keys, key) {
            Some(i) => ts < self.previous[i].0,
            None => false,
        };
        if stale {
            Err(TraceError::ClockWentBackwards)
        } else {
            Ok(
                match key_index(self.keys, key) {
                    Some(i) => RateModel {
                        series,
                        previous: self.previous.update(i, (ts, amount)),
                        ..self
                    },
                    None => RateModel {
                        series,
                        keys: self.keys.push(key),
                        previous: self.previous.push((ts, amount)),
                    },
                },
            )
        }
    }
}

/// Series of average rates of change per second of cumulative amounts.
pub struct AverageRateOfChangeCounters {
    pub counters: SimpleCounters,
    keys: Vec<String>,
    previous: Vec<(u64, u64)>,
}

impl View for AverageRateOfChangeCounters {
    type V = RateModel;

    closed spec fn view(&self) -> RateModel {
        RateModel {
            series: self.counters@,
            keys: self.keys@.map_values(|k: String| k@),
            previous: self.previous@,
        }
    }
}

impl AverageRateOfChangeCounters {
    pub fn new(name: String) -> (r: Self)
        ensures
            r@.wf(),
            r@.series == SeriesModel::new_series(name@, CounterValue::zero()),
            r@.keys.len() == 0,
    {
        let r = AverageRateOfChangeCounters {
            counters: SimpleCounters::new(name, CounterValue::integer(0)),
            keys: Vec::new(),
            previous: Vec::new(),
        };
        assert(r@.keys =~= Seq::<Seq<char>>::empty());
        r
    }

    /// Takes a last sample of the rates and moves all samples to the end of `output`.
    pub fn flush_all_to(&mut self, output: &mut Vec<CounterRecord>)
        requires
            old(self)@.wf(),
        ensures
            final(output)@.map_values(|r: CounterRecord| r@) == old(output)@.map_values(
                |r: CounterRecord| r@,
            ) + old(self)@.series.flush().records,
    {
        self.counters.flush_all_to(output);
    }

    pub fn set_average_rate_of_change_per_s(&mut self, ts: u64, key: &String, amount: u64) -> (r:
        Result<(), TraceError>)
        requires
            old(self)@.wf(),
            valid_timestamp(ts),
        ensures
            final(self)@.wf(),
            match old(self)@.sample(ts, key@, amount) {
                Ok(m) => r is Ok && final(self)@ == m,
                Err(e) => r == Err::<(), TraceError>(e) && final(self)@ == old(self)@,
            },
    {
        let found = find_key_in(&self.keys, key);
        match found {
            Some(i) => {
                let (pts, pamount) = self.previous[i];
                if ts < pts {
                    return Err(TraceError::ClockWentBackwards);
                }
                if ts > pts {
                    let delta: i128 = (amount as i128) - (pamount as i128);
                    let v = CounterValue::ratio(delta * 1_000_000, ts - pts);
                    self.counters.set(ts, key, v);
                }
                self.previous.set(i, (ts, amount));
            },
            None => {
                self.keys.push(key.clone());
                self.previous.push((ts, amount));
                proof {
                    let ks = self@.keys;
                    let ok = old(self)@.keys;
                    assert(ks =~= ok.push(key@));
                    assert forall|a: int, b: int| 0 <= a < b < ks.len() implies ks[a] != ks[b] by {
                        if b == ok.len() {
                            assert(ks[a] == ok[a]);
                        }
                    }
                }
            },
        }
        assert(self@ =~= old(self)@.sample(ts, key@, amount).unwrap());
        Ok(())
    }
}

pub struct SpanCountersModel {
    pub series: SeriesModel,
    /// For each open span that counts, its key and what it added.
    pub open: Map<u64, (Seq<char>, i32)>,
}

impl SpanCountersModel {
    /// Adds `amount` to `key` for as long as the span stays open.
    pub open spec fn bump_while_span(self, span_id: u64, ts: u64, key: Seq<char>, amount: i32) -> SpanCountersModel {
        SpanCountersModel {
            series: self.series.bump(ts, key, amount as int),
            open: self.open.insert(span_id, (key, amount)),
        }
    }

    /// Takes back what a span added, when it ends.
    pub open spec fn span_end(self, span_id: u64, ts: u64) -> SpanCountersModel {
        if self.open.contains_key(span_id) {
            let (key, amount) = self.open[span_id];
            SpanCountersModel {
                series: self.series.bump(ts, key, -amount),
                open: self.open.remove(span_id),
            }
        } else {
            self
        }
    }
}

/// Gauges derived from spans: a span adds to a key when it opens and takes it back
/// when it ends.
pub struct SpanCounters {
    pub counter: SimpleCounters,
    open_spans: HashMap<u64, (String, i32)>,
}

impl View for SpanCounters {
    type V = SpanCountersModel;

    closed spec fn view(&self) -> SpanCountersModel {
        SpanCountersModel {
            series: self.counter@,
            open: self.open_spans@.map_values(|p: (String, i32)| (p.0@, p.1)),
        }
    }
}

impl SpanCounters {
    pub fn new(name: String) -> (r: Self)
        ensures
            r@.series == SeriesModel::new_series(name@, CounterValue::zero()),
            r@.series.wf(),
            r@.open == Map::<u64, (Seq<char>, i32)>::empty(),
    {
        let r = SpanCounters {
            counter: SimpleCounters::new(name, CounterValue::integer(0)),
            open_spans: HashMap::new(),
        };
        assert(r@.open =~= Map::<u64, (Seq<char>, i32)>::empty());
        r
    }

    /// Takes a last sample of the gauges and moves all samples to the end of `output`.
    pub fn flush_all_to(&mut self, output: &mut Vec<CounterRecord>)
        requires
            old(self)@.series.wf(),
        ensures
            final(output)@.map_values(|r: CounterRecord| r@) == old(output)@.map_values(
                |r: CounterRecord| r@,
            ) + old(self)@.series.flush().records,
    {
        self.counter.flush_all_to(output);
    }

    pub fn bump_counter_while_span(&mut self, span_id: u64, ts: u64, key: String, amount: i32)
        requires
            old(self)@.series.wf(),
            valid_timestamp(ts),
        ensures
            final(self)@.series.wf(),
            final(self)@ == old(self)@.bump_while_span(span_id, ts, key@, amount),
    {
        broadcast use vstd::std_specs::hash::group_hash_axioms;

        self.counter.bump(ts, &key, amount as i64);
        self.open_spans.insert(span_id, (key, amount));
        assert(self@.open =~= old(self)@.open.insert(span_id, (key@, amount)));
    }

    pub fn handle_event_end(&mut self, span_id: u64, ts: u64)
        requires
            old(self)@.series.wf(),
            valid_timestamp(ts),
        ensures
            final(self)@.series.wf(),
            final(self)@ == old(self)@.span_end(span_id, ts),
    {
        broadcast use vstd::std_specs::hash::group_hash_axioms;

        match self.open_spans.remove(&span_id) {
            Some((key, amount)) => {
                assert(old(self)@.open.contains_key(span_id));
                self.counter.subtract(ts, &key, amount);
                assert(self@.open =~= old(self)@.open.remove(span_id));
            },
            None => {
                assert(self@.open =~= old(self)@.open);
            },
        }
    }
}

proof fn lemma_upsert_value_of(s: SeriesModel, key: Seq<char>, v: Option<CounterValue>)
    requires
        s.wf(),
    ensures
        s.upsert(key, v).value_of(key) == v,
{
    let u = s.upsert(key, v);
    match s.find(key) {
        Some(i) => {
            lemma_key_index(u.keys, key, i);
        },
        None => {
            lemma_upsert_wf(s, key, v);
            lemma_key_index(u.keys, key, s.keys.len() as int);
        },
    }
}

proof fn lemma_process_timestamp_wf(s: SeriesModel, ts: u64)
    requires
        s.wf(),
        valid_timestamp(ts),
    ensures
        s.process_timestamp(ts).wf(),
{
}

/// The first sample of a key feeds its rate series nothing; a later sample sets the key to
/// the amount's change per second since the first.
pub proof fn lemma_rate_of_change(
    m: RateModel,
    t0: u64,
    t1: u64,
    key: Seq<char>,
    first: u64,
    second: u64,
)
    requires
        m.wf(),
        key_index(m.keys, key) is None,
        valid_timestamp(t0),
        valid_timestamp(t1),
        t0 < t1,
    ensures
        m.sample(t0, key, first) is Ok,
        m.sample(t0, key, first).unwrap().series == m.series,
        m.sample(t0, key, first).unwrap().sample(t1, key, second) is Ok,
        ({
            let m2 = m.sample(t0, key, first).unwrap().sample(t1, key, second).unwrap();
            let v = rate_per_second(second - first, (t1 - t0) as u64);
            &&& m2.series == m.series.set(t1, key, v)
            &&& m2.series.value_of(key) == Some(v)
        }),
{
    let m1 = m.sample(t0, key, first).unwrap();
    assert(m1.keys == m.keys.push(key));
    assert forall|a: int, b: int| 0 <= a < b < m1.keys.len() implies m1.keys[a] != m1.keys[b] by {
        if b == m.keys.len() {
            assert(m1.keys[a] == m.keys[a]);
        }
    }
    lemma_key_index(m1.keys, key, m.keys.len() as int);
    let v = rate_per_second(second - first, (t1 - t0) as u64);
    let p = m.series.process_timestamp(t1);
    lemma_process_timestamp_wf(m.series, t1);
    lemma_upsert_value_of(p, key, Some(v));
}

/// The value a sample gives `key`, or `None` where the sample leaves it out.
pub open spec fn sampled(args: Seq<(Seq<char>, CounterValue)>, key: Seq<char>) -> Option<CounterValue>
    decreases args.len(),
{
    if args.len() == 0 {
        None
    } else if args.last().0 == key {
        Some(args.last().1)
    } else {
        sampled(args.drop_last(), key)
    }
}

/// The value of `key` among the first `n` entries.
spec fn lookup_upto(keys: Seq<Seq<char>>, values: Seq<Option<CounterValue>>, key: Seq<char>, n: int) -> Option<
    CounterValue,
>
    decreases n,
{
    if n <= 0 {
        None
    } else if keys[n - 1] == key {
        values[n - 1]
    } else {
        lookup_upto(keys, values, key, n - 1)
    }
}

proof fn lemma_lookup_absent(keys: Seq<Seq<char>>, values: Seq<Option<CounterValue>>, key: Seq<char>, n: int)
    requires
        0 <= n <= keys.len(),
        forall|i: int| 0 <= i < n ==> keys[i] != key,
    ensures
        lookup_upto(keys, values, key, n) is None,
    decreases n,
{
    if n > 0 {
        lemma_lookup_absent(keys, values, key, n - 1);
    }
}

proof fn lemma_emitted_sampled(keys: Seq<Seq<char>>, values: Seq<Option<CounterValue>>, key: Seq<char>, n: int)
    requires
        0 <= n <= keys.len(),
        keys.len() == values.len(),
        keys.no_duplicates(),
    ensures
        sampled(emitted(keys, values, n), key) == lookup_upto(keys, values, key, n),
    decreases n,
{
    if n > 0 {
        lemma_emitted_sampled(keys, values, key, n - 1);
        let prev = emitted(keys, values, n - 1);
        match values[n - 1] {
            Some(v) => {
                assert(emitted(keys, values, n).drop_last() == prev);
            },
            None => {
                if keys[n - 1] == key {
                    lemma_lookup_absent(keys, values, key, n - 1);
                }
            },
        }
    }
}

proof fn lemma_lookup_is_value_of(s: SeriesModel, key: Seq<char>, n: int)
    requires
        s.keys.len() == s.values.len(),
        s.keys.no_duplicates(),
        0 <= n <= s.keys.len(),
        s.find(key) matches Some(i) ==> i < n,
    ensures
        lookup_upto(s.keys, s.values, key, n) == s.value_of(key),
    decreases n,
{
    match s.find(key) {
        Some(i) => {
            assert(0 <= i < s.keys.len() && s.keys[i] == key) by {
                let j = choose|j: int| 0 <= j < s.keys.len() && s.keys[j] == key;
            }
            if n - 1 != i {
                assert(s.keys[n - 1] != s.keys[i]);
                lemma_lookup_is_value_of(s, key, n - 1);
            }
        },
        None => {
            lemma_lookup_absent(s.keys, s.values, key, n);
        },
    }
}

/// What a sample does to one key: it reports the key's value, and a key at the baseline
/// is left out from then on.
pub proof fn lemma_flush_samples_key(s: SeriesModel, key: Seq<char>)
    requires
        s.keys.len() == s.values.len(),
        s.keys.no_duplicates(),
    ensures
        s.next_flush <= MAX_TIMESTAMP_US ==> s.flush().wf(),
        s.flush().keys == s.keys,
        s.flush().values.len() == s.values.len(),
        s.flush().records == s.records.push(s.flush().records.last()),
        s.flush().records.last().ts == s.next_flush,
        sampled(s.flush().records.last().args, key) == s.value_of(key),
        s.flush().value_of(key) == (if s.value_of(key) == Some(s.start_value) {
            None
        } else {
            s.value_of(key)
        }),
{
    let f = s.flush();
    lemma_emitted_sampled(s.keys, s.values, key, s.keys.len() as int);
    lemma_lookup_is_value_of(s, key, s.keys.len() as int);
    assert(f.keys == s.keys);
}

/// Whether the records after the first `from` of `records` all sample `key` as `v`.
pub open spec fn samples_after(records: Seq<CounterRecordModel>, from: int, key: Seq<char>, v: Option<CounterValue>) -> bool {
    forall|i: int| from <= i < records.len() ==> sampled(#[trigger] records[i].args, key) == v
}

proof fn lemma_process_keeps_key(s: SeriesModel, ts: u64, key: Seq<char>)
    requires
        s.wf(),
        valid_timestamp(ts),
        s.value_of(key) != Some(s.start_value),
    ensures
        ({
            let p = s.process_timestamp(ts);
            &&& p.wf()
            &&& p.start_value == s.start_value
            &&& p.value_of(key) == s.value_of(key)
            &&& s.records.len() <= p.records.len()
            &&& p.records.subrange(0, s.records.len() as int) == s.records
            &&& samples_after(p.records, s.records.len() as int, key, s.value_of(key))
        }),
{
    let a = if s.next_flush == 0 {
        s.at(ts + BUCKET_DURATION_US)
    } else {
        s
    };
    assert(a.value_of(key) == s.value_of(key));
    if ts > a.next_flush + BUCKET_DURATION_US {
        lemma_flush_samples_key(a, key);
        let f = a.flush();
        assert(f.records.subrange(0, s.records.len() as int) =~= s.records);
        assert(f.at(ts - 1).value_of(key) == f.value_of(key));
    } else {
        assert(a.records.subrange(0, s.records.len() as int) =~= s.records);
    }
}

proof fn lemma_initialize_present_key(s: SeriesModel, ts: u64, key: Seq<char>)
    requires
        s.wf(),
        valid_timestamp(ts),
        s.value_of(key) is Some,
        s.value_of(key) != Some(s.start_value),
    ensures
        ({
            let (q, v) = s.initialize_entry(ts, key);
            &&& q.wf()
            &&& q.start_value == s.start_value
            &&& Some(v) == s.value_of(key)
            &&& q.value_of(key) == s.value_of(key)
            &&& s.records.len() <= q.records.len()
            &&& q.records.subrange(0, s.records.len() as int) == s.records
            &&& samples_after(q.records, s.records.len() as int, key, s.value_of(key))
        }),
{
    if ts > s.next_flush {
        lemma_flush_samples_key(s, key);
        let f = s.flush();
        assert(f.records.subrange(0, s.records.len() as int) =~= s.records);
        assert(f.at(ts + BUCKET_DURATION_US).value_of(key) == f.value_of(key));
    } else {
        assert(s.records.subrange(0, s.records.len() as int) =~= s.records);
    }
}

proof fn lemma_initialize_absent_key(s: SeriesModel, ts: u64, key: Seq<char>)
    requires
        s.wf(),
        valid_timestamp(ts),
        s.value_of(key) is None,
    ensures
        ({
            let (q, v) = s.initialize_entry(ts, key);
            &&& q.wf()
            &&& q.start_value == s.start_value
            &&& v == s.start_value
            &&& q.value_of(key) is None
            &&& q.records == s.records.push(q.records.last())
            &&& q.records.last().ts == ts - 1
            &&& sampled(q.records.last().args, key) == Some(s.start_value)
        }),
{
    let a = s.at(ts - 1);
    let b = a.upsert(key, Some(s.start_value));
    lemma_upsert_wf(a, key, Some(s.start_value));
    lemma_upsert_value_of(a, key, Some(s.start_value));
    lemma_flush_samples_key(b, key);
    let f = b.flush();
    assert(f.at(ts as int).value_of(key) == f.value_of(key));
}

/// Raising a gauge from its zero baseline and bringing it back: the samples that the rise
/// adds leave the key out until the last, which gives the baseline just before the rise;
/// every sample that the fall adds gives the raised value; the next sample gives the
/// baseline again; and from then on every sample leaves the key out. So the key is
/// sampled at its baseline exactly twice.
pub proof fn lemma_round_trip_through_baseline(s: SeriesModel, key: Seq<char>, t0: u64, t1: u64, amount: i32)
    requires
        s.wf(),
        s.start_value == CounterValue::zero(),
        s.value_of(key) is None,
        valid_timestamp(t0),
        valid_timestamp(t1),
        amount != 0,
    ensures
        ({
            let raised = CounterValue { num: amount as i128, den: 1 };
            let s1 = s.bump(t0, key, amount as int);
            let s2 = s1.bump(t1, key, -amount);
            let s3 = s2.flush();
            &&& s.records.len() < s1.records.len()
            &&& s1.records.subrange(0, s.records.len() as int) == s.records
            &&& samples_after(s1.records.drop_last(), s.records.len() as int, key, None)
            &&& s1.records.last().ts == t0 - 1
            &&& sampled(s1.records.last().args, key) == Some(CounterValue::zero())
            &&& s1.records.len() <= s2.records.len()
            &&& s2.records.subrange(0, s1.records.len() as int) == s1.records
            &&& samples_after(s2.records, s1.records.len() as int, key, Some(raised))
            &&& s3.records == s2.records.push(s3.records.last())
            &&& sampled(s3.records.last().args, key) == Some(CounterValue::zero())
            &&& s3.value_of(key) is None
            &&& sampled(s3.flush().records.last().args, key) is None
        }),
{
    let raised = CounterValue { num: amount as i128, den: 1 };
    let p = s.process_timestamp(t0);
    lemma_process_keeps_key(s, t0, key);
    let (q, v) = p.initialize_entry(t0, key);
    lemma_initialize_absent_key(p, t0, key);
    assert(shifted(v, amount as int) == raised);
    let s1 = q.upsert(key, Some(raised));
    lemma_upsert_wf(q, key, Some(raised));
    lemma_upsert_value_of(q, key, Some(raised));
    assert(s1.records == q.records);
    assert(s1.records.drop_last() =~= p.records);
    assert(s1.records.subrange(0, s.records.len() as int) =~= s.records) by {
        assert(p.records.subrange(0, s.records.len() as int) == s.records);
        assert forall|i: int| 0 <= i < s.records.len() implies s1.records[i] == s.records[i] by {
            assert(s1.records[i] == p.records[i]);
            assert(p.records[i] == p.records.subrange(0, s.records.len() as int)[i]);
        }
    }
    assert(s1 == s.bump(t0, key, amount as int));

    let p2 = s1.process_timestamp(t1);
    lemma_process_keeps_key(s1, t1, key);
    let (q2, v2) = p2.initialize_entry(t1, key);
    lemma_initialize_present_key(p2, t1, key);
    assert(v2 == raised);
    assert(shifted(v2, -amount) == CounterValue::zero());
    let s2 = q2.upsert(key, Some(CounterValue::zero()));
    lemma_upsert_wf(q2, key, Some(CounterValue::zero()));
    lemma_upsert_value_of(q2, key, Some(CounterValue::zero()));
    assert(s2 == s1.bump(t1, key, -amount));
    assert(s2.records == q2.records);
    assert(s2.records.subrange(0, s1.records.len() as int) =~= s1.records) by {
        assert forall|i: int| 0 <= i < s1.records.len() implies s2.records[i] == s1.records[i] by {
            assert(q2.records[i] == q2.records.subrange(0, p2.records.len() as int)[i]);
            assert(p2.records[i] == p2.records.subrange(0, s1.records.len() as int)[i]);
        }
    }
    assert(samples_after(s2.records, s1.records.len() as int, key, Some(raised))) by {
        assert forall|i: int| s1.records.len() <= i < s2.records.len() implies sampled(
            #[trigger] s2.records[i].args,
            key,
        ) == Some(raised) by {
            if i >= p2.records.len() {
            } else {
                assert(q2.records[i] == q2.records.subrange(0, p2.records.len() as int)[i]);
            }
        }
    }
    lemma_flush_samples_key(s2, key);
    let s3 = s2.flush();
    lemma_flush_samples_key(s3, key);
}

} // verus!
