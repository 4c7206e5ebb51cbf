//! Windows performance counters: the counter types, the state kept between
//! runs, and how a counter's value is computed from raw samples.

use vstd::prelude::*;

use crate::common::data::{DataError, DataErrorV, FloatRepr, FloatV, Value, ValueV};
use crate::common::strmap::StrMap;
use crate::common::text::{chars_of, float_text, is_float_text, parse_i64, parse_u64, push_str, spec_parse_int, string_from_chars};
use vstd::string::StringExecFns;

verus! {

/// Raw values of counters, by key, as kept between runs: a base (time or
/// count) and a value.
pub struct CounterDB {
    /// The values read in the previous run.
    pub old_state: StrMap<(u64, i64)>,
    /// The values read in this run.
    pub new_state: StrMap<(u64, i64)>,
}

impl CounterDB {
    /// A counter store with the values of the previous run.
    pub fn new(old_state: StrMap<(u64, i64)>) -> (r: CounterDB)
        ensures
            r.old_state@ == old_state@,
            r.new_state@ == Map::<Seq<char>, (u64, i64)>::empty(),
    {
        CounterDB { old_state, new_state: StrMap::new() }
    }

    /// The value of the previous run for `k`.
    pub fn get(&self, k: &String) -> (r: Option<&(u64, i64)>)
        ensures
            match r {
                Some(v) => self.old_state@.contains_key(k@) && self.old_state@[k@] == *v,
                None => !self.old_state@.contains_key(k@),
            },
    {
        self.old_state.get(k)
    }

    /// Records the value of this run for `k`.
    pub fn insert(&mut self, k: String, v: (u64, i64))
        ensures
            final(self).old_state@ == old(self).old_state@,
            final(self).new_state@ == old(self).new_state@.insert(k@, v),
            db_view(*final(self)) == after_inserts(db_view(*old(self)), seq![(k@, v)]),
    {
        let ghost kv = (k@, v);
        let ghost s0 = db_view(*self);
        self.new_state.insert(k, v);
        proof {
            let one = seq![kv];
            assert(one.drop_last() =~= Seq::<(Seq<char>, (u64, i64))>::empty());
            assert(one.last() == kv);
            assert(after_inserts(s0, one.drop_last()) == s0);
            assert(after_inserts(s0, one) == (s0.0, s0.1.insert(kv.0, kv.1)));
        }
    }
}

/// The two states of a counter store: the previous run's values, which
/// `get` reads, and this run's, which `insert` records and which are saved
/// for the next run.
pub open spec fn db_view(db: CounterDB) -> (Map<Seq<char>, (u64, i64)>, Map<Seq<char>, (u64, i64)>) {
    (db.old_state@, db.new_state@)
}

/// The states of a counter store after the given inserts, in order.
pub open spec fn after_inserts(
    s: (Map<Seq<char>, (u64, i64)>, Map<Seq<char>, (u64, i64)>),
    ins: Seq<(Seq<char>, (u64, i64))>,
) -> (Map<Seq<char>, (u64, i64)>, Map<Seq<char>, (u64, i64)>)
    decreases ins.len(),
{
    if ins.len() == 0 {
        s
    } else {
        let p = after_inserts(s, ins.drop_last());
        (p.0, p.1.insert(ins.last().0, ins.last().1))
    }
}

/// The value last inserted for `k` among the given inserts.
pub open spec fn last_inserted(ins: Seq<(Seq<char>, (u64, i64))>, k: Seq<char>) -> Option<(u64, i64)>
    decreases ins.len(),
{
    if ins.len() == 0 {
        None
    } else if ins.last().0 == k {
        Some(ins.last().1)
    } else {
        last_inserted(ins.drop_last(), k)
    }
}

/// Within a run, the counter store reads only the previous run's values:
/// whatever is inserted meanwhile, `get` answers as it did at the start.
pub proof fn law_run_reads_previous(db: CounterDB, ins: Seq<(Seq<char>, (u64, i64))>)
    ensures
        after_inserts(db_view(db), ins).0 == db.old_state@,
    decreases ins.len(),
{
    if ins.len() > 0 {
        law_run_reads_previous(db, ins.drop_last());
    }
}

proof fn lemma_saved_values(
    s: (Map<Seq<char>, (u64, i64)>, Map<Seq<char>, (u64, i64)>),
    ins: Seq<(Seq<char>, (u64, i64))>,
    k: Seq<char>,
)
    requires
        s.1 == Map::<Seq<char>, (u64, i64)>::empty(),
    ensures
        after_inserts(s, ins).1.contains_key(k) <==> last_inserted(ins, k) is Some,
        last_inserted(ins, k) matches Some(v) ==> after_inserts(s, ins).1[k] == v,
    decreases ins.len(),
{
    if ins.len() > 0 {
        lemma_saved_values(s, ins.drop_last(), k);
    }
}

/// Across runs: a store started from the values that a run saved (its
/// values of this run) reads, for each key, the value last inserted in
/// that run, and nothing for a key that run did not insert; values only
/// loaded from the run before are not carried over.
pub proof fn law_next_run_reads_last_inserts(
    db: CounterDB,
    ins: Seq<(Seq<char>, (u64, i64))>,
    next: CounterDB,
    k: Seq<char>,
)
    requires
        db.new_state@ == Map::<Seq<char>, (u64, i64)>::empty(),
        next.old_state@ == after_inserts(db_view(db), ins).1,
    ensures
        previous(next, k) == last_inserted(ins, k),
{
    lemma_saved_values(db_view(db), ins, k);
}

/// The previous value of a counter.
pub open spec fn previous(db: CounterDB, key: Seq<char>) -> Option<(u64, i64)> {
    if db.old_state@.contains_key(key) { Some(db.old_state@[key]) } else { None }
}

/// The difference of a counter since its previous value: pending without
/// one, an overflow when it went down.
pub open spec fn spec_delta(prev: Option<(u64, i64)>, value: i64) -> Result<i64, DataErrorV> {
    match prev {
        Some((_, last)) => if last > value {
            Err(DataErrorV::CounterOverflow)
        } else {
            Ok((value - last) as i64)
        },
        None => Err(DataErrorV::CounterPending),
    }
}

/// The rate of a counter since its previous value and base, as a ratio:
/// the value difference over the base difference; the previous value
/// itself when neither moved; undefined when only the value moved;
/// pending without a previous value, an overflow when either went down.
pub open spec fn spec_rate(prev: Option<(u64, i64)>, value: i64, base: u64) -> Result<(int, int), DataErrorV> {
    match prev {
        Some((last_base, last_value)) => if last_value > value || last_base > base {
            Err(DataErrorV::CounterOverflow)
        } else if base == last_base && value == last_value {
            Ok((last_value as int, 1))
        } else if base == last_base {
            Err(DataErrorV::CounterUndefined)
        } else {
            Ok((value - last_value, base - last_base))
        },
        None => Err(DataErrorV::CounterPending),
    }
}

/// Computes the difference of a counter (see `spec_delta`), wrapping on
/// overflow; records the value.
pub fn get_delta(key: &String, value: i64, counter_db: &mut CounterDB) -> (r: Result<i64, DataError>)
    ensures
        final(counter_db).old_state@ == old(counter_db).old_state@,
        final(counter_db).new_state@ == old(counter_db).new_state@.insert(key@, (0u64, value)),
        match (r, spec_delta(previous(*old(counter_db), key@), value)) {
            (Ok(a), Ok(b)) => a == b,
            (Err(a), Err(b)) => a@ == b,
            _ => false,
        },
{
    let res = match counter_db.get(key) {
        Some(prev) => {
            let last = prev.1;
            if last > value {
                Err(DataError::CounterOverflow)
            } else {
                Ok((value as i128 - last as i128) as i64)
            }
        },
        None => Err(DataError::CounterPending),
    };
    counter_db.insert(key.clone(), (0, value));
    res
}

/// Computes the rate of a counter (see `spec_rate`); records the value and
/// base.
pub fn get_rate(key: &String, value: i64, base: u64, counter_db: &mut CounterDB) -> (r: Result<(i128, u128), DataError>)
    ensures
        final(counter_db).old_state@ == old(counter_db).old_state@,
        final(counter_db).new_state@ == old(counter_db).new_state@.insert(key@, (base, value)),
        match (r, spec_rate(previous(*old(counter_db), key@), value, base)) {
            (Ok((n, d)), Ok((sn, sd))) => n == sn && d == sd,
            (Err(a), Err(b)) => a@ == b,
            _ => false,
        },
{
    let res = match counter_db.get(key) {
        Some(prev) => {
            let last_base = prev.0;
            let last_value = prev.1;
            if last_value > value || last_base > base {
                Err(DataError::CounterOverflow)
            } else if base == last_base && value == last_value {
                Ok((last_value as i128, 1u128))
            } else if base == last_base {
                Err(DataError::CounterUndefined)
            } else {
                Ok((value as i128 - last_value as i128, (base - last_base) as u128))
            }
        },
        None => Err(DataError::CounterPending),
    };
    counter_db.insert(key.clone(), (base, value));
    res
}

/// The type of a Windows performance counter.
#[derive(Clone, Copy, PartialEq, Eq, Structural)]
pub enum WmiCounter {
    PerfCounterText,
    PerfCounterRawcount,
    PerfCounterLargeRawcount,
    PerfCounterRawcountHex,
    PerfCounterLargeRawcountHex,
    PerfAverageBase,
    PerfCounterMultiBase,
    PerfLargeRawBase,
    PerfRawBase,
    PerfSampleBase,
    PerfPrecisionTimestamp,
    PerfRawFraction,
    PerfLargeRawFraction,
    PerfSampleFraction,
    PerfCounterDelta,
    PerfCounterLargeDelta,
    PerfElapsedTime,
    PerfAverageBulk,
    PerfSampleCounter,
    PerfCounterCounter,
    PerfCounterBulkCount,
    PerfPrecisionTimer,
    PerfPrecisionSystemTimer,
    PerfPrecision100nsTimer,
    PerfPrecisionObjectTimer,
    PerfCounterQueuelenType,
    PerfCounterLargeQueuelenType,
    PerfCounter100nsQueuelenType,
    PerfCounterObjTimeQueuelenType,
    PerfCounterTimer,
    PerfCounterTimerInv,
    PerfAverageTimer,
    Perf100secTimer,
    Perf100secTimerInv,
    PerfCounterMultiTimer,
    PerfCounterMultiTimerInv,
    Perf100nsecMultiTimer,
    Perf100nsecMultiTimerInv,
    PerfObjTimeTimer,
}

/// Frequencies and timestamps of a sample.
pub struct CounterMetadata {
    pub freq_time: u64,
    pub freq_syn: u64,
    pub freq_obj: u64,
    pub ts_time: u64,
    pub ts_syn: u64,
    pub ts_obj: u64,
}

/// The text of a property of an instance, if it has one.
pub open spec fn prop(inst: StrMap<String>, k: Seq<char>) -> Option<Seq<char>> {
    if inst@.contains_key(k) { Some(inst@[k]@) } else { None }
}

/// Message for metadata that is no integer.
pub open spec fn metadata_message(name: Seq<char>, value: Seq<char>) -> Seq<char> {
    "cannot parse "@ + name + " ("@ + value + ") to an integer (wmi counter metadata)"@
}

/// A metadata value of a sample: read from the instance when present, else
/// `now` for timestamps and 1 for frequencies.
pub open spec fn metadata_value(inst: StrMap<String>, name: Seq<char>, timestamp: bool, now: u64) -> Result<u64, DataErrorV> {
    match prop(inst, name) {
        Some(t) => match spec_parse_int(t, 0, u64::MAX as int) {
            Some(v) => Ok(v as u64),
            None => Err(DataErrorV::TypeError(metadata_message(name, t))),
        },
        None => Ok(if timestamp { now } else { 1 }),
    }
}

/// The metadata of a sample, read in the order frequencies (perf time,
/// 100ns, object), then timestamps; the first that is no integer gives the
/// error.
pub open spec fn spec_metadata(inst: StrMap<String>, now: u64) -> Result<CounterMetadata, DataErrorV> {
    let a = metadata_value(inst, "Frequency_PerfTime"@, false, now);
    let b = metadata_value(inst, "Frequency_Sys100NS"@, false, now);
    let c = metadata_value(inst, "Frequency_Object"@, false, now);
    let d = metadata_value(inst, "Timestamp_PerfTime"@, true, now);
    let e = metadata_value(inst, "Timestamp_Sys100NS"@, true, now);
    let f = metadata_value(inst, "Timestamp_Object"@, true, now);
    match (a, b, c, d, e, f) {
        (Ok(a), Ok(b), Ok(c), Ok(d), Ok(e), Ok(f)) => Ok(CounterMetadata {
            freq_time: a, freq_syn: b, freq_obj: c, ts_time: d, ts_syn: e, ts_obj: f,
        }),
        (Err(x), _, _, _, _, _) => Err(x),
        (_, Err(x), _, _, _, _) => Err(x),
        (_, _, Err(x), _, _, _) => Err(x),
        (_, _, _, Err(x), _, _) => Err(x),
        (_, _, _, _, Err(x), _) => Err(x),
        (_, _, _, _, _, Err(x)) => Err(x),
    }
}

fn metadata_field(inst: &StrMap<String>, name: &str, timestamp: bool, now: u64) -> (r: Result<u64, DataError>)
    ensures
        match (r, metadata_value(*inst, name@, timestamp, now)) {
            (Ok(a), Ok(b)) => a == b,
            (Err(a), Err(b)) => a@ == b,
            _ => false,
        },
{
    let key = String::from_str(name);
    match inst.get(&key) {
        Some(t) => match parse_u64(t.as_str()) {
            Some(v) => Ok(v),
            None => {
                let mut out: Vec<char> = Vec::new();
                push_str(&mut out, "cannot parse ");
                push_str(&mut out, name);
                push_str(&mut out, " (");
                push_str(&mut out, t.as_str());
                push_str(&mut out, ") to an integer (wmi counter metadata)");
                proof {
                    assert(out@ =~= metadata_message(name@, t@));
                }
                Err(DataError::TypeError(string_from_chars(out.as_slice())))
            },
        },
        None => Ok(if timestamp { now } else { 1 }),
    }
}

impl CounterMetadata {
    /// The metadata of a sample (see `spec_metadata`); `now` is the current
    /// time in seconds since the UNIX epoch, used for missing timestamps.
    pub fn new(instance: &StrMap<String>, now: u64) -> (r: Result<CounterMetadata, DataError>)
        ensures
            match (r, spec_metadata(*instance, now)) {
                (Ok(a), Ok(b)) => a == b,
                (Err(a), Err(b)) => a@ == b,
                _ => false,
            },
    {
        let freq_time = match metadata_field(instance, "Frequency_PerfTime", false, now) {
            Ok(v) => v,
            Err(e) => return Err(e),
        };
        let freq_syn = match metadata_field(instance, "Frequency_Sys100NS", false, now) {
            Ok(v) => v,
            Err(e) => return Err(e),
        };
        let freq_obj = match metadata_field(instance, "Frequency_Object", false, now) {
            Ok(v) => v,
            Err(e) => return Err(e),
        };
        let ts_time = match metadata_field(instance, "Timestamp_PerfTime", true, now) {
            Ok(v) => v,
            Err(e) => return Err(e),
        };
        let ts_syn = match metadata_field(instance, "Timestamp_Sys100NS", true, now) {
            Ok(v) => v,
            Err(e) => return Err(e),
        };
        let ts_obj = match metadata_field(instance, "Timestamp_Object", true, now) {
            Ok(v) => v,
            Err(e) => return Err(e),
        };
        Ok(CounterMetadata { freq_time, freq_syn, freq_obj, ts_time, ts_syn, ts_obj })
    }
}

/// ASCII white space, as `split_ascii_whitespace` takes it.
pub open spec fn is_ascii_ws(c: char) -> bool {
    c == ' ' || c == '\t' || c == '\n' || c == '\x0C' || c == '\r'
}

/// The words of a text, separated by ASCII white space.
pub open spec fn words(s: Seq<char>) -> Seq<Seq<char>>
    decreases s.len(),
{
    if s.len() == 0 {
        Seq::empty()
    } else {
        let w = words(s.drop_last());
        let c = s.last();
        if is_ascii_ws(c) {
            w
        } else if s.len() > 1 && !is_ascii_ws(s[s.len() - 2]) && w.len() > 0 {
            w.update(w.len() - 1, w.last().push(c))
        } else {
            w.push(seq![c])
        }
    }
}

/// Words joined by single spaces.
pub open spec fn join_words(ws: Seq<Seq<char>>) -> Seq<char>
    decreases ws.len(),
{
    if ws.len() == 0 {
        Seq::empty()
    } else if ws.len() == 1 {
        ws[0]
    } else {
        join_words(ws.drop_last()) + " "@ + ws.last()
    }
}

/// The words of a property name with its last word replaced by `Base`.
pub open spec fn base_words(property: Seq<char>) -> Seq<Seq<char>> {
    let w = words(property);
    (if w.len() > 0 { w.drop_last() } else { w }).push("Base"@)
}

proof fn lemma_words_last(s: Seq<char>)
    requires
        s.len() > 0,
        !is_ascii_ws(s.last()),
    ensures
        words(s).len() > 0,
{
}

fn word_list(s: &str) -> (r: Vec<Vec<char>>)
    ensures
        r@.map_values(|w: Vec<char>| w@) == words(s@),
{
    let cs = chars_of(s);
    let mut ws: Vec<Vec<char>> = Vec::new();
    let mut i: usize = 0;
    let mut in_word = false;
    while i < cs.len()
        invariant
            cs@ == s@,
            i <= cs@.len(),
            ws@.map_values(|w: Vec<char>| w@) == words(cs@.take(i as int)),
            in_word == (i > 0 && !is_ascii_ws(cs@[i - 1])),
        decreases cs.len() - i,
    {
        let c = cs[i];
        let ghost pre = cs@.take(i as int);
        let ghost wv = ws@.map_values(|w: Vec<char>| w@);
        proof {
            assert(cs@.take(i + 1).drop_last() =~= pre);
            assert(cs@.take(i + 1).last() == c);
            if i > 0 {
                assert(cs@.take(i + 1)[i - 1] == cs@[i - 1]);
            }
            if in_word {
                lemma_words_last(pre);
                assert(pre.last() == cs@[i - 1]);
            }
        }
        let ws_char = c == ' ' || c == '\t' || c == '\n' || c == '\x0C' || c == '\r';
        if ws_char {
            in_word = false;
        } else if in_word {
            let mut last = ws.pop().unwrap();
            last.push(c);
            ws.push(last);
            proof {
                assert(ws@.map_values(|w: Vec<char>| w@) =~= wv.update(wv.len() - 1, wv.last().push(c)));
            }
        } else {
            let mut w: Vec<char> = Vec::new();
            w.push(c);
            ws.push(w);
            proof {
                assert(ws@.map_values(|w: Vec<char>| w@) =~= wv.push(seq![c]));
            }
            in_word = true;
        }
        i = i + 1;
    }
    proof {
        assert(cs@.take(i as int) =~= s@);
    }
    ws
}

fn counter_base_name(property: &str) -> (r: String)
    ensures
        r@ == join_words(base_words(property@)),
{
    let mut ws = word_list(property);
    let ghost w0 = ws@.map_values(|w: Vec<char>| w@);
    if ws.len() > 0 {
        ws.pop();
    }
    ws.push(chars_of("Base"));
    let ghost wb = ws@.map_values(|w: Vec<char>| w@);
    proof {
        assert(wb =~= base_words(property@));
    }
    let mut out: Vec<char> = Vec::new();
    let mut i: usize = 0;
    while i < ws.len()
        invariant
            i <= ws@.len(),
            wb == ws@.map_values(|w: Vec<char>| w@),
            out@ == join_words(wb.take(i as int)),
        decreases ws.len() - i,
    {
        proof {
            assert(wb.take(i + 1).drop_last() =~= wb.take(i as int));
            assert(wb.take(i + 1).last() == ws@[i as int]@);
        }
        if i > 0 {
            push_str(&mut out, " ");
        }
        crate::common::text::push_all(&mut out, ws[i].as_slice());
        proof {
            if i == 0 {
                assert(out@ =~= join_words(wb.take(1)));
            } else {
                assert(out@ =~= join_words(wb.take(i + 1)));
            }
        }
        i = i + 1;
    }
    proof {
        assert(wb.take(i as int) =~= wb);
    }
    string_from_chars(out.as_slice())
}

/// Message for counter text that is no integer.
pub open spec fn int_message(key: Seq<char>, value: Seq<char>) -> Seq<char> {
    "cannot parse "@ + key + " ("@ + value + ") to a integer for counter calculcation"@
}

/// Message for counter text that is no number.
pub open spec fn float_message(key: Seq<char>, value: Seq<char>) -> Seq<char> {
    "cannot parse "@ + key + " ("@ + value + ") to a float for counter calculcation"@
}

/// Counter text read as an integer.
pub open spec fn spec_counter_int(key: Seq<char>, value: Seq<char>) -> Result<i64, DataErrorV> {
    match spec_parse_int(value, i64::MIN as int, i64::MAX as int) {
        Some(v) => Ok(v as i64),
        None => Err(DataErrorV::TypeError(int_message(key, value))),
    }
}

/// An integer property of an instance (missing when absent).
pub open spec fn spec_instance_int(key: Seq<char>, inst: StrMap<String>) -> Result<i64, DataErrorV> {
    match prop(inst, key) {
        Some(t) => spec_counter_int(key, t),
        None => Err(DataErrorV::Missing),
    }
}

/// The base of a counter property: `<property>_Base`, else
/// `<property> base`, else the property name with its last word replaced
/// by `Base`; the error is that of the last.
pub open spec fn spec_counter_base(property: Seq<char>, inst: StrMap<String>) -> Result<i64, DataErrorV> {
    match spec_instance_int(property + "_Base"@, inst) {
        Ok(v) => Ok(v),
        Err(_) => match spec_instance_int(property + " base"@, inst) {
            Ok(v) => Ok(v),
            Err(_) => spec_instance_int(join_words(base_words(property)), inst),
        },
    }
}

fn concat(a: &str, b: &str) -> (r: String)
    ensures
        r@ == a@ + b@,
{
    let mut out: Vec<char> = Vec::new();
    push_str(&mut out, a);
    push_str(&mut out, b);
    string_from_chars(out.as_slice())
}

fn counter_int(key: &str, value: &str) -> (r: Result<i64, DataError>)
    ensures
        match (r, spec_counter_int(key@, value@)) {
            (Ok(a), Ok(b)) => a == b,
            (Err(a), Err(b)) => a@ == b,
            _ => false,
        },
{
    match parse_i64(value) {
        Some(v) => Ok(v),
        None => {
            let mut out: Vec<char> = Vec::new();
            push_str(&mut out, "cannot parse ");
            push_str(&mut out, key);
            push_str(&mut out, " (");
            push_str(&mut out, value);
            push_str(&mut out, ") to a integer for counter calculcation");
            proof {
                assert(out@ =~= int_message(key@, value@));
            }
            Err(DataError::TypeError(string_from_chars(out.as_slice())))
        },
    }
}

fn instance_int(key: &String, inst: &StrMap<String>) -> (r: Result<i64, DataError>)
    ensures
        match (r, spec_instance_int(key@, *inst)) {
            (Ok(a), Ok(b)) => a == b,
            (Err(a), Err(b)) => a@ == b,
            _ => false,
        },
{
    match inst.get(key) {
        Some(t) => counter_int(key.as_str(), t.as_str()),
        None => Err(DataError::Missing),
    }
}

/// The base of a counter property (see `spec_counter_base`).
pub fn counter_base(property: &str, instance: &StrMap<String>) -> (r: Result<i64, DataError>)
    ensures
        match (r, spec_counter_base(property@, *instance)) {
            (Ok(a), Ok(b)) => a == b,
            (Err(a), Err(b)) => a@ == b,
            _ => false,
        },
{
    let k1 = concat(property, "_Base");
    match instance_int(&k1, instance) {
        Ok(v) => Ok(v),
        Err(_) => {
            let k2 = concat(property, " base");
            match instance_int(&k2, instance) {
                Ok(v) => Ok(v),
                Err(_) => {
                    let k3 = counter_base_name(property);
                    instance_int(&k3, instance)
                },
            }
        },
    }
}

/// What a rate is measured against.
pub enum RateBase {
    /// The counter's base property.
    CounterBase,
    /// The perf-time timestamp in ticks of its frequency.
    TimeOverFreq,
    TsTime,
    TsSyn,
    TsObj,
}

/// How a rate is delivered.
pub enum RateScale {
    One,
    Hundred,
    /// 100 × (1 − rate).
    InverseHundred,
}

/// How the value of a counter type is computed.
pub enum CounterCalc {
    /// The raw text.
    Text,
    /// The raw integer.
    Raw,
    /// The raw number over the counter's base.
    RawFraction,
    /// The difference since the previous sample.
    Delta,
    /// Time elapsed since the raw value, in object ticks.
    Elapsed,
    /// Perf-time seconds over the raw value, as a rate.
    AverageTimer,
    /// A rate of the raw value against a base.
    Rate(RateBase, RateScale),
}

/// The computation of each counter type.
pub open spec fn calc_of(c: WmiCounter) -> CounterCalc {
    match c {
        WmiCounter::PerfCounterText => CounterCalc::Text,
        WmiCounter::PerfRawFraction | WmiCounter::PerfLargeRawFraction => CounterCalc::RawFraction,
        WmiCounter::PerfSampleFraction | WmiCounter::PerfAverageBulk => CounterCalc::Rate(RateBase::CounterBase, RateScale::One),
        WmiCounter::PerfCounterDelta | WmiCounter::PerfCounterLargeDelta => CounterCalc::Delta,
        WmiCounter::PerfElapsedTime => CounterCalc::Elapsed,
        WmiCounter::PerfSampleCounter | WmiCounter::PerfCounterCounter | WmiCounter::PerfCounterBulkCount
            => CounterCalc::Rate(RateBase::TimeOverFreq, RateScale::One),
        WmiCounter::PerfPrecisionTimer | WmiCounter::PerfPrecisionSystemTimer
        | WmiCounter::PerfCounterQueuelenType | WmiCounter::PerfCounterLargeQueuelenType
        | WmiCounter::PerfCounterTimer => CounterCalc::Rate(RateBase::TsTime, RateScale::One),
        WmiCounter::PerfPrecision100nsTimer | WmiCounter::PerfCounter100nsQueuelenType
        | WmiCounter::Perf100secTimer => CounterCalc::Rate(RateBase::TsSyn, RateScale::Hundred),
        WmiCounter::PerfPrecisionObjectTimer | WmiCounter::PerfCounterObjTimeQueuelenType
        | WmiCounter::PerfObjTimeTimer => CounterCalc::Rate(RateBase::TsObj, RateScale::One),
        WmiCounter::PerfCounterTimerInv => CounterCalc::Rate(RateBase::TsTime, RateScale::InverseHundred),
        WmiCounter::PerfAverageTimer => CounterCalc::AverageTimer,
        WmiCounter::Perf100secTimerInv => CounterCalc::Rate(RateBase::TsSyn, RateScale::InverseHundred),
        WmiCounter::PerfCounterMultiTimer | WmiCounter::Perf100nsecMultiTimer => CounterCalc::Rate(RateBase::CounterBase, RateScale::Hundred),
        _ => CounterCalc::Raw,
    }
}

/// The base of a rate; a division by a zero frequency is undefined.
pub open spec fn spec_rate_base(b: RateBase, m: CounterMetadata, property: Seq<char>, inst: StrMap<String>) -> Result<u64, DataErrorV> {
    match b {
        RateBase::CounterBase => match spec_counter_base(property, inst) {
            Ok(v) => Ok(v as u64),
            Err(e) => Err(e),
        },
        RateBase::TimeOverFreq => if m.freq_time == 0 { Err(DataErrorV::CounterUndefined) } else { Ok(m.ts_time / m.freq_time) },
        RateBase::TsTime => Ok(m.ts_time),
        RateBase::TsSyn => Ok(m.ts_syn),
        RateBase::TsObj => Ok(m.ts_obj),
    }
}

/// Difference of two words, wrapping around below zero.
pub open spec fn wrap_sub(a: u64, b: u64) -> int {
    if a >= b { a - b } else { a - b + 0x1_0000_0000_0000_0000 }
}

/// A rate, scaled.
pub open spec fn rate_value(r: Result<(int, int), DataErrorV>, scale: RateScale) -> Result<ValueV, DataErrorV> {
    match r {
        Ok((n, d)) => Ok(ValueV::Float(match scale {
            RateScale::One => FloatV::Ratio(n, d),
            RateScale::Hundred => FloatV::Ratio(100 * n, d),
            RateScale::InverseHundred => FloatV::Ratio(100 * (d - n), d),
        })),
        Err(e) => Err(e),
    }
}

/// The value of a counter property of an instance, and the sample it
/// records (as base and value), if any. The metadata is read first, then
/// the property (missing when absent); the key of the counter is
/// `<base key>_<property>`.
pub open spec fn spec_wmi_counter(
    c: WmiCounter,
    base_key: Seq<char>,
    property: Seq<char>,
    inst: StrMap<String>,
    prev: Option<(u64, i64)>,
    now: u64,
) -> (Result<ValueV, DataErrorV>, Option<(u64, i64)>) {
    let key = base_key + "_"@ + property;
    match spec_metadata(inst, now) {
        Err(e) => (Err(e), None),
        Ok(m) => match prop(inst, property) {
            None => (Err(DataErrorV::Missing), None),
            Some(v) => match calc_of(c) {
                CounterCalc::Text => (Ok(ValueV::UnicodeString(v)), None),
                CounterCalc::Raw => match spec_counter_int(key, v) {
                    Ok(x) => (Ok(ValueV::Integer(x as int)), None),
                    Err(e) => (Err(e), None),
                },
                CounterCalc::RawFraction => if !is_float_text(v) {
                    (Err(DataErrorV::TypeError(float_message(key, v))), None)
                } else {
                    match spec_counter_base(property, inst) {
                        Ok(b) => (Ok(ValueV::Float(FloatV::TextOver(v, b as int))), None),
                        Err(e) => (Err(e), None),
                    }
                },
                CounterCalc::Delta => match spec_counter_int(key, v) {
                    Err(e) => (Err(e), None),
                    Ok(x) => (match spec_delta(prev, x) {
                        Ok(d) => Ok(ValueV::Integer(d as int)),
                        Err(e) => Err(e),
                    }, Some((0u64, x))),
                },
                CounterCalc::Elapsed => match spec_counter_int(key, v) {
                    Err(e) => (Err(e), None),
                    Ok(x) => if m.freq_obj == 0 {
                        (Err(DataErrorV::CounterUndefined), None)
                    } else {
                        (Ok(ValueV::Float(FloatV::Ratio(wrap_sub(m.ts_obj, x as u64) / (m.freq_obj as int), 1))), None)
                    },
                },
                CounterCalc::AverageTimer => if m.freq_time == 0 {
                    (Err(DataErrorV::CounterUndefined), None)
                } else {
                    let val = (m.ts_time / m.freq_time) as i64;
                    match spec_counter_int(key, v) {
                        Err(e) => (Err(e), None),
                        Ok(x) => (rate_value(spec_rate(prev, val, x as u64), RateScale::One), Some((x as u64, val))),
                    }
                },
                CounterCalc::Rate(b, scale) => match spec_counter_int(key, v) {
                    Err(e) => (Err(e), None),
                    Ok(x) => match spec_rate_base(b, m, property, inst) {
                        Err(e) => (Err(e), None),
                        Ok(base) => (rate_value(spec_rate(prev, x, base), scale), Some((base, x))),
                    },
                },
            },
        },
    }
}

fn float_error(key: &str, value: &str) -> (r: DataError)
    ensures
        r@ == DataErrorV::TypeError(float_message(key@, value@)),
{
    let mut out: Vec<char> = Vec::new();
    push_str(&mut out, "cannot parse ");
    push_str(&mut out, key);
    push_str(&mut out, " (");
    push_str(&mut out, value);
    push_str(&mut out, ") to a float for counter calculcation");
    proof {
        assert(out@ =~= float_message(key@, value@));
    }
    DataError::TypeError(string_from_chars(out.as_slice()))
}

fn rate_base(b: RateBase, m: &CounterMetadata, property: &str, inst: &StrMap<String>) -> (r: Result<u64, DataError>)
    ensures
        match (r, spec_rate_base(b, *m, property@, *inst)) {
            (Ok(a), Ok(x)) => a == x,
            (Err(a), Err(x)) => a@ == x,
            _ => false,
        },
{
    match b {
        RateBase::CounterBase => match counter_base(property, inst) {
            Ok(v) => Ok(v as u64),
            Err(e) => Err(e),
        },
        RateBase::TimeOverFreq => if m.freq_time == 0 { Err(DataError::CounterUndefined) } else { Ok(m.ts_time / m.freq_time) },
        RateBase::TsTime => Ok(m.ts_time),
        RateBase::TsSyn => Ok(m.ts_syn),
        RateBase::TsObj => Ok(m.ts_obj),
    }
}

fn scaled_rate(r: Result<(i128, u128), DataError>, scale: RateScale) -> (v: Result<Value, DataError>)
    requires
        r matches Ok((n, d)) ==> -0x1_0000_0000_0000_0000 <= n <= 0x1_0000_0000_0000_0000 && d <= 0x1_0000_0000_0000_0000,
    ensures
        match (v, rate_value(match r { Ok((n, d)) => Ok((n as int, d as int)), Err(e) => Err(e@) }, scale)) {
            (Ok(a), Ok(x)) => a@ == x,
            (Err(a), Err(x)) => a@ == x,
            _ => false,
        },
{
    match r {
        Ok((n, d)) => Ok(Value::Float(match scale {
            RateScale::One => FloatRepr::Ratio(n, d),
            RateScale::Hundred => FloatRepr::Ratio(100 * n, d),
            RateScale::InverseHundred => FloatRepr::Ratio(100 * (d as i128 - n), d),
        })),
        Err(e) => Err(e),
    }
}

/// The calculation of a counter type (see `calc_of`).
fn calc(c: WmiCounter) -> (r: CounterCalc)
    ensures
        r == calc_of(c),
{
    match c {
        WmiCounter::PerfCounterText => CounterCalc::Text,
        WmiCounter::PerfRawFraction | WmiCounter::PerfLargeRawFraction => CounterCalc::RawFraction,
        WmiCounter::PerfSampleFraction | WmiCounter::PerfAverageBulk => CounterCalc::Rate(RateBase::CounterBase, RateScale::One),
        WmiCounter::PerfCounterDelta | WmiCounter::PerfCounterLargeDelta => CounterCalc::Delta,
        WmiCounter::PerfElapsedTime => CounterCalc::Elapsed,
        WmiCounter::PerfSampleCounter | WmiCounter::PerfCounterCounter | WmiCounter::PerfCounterBulkCount
            => CounterCalc::Rate(RateBase::TimeOverFreq, RateScale::One),
        WmiCounter::PerfPrecisionTimer | WmiCounter::PerfPrecisionSystemTimer
        | WmiCounter::PerfCounterQueuelenType | WmiCounter::PerfCounterLargeQueuelenType
        | WmiCounter::PerfCounterTimer => CounterCalc::Rate(RateBase::TsTime, RateScale::One),
        WmiCounter::PerfPrecision100nsTimer | WmiCounter::PerfCounter100nsQueuelenType
        | WmiCounter::Perf100secTimer => CounterCalc::Rate(RateBase::TsSyn, RateScale::Hundred),
        WmiCounter::PerfPrecisionObjectTimer | WmiCounter::PerfCounterObjTimeQueuelenType
        | WmiCounter::PerfObjTimeTimer => CounterCalc::Rate(RateBase::TsObj, RateScale::One),
        WmiCounter::PerfCounterTimerInv => CounterCalc::Rate(RateBase::TsTime, RateScale::InverseHundred),
        WmiCounter::PerfAverageTimer => CounterCalc::AverageTimer,
        WmiCounter::Perf100secTimerInv => CounterCalc::Rate(RateBase::TsSyn, RateScale::InverseHundred),
        WmiCounter::PerfCounterMultiTimer | WmiCounter::Perf100nsecMultiTimer => CounterCalc::Rate(RateBase::CounterBase, RateScale::Hundred),
        _ => CounterCalc::Raw,
    }
}

impl WmiCounter {
    /// The value of the counter property `property` of an instance (see
    /// `spec_wmi_counter`); a recorded sample goes to the counter store
    /// under the counter's key. `now` is the current time in seconds since
    /// the UNIX epoch.
    pub fn get_wmi_counter(&self, base_key: &str, property: &str, counter_db: &mut CounterDB, instance: &StrMap<String>, now: u64) -> (r: Result<Value, DataError>)
        ensures
            ({
                let key = base_key@ + "_"@ + property@;
                let (val, rec) = spec_wmi_counter(*self, base_key@, property@, *instance, previous(*old(counter_db), key), now);
                &&& final(counter_db).old_state@ == old(counter_db).old_state@
                &&& match rec {
                    Some(x) => final(counter_db).new_state@ == old(counter_db).new_state@.insert(key, x),
                    None => final(counter_db).new_state@ == old(counter_db).new_state@,
                }
                &&& match (r, val) {
                    (Ok(a), Ok(b)) => a@ == b,
                    (Err(a), Err(b)) => a@ == b,
                    _ => false,
                }
            }),
    {
        let metadata = match CounterMetadata::new(instance, now) {
            Ok(m) => m,
            Err(e) => return Err(e),
        };
        let pkey = String::from_str(property);
        let value = match instance.get(&pkey) {
            Some(v) => v,
            None => return Err(DataError::Missing),
        };
        let key = {
            let mut out: Vec<char> = Vec::new();
            push_str(&mut out, base_key);
            push_str(&mut out, "_");
            push_str(&mut out, property);
            string_from_chars(out.as_slice())
        };
        proof {
            assert(key@ =~= base_key@ + "_"@ + property@);
        }
        match calc(*self) {
            CounterCalc::Text => Ok(Value::UnicodeString(value.clone())),
            CounterCalc::Raw => match counter_int(key.as_str(), value.as_str()) {
                Ok(x) => Ok(Value::Integer(x)),
                Err(e) => Err(e),
            },
            CounterCalc::RawFraction => {
                if !float_text(value.as_str()) {
                    return Err(float_error(key.as_str(), value.as_str()));
                }
                match counter_base(property, instance) {
                    Ok(b) => Ok(Value::Float(FloatRepr::TextOver(value.clone(), b))),
                    Err(e) => Err(e),
                }
            },
            CounterCalc::Delta => match counter_int(key.as_str(), value.as_str()) {
                Err(e) => Err(e),
                Ok(x) => match get_delta(&key, x, counter_db) {
                    Ok(d) => Ok(Value::Integer(d)),
                    Err(e) => Err(e),
                },
            },
            CounterCalc::Elapsed => match counter_int(key.as_str(), value.as_str()) {
                Err(e) => Err(e),
                Ok(x) => if metadata.freq_obj == 0 {
                    Err(DataError::CounterUndefined)
                } else {
                    let xu = x as u64;
                    let d: u64 = if metadata.ts_obj >= xu {
                        metadata.ts_obj - xu
                    } else {
                        (metadata.ts_obj as u128 + 0x1_0000_0000_0000_0000u128 - xu as u128) as u64
                    };
                    let q = d / metadata.freq_obj;
                    Ok(Value::Float(FloatRepr::Ratio(q as i128, 1)))
                },
            },
            CounterCalc::AverageTimer => if metadata.freq_time == 0 {
                Err(DataError::CounterUndefined)
            } else {
                let val = (metadata.ts_time / metadata.freq_time) as i64;
                match counter_int(key.as_str(), value.as_str()) {
                    Err(e) => Err(e),
                    Ok(x) => scaled_rate(get_rate(&key, val, x as u64, counter_db), RateScale::One),
                }
            },
            CounterCalc::Rate(b, scale) => match counter_int(key.as_str(), value.as_str()) {
                Err(e) => Err(e),
                Ok(x) => match rate_base(b, &metadata, property, instance) {
                    Err(e) => Err(e),
                    Ok(base) => scaled_rate(get_rate(&key, x, base, counter_db), scale),
                },
            },
        }
    }
}

} // verus!

verus! {

/// Windows timer counters measure the share of the time between two
/// samples: with a previous sample (`b0`, `x0`) and a new value `x1` over
/// the time base `b1` (100 ns ticks for the `100NSEC` types, performance
/// counter ticks for the others), both having grown, the value is
/// `(x1 - x0) / (b1 - b0)` as a percentage; the inverse types give the
/// rest of the time, `100 * (1 - (x1 - x0) / (b1 - b0))`. The new sample
/// is kept.
pub proof fn law_timer_counter_values(
    c: WmiCounter,
    base_key: Seq<char>,
    property: Seq<char>,
    inst: StrMap<String>,
    b0: u64,
    x0: i64,
    now: u64,
)
    requires
        spec_metadata(inst, now) is Ok,
        prop(inst, property) is Some,
        spec_counter_int(base_key + "_"@ + property, prop(inst, property)->Some_0) is Ok,
        x0 <= spec_counter_int(base_key + "_"@ + property, prop(inst, property)->Some_0)->Ok_0,
    ensures
        ({
            let m = spec_metadata(inst, now)->Ok_0;
            let x1 = spec_counter_int(base_key + "_"@ + property, prop(inst, property)->Some_0)->Ok_0;
            let r = spec_wmi_counter(c, base_key, property, inst, Some((b0, x0)), now);
            &&& (c == WmiCounter::Perf100secTimerInv && b0 < m.ts_syn) ==> {
                &&& r.0 == Ok::<ValueV, DataErrorV>(ValueV::Float(FloatV::Ratio(100 * ((m.ts_syn - b0) - (x1 - x0)), m.ts_syn - b0)))
                &&& r.1 == Some((m.ts_syn, x1))
            }
            &&& ((c == WmiCounter::Perf100secTimer || c == WmiCounter::PerfPrecision100nsTimer
                || c == WmiCounter::PerfCounter100nsQueuelenType) && b0 < m.ts_syn) ==> {
                &&& r.0 == Ok::<ValueV, DataErrorV>(ValueV::Float(FloatV::Ratio(100 * (x1 - x0), m.ts_syn - b0)))
                &&& r.1 == Some((m.ts_syn, x1))
            }
            &&& (c == WmiCounter::PerfCounterTimerInv && b0 < m.ts_time) ==> {
                &&& r.0 == Ok::<ValueV, DataErrorV>(ValueV::Float(FloatV::Ratio(100 * ((m.ts_time - b0) - (x1 - x0)), m.ts_time - b0)))
                &&& r.1 == Some((m.ts_time, x1))
            }
            &&& ((c == WmiCounter::PerfCounterTimer || c == WmiCounter::PerfPrecisionTimer
                || c == WmiCounter::PerfPrecisionSystemTimer || c == WmiCounter::PerfCounterQueuelenType
                || c == WmiCounter::PerfCounterLargeQueuelenType) && b0 < m.ts_time) ==> {
                &&& r.0 == Ok::<ValueV, DataErrorV>(ValueV::Float(FloatV::Ratio(x1 - x0, m.ts_time - b0)))
                &&& r.1 == Some((m.ts_time, x1))
            }
            &&& ((c == WmiCounter::PerfObjTimeTimer || c == WmiCounter::PerfPrecisionObjectTimer
                || c == WmiCounter::PerfCounterObjTimeQueuelenType) && b0 < m.ts_obj) ==> {
                &&& r.0 == Ok::<ValueV, DataErrorV>(ValueV::Float(FloatV::Ratio(x1 - x0, m.ts_obj - b0)))
                &&& r.1 == Some((m.ts_obj, x1))
            }
        }),
{
}

/// Counters of events per second count against the elapsed seconds: with
/// a previous sample (`b0`, `x0`), the new value `x1` and the seconds `b1`
/// (the performance counter time over its frequency), both having grown,
/// the value is `(x1 - x0) / (b1 - b0)`. The new sample is kept.
pub proof fn law_per_second_counter_values(
    c: WmiCounter,
    base_key: Seq<char>,
    property: Seq<char>,
    inst: StrMap<String>,
    b0: u64,
    x0: i64,
    now: u64,
)
    requires
        c == WmiCounter::PerfCounterCounter || c == WmiCounter::PerfSampleCounter || c == WmiCounter::PerfCounterBulkCount,
        spec_metadata(inst, now) is Ok,
        spec_metadata(inst, now)->Ok_0.freq_time > 0,
        b0 < spec_metadata(inst, now)->Ok_0.ts_time / spec_metadata(inst, now)->Ok_0.freq_time,
        prop(inst, property) is Some,
        spec_counter_int(base_key + "_"@ + property, prop(inst, property)->Some_0) is Ok,
        x0 <= spec_counter_int(base_key + "_"@ + property, prop(inst, property)->Some_0)->Ok_0,
    ensures
        ({
            let m = spec_metadata(inst, now)->Ok_0;
            let x1 = spec_counter_int(base_key + "_"@ + property, prop(inst, property)->Some_0)->Ok_0;
            let b1 = m.ts_time / m.freq_time;
            let r = spec_wmi_counter(c, base_key, property, inst, Some((b0, x0)), now);
            &&& r.0 == Ok::<ValueV, DataErrorV>(ValueV::Float(FloatV::Ratio(x1 - x0, b1 - b0)))
            &&& r.1 == Some((b1, x1))
        }),
{
}

/// Difference counters give the growth of the value since the previous
/// sample (where it fits in 64 bits; a value that went down is an
/// overflow), and keep the new value; raw counters give the value itself and
/// keep nothing.
pub proof fn law_delta_and_raw_counter_values(
    c: WmiCounter,
    base_key: Seq<char>,
    property: Seq<char>,
    inst: StrMap<String>,
    b0: u64,
    x0: i64,
    now: u64,
)
    requires
        spec_metadata(inst, now) is Ok,
        prop(inst, property) is Some,
        spec_counter_int(base_key + "_"@ + property, prop(inst, property)->Some_0) is Ok,
    ensures
        ({
            let x1 = spec_counter_int(base_key + "_"@ + property, prop(inst, property)->Some_0)->Ok_0;
            let r = spec_wmi_counter(c, base_key, property, inst, Some((b0, x0)), now);
            &&& ((c == WmiCounter::PerfCounterDelta || c == WmiCounter::PerfCounterLargeDelta) && x0 <= x1 && x1 - x0 <= i64::MAX) ==> {
                &&& r.0 == Ok::<ValueV, DataErrorV>(ValueV::Integer(x1 - x0))
                &&& r.1 == Some((0u64, x1))
            }
            &&& ((c == WmiCounter::PerfCounterDelta || c == WmiCounter::PerfCounterLargeDelta) && x0 > x1) ==>
                r.0 == Err::<ValueV, DataErrorV>(DataErrorV::CounterOverflow)
            &&& (c == WmiCounter::PerfCounterRawcount || c == WmiCounter::PerfCounterLargeRawcount
                || c == WmiCounter::PerfCounterRawcountHex || c == WmiCounter::PerfCounterLargeRawcountHex) ==> {
                &&& r.0 == Ok::<ValueV, DataErrorV>(ValueV::Integer(x1 as int))
                &&& r.1 is None
            }
        }),
{
}

} // verus!
