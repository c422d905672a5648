//! What the server counts: requests, tokens by model and by key, and the last
//! requests one by one.

use std::collections::VecDeque;

use vstd::prelude::*;

use crate::server::store::{KeyStatsData, ModelStatsData, RequestLogData, StatsStore};
use crate::table;
use crate::table::Table;
use crate::text;

verus! {

/// After so many requests the counts are written down.
pub const PERSIST_INTERVAL: u64 = 30;

/// So many requests are noted one by one.
pub const LOG_CAPACITY: usize = 200;

/// What is counted for a model.
#[derive(Debug, Clone, Copy, PartialEq, Eq, Structural)]
pub struct ModelStats {
    pub prompt_tokens: u64,
    pub completion_tokens: u64,
    pub requests: u64,
}

/// What is counted for a key.
#[derive(Debug, Clone, Copy, PartialEq, Eq, Structural)]
pub struct KeyUsage {
    pub prompt_tokens: u64,
    pub completion_tokens: u64,
    pub requests: u64,
}

/// What was counted for a model at some time.
#[derive(Debug, Clone, Copy, PartialEq, Eq, Structural)]
pub struct ModelStatsSnapshot {
    pub prompt_tokens: u64,
    pub completion_tokens: u64,
    pub requests: u64,
}

/// What was counted for a key at some time.
#[derive(Debug, Clone, Copy, PartialEq, Eq, Structural)]
pub struct KeyUsageSnapshot {
    pub prompt_tokens: u64,
    pub completion_tokens: u64,
    pub requests: u64,
}

/// One request.
#[derive(Debug)]
pub struct RequestLog {
    pub timestamp: u64,
    pub request_id: String,
    pub model: String,
    pub api_key: String,
    pub prompt_tokens: u64,
    pub completion_tokens: u64,
    pub latency_ms: u64,
    pub success: bool,
}

/// The model of a `RequestLog`.
#[verifier::ext_equal]
pub struct LogV {
    pub timestamp: u64,
    pub request_id: Seq<char>,
    pub model: Seq<char>,
    pub api_key: Seq<char>,
    pub prompt_tokens: u64,
    pub completion_tokens: u64,
    pub latency_ms: u64,
    pub success: bool,
}

impl View for RequestLog {
    type V = LogV;

    open spec fn view(&self) -> LogV {
        LogV {
            timestamp: self.timestamp,
            request_id: self.request_id@,
            model: self.model@,
            api_key: self.api_key@,
            prompt_tokens: self.prompt_tokens,
            completion_tokens: self.completion_tokens,
            latency_ms: self.latency_ms,
            success: self.success,
        }
    }
}

impl View for RequestLogData {
    type V = LogV;

    open spec fn view(&self) -> LogV {
        LogV {
            timestamp: self.timestamp,
            request_id: self.request_id@,
            model: self.model@,
            api_key: self.api_key@,
            prompt_tokens: self.prompt_tokens,
            completion_tokens: self.completion_tokens,
            latency_ms: self.latency_ms,
            success: self.success,
        }
    }
}

/// Requests as models.
pub open spec fn log_views(v: Seq<RequestLog>) -> Seq<LogV> {
    Seq::new(v.len(), |i: int| v[i]@)
}

/// Requests that were written down, as models.
pub open spec fn data_views(v: Seq<RequestLogData>) -> Seq<LogV> {
    Seq::new(v.len(), |i: int| v[i]@)
}

impl RequestLog {
    /// A copy.
    pub fn copy(&self) -> (r: RequestLog)
        ensures
            r@ == self@,
    {
        RequestLog {
            timestamp: self.timestamp,
            request_id: self.request_id.clone(),
            model: self.model.clone(),
            api_key: self.api_key.clone(),
            prompt_tokens: self.prompt_tokens,
            completion_tokens: self.completion_tokens,
            latency_ms: self.latency_ms,
            success: self.success,
        }
    }

    fn to_data(&self) -> (r: RequestLogData)
        ensures
            r@ == self@,
    {
        RequestLogData {
            timestamp: self.timestamp,
            request_id: self.request_id.clone(),
            model: self.model.clone(),
            api_key: self.api_key.clone(),
            prompt_tokens: self.prompt_tokens,
            completion_tokens: self.completion_tokens,
            latency_ms: self.latency_ms,
            success: self.success,
        }
    }

    fn from_data(d: &RequestLogData) -> (r: RequestLog)
        ensures
            r@ == d@,
    {
        RequestLog {
            timestamp: d.timestamp,
            request_id: d.request_id.clone(),
            model: d.model.clone(),
            api_key: d.api_key.clone(),
            prompt_tokens: d.prompt_tokens,
            completion_tokens: d.completion_tokens,
            latency_ms: d.latency_ms,
            success: d.success,
        }
    }
}

/// All that is counted. The counters go round at 64 bits.
pub struct Stats {
    pub total_requests: u64,
    pub success_requests: u64,
    pub failed_requests: u64,
    pub total_latency_ms: u64,
    pub total_prompt_tokens: u64,
    pub total_completion_tokens: u64,
    /// How many requests there were when the counts were last written down.
    pub last_persisted: u64,
    pub model_stats: Table<ModelStats>,
    pub key_stats: Table<KeyUsage>,
    /// From the oldest to the newest.
    pub request_logs: VecDeque<RequestLog>,
}

/// The model of `Stats`.
#[verifier::ext_equal]
pub struct StatsV {
    pub total: u64,
    pub success: u64,
    pub failed: u64,
    pub latency: u64,
    pub prompt_tokens: u64,
    pub completion_tokens: u64,
    pub last_persisted: u64,
    pub models: Map<Seq<char>, ModelStats>,
    pub keys: Map<Seq<char>, KeyUsage>,
    pub logs: Seq<LogV>,
}

impl View for Stats {
    type V = StatsV;

    open spec fn view(&self) -> StatsV {
        StatsV {
            total: self.total_requests,
            success: self.success_requests,
            failed: self.failed_requests,
            latency: self.total_latency_ms,
            prompt_tokens: self.total_prompt_tokens,
            completion_tokens: self.total_completion_tokens,
            last_persisted: self.last_persisted,
            models: self.model_stats@,
            keys: self.key_stats@,
            logs: log_views(self.request_logs@),
        }
    }
}

/// A sum that goes round at 64 bits.
pub open spec fn round_sum(a: u64, b: u64) -> u64 {
    if a + b > u64::MAX {
        (a + b - 0x1_0000_0000_0000_0000) as u64
    } else {
        (a + b) as u64
    }
}

/// How far a counter has gone.
pub open spec fn gone(from: u64, to: u64) -> int {
    if to >= from {
        to - from
    } else {
        to - from + 0x1_0000_0000_0000_0000
    }
}

/// The counts are to be written down.
pub open spec fn is_due(s: StatsV) -> bool {
    gone(s.last_persisted, s.total) >= PERSIST_INTERVAL
}

/// What was counted for a model, nothing at first.
pub open spec fn model_counts(m: Map<Seq<char>, ModelStats>, name: Seq<char>) -> ModelStats {
    if m.dom().contains(name) {
        m[name]
    } else {
        ModelStats { prompt_tokens: 0, completion_tokens: 0, requests: 0 }
    }
}

/// What was counted for a key, nothing at first.
pub open spec fn key_counts(m: Map<Seq<char>, KeyUsage>, name: Seq<char>) -> KeyUsage {
    if m.dom().contains(name) {
        m[name]
    } else {
        KeyUsage { prompt_tokens: 0, completion_tokens: 0, requests: 0 }
    }
}

/// The counts after the tokens of a request were added.
pub open spec fn with_tokens(
    s: StatsV,
    model: Seq<char>,
    key: Option<Seq<char>>,
    prompt: u64,
    completion: u64,
) -> StatsV {
    let m = model_counts(s.models, model);
    StatsV {
        prompt_tokens: round_sum(s.prompt_tokens, prompt),
        completion_tokens: round_sum(s.completion_tokens, completion),
        models: s.models.insert(
            model,
            ModelStats {
                prompt_tokens: round_sum(m.prompt_tokens, prompt),
                completion_tokens: round_sum(m.completion_tokens, completion),
                requests: round_sum(m.requests, 1),
            },
        ),
        keys: match key {
            None => s.keys,
            Some(k) => {
                let u = key_counts(s.keys, k);
                s.keys.insert(
                    k,
                    KeyUsage {
                        prompt_tokens: round_sum(u.prompt_tokens, prompt),
                        completion_tokens: round_sum(u.completion_tokens, completion),
                        requests: round_sum(u.requests, 1),
                    },
                )
            },
        },
        ..s
    }
}

/// The counts after a request was over.
pub open spec fn with_request(s: StatsV, success: bool, latency: u64) -> StatsV {
    StatsV {
        total: round_sum(s.total, 1),
        success: if success {
            round_sum(s.success, 1)
        } else {
            s.success
        },
        failed: if success {
            s.failed
        } else {
            round_sum(s.failed, 1)
        },
        latency: round_sum(s.latency, latency),
        ..s
    }
}

/// The noted requests with one more; the oldest goes where there is no room.
pub open spec fn with_log(logs: Seq<LogV>, log: LogV) -> Seq<LogV> {
    if logs.len() >= LOG_CAPACITY {
        logs.subrange(1, logs.len() as int).push(log)
    } else {
        logs.push(log)
    }
}

/// The last requests, the newest first.
pub open spec fn newest(logs: Seq<LogV>, limit: int) -> Seq<LogV> {
    Seq::new(
        if limit < logs.len() {
            limit as nat
        } else {
            logs.len()
        },
        |i: int| logs[logs.len() - 1 - i],
    )
}

/// The last so many of some requests.
pub open spec fn tail(logs: Seq<LogV>, n: int) -> Seq<LogV> {
    if logs.len() <= n {
        logs
    } else {
        logs.subrange(logs.len() - n, logs.len() as int)
    }
}

/// A key can be masked: its first eight bytes form a text, where it is longer.
pub open spec fn can_mask(key: Seq<char>) -> bool {
    vstd::utf8::encode_utf8(key).len() > 8 ==> vstd::utf8::is_char_boundary(
        vstd::utf8::encode_utf8(key),
        8,
    )
}

/// What is shown of a key.
pub open spec fn masked(key: Seq<char>) -> Seq<char> {
    if vstd::utf8::encode_utf8(key).len() > 8 {
        text::byte_prefix(key, 8) + "***"@
    } else {
        "***"@
    }
}

/// All keys can be masked.
pub open spec fn can_mask_all(keys: Map<Seq<char>, KeyUsage>) -> bool {
    forall|k: Seq<char>| #[trigger] keys.dom().contains(k) ==> can_mask(k)
}

/// Whether a key can be masked.
pub fn can_be_masked(key: &str) -> (r: bool)
    ensures
        r == can_mask(key@),
{
    text::byte_len(key) <= 8 || key.is_char_boundary(8)
}

/// What is shown of a key: its beginning, where it is long.
pub fn mask_key(key: &str) -> (r: String)
    requires
        can_mask(key@),
    ensures
        r@ == masked(key@),
{
    if text::byte_len(key) > 8 {
        let head = text::take_bytes(key, 8);
        text::cat2(head.as_str(), "***")
    } else {
        "***".to_owned()
    }
}

/// The counts of all models as they are written down, in some order.
pub open spec fn lists_models(
    list: Seq<(String, ModelStatsData)>,
    m: Map<Seq<char>, ModelStats>,
    ids: Seq<Seq<char>>,
) -> bool {
    &&& table::lists_all(ids, m.dom())
    &&& list.len() == ids.len()
    &&& forall|i: int|
        0 <= i < ids.len() ==> (#[trigger] list[i]).0@ == ids[i] && list[i].1 == (ModelStatsData {
            prompt_tokens: m[ids[i]].prompt_tokens,
            completion_tokens: m[ids[i]].completion_tokens,
            requests: m[ids[i]].requests,
        })
}

/// What was counted for the first `n` of some keys, by what is shown of them:
/// where two look alike, the later one counts.
pub open spec fn masked_counts(m: Map<Seq<char>, KeyUsage>, ids: Seq<Seq<char>>, n: int) -> Map<
    Seq<char>,
    KeyUsage,
>
    decreases n,
{
    if n <= 0 {
        Map::empty()
    } else {
        masked_counts(m, ids, n - 1).insert(masked(ids[n - 1]), m[ids[n - 1]])
    }
}

/// Counts by name as they are written down, each name once, in some order.
pub open spec fn lists_usage(
    list: Seq<(String, KeyStatsData)>,
    m: Map<Seq<char>, KeyUsage>,
    names: Seq<Seq<char>>,
) -> bool {
    &&& table::lists_all(names, m.dom())
    &&& list.len() == names.len()
    &&& forall|i: int|
        0 <= i < names.len() ==> (#[trigger] list[i]).0@ == names[i] && list[i].1 == (KeyStatsData {
            prompt_tokens: m[names[i]].prompt_tokens,
            completion_tokens: m[names[i]].completion_tokens,
            requests: m[names[i]].requests,
        })
}

/// The counts of all keys, taken in the order of `ids`, as they are written down.
pub open spec fn lists_keys(
    list: Seq<(String, KeyStatsData)>,
    m: Map<Seq<char>, KeyUsage>,
    ids: Seq<Seq<char>>,
) -> bool {
    &&& table::lists_all(ids, m.dom())
    &&& exists|names: Seq<Seq<char>>|
        lists_usage(list, masked_counts(m, ids, ids.len() as int), names)
}

/// The counts of all models as they are shown, in some order.
pub open spec fn shows_models(
    list: Seq<(String, ModelStatsSnapshot)>,
    m: Map<Seq<char>, ModelStats>,
    ids: Seq<Seq<char>>,
) -> bool {
    &&& table::lists_all(ids, m.dom())
    &&& list.len() == ids.len()
    &&& forall|i: int|
        0 <= i < ids.len() ==> (#[trigger] list[i]).0@ == ids[i] && list[i].1 == (
        ModelStatsSnapshot {
            prompt_tokens: m[ids[i]].prompt_tokens,
            completion_tokens: m[ids[i]].completion_tokens,
            requests: m[ids[i]].requests,
        })
}

/// Counts by name as they are shown, each name once, in some order.
pub open spec fn shows_usage(
    list: Seq<(String, KeyUsageSnapshot)>,
    m: Map<Seq<char>, KeyUsage>,
    names: Seq<Seq<char>>,
) -> bool {
    &&& table::lists_all(names, m.dom())
    &&& list.len() == names.len()
    &&& forall|i: int|
        0 <= i < names.len() ==> (#[trigger] list[i]).0@ == names[i] && list[i].1 == (
        KeyUsageSnapshot {
            prompt_tokens: m[names[i]].prompt_tokens,
            completion_tokens: m[names[i]].completion_tokens,
            requests: m[names[i]].requests,
        })
}

/// The counts of all keys, taken in the order of `ids`, as they are shown.
pub open spec fn shows_keys(
    list: Seq<(String, KeyUsageSnapshot)>,
    m: Map<Seq<char>, KeyUsage>,
    ids: Seq<Seq<char>>,
) -> bool {
    &&& table::lists_all(ids, m.dom())
    &&& exists|names: Seq<Seq<char>>|
        shows_usage(list, masked_counts(m, ids, ids.len() as int), names)
}

/// `d` is what is written down of the counts.
pub open spec fn writes_down(d: StatsStore, s: StatsV) -> bool {
    &&& d.total_requests == s.total
    &&& d.success_requests == s.success
    &&& d.failed_requests == s.failed
    &&& d.total_prompt_tokens == s.prompt_tokens
    &&& d.total_completion_tokens == s.completion_tokens
    &&& exists|ids: Seq<Seq<char>>| lists_models(d.model_stats@, s.models, ids)
    &&& exists|ids: Seq<Seq<char>>| lists_keys(d.key_stats@, s.keys, ids)
    &&& data_views(d.request_logs@) == s.logs
}

/// The counts of the first `n` models of a list, later ones in place of earlier
/// ones.
pub open spec fn read_models(list: Seq<(String, ModelStatsData)>, n: int) -> Map<
    Seq<char>,
    ModelStats,
>
    decreases n,
{
    if n <= 0 {
        Map::empty()
    } else {
        read_models(list, n - 1).insert(
            list[n - 1].0@,
            ModelStats {
                prompt_tokens: list[n - 1].1.prompt_tokens,
                completion_tokens: list[n - 1].1.completion_tokens,
                requests: list[n - 1].1.requests,
            },
        )
    }
}

/// The counts of the first `n` keys of a list, later ones in place of earlier
/// ones.
pub open spec fn read_keys(list: Seq<(String, KeyStatsData)>, n: int) -> Map<
    Seq<char>,
    KeyUsage,
>
    decreases n,
{
    if n <= 0 {
        Map::empty()
    } else {
        read_keys(list, n - 1).insert(
            list[n - 1].0@,
            KeyUsage {
                prompt_tokens: list[n - 1].1.prompt_tokens,
                completion_tokens: list[n - 1].1.completion_tokens,
                requests: list[n - 1].1.requests,
            },
        )
    }
}

/// The counts that go on from those that were written down. How long the
/// requests took is not written down.
pub open spec fn restored(d: StatsStore) -> StatsV {
    StatsV {
        total: d.total_requests,
        success: d.success_requests,
        failed: d.failed_requests,
        latency: 0,
        prompt_tokens: d.total_prompt_tokens,
        completion_tokens: d.total_completion_tokens,
        last_persisted: d.total_requests,
        models: read_models(d.model_stats@, d.model_stats@.len() as int),
        keys: read_keys(d.key_stats@, d.key_stats@.len() as int),
        logs: tail(data_views(d.request_logs@), LOG_CAPACITY as int),
    }
}

/// How long a request took on average, in whole milliseconds.
pub open spec fn average(latency: u64, total: u64) -> u64 {
    if total == 0 {
        0
    } else {
        latency / total
    }
}

/// What was counted at some time.
#[derive(Debug)]
pub struct StatsSnapshot {
    pub total_requests: u64,
    pub success_requests: u64,
    pub failed_requests: u64,
    pub avg_latency_ms: u64,
    pub total_prompt_tokens: u64,
    pub total_completion_tokens: u64,
    pub uptime_secs: u64,
    pub models: Vec<(String, ModelStatsSnapshot)>,
    pub keys: Vec<(String, KeyUsageSnapshot)>,
}

impl Stats {
    /// The tables are in order, and no more requests are noted than there is
    /// room for.
    pub open spec fn wf(&self) -> bool {
        self.model_stats.wf() && self.key_stats.wf() && self.request_logs@.len() <= LOG_CAPACITY
    }

    /// The counts that go on from those that were written down.
    pub fn new_with_store(d: &StatsStore) -> (r: Stats)
        ensures
            r.wf(),
            r@ == restored(*d),
    {
        let mut model_stats: Table<ModelStats> = Table::new();
        let mut i: usize = 0;
        while i < d.model_stats.len()
            invariant
                i <= d.model_stats@.len(),
                model_stats.wf(),
                model_stats@ == read_models(d.model_stats@, i as int),
            decreases d.model_stats@.len() - i,
        {
            let data = d.model_stats[i].1;
            model_stats.insert(
                d.model_stats[i].0.clone(),
                ModelStats {
                    prompt_tokens: data.prompt_tokens,
                    completion_tokens: data.completion_tokens,
                    requests: data.requests,
                },
            );
            i += 1;
        }
        let mut key_stats: Table<KeyUsage> = Table::new();
        let mut j: usize = 0;
        while j < d.key_stats.len()
            invariant
                j <= d.key_stats@.len(),
                key_stats.wf(),
                key_stats@ == read_keys(d.key_stats@, j as int),
            decreases d.key_stats@.len() - j,
        {
            let data = d.key_stats[j].1;
            key_stats.insert(
                d.key_stats[j].0.clone(),
                KeyUsage {
                    prompt_tokens: data.prompt_tokens,
                    completion_tokens: data.completion_tokens,
                    requests: data.requests,
                },
            );
            j += 1;
        }
        let n: usize = d.request_logs.len();
        let from: usize = if n > LOG_CAPACITY {
            n - LOG_CAPACITY
        } else {
            0
        };
        let ghost all = data_views(d.request_logs@);
        let mut request_logs: VecDeque<RequestLog> = VecDeque::new();
        let mut k: usize = from;
        assert(log_views(request_logs@) =~= all.subrange(from as int, from as int));
        while k < n
            invariant
                from <= k <= n,
                n == d.request_logs@.len(),
                all == data_views(d.request_logs@),
                log_views(request_logs@) == all.subrange(from as int, k as int),
            decreases n - k,
        {
            let ghost was = log_views(request_logs@);
            let log = RequestLog::from_data(&d.request_logs[k]);
            assert(log@ == all[k as int]);
            request_logs.push_back(log);
            assert(log_views(request_logs@) =~= was.push(log@));
            k += 1;
            assert(log_views(request_logs@) =~= all.subrange(from as int, k as int));
        }
        assert(log_views(request_logs@) =~= tail(all, LOG_CAPACITY as int));
        assert(log_views(request_logs@).len() == request_logs@.len());
        Stats {
            total_requests: d.total_requests,
            success_requests: d.success_requests,
            failed_requests: d.failed_requests,
            total_latency_ms: 0,
            total_prompt_tokens: d.total_prompt_tokens,
            total_completion_tokens: d.total_completion_tokens,
            last_persisted: d.total_requests,
            model_stats,
            key_stats,
            request_logs,
        }
    }

    /// Notes a request; the oldest goes where there is no room.
    pub fn append_log(&mut self, log: RequestLog)
        requires
            old(self).wf(),
        ensures
            final(self).wf(),
            final(self)@ == (StatsV { logs: with_log(old(self)@.logs, log@), ..old(self)@ }),
    {
        let ghost before = self@.logs;
        if self.request_logs.len() >= LOG_CAPACITY {
            self.request_logs.pop_front();
            assert(log_views(self.request_logs@) =~= before.subrange(1, before.len() as int));
        }
        let ghost mid = log_views(self.request_logs@);
        self.request_logs.push_back(log);
        assert(log_views(self.request_logs@) =~= mid.push(log@));
    }

    /// The last requests, the newest first.
    pub fn recent_logs(&self, limit: usize) -> (r: Vec<RequestLog>)
        requires
            self.wf(),
        ensures
            log_views(r@) == newest(self@.logs, limit as int),
    {
        let n: usize = self.request_logs.len();
        let ghost logs = self@.logs;
        let count: usize = if limit < n {
            limit
        } else {
            n
        };
        let mut out: Vec<RequestLog> = Vec::new();
        let mut i: usize = 0;
        while i < count
            invariant
                i <= count <= n,
                n == self.request_logs@.len(),
                logs == self@.logs,
                out@.len() == i,
                forall|k: int| 0 <= k < i ==> (#[trigger] out@[k])@ == logs[n - 1 - k],
            decreases count - i,
        {
            let copy = self.request_logs[n - 1 - i].copy();
            assert(copy@ == logs[n - 1 - i]);
            out.push(copy);
            i += 1;
        }
        assert(log_views(out@) =~= newest(logs, limit as int));
        out
    }

    /// Adds the tokens of a request, in all and for its model and key.
    pub fn record_tokens_for_model_and_key(
        &mut self,
        model: &str,
        api_key: Option<&str>,
        prompt_tokens: u64,
        completion_tokens: u64,
    )
        requires
            old(self).wf(),
        ensures
            final(self).wf(),
            final(self)@ == with_tokens(
                old(self)@,
                model@,
                match api_key {
                    Some(k) => Some(k@),
                    None => None,
                },
                prompt_tokens,
                completion_tokens,
            ),
    {
        self.total_prompt_tokens = self.total_prompt_tokens.wrapping_add(prompt_tokens);
        self.total_completion_tokens = self.total_completion_tokens.wrapping_add(completion_tokens);
        let m = match self.model_stats.get(model) {
            Some(m) => *m,
            None => ModelStats { prompt_tokens: 0, completion_tokens: 0, requests: 0 },
        };
        self.model_stats.insert(
            model.to_owned(),
            ModelStats {
                prompt_tokens: m.prompt_tokens.wrapping_add(prompt_tokens),
                completion_tokens: m.completion_tokens.wrapping_add(completion_tokens),
                requests: m.requests.wrapping_add(1),
            },
        );
        if let Some(key) = api_key {
            let u = match self.key_stats.get(key) {
                Some(u) => *u,
                None => KeyUsage { prompt_tokens: 0, completion_tokens: 0, requests: 0 },
            };
            self.key_stats.insert(
                key.to_owned(),
                KeyUsage {
                    prompt_tokens: u.prompt_tokens.wrapping_add(prompt_tokens),
                    completion_tokens: u.completion_tokens.wrapping_add(completion_tokens),
                    requests: u.requests.wrapping_add(1),
                },
            );
        }
    }

    /// Counts a request that is over. After a failed one the counts are written
    /// down where they are due: what to write comes back. After one that went
    /// well its tokens are still to come.
    pub fn record_request(&mut self, success: bool, latency_ms: u64) -> (r: Option<StatsStore>)
        requires
            old(self).wf(),
            !success && is_due(with_request(old(self)@, success, latency_ms)) ==> can_mask_all(
                old(self)@.keys,
            ),
        ensures
            final(self).wf(),
            ({
                let s = with_request(old(self)@, success, latency_ms);
                if !success && is_due(s) {
                    &&& final(self)@ == (StatsV { last_persisted: s.total, ..s })
                    &&& r matches Some(d) && writes_down(d, s)
                } else {
                    &&& final(self)@ == s
                    &&& r is None
                }
            }),
    {
        self.total_requests = self.total_requests.wrapping_add(1);
        if success {
            self.success_requests = self.success_requests.wrapping_add(1);
        } else {
            self.failed_requests = self.failed_requests.wrapping_add(1);
        }
        self.total_latency_ms = self.total_latency_ms.wrapping_add(latency_ms);
        if success {
            None
        } else {
            self.persist_if_due()
        }
    }

    /// What to write down, where the counts are due to be.
    pub fn persist_if_due(&mut self) -> (r: Option<StatsStore>)
        requires
            old(self).wf(),
            is_due(old(self)@) ==> can_mask_all(old(self)@.keys),
        ensures
            final(self).wf(),
            if is_due(old(self)@) {
                &&& final(self)@ == (StatsV { last_persisted: old(self)@.total, ..old(self)@ })
                &&& r matches Some(d) && writes_down(d, old(self)@)
            } else {
                &&& final(self)@ == old(self)@
                &&& r is None
            },
    {
        let far: u64 = self.total_requests.wrapping_sub(self.last_persisted);
        if far >= PERSIST_INTERVAL {
            let d = self.persist_now();
            self.last_persisted = self.total_requests;
            Some(d)
        } else {
            None
        }
    }

    /// What was counted for the keys, by what is shown of them.
    fn masked_usage(&self) -> (r: Table<KeyUsage>)
        requires
            self.wf(),
            can_mask_all(self@.keys),
        ensures
            r.wf(),
            exists|ids: Seq<Seq<char>>|
                table::lists_all(ids, self@.keys.dom()) && r@ == #[trigger] masked_counts(
                    self@.keys,
                    ids,
                    ids.len() as int,
                ),
    {
        let keys = self.key_stats.keys();
        let ghost ids = text::strs(keys@);
        let mut shown: Table<KeyUsage> = Table::new();
        let mut j: usize = 0;
        while j < keys.len()
            invariant
                j <= keys@.len(),
                self.wf(),
                can_mask_all(self@.keys),
                ids == text::strs(keys@),
                table::lists_all(ids, self.key_stats@.dom()),
                shown.wf(),
                shown@ == masked_counts(self@.keys, ids, j as int),
            decreases keys@.len() - j,
        {
            assert(ids[j as int] == keys@[j as int]@);
            assert(self.key_stats@.dom().contains(ids[j as int]));
            assert(self@.keys.dom().contains(ids[j as int]));
            if let Some(u) = self.key_stats.get(keys[j].as_str()) {
                shown.insert(mask_key(keys[j].as_str()), *u);
            }
            j += 1;
        }
        assert(ids.len() == keys@.len());
        shown
    }

    /// What to write down of the counts. Of the keys only the beginnings are
    /// written.
    pub fn persist_now(&self) -> (r: StatsStore)
        requires
            self.wf(),
            can_mask_all(self@.keys),
        ensures
            writes_down(r, self@),
    {
        let models = self.model_stats.keys();
        let ghost ids = text::strs(models@);
        let mut model_stats: Vec<(String, ModelStatsData)> = Vec::new();
        let mut i: usize = 0;
        while i < models.len()
            invariant
                i <= models@.len(),
                self.wf(),
                ids == text::strs(models@),
                table::lists_all(ids, self.model_stats@.dom()),
                model_stats@.len() == i,
                forall|k: int|
                    0 <= k < i ==> (#[trigger] model_stats@[k]).0@ == ids[k] && model_stats@[k].1
                        == (ModelStatsData {
                        prompt_tokens: self@.models[ids[k]].prompt_tokens,
                        completion_tokens: self@.models[ids[k]].completion_tokens,
                        requests: self@.models[ids[k]].requests,
                    }),
            decreases models@.len() - i,
        {
            assert(ids[i as int] == models@[i as int]@);
            assert(self.model_stats@.dom().contains(ids[i as int]));
            if let Some(m) = self.model_stats.get(models[i].as_str()) {
                model_stats.push(
                    (
                        models[i].clone(),
                        ModelStatsData {
                            prompt_tokens: m.prompt_tokens,
                            completion_tokens: m.completion_tokens,
                            requests: m.requests,
                        },
                    ),
                );
            }
            i += 1;
        }
        let shown = self.masked_usage();
        let ghost key_ids = choose|ids: Seq<Seq<char>>|
            table::lists_all(ids, self@.keys.dom()) && shown@ == #[trigger] masked_counts(
                self@.keys,
                ids,
                ids.len() as int,
            );
        let keys = shown.keys();
        let ghost names = text::strs(keys@);
        let mut key_stats: Vec<(String, KeyStatsData)> = Vec::new();
        let mut j: usize = 0;
        while j < keys.len()
            invariant
                j <= keys@.len(),
                shown.wf(),
                names == text::strs(keys@),
                table::lists_all(names, shown@.dom()),
                key_stats@.len() == j,
                forall|k: int|
                    0 <= k < j ==> (#[trigger] key_stats@[k]).0@ == names[k] && key_stats@[k].1
                        == (KeyStatsData {
                        prompt_tokens: shown@[names[k]].prompt_tokens,
                        completion_tokens: shown@[names[k]].completion_tokens,
                        requests: shown@[names[k]].requests,
                    }),
            decreases keys@.len() - j,
        {
            assert(names[j as int] == keys@[j as int]@);
            assert(shown@.dom().contains(names[j as int]));
            if let Some(u) = shown.get(keys[j].as_str()) {
                key_stats.push(
                    (
                        keys[j].clone(),
                        KeyStatsData {
                            prompt_tokens: u.prompt_tokens,
                            completion_tokens: u.completion_tokens,
                            requests: u.requests,
                        },
                    ),
                );
            }
            j += 1;
        }
        let mut request_logs: Vec<RequestLogData> = Vec::new();
        let mut l: usize = 0;
        while l < self.request_logs.len()
            invariant
                l <= self.request_logs@.len(),
                request_logs@.len() == l,
                forall|k: int| 0 <= k < l ==> (#[trigger] request_logs@[k])@ == self@.logs[k],
            decreases self.request_logs@.len() - l,
        {
            let d = self.request_logs[l].to_data();
            assert(d@ == self@.logs[l as int]);
            request_logs.push(d);
            l += 1;
        }
        assert(data_views(request_logs@) =~= self@.logs);
        let r = StatsStore {
            total_requests: self.total_requests,
            success_requests: self.success_requests,
            failed_requests: self.failed_requests,
            total_prompt_tokens: self.total_prompt_tokens,
            total_completion_tokens: self.total_completion_tokens,
            model_stats,
            key_stats,
            request_logs,
        };
        assert(lists_models(r.model_stats@, self@.models, ids));
        assert(lists_usage(r.key_stats@, shown@, names));
        assert(lists_keys(r.key_stats@, self@.keys, key_ids));
        r
    }

    /// What was counted so far, after the server ran for `uptime_secs`.
    pub fn snapshot(&self, uptime_secs: u64) -> (r: StatsSnapshot)
        requires
            self.wf(),
            can_mask_all(self@.keys),
        ensures
            r.total_requests == self@.total,
            r.success_requests == self@.success,
            r.failed_requests == self@.failed,
            r.avg_latency_ms == average(self@.latency, self@.total),
            r.total_prompt_tokens == self@.prompt_tokens,
            r.total_completion_tokens == self@.completion_tokens,
            r.uptime_secs == uptime_secs,
            exists|ids: Seq<Seq<char>>| shows_models(r.models@, self@.models, ids),
            exists|ids: Seq<Seq<char>>| shows_keys(r.keys@, self@.keys, ids),
    {
        let names = self.model_stats.keys();
        let ghost ids = text::strs(names@);
        let mut models: Vec<(String, ModelStatsSnapshot)> = Vec::new();
        let mut i: usize = 0;
        while i < names.len()
            invariant
                i <= names@.len(),
                self.wf(),
                ids == text::strs(names@),
                table::lists_all(ids, self.model_stats@.dom()),
                models@.len() == i,
                forall|k: int|
                    0 <= k < i ==> (#[trigger] models@[k]).0@ == ids[k] && models@[k].1 == (
                    ModelStatsSnapshot {
                        prompt_tokens: self@.models[ids[k]].prompt_tokens,
                        completion_tokens: self@.models[ids[k]].completion_tokens,
                        requests: self@.models[ids[k]].requests,
                    }),
            decreases names@.len() - i,
        {
            assert(ids[i as int] == names@[i as int]@);
            assert(self.model_stats@.dom().contains(ids[i as int]));
            if let Some(m) = self.model_stats.get(names[i].as_str()) {
                models.push(
                    (
                        names[i].clone(),
                        ModelStatsSnapshot {
                            prompt_tokens: m.prompt_tokens,
                            completion_tokens: m.completion_tokens,
                            requests: m.requests,
                        },
                    ),
                );
            }
            i += 1;
        }
        let keys = self.key_stats_snapshot();
        let r = StatsSnapshot {
            total_requests: self.total_requests,
            success_requests: self.success_requests,
            failed_requests: self.failed_requests,
            avg_latency_ms: if self.total_requests == 0 {
                0
            } else {
                self.total_latency_ms / self.total_requests
            },
            total_prompt_tokens: self.total_prompt_tokens,
            total_completion_tokens: self.total_completion_tokens,
            uptime_secs,
            models,
            keys,
        };
        assert(shows_models(r.models@, self@.models, ids));
        proof {
            let shown = choose|shown: Seq<Seq<char>>| shows_keys(keys@, self@.keys, shown);
            assert(shows_keys(r.keys@, self@.keys, shown));
        }
        r
    }

    /// What was counted for the keys, of which only the beginnings are shown.
    pub fn key_stats_snapshot(&self) -> (r: Vec<(String, KeyUsageSnapshot)>)
        requires
            self.wf(),
            can_mask_all(self@.keys),
        ensures
            exists|ids: Seq<Seq<char>>| shows_keys(r@, self@.keys, ids),
    {
        let shown = self.masked_usage();
        let ghost ids = choose|ids: Seq<Seq<char>>|
            table::lists_all(ids, self@.keys.dom()) && shown@ == #[trigger] masked_counts(
                self@.keys,
                ids,
                ids.len() as int,
            );
        let keys = shown.keys();
        let ghost names = text::strs(keys@);
        let mut out: Vec<(String, KeyUsageSnapshot)> = Vec::new();
        let mut j: usize = 0;
        while j < keys.len()
            invariant
                j <= keys@.len(),
                shown.wf(),
                names == text::strs(keys@),
                table::lists_all(names, shown@.dom()),
                out@.len() == j,
                forall|k: int|
                    0 <= k < j ==> (#[trigger] out@[k]).0@ == names[k] && out@[k].1 == (
                    KeyUsageSnapshot {
                        prompt_tokens: shown@[names[k]].prompt_tokens,
                        completion_tokens: shown@[names[k]].completion_tokens,
                        requests: shown@[names[k]].requests,
                    }),
            decreases keys@.len() - j,
        {
            assert(names[j as int] == keys@[j as int]@);
            assert(shown@.dom().contains(names[j as int]));
            if let Some(u) = shown.get(keys[j].as_str()) {
                out.push(
                    (
                        keys[j].clone(),
                        KeyUsageSnapshot {
                            prompt_tokens: u.prompt_tokens,
                            completion_tokens: u.completion_tokens,
                            requests: u.requests,
                        },
                    ),
                );
            }
            j += 1;
        }
        assert(shows_usage(out@, shown@, names));
        assert(shows_keys(out@, self@.keys, ids));
        out
    }

    /// Whether the counts can be written down if they are due.
    pub fn can_persist_if_due(&self) -> (r: bool)
        requires
            self.wf(),
        ensures
            r == (is_due(self@) ==> can_mask_all(self@.keys)),
    {
        let far: u64 = self.total_requests.wrapping_sub(self.last_persisted);
        far < PERSIST_INTERVAL || self.keys_can_be_masked()
    }

    /// Whether a failed request can be recorded, however long it took.
    pub fn can_record_failure(&self) -> (r: bool)
        requires
            self.wf(),
        ensures
            forall|latency: u64|
                r == (is_due(#[trigger] with_request(self@, false, latency)) ==> can_mask_all(
                    self@.keys,
                )),
    {
        let total: u64 = self.total_requests.wrapping_add(1);
        let far: u64 = total.wrapping_sub(self.last_persisted);
        far < PERSIST_INTERVAL || self.keys_can_be_masked()
    }

    /// Whether all keys can be masked.
    pub fn keys_can_be_masked(&self) -> (r: bool)
        requires
            self.wf(),
        ensures
            r == can_mask_all(self@.keys),
    {
        let keys = self.key_stats.keys();
        let ghost names = text::strs(keys@);
        let mut j: usize = 0;
        while j < keys.len()
            invariant
                j <= keys@.len(),
                self.wf(),
                names == text::strs(keys@),
                table::lists_all(names, self.key_stats@.dom()),
                forall|k: int| 0 <= k < j ==> can_mask(#[trigger] names[k]),
            decreases keys@.len() - j,
        {
            assert(names[j as int] == keys@[j as int]@);
            assert(self.key_stats@.dom().contains(names[j as int]));
            if !can_be_masked(keys[j].as_str()) {
                assert(self@.keys.dom().contains(names[j as int]));
                return false;
            }
            j += 1;
        }
        assert forall|k: Seq<char>| #[trigger] self@.keys.dom().contains(k) implies can_mask(k) by {
            let i = choose|i: int| 0 <= i < names.len() && #[trigger] names[i] == k;
            assert(names[i] == k);
        }
        true
    }
}

/// How long a request takes, and whether that was counted.
#[derive(Debug)]
pub struct RequestTimer {
    /// When it began, in nanoseconds of a clock that never goes back.
    pub start_ns: u64,
}

/// The milliseconds between two times.
pub open spec fn millis(from: u64, to: u64) -> u64 {
    if to > from {
        ((to - from) / 1_000_000) as u64
    } else {
        0
    }
}

fn millis_between(from: u64, to: u64) -> (r: u64)
    ensures
        r == millis(from, to),
{
    if to > from {
        (to - from) / 1_000_000
    } else {
        0
    }
}

impl RequestTimer {
    /// A request begins.
    pub fn new(now_ns: u64) -> (r: RequestTimer)
        ensures
            r.start_ns == now_ns,
    {
        RequestTimer { start_ns: now_ns }
    }

    /// The request went well.
    pub fn mark_success(self, stats: &mut Stats, now_ns: u64)
        requires
            old(stats).wf(),
        ensures
            final(stats).wf(),
            final(stats)@ == with_request(old(stats)@, true, millis(self.start_ns, now_ns)),
    {
        let latency: u64 = millis_between(self.start_ns, now_ns);
        stats.record_request(true, latency);
    }

    /// The request failed, or was given up without a word. What to write down
    /// comes back, where it is due.
    pub fn mark_failure(self, stats: &mut Stats, now_ns: u64) -> (r: Option<StatsStore>)
        requires
            old(stats).wf(),
            is_due(with_request(old(stats)@, false, millis(self.start_ns, now_ns)))
                ==> can_mask_all(old(stats)@.keys),
        ensures
            final(stats).wf(),
            ({
                let s = with_request(old(stats)@, false, millis(self.start_ns, now_ns));
                if is_due(s) {
                    &&& final(stats)@ == (StatsV { last_persisted: s.total, ..s })
                    &&& r matches Some(d) && writes_down(d, s)
                } else {
                    &&& final(stats)@ == s
                    &&& r is None
                }
            }),
    {
        let latency: u64 = millis_between(self.start_ns, now_ns);
        stats.record_request(false, latency)
    }
}

/// Every request is counted once, as one that went well or as one that failed:
/// where the counts added up, they still do.
pub proof fn law_counts_add_up(s: StatsV, success: bool, latency: u64)
    requires
        s.total == s.success + s.failed,
        s.total < u64::MAX,
    ensures
        ({
            let t = with_request(s, success, latency);
            t.total == t.success + t.failed && t.total == s.total + 1
        }),
{
}

/// A request that was just noted is the newest, and no more are kept than there
/// is room for.
pub proof fn law_newest_request_is_kept(logs: Seq<LogV>, log: LogV)
    requires
        logs.len() <= LOG_CAPACITY,
    ensures
        with_log(logs, log).len() <= LOG_CAPACITY,
        newest(with_log(logs, log), 1) == seq![log],
{
    assert(newest(with_log(logs, log), 1) =~= seq![log]);
}

proof fn lemma_read_models(
    list: Seq<(String, ModelStatsData)>,
    m: Map<Seq<char>, ModelStats>,
    ids: Seq<Seq<char>>,
    n: int,
)
    requires
        lists_models(list, m, ids),
        0 <= n <= ids.len(),
    ensures
        forall|i: int|
            0 <= i < n ==> read_models(list, n).dom().contains(#[trigger] ids[i]) && read_models(
                list,
                n,
            )[ids[i]] == m[ids[i]],
        forall|k: Seq<char>| #[trigger]
            read_models(list, n).dom().contains(k) ==> m.dom().contains(k),
    decreases n,
{
    if n > 0 {
        lemma_read_models(list, m, ids, n - 1);
        assert(list[n - 1].0@ == ids[n - 1]);
        assert(m.dom().contains(ids[n - 1]));
        assert forall|k: Seq<char>| #[trigger]
            read_models(list, n).dom().contains(k) implies m.dom().contains(k) by {
            if k != ids[n - 1] {
                assert(read_models(list, n - 1).dom().contains(k));
            }
        }
    }
}

proof fn lemma_masked_counts(m: Map<Seq<char>, KeyUsage>, ids: Seq<Seq<char>>, n: int)
    requires
        0 <= n <= ids.len(),
    ensures
        forall|i: int|
            0 <= i < n ==> masked_counts(m, ids, n).dom().contains(masked(#[trigger] ids[i])),
        forall|k: Seq<char>| #[trigger]
            masked_counts(m, ids, n).dom().contains(k) ==> exists|i: int|
                0 <= i < n && masked(#[trigger] ids[i]) == k && masked_counts(m, ids, n)[k]
                    == m[ids[i]],
    decreases n,
{
    if n > 0 {
        lemma_masked_counts(m, ids, n - 1);
        let before = masked_counts(m, ids, n - 1);
        let after = masked_counts(m, ids, n);
        assert forall|k: Seq<char>| #[trigger] after.dom().contains(k) implies exists|i: int|
            0 <= i < n && masked(#[trigger] ids[i]) == k && after[k] == m[ids[i]] by {
            if k == masked(ids[n - 1]) {
                assert(after[k] == m[ids[n - 1]]);
            } else {
                assert(before.dom().contains(k));
                let i = choose|i: int|
                    0 <= i < n - 1 && masked(#[trigger] ids[i]) == k && before[k] == m[ids[i]];
                assert(after[k] == m[ids[i]]);
            }
        }
    }
}

/// What is written down of the keys holds each shown name once, and with it the
/// counts of a key that looks so; and no key is left out.
pub proof fn law_shown_names_differ(
    list: Seq<(String, KeyStatsData)>,
    m: Map<Seq<char>, KeyUsage>,
    ids: Seq<Seq<char>>,
)
    requires
        lists_keys(list, m, ids),
    ensures
        forall|i: int, j: int|
            0 <= i < j < list.len() ==> (#[trigger] list[i]).0@ != (#[trigger] list[j]).0@,
        forall|i: int|
            0 <= i < list.len() ==> exists|k: Seq<char>| #[trigger]
                m.dom().contains(k) && masked(k) == (#[trigger] list[i]).0@ && list[i].1.requests
                    == m[k].requests && list[i].1.prompt_tokens == m[k].prompt_tokens
                    && list[i].1.completion_tokens == m[k].completion_tokens,
        forall|k: Seq<char>| #[trigger]
            m.dom().contains(k) ==> exists|i: int|
                0 <= i < list.len() && (#[trigger] list[i]).0@ == masked(k),
{
    let shown = masked_counts(m, ids, ids.len() as int);
    let names = choose|names: Seq<Seq<char>>| lists_usage(list, shown, names);
    lemma_masked_counts(m, ids, ids.len() as int);
    assert forall|i: int, j: int| 0 <= i < j < list.len() implies (#[trigger] list[i]).0@ != (
    #[trigger] list[j]).0@ by {
        assert(list[i].0@ == names[i] && list[j].0@ == names[j]);
    }
    assert forall|i: int| 0 <= i < list.len() implies exists|k: Seq<char>| #[trigger]
        m.dom().contains(k) && masked(k) == (#[trigger] list[i]).0@ && list[i].1.requests
            == m[k].requests && list[i].1.prompt_tokens == m[k].prompt_tokens
            && list[i].1.completion_tokens == m[k].completion_tokens by {
        assert(list[i].0@ == names[i]);
        assert(shown.dom().contains(names[i]));
        let p = choose|p: int|
            0 <= p < ids.len() && masked(#[trigger] ids[p]) == names[i] && shown[names[i]]
                == m[ids[p]];
        assert(m.dom().contains(ids[p]));
    }
    assert forall|k: Seq<char>| #[trigger] m.dom().contains(k) implies exists|i: int|
        0 <= i < list.len() && (#[trigger] list[i]).0@ == masked(k) by {
        let p = choose|p: int| 0 <= p < ids.len() && #[trigger] ids[p] == k;
        assert(shown.dom().contains(masked(ids[p])));
        let i = choose|i: int| 0 <= i < names.len() && #[trigger] names[i] == masked(k);
        assert(list[i].0@ == names[i]);
    }
}

proof fn lemma_read_keys(
    list: Seq<(String, KeyStatsData)>,
    m: Map<Seq<char>, KeyUsage>,
    names: Seq<Seq<char>>,
    n: int,
)
    requires
        lists_usage(list, m, names),
        0 <= n <= names.len(),
    ensures
        forall|i: int|
            0 <= i < n ==> read_keys(list, n).dom().contains(#[trigger] names[i]) && read_keys(
                list,
                n,
            )[names[i]] == m[names[i]],
        forall|k: Seq<char>| #[trigger]
            read_keys(list, n).dom().contains(k) ==> m.dom().contains(k),
    decreases n,
{
    if n > 0 {
        lemma_read_keys(list, m, names, n - 1);
        assert(list[n - 1].0@ == names[n - 1]);
        assert(m.dom().contains(names[n - 1]));
        assert forall|k: Seq<char>| #[trigger]
            read_keys(list, n).dom().contains(k) implies m.dom().contains(k) by {
            if k != names[n - 1] {
                assert(read_keys(list, n - 1).dom().contains(k));
            }
        }
    }
}

/// Counts that were written down go on where they were after a restart; only
/// how long requests took is forgotten, and keys are known by their beginnings.
pub proof fn law_restart_keeps_counts(s: StatsV, d: StatsStore)
    requires
        writes_down(d, s),
        s.logs.len() <= LOG_CAPACITY,
    ensures
        restored(d).total == s.total,
        restored(d).success == s.success,
        restored(d).failed == s.failed,
        restored(d).prompt_tokens == s.prompt_tokens,
        restored(d).completion_tokens == s.completion_tokens,
        restored(d).models == s.models,
        restored(d).logs == s.logs,
        restored(d).last_persisted == s.total,
        exists|ids: Seq<Seq<char>>|
            table::lists_all(ids, s.keys.dom()) && restored(d).keys == #[trigger] masked_counts(
                s.keys,
                ids,
                ids.len() as int,
            ),
{
    let key_ids = choose|ids: Seq<Seq<char>>| lists_keys(d.key_stats@, s.keys, ids);
    let shown = masked_counts(s.keys, key_ids, key_ids.len() as int);
    let names = choose|names: Seq<Seq<char>>| lists_usage(d.key_stats@, shown, names);
    lemma_read_keys(d.key_stats@, shown, names, names.len() as int);
    let keys = restored(d).keys;
    assert forall|k: Seq<char>| shown.dom().contains(k) implies keys.dom().contains(k) && keys[k]
        == shown[k] by {
        let i = choose|i: int| 0 <= i < names.len() && #[trigger] names[i] == k;
        assert(names[i] == k);
    }
    assert(keys =~= shown);
    let ids = choose|ids: Seq<Seq<char>>| lists_models(d.model_stats@, s.models, ids);
    lemma_read_models(d.model_stats@, s.models, ids, ids.len() as int);
    let read = restored(d).models;
    assert forall|k: Seq<char>| s.models.dom().contains(k) implies read.dom().contains(k)
        && read[k] == s.models[k] by {
        let i = choose|i: int| 0 <= i < ids.len() && #[trigger] ids[i] == k;
        assert(ids[i] == k);
    }
    assert(read =~= s.models);
}

/// A sum that goes round is the sum of all integers but for whole rounds, and how
/// far a counter has gone is what was added to it.
pub proof fn law_counters_go_round(a: u64, b: u64)
    ensures
        round_sum(a, b) == (a + b) % 0x1_0000_0000_0000_0000,
        gone(a, round_sum(a, b)) == b,
        round_sum(a, b) == round_sum(b, a),
{
    let n = 0x1_0000_0000_0000_0000int;
    if a + b > u64::MAX {
        assert((a + b) % n == a + b - n) by (nonlinear_arith)
            requires
                n <= a + b < 2 * n,
                n > 0,
        ;
    } else {
        assert((a + b) % n == a + b) by (nonlinear_arith)
            requires
                0 <= a + b < n,
        ;
    }
}

/// The counts are written down once so many requests have come since they last
/// were, and not before.
pub proof fn law_counts_are_due_after_some_requests(s: StatsV, since: u64)
    requires
        s.total == round_sum(s.last_persisted, since),
    ensures
        is_due(s) <==> since >= PERSIST_INTERVAL,
{
    law_counters_go_round(s.last_persisted, since);
}

/// The tokens of a request are added in all, for its model and for its key, and
/// for no other; a model or key that was not there begins with them.
pub proof fn law_tokens_are_added_where_they_belong(
    s: StatsV,
    model: Seq<char>,
    key: Seq<char>,
    prompt: u64,
    completion: u64,
    other: Seq<char>,
)
    ensures
        ({
            let t = with_tokens(s, model, Some(key), prompt, completion);
            let u = with_tokens(s, model, None, prompt, completion);
            &&& gone(s.prompt_tokens, t.prompt_tokens) == prompt
            &&& gone(s.completion_tokens, t.completion_tokens) == completion
            &&& t.models.dom().contains(model) && t.keys.dom().contains(key)
            &&& s.models.dom().contains(model) ==> {
                &&& gone(s.models[model].prompt_tokens, t.models[model].prompt_tokens) == prompt
                &&& gone(s.models[model].completion_tokens, t.models[model].completion_tokens)
                    == completion
                &&& gone(s.models[model].requests, t.models[model].requests) == 1
            }
            &&& !s.models.dom().contains(model) ==> t.models[model] == (ModelStats {
                prompt_tokens: prompt,
                completion_tokens: completion,
                requests: 1,
            })
            &&& s.keys.dom().contains(key) ==> {
                &&& gone(s.keys[key].prompt_tokens, t.keys[key].prompt_tokens) == prompt
                &&& gone(s.keys[key].completion_tokens, t.keys[key].completion_tokens) == completion
                &&& gone(s.keys[key].requests, t.keys[key].requests) == 1
            }
            &&& !s.keys.dom().contains(key) ==> t.keys[key] == (KeyUsage {
                prompt_tokens: prompt,
                completion_tokens: completion,
                requests: 1,
            })
            &&& other != model ==> (t.models.dom().contains(other) <==> s.models.dom().contains(
                other,
            )) && (s.models.dom().contains(other) ==> t.models[other] == s.models[other])
            &&& other != key ==> (t.keys.dom().contains(other) <==> s.keys.dom().contains(other))
                && (s.keys.dom().contains(other) ==> t.keys[other] == s.keys[other])
            &&& u == (StatsV { keys: s.keys, ..t })
            &&& t.total == s.total && t.success == s.success && t.failed == s.failed && t.latency
                == s.latency && t.last_persisted == s.last_persisted && t.logs == s.logs
        }),
{
    law_counters_go_round(s.prompt_tokens, prompt);
    law_counters_go_round(s.completion_tokens, completion);
    let m = model_counts(s.models, model);
    law_counters_go_round(m.prompt_tokens, prompt);
    law_counters_go_round(m.completion_tokens, completion);
    law_counters_go_round(m.requests, 1);
    let k = key_counts(s.keys, key);
    law_counters_go_round(k.prompt_tokens, prompt);
    law_counters_go_round(k.completion_tokens, completion);
    law_counters_go_round(k.requests, 1);
}

/// A request that is over is counted with the time it took, as what it was; its
/// tokens and what is noted of others stay as they are.
pub proof fn law_requests_are_counted_as_they_end(s: StatsV, success: bool, latency: u64)
    ensures
        ({
            let t = with_request(s, success, latency);
            &&& gone(s.total, t.total) == 1
            &&& gone(s.latency, t.latency) == latency
            &&& gone(s.success, t.success) == (if success { 1int } else { 0int })
            &&& gone(s.failed, t.failed) == (if success { 0int } else { 1int })
            &&& t.models == s.models && t.keys == s.keys && t.logs == s.logs
            &&& t.prompt_tokens == s.prompt_tokens && t.completion_tokens == s.completion_tokens
            &&& t.last_persisted == s.last_persisted
        }),
{
    law_counters_go_round(s.total, 1);
    law_counters_go_round(s.latency, latency);
    law_counters_go_round(s.success, 1);
    law_counters_go_round(s.failed, 1);
}

/// The requests come out from the newest back to the oldest: one more to come out
/// is the next older one, and one that was just noted comes before all others.
/// While there is room none is lost; then only the oldest goes.
pub proof fn law_requests_come_newest_first(logs: Seq<LogV>, log: LogV, limit: int)
    requires
        0 <= limit,
    ensures
        logs.len() < LOG_CAPACITY ==> newest(with_log(logs, log), limit + 1) == seq![log]
            + newest(logs, limit),
        logs.len() == LOG_CAPACITY && limit < LOG_CAPACITY ==> newest(
            with_log(logs, log),
            limit + 1,
        ) == seq![log] + newest(logs, limit),
        limit < logs.len() ==> newest(logs, limit + 1) == newest(logs, limit).push(
            logs[logs.len() - 1 - limit],
        ),
        limit >= logs.len() ==> newest(logs, limit) == logs.reverse(),
{
    if logs.len() < LOG_CAPACITY {
        assert(newest(with_log(logs, log), limit + 1) =~= seq![log] + newest(logs, limit));
    }
    if logs.len() == LOG_CAPACITY && limit < LOG_CAPACITY {
        assert(newest(with_log(logs, log), limit + 1) =~= seq![log] + newest(logs, limit));
    }
    if limit < logs.len() {
        assert(newest(logs, limit + 1) =~= newest(logs, limit).push(logs[logs.len() - 1 - limit]));
    } else {
        assert(newest(logs, limit) =~= logs.reverse());
    }
}

/// Of requests that were written down the youngest are kept, as many as there is
/// room for: before them stand only older ones.
pub proof fn law_youngest_requests_are_restored(older: Seq<LogV>, logs: Seq<LogV>)
    ensures
        logs.len() == LOG_CAPACITY ==> tail(older + logs, LOG_CAPACITY as int) == logs,
        logs.len() <= LOG_CAPACITY ==> tail(logs, LOG_CAPACITY as int) == logs,
{
    assert((older + logs).subrange(older.len() as int, (older + logs).len() as int) =~= logs);
    if logs.len() == LOG_CAPACITY {
        if older.len() == 0 {
            assert(older + logs =~= logs);
        }
    }
}

/// Of a key only its first eight bytes can be told: keys of more bytes that begin
/// alike are shown alike, and of shorter ones nothing is shown.
pub proof fn law_mask_shows_the_beginning(a: Seq<char>, b: Seq<char>)
    ensures
        vstd::utf8::encode_utf8(a).len() <= 8 && vstd::utf8::encode_utf8(b).len() <= 8 ==> masked(
            a,
        ) == masked(b) && masked(a) == "***"@,
        vstd::utf8::encode_utf8(a).len() > 8 ==> masked(a) == vstd::utf8::decode_utf8(
            vstd::utf8::encode_utf8(a).take(8),
        ) + "***"@,
        vstd::utf8::encode_utf8(a).len() > 8 && vstd::utf8::encode_utf8(b).len() > 8
            && vstd::utf8::encode_utf8(a).take(8) == vstd::utf8::encode_utf8(b).take(8) ==> masked(
            a,
        ) == masked(b),
{
    assert(vstd::utf8::encode_utf8(a).take(8) =~= vstd::utf8::encode_utf8(a).subrange(0, 8));
    assert(vstd::utf8::encode_utf8(b).take(8) =~= vstd::utf8::encode_utf8(b).subrange(0, 8));
}

/// What is shown of the models is each with its counts, once, and no other.
pub proof fn law_every_model_is_shown(
    list: Seq<(String, ModelStatsSnapshot)>,
    m: Map<Seq<char>, ModelStats>,
    ids: Seq<Seq<char>>,
    model: Seq<char>,
    i: int,
    j: int,
)
    requires
        shows_models(list, m, ids),
        0 <= i < list.len(),
        0 <= j < list.len(),
    ensures
        m.dom().contains(list[i].0@),
        i != j ==> list[i].0@ != list[j].0@,
        list[i].1.prompt_tokens == m[list[i].0@].prompt_tokens,
        list[i].1.completion_tokens == m[list[i].0@].completion_tokens,
        list[i].1.requests == m[list[i].0@].requests,
        m.dom().contains(model) ==> exists|k: int|
            0 <= k < list.len() && (#[trigger] list[k]).0@ == model,
{
    assert(list[i].0@ == ids[i] && list[j].0@ == ids[j]);
    if m.dom().contains(model) {
        let k = choose|k: int| 0 <= k < ids.len() && #[trigger] ids[k] == model;
        assert(list[k].0@ == model);
    }
}

/// What is shown of the keys is each beginning once, with the counts of a key
/// that begins so; and no key is left out.
pub proof fn law_every_key_is_shown(
    list: Seq<(String, KeyUsageSnapshot)>,
    m: Map<Seq<char>, KeyUsage>,
    ids: Seq<Seq<char>>,
    key: Seq<char>,
    i: int,
    j: int,
)
    requires
        shows_keys(list, m, ids),
        0 <= i < list.len(),
        0 <= j < list.len(),
    ensures
        i != j ==> list[i].0@ != list[j].0@,
        exists|k: Seq<char>| #[trigger]
            m.dom().contains(k) && masked(k) == list[i].0@ && list[i].1.requests == m[k].requests
                && list[i].1.prompt_tokens == m[k].prompt_tokens && list[i].1.completion_tokens
                == m[k].completion_tokens,
        m.dom().contains(key) ==> exists|k: int|
            0 <= k < list.len() && (#[trigger] list[k]).0@ == masked(key),
{
    let shown = masked_counts(m, ids, ids.len() as int);
    let names = choose|names: Seq<Seq<char>>| shows_usage(list, shown, names);
    lemma_masked_counts(m, ids, ids.len() as int);
    assert(list[i].0@ == names[i] && list[j].0@ == names[j]);
    assert(shown.dom().contains(names[i]));
    let p = choose|p: int|
        0 <= p < ids.len() && masked(#[trigger] ids[p]) == names[i] && shown[names[i]] == m[ids[p]];
    assert(m.dom().contains(ids[p]));
    if m.dom().contains(key) {
        let q = choose|q: int| 0 <= q < ids.len() && #[trigger] ids[q] == key;
        assert(shown.dom().contains(masked(ids[q])));
        let k = choose|k: int| 0 <= k < names.len() && #[trigger] names[k] == masked(key);
        assert(list[k].0@ == names[k]);
    }
}

/// The milliseconds between two times are those that have passed in full; none
/// where the clock stands still or goes back.
pub proof fn law_milliseconds_pass_in_full(from: u64, to: u64)
    ensures
        to >= from ==> millis(from, to) * 1_000_000 <= to - from < (millis(from, to) + 1)
            * 1_000_000,
        to <= from ==> millis(from, to) == 0,
{
}

/// The average is the time that each request took, were all alike: no more than
/// all took together, and less than one more for each.
pub proof fn law_average_is_shared_out(latency: u64, total: u64)
    ensures
        total > 0 ==> average(latency, total) * total <= latency < (average(latency, total) + 1)
            * total,
        total == 0 ==> average(latency, total) == 0,
{
    if total > 0 {
        let q = (latency / total) as int;
        let l = latency as int;
        let t = total as int;
        assert(q * t <= l < (q + 1) * t) by (nonlinear_arith)
            requires
                q == l / t,
                t > 0,
                l >= 0,
        ;
    }
}

} // verus!
