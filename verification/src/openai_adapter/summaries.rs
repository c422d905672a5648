//! Summaries of old conversations: which are kept, when they stand for what
//! they sum up, and when new ones are made.
//!
//! Nothing here waits for a summary: a request is answered with what is there,
//! and a summary that is missing is made for the next one.

use vstd::prelude::*;

use crate::config::ContextConfig;
use crate::copies::Duplicate;
use crate::ds_core::completions;
use crate::ds_core::completions::ChatRequest;
use crate::openai_adapter::context;
use crate::openai_adapter::context::{ContextPlan, PlanV};
use crate::openai_adapter::request::prompt;
use crate::openai_adapter::request::tools;
use crate::openai_adapter::types::{
    ChatCompletionsRequest, ChatCompletionsResponse, Message, MessageContent, MessageV,
};
use crate::openai_adapter::{AdapterErrorV, OpenAIAdapterError};
use crate::table;
use crate::table::Table;
use crate::text;

verus! {

/// So many summaries are kept at most.
pub const MAX_CONTEXT_CACHE_ENTRIES: usize = 512;

/// The smallest size that is asked of a summary.
pub const MIN_SUMMARY_BUDGET: usize = 800;

/// A summary that is kept.
#[derive(Debug)]
pub struct CacheEntry {
    pub summary: String,
    /// When it was made, in nanoseconds of a clock that never goes back.
    pub created_ns: u64,
    /// How many messages it sums up.
    pub covered_count: usize,
    /// The digest of these messages.
    pub covered_hash: String,
}

/// The model of a `CacheEntry`.
#[verifier::ext_equal]
pub struct EntryV {
    pub summary: Seq<char>,
    pub created: int,
    pub covered_count: int,
    pub covered_hash: Seq<char>,
}

impl View for CacheEntry {
    type V = EntryV;

    open spec fn view(&self) -> EntryV {
        EntryV {
            summary: self.summary@,
            created: self.created_ns as int,
            covered_count: self.covered_count as int,
            covered_hash: self.covered_hash@,
        }
    }
}

/// The summaries of a table.
pub open spec fn entries(t: Map<Seq<char>, CacheEntry>) -> Map<Seq<char>, EntryV> {
    t.map_values(|e: CacheEntry| e@)
}

/// The age of a summary in whole seconds.
pub open spec fn age(e: EntryV, now: int) -> int {
    if now > e.created {
        (now - e.created) / 1_000_000_000
    } else {
        0
    }
}

fn age_secs(e: &CacheEntry, now_ns: u64) -> (r: u64)
    ensures
        r == age(e@, now_ns as int),
{
    if now_ns > e.created_ns {
        (now_ns - e.created_ns) / 1_000_000_000
    } else {
        0
    }
}

/// `after` is what is left of `before`: nothing that is too old; and of the
/// rest, where there is more than `max`, the `max` youngest.
pub open spec fn pruned(
    before: Map<Seq<char>, EntryV>,
    after: Map<Seq<char>, EntryV>,
    ttl: int,
    max: int,
    now: int,
) -> bool {
    &&& after.dom().finite()
    &&& after.dom().len() <= max
    &&& forall|k: Seq<char>| #[trigger]
        after.dom().contains(k) ==> before.dom().contains(k) && after[k] == before[k] && age(
            before[k],
            now,
        ) <= ttl
    &&& forall|k: Seq<char>| #[trigger]
        before.dom().contains(k) && age(before[k], now) <= ttl && !after.dom().contains(k)
            ==> after.dom().len() == max && forall|other: Seq<char>| #[trigger]
            after.dom().contains(other) ==> age(before[k], now) >= age(before[other], now)
}

/// The key of the oldest summary.
fn oldest(cache: &Table<CacheEntry>, now_ns: u64) -> (r: String)
    requires
        cache.wf(),
        exists|k: Seq<char>| cache@.dom().contains(k),
    ensures
        cache@.dom().contains(r@),
        forall|k: Seq<char>| #[trigger]
            cache@.dom().contains(k) ==> age(cache@[r@]@, now_ns as int) >= age(
                cache@[k]@,
                now_ns as int,
            ),
{
    let keys = cache.keys();
    let ghost ids = text::strs(keys@);
    proof {
        let k = choose|k: Seq<char>| cache@.dom().contains(k);
        let j = choose|j: int| 0 <= j < ids.len() && #[trigger] ids[j] == k;
        assert(ids.len() > 0);
    }
    let mut best: usize = 0;
    let mut best_age: u64 = 0;
    let mut i: usize = 0;
    while i < keys.len()
        invariant
            i <= keys@.len(),
            keys@.len() > 0,
            cache.wf(),
            ids == text::strs(keys@),
            table::lists_all(ids, cache@.dom()),
            i > 0 ==> best < i && best_age == age(cache@[ids[best as int]]@, now_ns as int),
            forall|j: int|
                0 <= j < i ==> best_age >= age(cache@[#[trigger] ids[j]]@, now_ns as int),
        decreases keys@.len() - i,
    {
        assert(ids[i as int] == keys@[i as int]@);
        assert(cache@.dom().contains(ids[i as int]));
        if let Some(e) = cache.get(keys[i].as_str()) {
            let a: u64 = age_secs(e, now_ns);
            if i == 0 || a > best_age {
                best = i;
                best_age = a;
            }
        }
        i += 1;
    }
    assert(ids[best as int] == keys@[best as int]@);
    assert(cache@.dom().contains(ids[best as int]));
    assert forall|k: Seq<char>| #[trigger] cache@.dom().contains(k) implies age(
        cache@[ids[best as int]]@,
        now_ns as int,
    ) >= age(cache@[k]@, now_ns as int) by {
        let j = choose|j: int| 0 <= j < ids.len() && #[trigger] ids[j] == k;
        assert(ids[j] == k);
    }
    keys[best].clone()
}

/// Drops the summaries that are too old.
fn drop_expired(cache: &mut Table<CacheEntry>, ttl_secs: u64, now_ns: u64)
    requires
        old(cache).wf(),
    ensures
        final(cache).wf(),
        forall|k: Seq<char>| #[trigger]
            final(cache)@.dom().contains(k) <==> old(cache)@.dom().contains(k) && age(
                old(cache)@[k]@,
                now_ns as int,
            ) <= ttl_secs,
        forall|k: Seq<char>| #[trigger]
            final(cache)@.dom().contains(k) ==> final(cache)@[k] == old(cache)@[k],
{
    let ghost before = cache@;
    let keys = cache.keys();
    let ghost ids = text::strs(keys@);
    let mut i: usize = 0;
    while i < keys.len()
        invariant
            i <= keys@.len(),
            cache.wf(),
            ids == text::strs(keys@),
            table::lists_all(ids, before.dom()),
            forall|k: Seq<char>| #[trigger]
                cache@.dom().contains(k) ==> before.dom().contains(k) && cache@[k] == before[k],
            forall|j: int|
                0 <= j < i ==> (cache@.dom().contains(#[trigger] ids[j]) <==> age(
                    before[ids[j]]@,
                    now_ns as int,
                ) <= ttl_secs),
            forall|j: int| i <= j < ids.len() ==> cache@.dom().contains(#[trigger] ids[j]),
        decreases keys@.len() - i,
    {
        assert(ids[i as int] == keys@[i as int]@);
        assert(cache@.dom().contains(ids[i as int]));
        let stale = match cache.get(keys[i].as_str()) {
            Some(e) => age_secs(e, now_ns) > ttl_secs,
            None => false,
        };
        if stale {
            cache.remove(keys[i].as_str());
        }
        i += 1;
    }
    assert forall|k: Seq<char>| #[trigger] before.dom().contains(k) && age(
        before[k]@,
        now_ns as int,
    ) <= ttl_secs implies cache@.dom().contains(k) by {
        let j = choose|j: int| 0 <= j < ids.len() && #[trigger] ids[j] == k;
        assert(ids[j] == k);
    }
    assert forall|k: Seq<char>| #[trigger] cache@.dom().contains(k) implies age(
        before[k]@,
        now_ns as int,
    ) <= ttl_secs by {
        assert(before.dom().contains(k));
        let j = choose|j: int| 0 <= j < ids.len() && #[trigger] ids[j] == k;
        assert(ids[j] == k);
    }
}

/// Drops the summaries that are too old, and the oldest of the others while
/// there are more than `max_entries`.
pub fn prune_cache(cache: &mut Table<CacheEntry>, ttl_secs: u64, max_entries: usize, now_ns: u64)
    requires
        old(cache).wf(),
    ensures
        final(cache).wf(),
        pruned(
            entries(old(cache)@),
            entries(final(cache)@),
            ttl_secs as int,
            max_entries as int,
            now_ns as int,
        ),
{
    let ghost before = cache@;
    drop_expired(cache, ttl_secs, now_ns);
    let ghost fresh = cache@;
    let mut count: usize = cache.len();
    while count > max_entries
        invariant
            cache.wf(),
            cache@.dom().finite(),
            count == cache@.dom().len(),
            forall|k: Seq<char>| #[trigger]
                cache@.dom().contains(k) ==> fresh.dom().contains(k) && cache@[k] == fresh[k],
            forall|k: Seq<char>| #[trigger]
                fresh.dom().contains(k) && !cache@.dom().contains(k) ==> count >= max_entries
                    && forall|other: Seq<char>| #[trigger]
                    cache@.dom().contains(other) ==> age(fresh[k]@, now_ns as int) >= age(
                        fresh[other]@,
                        now_ns as int,
                    ),
        decreases count,
    {
        let ghost now_in = cache@;
        proof {
            assert(exists|k: Seq<char>| cache@.dom().contains(k)) by {
                assert(!cache@.dom().is_empty());
                let k = cache@.dom().choose();
                assert(cache@.dom().contains(k));
            }
        }
        let key = oldest(cache, now_ns);
        cache.remove(key.as_str());
        count = cache.len();
        assert(cache@.dom() =~= now_in.dom().remove(key@));
    }
    assert(entries(cache@).dom() =~= cache@.dom());
    assert(entries(before).dom() =~= before.dom());
    assert forall|k: Seq<char>| #[trigger] entries(cache@).dom().contains(k) implies entries(
        before,
    ).dom().contains(k) && entries(cache@)[k] == entries(before)[k] && age(
        entries(before)[k],
        now_ns as int,
    ) <= ttl_secs by {
        assert(cache@.dom().contains(k));
        assert(fresh.dom().contains(k));
    }
    assert forall|k: Seq<char>| #[trigger]
        entries(before).dom().contains(k) && age(entries(before)[k], now_ns as int) <= ttl_secs
            && !entries(cache@).dom().contains(k) implies entries(cache@).dom().len() == max_entries
        && forall|other: Seq<char>| #[trigger]
        entries(cache@).dom().contains(other) ==> age(entries(before)[k], now_ns as int) >= age(
            entries(before)[other],
            now_ns as int,
        ) by {
        assert(before.dom().contains(k));
        assert(fresh.dom().contains(k));
        assert forall|other: Seq<char>| #[trigger]
            entries(cache@).dom().contains(other) implies age(entries(before)[k], now_ns as int)
            >= age(entries(before)[other], now_ns as int) by {
            assert(cache@.dom().contains(other));
            assert(fresh.dom().contains(other));
        }
    }
}

/// A summary that is to be made.
#[derive(Debug)]
pub struct SummaryJob {
    pub cache_key: String,
    pub in_flight_key: String,
    /// The messages to sum up.
    pub prefix: Vec<Message>,
    pub prefix_count: usize,
    pub prefix_hash: String,
    /// How long to wait before it is made, in milliseconds.
    pub delay_ms: u64,
    pub summary_max_chars: usize,
    pub cache_ttl_secs: u64,
}

/// The model of a `SummaryJob`.
#[verifier::ext_equal]
pub struct JobV {
    pub cache_key: Seq<char>,
    pub in_flight_key: Seq<char>,
    pub prefix: Seq<MessageV>,
    pub prefix_count: int,
    pub prefix_hash: Seq<char>,
    pub delay_ms: int,
    pub summary_max_chars: int,
    pub cache_ttl_secs: int,
}

impl View for SummaryJob {
    type V = JobV;

    open spec fn view(&self) -> JobV {
        JobV {
            cache_key: self.cache_key@,
            in_flight_key: self.in_flight_key@,
            prefix: self.prefix.deep_view(),
            prefix_count: self.prefix_count as int,
            prefix_hash: self.prefix_hash@,
            delay_ms: self.delay_ms as int,
            summary_max_chars: self.summary_max_chars as int,
            cache_ttl_secs: self.cache_ttl_secs as int,
        }
    }
}

/// The summaries that are kept, and those that are being made.
pub struct ContextOptimizer {
    pub cfg: ContextConfig,
    pub cache: Table<CacheEntry>,
    pub in_flight: Table<()>,
}

/// The model of a `ContextOptimizer`.
#[verifier::ext_equal]
pub struct SummariesV {
    pub cfg: ContextConfig,
    pub cache: Map<Seq<char>, EntryV>,
    pub in_flight: Set<Seq<char>>,
}

impl View for ContextOptimizer {
    type V = SummariesV;

    open spec fn view(&self) -> SummariesV {
        SummariesV {
            cfg: self.cfg,
            cache: entries(self.cache@),
            in_flight: self.in_flight@.dom(),
        }
    }
}

/// A summary can stand for old messages: it is young enough, sums up no more
/// than these, and sums up what still stands there.
pub open spec fn stands_for(e: EntryV, p: PlanV, ttl: int, now: int) -> bool {
    &&& age(e, now) <= ttl
    &&& e.covered_count <= p.prefix_count
    &&& context::messages_digest(p.non_system, e.covered_count) == e.covered_hash
}

/// The summary that can stand for the old messages of a plan.
pub open spec fn found(s: SummariesV, p: PlanV, ttl: int, now: int) -> Option<EntryV> {
    if s.cache.dom().contains(p.cache_key) && stands_for(s.cache[p.cache_key], p, ttl, now) {
        Some(s.cache[p.cache_key])
    } else {
        None
    }
}

/// The summaries after one was looked for: one that cannot be used is dropped.
pub open spec fn looked_up(s: SummariesV, p: PlanV, ttl: int, now: int) -> SummariesV {
    if found(s, p, ttl, now) is Some {
        s
    } else {
        SummariesV { cache: s.cache.remove(p.cache_key), ..s }
    }
}

/// The messages with a summary in place of those that it sums up.
pub open spec fn shortened(p: PlanV, e: EntryV, max: int) -> Seq<MessageV> {
    p.systems + seq![context::summary_of(e.summary, max)] + p.non_system.subrange(
        e.covered_count,
        p.non_system.len() as int,
    )
}

/// A summary of all the old messages is kept already.
pub open spec fn covers(s: SummariesV, p: PlanV) -> bool {
    s.cache.dom().contains(p.cache_key) && s.cache[p.cache_key].covered_count >= p.prefix_count
        && s.cache[p.cache_key].covered_hash == p.prefix_hash
}

/// The summary that a plan asks for.
pub open spec fn job_of(p: PlanV, cfg: ContextConfig) -> JobV {
    JobV {
        cache_key: p.cache_key,
        in_flight_key: p.in_flight_key,
        prefix: p.prefix,
        prefix_count: p.prefix_count,
        prefix_hash: p.prefix_hash,
        delay_ms: cfg.background_delay_ms as int,
        summary_max_chars: cfg.summary_max_chars as int,
        cache_ttl_secs: cfg.cache_ttl_secs as int,
    }
}

/// What becomes of a request: the summaries, its messages where they change,
/// and the summary that is to be made.
#[verifier::ext_equal]
pub struct ApplyStep {
    pub state: SummariesV,
    pub messages: Option<Seq<MessageV>>,
    pub job: Option<JobV>,
}

/// Makes a summary unless one is kept or under way.
pub open spec fn begun(
    s: SummariesV,
    p: PlanV,
    cfg: ContextConfig,
    messages: Option<Seq<MessageV>>,
) -> ApplyStep {
    if covers(s, p) || s.in_flight.contains(p.in_flight_key) {
        ApplyStep { state: s, messages, job: None }
    } else {
        ApplyStep {
            state: SummariesV { in_flight: s.in_flight.insert(p.in_flight_key), ..s },
            messages,
            job: Some(job_of(p, cfg)),
        }
    }
}

/// What becomes of a request with a plan.
pub open spec fn planned(s: SummariesV, p: PlanV, cfg: ContextConfig, now: int) -> ApplyStep {
    if p.prefix_chars >= cfg.trigger_chars {
        let t = looked_up(s, p, cfg.cache_ttl_secs as int, now);
        match found(s, p, cfg.cache_ttl_secs as int, now) {
            Some(e) => {
                let messages = Some(shortened(p, e, cfg.summary_max_chars as int));
                if e.covered_count == p.prefix_count || p.prefix_chars < cfg.prewarm_chars {
                    ApplyStep { state: t, messages, job: None }
                } else {
                    begun(t, p, cfg, messages)
                }
            },
            None => if p.prefix_chars < cfg.prewarm_chars {
                ApplyStep { state: t, messages: None, job: None }
            } else {
                begun(t, p, cfg, None)
            },
        }
    } else if p.prefix_chars < cfg.prewarm_chars {
        ApplyStep { state: s, messages: None, job: None }
    } else {
        begun(s, p, cfg, None)
    }
}

/// What becomes of a request.
pub open spec fn applied(
    s: SummariesV,
    req: ChatCompletionsRequest,
    cfg: ContextConfig,
    now: int,
) -> ApplyStep {
    if !cfg.enabled {
        ApplyStep { state: s, messages: None, job: None }
    } else {
        match context::plan_of(req, cfg) {
            None => ApplyStep { state: s, messages: None, job: None },
            Some(p) => planned(s, p, cfg, now),
        }
    }
}

/// The summaries with one that was just made, unless one that sums up more is
/// kept.
pub open spec fn stored(s: SummariesV, job: JobV, summary: Seq<char>, now: int) -> Map<
    Seq<char>,
    EntryV,
> {
    s.cache.insert(
        job.cache_key,
        EntryV {
            summary: context::truncated(summary, job.summary_max_chars),
            created: now,
            covered_count: job.prefix_count,
            covered_hash: job.prefix_hash,
        },
    )
}

/// A summary that was just made is kept: none that sums up more is.
pub open spec fn to_store(s: SummariesV, job: JobV) -> bool {
    s.cache.dom().contains(job.cache_key) ==> s.cache[job.cache_key].covered_count
        <= job.prefix_count
}

/// A job as a model.
pub open spec fn job_view(job: Option<SummaryJob>) -> Option<JobV> {
    match job {
        Some(j) => Some(j@),
        None => None,
    }
}

impl ContextOptimizer {
    /// The tables are in order.
    pub open spec fn wf(&self) -> bool {
        self.cache.wf() && self.in_flight.wf()
    }

    /// No summaries.
    pub fn new(cfg: ContextConfig) -> (r: ContextOptimizer)
        ensures
            r.wf(),
            r@.cfg == cfg,
            r@.cache == Map::<Seq<char>, EntryV>::empty(),
            r@.in_flight == Set::<Seq<char>>::empty(),
    {
        let r = ContextOptimizer { cfg, cache: Table::new(), in_flight: Table::new() };
        assert(r@.cache =~= Map::<Seq<char>, EntryV>::empty());
        assert(r@.in_flight =~= Set::<Seq<char>>::empty());
        r
    }

    /// Changes the settings; the summaries stay.
    pub fn reload(&mut self, cfg: ContextConfig)
        requires
            old(self).wf(),
        ensures
            final(self).wf(),
            final(self)@ == (SummariesV { cfg, ..old(self)@ }),
    {
        self.cfg = cfg;
    }

    /// The summary that can stand for the old messages of a plan, and how many
    /// it sums up. One that cannot be used is dropped.
    pub fn cached_summary(&mut self, plan: &ContextPlan, ttl_secs: u64, now_ns: u64) -> (r: Option<
        (String, usize),
    >)
        requires
            old(self).wf(),
            plan.prefix_count <= plan.non_system@.len(),
        ensures
            final(self).wf(),
            final(self)@ == looked_up(old(self)@, plan@, ttl_secs as int, now_ns as int),
            match found(old(self)@, plan@, ttl_secs as int, now_ns as int) {
                Some(e) => r matches Some(t) && t.0@ == e.summary && t.1 == e.covered_count,
                None => r is None,
            },
    {
        let ghost before = self@;
        assert(before.cache.dom().contains(plan@.cache_key) <==> self.cache@.dom().contains(
            plan@.cache_key,
        ));
        if let Some(e) = self.cache.get(plan.cache_key.as_str()) {
            assert(before.cache[plan@.cache_key] == e@);
            if age_secs(e, now_ns) <= ttl_secs && e.covered_count <= plan.prefix_count {
                let hash = context::hash_messages(&plan.non_system, e.covered_count);
                if text::same(hash.as_str(), e.covered_hash.as_str()) {
                    return Some((e.summary.clone(), e.covered_count));
                }
            }
        }
        self.cache.remove(plan.cache_key.as_str());
        assert(self@.cache =~= before.cache.remove(plan@.cache_key));
        None
    }

    fn begin_summary(
        &mut self,
        plan: ContextPlan,
        Ghost(messages): Ghost<Option<Seq<MessageV>>>,
    ) -> (r: Option<SummaryJob>)
        requires
            old(self).wf(),
        ensures
            final(self).wf(),
            (ApplyStep { state: final(self)@, messages, job: job_view(r) }) == begun(
                old(self)@,
                plan@,
                old(self).cfg,
                messages,
            ),
    {
        let ghost before = self@;
        let ghost p = plan@;
        assert(before.cache.dom().contains(p.cache_key) <==> self.cache@.dom().contains(
            p.cache_key,
        ));
        if let Some(e) = self.cache.get(plan.cache_key.as_str()) {
            assert(before.cache[p.cache_key] == e@);
            if e.covered_count >= plan.prefix_count && text::same(
                e.covered_hash.as_str(),
                plan.prefix_hash.as_str(),
            ) {
                return None;
            }
        }
        if self.in_flight.contains(plan.in_flight_key.as_str()) {
            return None;
        }
        self.in_flight.insert(plan.in_flight_key.clone(), ());
        assert(self@.in_flight =~= before.in_flight.insert(p.in_flight_key));
        Some(
            SummaryJob {
                cache_key: plan.cache_key,
                in_flight_key: plan.in_flight_key,
                prefix: plan.prefix,
                prefix_count: plan.prefix_count,
                prefix_hash: plan.prefix_hash,
                delay_ms: self.cfg.background_delay_ms,
                summary_max_chars: self.cfg.summary_max_chars,
                cache_ttl_secs: self.cfg.cache_ttl_secs,
            },
        )
    }

    /// Puts a summary in place of the old messages of a request, where one is
    /// kept, and says which summary is to be made.
    pub fn apply(&mut self, req: &mut ChatCompletionsRequest, now_ns: u64) -> (r: Option<
        SummaryJob,
    >)
        requires
            old(self).wf(),
            context::messages_size(
                context::others_of(
                    old(req).messages.deep_view(),
                    old(req).messages@.len() as int,
                ),
                context::others_of(
                    old(req).messages.deep_view(),
                    old(req).messages@.len() as int,
                ).len() as int,
            ) <= usize::MAX,
        ensures
            final(self).wf(),
            ({
                let step = applied(old(self)@, *old(req), old(self).cfg, now_ns as int);
                &&& final(self)@ == step.state
                &&& job_view(r) == step.job
                &&& *final(req) == (ChatCompletionsRequest {
                    messages: final(req).messages,
                    ..*old(req)
                })
                &&& match step.messages {
                    Some(ms) => final(req).messages.deep_view() == ms,
                    None => final(req).messages == old(req).messages,
                }
            }),
    {
        if !self.cfg.enabled {
            return None;
        }
        let plan = match context::plan_request(req, &self.cfg) {
            Some(p) => p,
            None => {
                return None;
            },
        };
        let ghost p = plan@;
        let mut done: Option<usize> = None;
        let ghost mut messages: Option<Seq<MessageV>> = None;
        if plan.prefix_chars >= self.cfg.trigger_chars {
            let ttl: u64 = self.cfg.cache_ttl_secs;
            if let Some((summary, covered)) = self.cached_summary(&plan, ttl, now_ns) {
                let mut list = plan.systems.duplicate();
                let ghost a = list.deep_view();
                list.push(context::summary_message(summary.as_str(), self.cfg.summary_max_chars));
                let ghost m = context::summary_of(summary@, self.cfg.summary_max_chars as int);
                assert(list.deep_view() =~= a + seq![m]);
                let mut i: usize = covered;
                assert(a + seq![m] + p.non_system.subrange(covered as int, covered as int) =~= a
                    + seq![m]);
                while i < plan.non_system.len()
                    invariant
                        covered <= i <= plan.non_system@.len(),
                        plan@ == p,
                        list.deep_view() == a + seq![m] + p.non_system.subrange(
                            covered as int,
                            i as int,
                        ),
                    decreases plan.non_system@.len() - i,
                {
                    let ghost was = list.deep_view();
                    list.push(plan.non_system[i].duplicate());
                    assert(p.non_system[i as int] == plan.non_system@[i as int].deep_view());
                    assert(list.deep_view() =~= was.push(p.non_system[i as int]));
                    i += 1;
                    assert(list.deep_view() =~= a + seq![m] + p.non_system.subrange(
                        covered as int,
                        i as int,
                    ));
                }
                req.messages = list;
                done = Some(covered);
                proof {
                    messages = Some(req.messages.deep_view());
                }
            }
        }
        let all_summed_up = match done {
            Some(n) => n == plan.prefix_count,
            None => false,
        };
        if plan.prefix_chars >= self.cfg.prewarm_chars && !all_summed_up {
            self.begin_summary(plan, Ghost(messages))
        } else {
            None
        }
    }

    /// Takes in how the making of a summary went: the summary, or none.
    pub fn finish_summary(&mut self, job: &SummaryJob, summary: Option<String>, now_ns: u64)
        requires
            old(self).wf(),
        ensures
            final(self).wf(),
            final(self)@.cfg == old(self)@.cfg,
            final(self)@.in_flight == old(self)@.in_flight.remove(job@.in_flight_key),
            match summary {
                Some(s) => if to_store(old(self)@, job@) {
                    pruned(
                        stored(old(self)@, job@, s@, now_ns as int),
                        final(self)@.cache,
                        job@.cache_ttl_secs,
                        MAX_CONTEXT_CACHE_ENTRIES as int,
                        now_ns as int,
                    )
                } else {
                    final(self)@.cache == old(self)@.cache
                },
                None => final(self)@.cache == old(self)@.cache,
            },
    {
        let ghost before = self@;
        let ghost j = job@;
        if let Some(s) = summary {
            assert(before.cache.dom().contains(j.cache_key) <==> self.cache@.dom().contains(
                j.cache_key,
            ));
            let keep = match self.cache.get(job.cache_key.as_str()) {
                Some(e) => {
                    assert(before.cache[j.cache_key] == e@);
                    e.covered_count <= job.prefix_count
                },
                None => true,
            };
            if keep {
                let entry = CacheEntry {
                    summary: context::truncate_chars(s.as_str(), job.summary_max_chars),
                    created_ns: now_ns,
                    covered_count: job.prefix_count,
                    covered_hash: job.prefix_hash.clone(),
                };
                self.cache.insert(job.cache_key.clone(), entry);
                assert(entries(self.cache@) =~= stored(before, j, s@, now_ns as int));
                prune_cache(
                    &mut self.cache,
                    job.cache_ttl_secs,
                    MAX_CONTEXT_CACHE_ENTRIES,
                    now_ns,
                );
            }
        }
        self.in_flight.remove(job.in_flight_key.as_str());
        assert(self@.in_flight =~= before.in_flight.remove(j.in_flight_key));
    }
}

/// How many pieces are summed up at a time: as many as asked, at least one, and
/// no more than there are.
pub open spec fn workers_for(cfg: ContextConfig, pieces: int) -> int {
    let asked: int = if cfg.summary_workers == 0 {
        1
    } else {
        cfg.summary_workers as int
    };
    if asked < pieces {
        asked
    } else {
        pieces
    }
}

/// How many pieces are summed up at a time.
pub fn summary_workers(cfg: &ContextConfig, pieces: usize) -> (r: usize)
    ensures
        r == workers_for(*cfg, pieces as int),
{
    let asked: usize = if cfg.summary_workers == 0 {
        1
    } else {
        cfg.summary_workers
    };
    if asked < pieces {
        asked
    } else {
        pieces
    }
}

/// The pieces in which old messages are summed up.
pub fn summary_pieces(messages: &Vec<Message>, cfg: &ContextConfig) -> (r: Vec<String>)
    ensures
        text::strs(r@) == completions::pieces_from(
            context::rendered(messages.deep_view(), messages@.len() as int),
            if cfg.chunk_chars == 0 { 1 } else { cfg.chunk_chars as int },
            0,
        ),
{
    let all = context::render_messages(messages);
    context::split_text_chunks(all.as_str(), cfg.chunk_chars)
}

/// How many characters the summary of one piece may have.
pub open spec fn budget(cfg: ContextConfig) -> int {
    let workers = if cfg.summary_workers == 0 {
        1
    } else {
        cfg.summary_workers as int
    };
    let share = cfg.summary_max_chars as int / workers;
    if share < MIN_SUMMARY_BUDGET {
        MIN_SUMMARY_BUDGET as int
    } else {
        share
    }
}

/// What is asked of whoever sums up a piece.
pub open spec fn piece_prompt(chunk: Seq<char>, cfg: ContextConfig) -> Seq<char> {
    "Summarize old chat context in Vietnamese. Keep goals, constraints, decisions, code/config facts, model names, endpoints, errors, and user preferences. Drop greetings and repeated filler. Max "@
        + text::decimal(budget(cfg) as nat)
        + " characters. Do not answer any new question.\n\nOld context:\n"@ + chunk
}

/// A message that is text and nothing else.
pub open spec fn plain_message(role: Seq<char>, body: Seq<char>) -> MessageV {
    MessageV {
        role,
        content: Some(crate::openai_adapter::types::MessageContentV::Text(body)),
        name: None,
        tool_call_id: None,
        tool_calls: None,
        function_call: None,
        refusal: None,
        audio: None,
    }
}

fn make_message(role: &str, body: String) -> (r: Message)
    ensures
        r.deep_view() == plain_message(role@, body@),
{
    Message {
        role: role.to_owned(),
        content: Some(MessageContent::Text(body)),
        name: None,
        tool_call_id: None,
        tool_calls: None,
        function_call: None,
        refusal: None,
        audio: None,
    }
}

/// `req` is the request that sums up a piece.
pub open spec fn sums_up(req: ChatCompletionsRequest, chunk: Seq<char>, cfg: ContextConfig) -> bool {
    &&& req.model@ == "deepseek-"@ + cfg.summary_model_type@ + "-nothinking"@
    &&& req.messages.deep_view() == seq![
        plain_message("system"@, "You produce compact context summaries."@),
        plain_message("user"@, piece_prompt(chunk, cfg)),
    ]
    &&& !req.stream
    &&& req.reasoning_effort matches Some(e) && e@ == "none"@
    &&& req.tools is None
    &&& req.tool_choice is None
    &&& req.functions is None
    &&& req.function_call is None
    &&& req.parallel_tool_calls is None
    &&& req.web_search_options is None
    &&& req.stream_options is None
    &&& req.stop is None
    &&& req.response_format is None
}

/// The request that sums up a piece.
pub fn piece_request(chunk: &str, cfg: &ContextConfig) -> (r: ChatCompletionsRequest)
    ensures
        sums_up(r, chunk@, *cfg),
{
    let workers: usize = if cfg.summary_workers == 0 {
        1
    } else {
        cfg.summary_workers
    };
    let share: usize = cfg.summary_max_chars / workers;
    let allowed: usize = if share < MIN_SUMMARY_BUDGET {
        MIN_SUMMARY_BUDGET
    } else {
        share
    };
    assert(allowed == budget(*cfg));
    let d = text::decimal_of(allowed as u64);
    let asked = text::cat4(
        "Summarize old chat context in Vietnamese. Keep goals, constraints, decisions, code/config facts, model names, endpoints, errors, and user preferences. Drop greetings and repeated filler. Max ",
        d.as_str(),
        " characters. Do not answer any new question.\n\nOld context:\n",
        chunk,
    );
    let mut messages: Vec<Message> = Vec::new();
    messages.push(make_message("system", "You produce compact context summaries.".to_owned()));
    messages.push(make_message("user", asked));
    let model = text::cat3("deepseek-", cfg.summary_model_type.as_str(), "-nothinking");
    let mut req = ChatCompletionsRequest::new(model, messages);
    req.reasoning_effort = Some("none".to_owned());
    assert(req.messages.deep_view() =~= seq![
        plain_message("system"@, "You produce compact context summaries."@),
        plain_message("user"@, piece_prompt(chunk@, *cfg)),
    ]);
    req
}

/// The conversation in which a piece is summed up.
pub fn piece_chat(chunk: &str, cfg: &ContextConfig) -> (r: Result<ChatRequest, OpenAIAdapterError>)
    ensures
        r is Ok,
        ({
            let chat = r->Ok_0;
            &&& exists|req: ChatCompletionsRequest, ctx: tools::ToolContextV|
                #![trigger prompt::prompt_text(req, ctx)]
                sums_up(req, chunk@, *cfg) && tools::tool_context(req) == Ok::<
                    tools::ToolContextV,
                    Seq<char>,
                >(ctx) && chat.prompt@ == prompt::prompt_text(req, ctx)
            &&& !chat.thinking_enabled
            &&& !chat.search_enabled
            &&& chat.model_type@ == cfg.summary_model_type@
            &&& chat.files@.len() == 0
        }),
{
    let req = piece_request(chunk, cfg);
    match tools::extract(&req) {
        Err(e) => Err(OpenAIAdapterError::BadRequest(e)),
        Ok(ctx) => {
            let built = prompt::build(&req, &ctx);
            assert(built@ == prompt::prompt_text(req, ctx@));
            Ok(
                ChatRequest {
                    prompt: built,
                    thinking_enabled: false,
                    search_enabled: false,
                    model_type: cfg.summary_model_type.clone(),
                    files: Vec::new(),
                },
            )
        },
    }
}

/// The id of the request that sums up the piece at `idx`.
pub fn piece_id(request_id: &str, idx: usize) -> (r: String)
    ensures
        r@ == request_id@ + "-ctx-"@ + text::decimal(idx as nat),
{
    let d = text::decimal_of(idx as u64);
    text::cat3(request_id, "-ctx-", d.as_str())
}

/// The text of an answer that has one: that of its first alternative, unless it
/// is blank.
pub open spec fn answer_text(json: ChatCompletionsResponse) -> Option<Seq<char>> {
    if json.choices@.len() == 0 {
        None
    } else {
        match json.choices@[0].message.content {
            Some(s) => if text::trimmed(s@).len() == 0 {
                None
            } else {
                Some(s@)
            },
            None => None,
        }
    }
}

/// The summary that an answer is.
pub fn summary_text(json: &ChatCompletionsResponse) -> (r: Result<String, OpenAIAdapterError>)
    ensures
        match r {
            Ok(s) => answer_text(*json) == Some(s@),
            Err(e) => answer_text(*json) is None && e@ == AdapterErrorV::Internal(
                "empty context summary"@,
            ),
        },
{
    if json.choices.len() > 0 {
        if let Some(s) = &json.choices[0].message.content {
            let t = text::trim(s.as_str());
            if !t.as_str().is_empty() {
                return Ok(s.clone());
            }
        }
    }
    Err(OpenAIAdapterError::Internal("empty context summary".to_owned()))
}

/// What came back for the pieces, in the order in which it came: the number of
/// the piece and its summary, or an error.
pub type PieceOutcome = Result<(usize, String), OpenAIAdapterError>;

/// The first error among the pieces from position `i` on.
pub open spec fn first_error(parts: Seq<PieceOutcome>, i: int) -> Option<AdapterErrorV>
    decreases parts.len() - i,
{
    if i < 0 || i >= parts.len() {
        None
    } else {
        match parts[i] {
            Err(e) => Some(e@),
            Ok(_) => first_error(parts, i + 1),
        }
    }
}

/// The position of the outcome of the piece number `idx`.
pub open spec fn is_place_of(parts: Seq<PieceOutcome>, idx: int, j: int) -> bool {
    0 <= j < parts.len() && (parts[j] matches Ok(p) && p.0 == idx)
}

/// The piece number `idx` came back.
pub open spec fn came_back(parts: Seq<PieceOutcome>, idx: int) -> bool {
    exists|j: int| is_place_of(parts, idx, j)
}

/// Every piece came back once.
pub open spec fn complete(parts: Seq<PieceOutcome>) -> bool {
    &&& forall|idx: int| 0 <= idx < parts.len() ==> #[trigger] came_back(parts, idx)
    &&& forall|idx: int, i: int, j: int| #[trigger]
        is_place_of(parts, idx, i) && #[trigger] is_place_of(parts, idx, j) ==> i == j
}

/// The summary of the piece number `idx`.
pub open spec fn piece_text(parts: Seq<PieceOutcome>, idx: int) -> Seq<char> {
    let j = choose|j: int| is_place_of(parts, idx, j);
    match parts[j] {
        Ok(p) => p.1@,
        Err(_) => Seq::empty(),
    }
}

/// The summaries of the first `n` pieces, with their numbers.
pub open spec fn numbered(parts: Seq<PieceOutcome>, n: int) -> Seq<char>
    decreases n,
{
    if n <= 0 {
        Seq::empty()
    } else {
        numbered(parts, n - 1) + ("Chunk "@ + text::decimal(n as nat) + ":\n"@ + text::trimmed(
            piece_text(parts, n - 1),
        ) + "\n\n"@)
    }
}

/// The summary of all pieces: that of the only one, or those of all in their
/// order, with numbers.
pub open spec fn combined(parts: Seq<PieceOutcome>) -> Seq<char> {
    if parts.len() == 1 {
        piece_text(parts, 0)
    } else {
        numbered(parts, parts.len() as int)
    }
}

/// The summary of all pieces. An error among them is the error of all.
pub fn combine_summaries(parts: Vec<PieceOutcome>) -> (r: Result<String, OpenAIAdapterError>)
    requires
        first_error(parts@, 0) is None ==> complete(parts@),
    ensures
        match r {
            Err(e) => first_error(parts@, 0) == Some(e@),
            Ok(s) => first_error(parts@, 0) is None && s@ == combined(parts@),
        },
{
    let ghost all = parts@;
    let mut rest = parts;
    let mut texts: Vec<(usize, String)> = Vec::new();
    let ghost mut done: int = 0;
    assert(all.subrange(0, all.len() as int) =~= all);
    while rest.len() > 0
        invariant
            all == parts@,
            0 <= done <= all.len(),
            rest@ == all.subrange(done, all.len() as int),
            first_error(all, 0) == first_error(all, done),
            texts@.len() == done,
            forall|i: int|
                0 <= i < done ==> all[i] == Ok::<(usize, String), OpenAIAdapterError>(
                    #[trigger] texts@[i],
                ),
        decreases rest@.len(),
    {
        let part = rest.remove(0);
        assert(part == all[done]);
        match part {
            Err(e) => {
                return Err(e);
            },
            Ok(p) => {
                texts.push(p);
            },
        }
        proof {
            done = done + 1;
        }
        assert(rest@ =~= all.subrange(done, all.len() as int));
    }
    assert(done == all.len());
    if texts.len() == 1 {
        let (_, only) = texts.remove(0);
        proof {
            assert(came_back(all, 0));
            let j = choose|j: int| is_place_of(all, 0, j);
            assert(j == 0);
        }
        return Ok(only);
    }
    let mut out = String::new();
    assert(out@ =~= Seq::empty());
    let mut idx: usize = 0;
    while idx < texts.len()
        invariant
            idx <= texts@.len(),
            texts@.len() == all.len(),
            complete(all),
            out@ == numbered(all, idx as int),
            forall|i: int|
                0 <= i < texts@.len() ==> all[i] == Ok::<(usize, String), OpenAIAdapterError>(
                    #[trigger] texts@[i],
                ),
        decreases texts@.len() - idx,
    {
        let at: usize = place_of(&texts, idx, Ghost(all));
        let n = text::decimal_of(idx as u64 + 1);
        let body = text::trim(texts[at].1.as_str());
        proof {
            assert(is_place_of(all, idx as int, at as int));
            let j = choose|j: int| is_place_of(all, idx as int, j);
            assert(j == at);
            assert(texts@[at as int].1@ == piece_text(all, idx as int));
        }
        let part = text::cat5("Chunk ", n.as_str(), ":\n", body.as_str(), "\n\n");
        out.append(part.as_str());
        idx += 1;
    }
    Ok(out)
}

/// Where the summary of the piece number `idx` stands.
fn place_of(texts: &Vec<(usize, String)>, idx: usize, Ghost(all): Ghost<Seq<PieceOutcome>>) -> (r:
    usize)
    requires
        texts@.len() == all.len(),
        complete(all),
        idx < all.len(),
        forall|i: int|
            0 <= i < texts@.len() ==> all[i] == Ok::<(usize, String), OpenAIAdapterError>(
                    #[trigger] texts@[i],
                ),
    ensures
        r < texts@.len(),
        is_place_of(all, idx as int, r as int),
{
    assert(came_back(all, idx as int));
    let ghost j = choose|j: int| is_place_of(all, idx as int, j);
    assert(is_place_of(all, idx as int, j));
    assert(texts@[j].0 == idx);
    let mut i: usize = 0;
    while texts[i].0 != idx
        invariant
            i <= j < texts.len(),
            texts@[j].0 == idx,
        decreases texts@.len() - i,
    {
        i += 1;
    }
    assert(all[i as int] == Ok::<(usize, String), OpenAIAdapterError>(texts@[i as int]));
    i
}

/// Where all the young summaries fit, they all stay.
pub proof fn law_young_summaries_stay(
    before: Map<Seq<char>, EntryV>,
    after: Map<Seq<char>, EntryV>,
    ttl: int,
    max: int,
    now: int,
    key: Seq<char>,
)
    requires
        before.dom().finite(),
        before.dom().len() <= max,
        pruned(before, after, ttl, max, now),
    ensures
        after.dom().contains(key) <==> before.dom().contains(key) && age(before[key], now) <= ttl,
{
    if before.dom().contains(key) && age(before[key], now) <= ttl && !after.dom().contains(key) {
        assert(after.dom().subset_of(before.dom().remove(key)));
        vstd::set_lib::lemma_len_subset(after.dom(), before.dom().remove(key));
    }
}

/// A summary that was just made for a conversation without one stands for the
/// messages that it sums up in the next request, as long as it is young enough.
pub proof fn law_new_summary_is_found(
    s: SummariesV,
    job: JobV,
    summary: Seq<char>,
    made: int,
    p: PlanV,
    ttl: int,
    now: int,
)
    requires
        p.cache_key == job.cache_key,
        p.prefix_count >= job.prefix_count,
        context::messages_digest(p.non_system, job.prefix_count) == job.prefix_hash,
        made <= now,
        (now - made) / 1_000_000_000 <= ttl,
        ttl >= 0,
    ensures
        ({
            let t = SummariesV { cache: stored(s, job, summary, made), ..s };
            &&& found(t, p, ttl, now) matches Some(e)
            &&& e.summary == context::truncated(summary, job.summary_max_chars)
            &&& e.covered_count == job.prefix_count
        }),
{
}

/// Whatever becomes of a request, its last messages stay as they are.
pub proof fn law_last_messages_stay(
    s: SummariesV,
    req: ChatCompletionsRequest,
    cfg: ContextConfig,
    now: int,
    back: int,
)
    requires
        cfg.enabled,
        context::plan_of(req, cfg) is Some,
        applied(s, req, cfg, now).messages is Some,
        0 < back <= cfg.keep_last_messages,
        forall|k: Seq<char>| #[trigger] s.cache.dom().contains(k) ==> s.cache[k].covered_count >= 0,
    ensures
        ({
            let others = context::plan_of(req, cfg)->0.non_system;
            let ms = applied(s, req, cfg, now).messages->0;
            ms[ms.len() - back] == others[others.len() - back]
        }),
{
    let p = context::plan_of(req, cfg)->0;
    let e = found(s, p, cfg.cache_ttl_secs as int, now)->0;
    assert(e.covered_count <= p.prefix_count);
}

/// Where a summary stands in for old messages, the messages are those of the
/// system, then the summary, then every other message that it does not sum up,
/// in order: none is lost and none comes twice. The summary is young enough, and
/// the messages that it stands for are the very ones that it sums up.
pub proof fn law_summary_keeps_the_rest(
    s: SummariesV,
    req: ChatCompletionsRequest,
    cfg: ContextConfig,
    now: int,
    of_system: spec_fn(MessageV) -> bool,
    of_others: spec_fn(MessageV) -> bool,
)
    requires
        applied(s, req, cfg, now).messages is Some,
        forall|m: MessageV| #[trigger] of_system(m) == (m.role == "system"@),
        forall|m: MessageV| #[trigger] of_others(m) == (m.role != "system"@),
        forall|k: Seq<char>| #[trigger] s.cache.dom().contains(k) ==> s.cache[k].covered_count >= 0,
    ensures
        ({
            let systems = req.messages.deep_view().filter(of_system);
            let others = req.messages.deep_view().filter(of_others);
            let key = context::key_of(req, systems, others);
            let e = s.cache[key];
            let ms = applied(s, req, cfg, now).messages->0;
            &&& s.cache.dom().contains(key)
            &&& 0 <= e.covered_count <= others.len() - cfg.keep_last_messages
            &&& e.covered_hash == context::messages_digest(others, e.covered_count)
            &&& now - e.created < (cfg.cache_ttl_secs + 1) * 1_000_000_000
            &&& ms.len() == systems.len() + 1 + (others.len() - e.covered_count)
            &&& forall|i: int| 0 <= i < systems.len() ==> #[trigger] ms[i] == systems[i]
            &&& ms[systems.len() as int] == context::summary_of(
                e.summary,
                cfg.summary_max_chars as int,
            )
            &&& forall|i: int|
                e.covered_count <= i < others.len() ==> #[trigger] others[i] == ms[systems.len() + 1
                    + i - e.covered_count]
        }),
{
    context::law_plan_when_worth_it(req, cfg, of_system, of_others);
    let p = context::plan_of(req, cfg)->0;
    let e = found(s, p, cfg.cache_ttl_secs as int, now)->0;
    let others = req.messages.deep_view().filter(of_others);
    assert(p.non_system == others);
    assert(age(e, now) <= cfg.cache_ttl_secs);
    let ms = applied(s, req, cfg, now).messages->0;
    let rest = others.subrange(e.covered_count, others.len() as int);
    assert(ms =~= p.systems + seq![context::summary_of(e.summary, cfg.summary_max_chars as int)]
        + rest);
    assert forall|i: int| e.covered_count <= i < others.len() implies #[trigger] others[i]
        == ms[p.systems.len() + 1 + i - e.covered_count] by {
        assert(rest[i - e.covered_count] == others[i]);
    }
}

/// A summary stands in whenever the request allows it and one is kept that is
/// young enough and sums up what still stands there; and only then.
pub proof fn law_summary_stands_in_when_it_can(
    s: SummariesV,
    req: ChatCompletionsRequest,
    cfg: ContextConfig,
    now: int,
    p: PlanV,
)
    requires
        cfg.enabled,
        context::plan_of(req, cfg) == Some(p),
        s.cache.dom().contains(p.cache_key) ==> s.cache[p.cache_key].created <= now,
    ensures
        applied(s, req, cfg, now).messages is Some <==> {
            let e = s.cache[p.cache_key];
            &&& p.prefix_chars >= cfg.trigger_chars
            &&& s.cache.dom().contains(p.cache_key)
            &&& now - e.created < (cfg.cache_ttl_secs + 1) * 1_000_000_000
            &&& e.covered_count <= p.prefix_count
            &&& e.covered_hash == context::messages_digest(p.non_system, e.covered_count)
        },
{
}

/// Where summaries are off, or nothing can be summed up, nothing happens.
pub proof fn law_no_plan_changes_nothing(
    s: SummariesV,
    req: ChatCompletionsRequest,
    cfg: ContextConfig,
    now: int,
)
    requires
        !cfg.enabled || context::plan_of(req, cfg) is None,
    ensures
        applied(s, req, cfg, now) == (ApplyStep { state: s, messages: None, job: None }),
{
}

/// Only a summary that was looked for and cannot be used is dropped; every other
/// one stays as it is, and no summary appears.
pub proof fn law_only_useless_summaries_go(
    s: SummariesV,
    req: ChatCompletionsRequest,
    cfg: ContextConfig,
    now: int,
    key: Seq<char>,
)
    requires
        s.cache.dom().contains(key),
    ensures
        ({
            let t = applied(s, req, cfg, now);
            &&& t.state.cache.dom().subset_of(s.cache.dom())
            &&& t.state.cache.dom().contains(key) ==> t.state.cache[key] == s.cache[key]
            &&& t.messages is Some ==> t.state.cache == s.cache
            &&& !t.state.cache.dom().contains(key) ==> t.messages is None
                && (context::plan_of(req, cfg) matches Some(p) && p.cache_key == key
                && p.prefix_chars >= cfg.trigger_chars)
            &&& t.state.cfg == s.cfg
        }),
{
}

/// A summary is made of exactly the old messages of the request, is marked as
/// under way, and was not under way before. One is made whenever the old
/// messages are large enough, unless one is under way or the kept one sums up
/// all of them.
pub proof fn law_summary_is_made_of_the_old_messages(
    s: SummariesV,
    req: ChatCompletionsRequest,
    cfg: ContextConfig,
    now: int,
    p: PlanV,
)
    requires
        cfg.enabled,
        context::plan_of(req, cfg) == Some(p),
    ensures
        ({
            let t = applied(s, req, cfg, now);
            let kept = t.state.cache.dom().contains(p.cache_key);
            let e = t.state.cache[p.cache_key];
            &&& t.job matches Some(j) ==> {
                &&& j.prefix == p.non_system.subrange(0, p.prefix_count)
                &&& j.prefix_count == p.prefix_count
                &&& j.prefix_hash == context::messages_digest(p.non_system, p.prefix_count)
                &&& j.cache_key == p.cache_key
                &&& j.in_flight_key == p.in_flight_key
                &&& j.delay_ms == cfg.background_delay_ms
                &&& j.summary_max_chars == cfg.summary_max_chars
                &&& j.cache_ttl_secs == cfg.cache_ttl_secs
                &&& !s.in_flight.contains(p.in_flight_key)
                &&& t.state.in_flight == s.in_flight.insert(p.in_flight_key)
                &&& p.prefix_chars >= cfg.prewarm_chars
            }
            &&& t.job is None ==> t.state.in_flight == s.in_flight
            &&& t.job is None ==> {
                ||| p.prefix_chars < cfg.prewarm_chars
                ||| s.in_flight.contains(p.in_flight_key)
                ||| kept && e.covered_count >= p.prefix_count
            }
            &&& s.in_flight.contains(p.in_flight_key) ==> t.job is None
        }),
{
    context::law_plan_spares_the_last(req, cfg);
    context::lemma_plan_digest(req, cfg);
    assert(p.prefix =~= p.non_system.subrange(0, p.prefix_count));
}

/// After the summaries were thinned out there are no more than may be, none is
/// too old, what is kept is unchanged, and none that went was younger than one
/// that stays.
pub proof fn law_youngest_summaries_stay(
    before: Map<Seq<char>, EntryV>,
    after: Map<Seq<char>, EntryV>,
    ttl: int,
    max: int,
    now: int,
    stays: Seq<char>,
    goes: Seq<char>,
)
    requires
        pruned(before, after, ttl, max, now),
        after.dom().contains(stays),
        before.dom().contains(goes),
        !after.dom().contains(goes),
        before[stays].created <= now,
        before[goes].created <= now,
    ensures
        after.dom().len() <= max,
        before.dom().contains(stays) && after[stays] == before[stays],
        now - before[stays].created < (ttl + 1) * 1_000_000_000,
        before[goes].created < before[stays].created + 1_000_000_000,
{
    if age(before[goes], now) <= ttl {
        assert(age(before[goes], now) >= age(before[stays], now));
    }
}

/// A summary is put in place of one that sums up no more, and never of one that
/// sums up more.
pub proof fn law_larger_summary_is_not_replaced(s: SummariesV, job: JobV)
    ensures
        !s.cache.dom().contains(job.cache_key) ==> to_store(s, job),
        s.cache.dom().contains(job.cache_key) ==> (to_store(s, job) <==> job.prefix_count
            >= s.cache[job.cache_key].covered_count),
{
}

/// Storing a summary touches no other.
pub proof fn law_storing_touches_no_other(
    s: SummariesV,
    job: JobV,
    summary: Seq<char>,
    now: int,
    other: Seq<char>,
)
    requires
        other != job.cache_key,
    ensures
        stored(s, job, summary, now).dom().contains(other) == s.cache.dom().contains(other),
        s.cache.dom().contains(other) ==> stored(s, job, summary, now)[other] == s.cache[other],
{
}

/// No more pieces are summed up at a time than were asked for or than there are,
/// at least one where there is any, and as many as these limits allow.
pub proof fn law_workers_within_limits(cfg: ContextConfig, pieces: int)
    requires
        0 <= pieces,
    ensures
        ({
            let n = workers_for(cfg, pieces);
            &&& n <= pieces
            &&& n <= cfg.summary_workers || n <= 1
            &&& pieces > 0 ==> n > 0
            &&& n < pieces ==> n >= cfg.summary_workers
        }),
{
}

/// The summary of a piece may have its share of all characters, and never fewer
/// than the smallest number.
pub proof fn law_budget_is_a_fair_share(cfg: ContextConfig)
    ensures
        ({
            let workers: int = if cfg.summary_workers == 0 {
                1
            } else {
                cfg.summary_workers as int
            };
            &&& budget(cfg) >= 800
            &&& budget(cfg) >= cfg.summary_max_chars as int / workers
            &&& budget(cfg) > 800 ==> budget(cfg) * workers <= cfg.summary_max_chars
        }),
{
    let workers: int = if cfg.summary_workers == 0 {
        1
    } else {
        cfg.summary_workers as int
    };
    let share = cfg.summary_max_chars as int / workers;
    assert(share * workers <= cfg.summary_max_chars) by (nonlinear_arith)
        requires
            share == cfg.summary_max_chars as int / workers,
            workers > 0,
    ;
}

/// Whoever sums up a piece is told how long the summary may be, and then the
/// piece itself.
pub proof fn law_piece_prompt_ends_with_the_piece(chunk: Seq<char>, cfg: ContextConfig)
    ensures
        ({
            let asked = piece_prompt(chunk, cfg);
            &&& text::stands_at(asked, chunk, asked.len() - chunk.len())
            &&& text::occurs(asked, "Max "@ + text::decimal(budget(cfg) as nat) + " characters"@)
        }),
{
    let asked = piece_prompt(chunk, cfg);
    assert(asked.subrange(asked.len() - chunk.len(), asked.len() as int) =~= chunk);
    let a =
        "Summarize old chat context in Vietnamese. Keep goals, constraints, decisions, code/config facts, model names, endpoints, errors, and user preferences. Drop greetings and repeated filler. Max "@;
    let b = text::decimal(budget(cfg) as nat);
    let c = " characters. Do not answer any new question.\n\nOld context:\n"@;
    let said = "Max "@ + b + " characters"@;
    reveal_strlit(
        "Summarize old chat context in Vietnamese. Keep goals, constraints, decisions, code/config facts, model names, endpoints, errors, and user preferences. Drop greetings and repeated filler. Max ",
    );
    reveal_strlit("Max ");
    reveal_strlit(" characters. Do not answer any new question.\n\nOld context:\n");
    reveal_strlit(" characters");
    let front = a.subrange(0, a.len() - 4);
    let back = c.subrange(11, c.len() as int) + chunk;
    assert(a =~= front + "Max "@);
    assert(c =~= " characters"@ + c.subrange(11, c.len() as int));
    assert(asked =~= front + said + back);
    text::lemma_occurs_between(front, said, back);
}

/// The request that sums up a piece asks the model for summaries, without
/// thinking and without tools, and ends with the piece.
pub proof fn law_piece_request_asks_for_the_piece(
    req: ChatCompletionsRequest,
    chunk: Seq<char>,
    cfg: ContextConfig,
)
    requires
        sums_up(req, chunk, cfg),
    ensures
        ({
            let ms = req.messages.deep_view();
            &&& ms.len() == 2 && ms[0].role == "system"@ && ms[1].role == "user"@
            &&& ms[1].content matches Some(crate::openai_adapter::types::MessageContentV::Text(t))
                && text::stands_at(t, chunk, t.len() - chunk.len())
            &&& req.model@ == "deepseek-"@ + cfg.summary_model_type@ + "-nothinking"@
            &&& !req.stream && req.tools is None && req.tool_choice is None
        }),
{
    law_piece_prompt_ends_with_the_piece(chunk, cfg);
}

proof fn lemma_numbered_holds(parts: Seq<PieceOutcome>, n: int, k: int)
    requires
        0 <= k < n,
    ensures
        text::occurs(
            numbered(parts, n),
            "Chunk "@ + text::decimal((k + 1) as nat) + ":\n"@ + text::trimmed(
                piece_text(parts, k),
            ),
        ),
    decreases n,
{
    let none = Seq::<char>::empty();
    let before = numbered(parts, n - 1);
    let part = "Chunk "@ + text::decimal(n as nat) + ":\n"@ + text::trimmed(
        piece_text(parts, n - 1),
    );
    let whole = numbered(parts, n);
    assert(whole =~= before + part + "\n\n"@);
    if k == n - 1 {
        text::lemma_occurs_between(before, part, "\n\n"@);
    } else {
        lemma_numbered_holds(parts, n - 1, k);
        assert(whole =~= none + before + (part + "\n\n"@));
        text::lemma_occurs_between(none, before, part + "\n\n"@);
        let wanted = "Chunk "@ + text::decimal((k + 1) as nat) + ":\n"@ + text::trimmed(
            piece_text(parts, k),
        );
        text::lemma_occurs_through(whole, before, wanted);
    }
}

/// The summary of all pieces holds that of every piece, in whatever order they
/// came back; a single one is taken as it is, several get their numbers.
pub proof fn law_every_piece_is_in_the_summary(parts: Seq<PieceOutcome>, j: int)
    requires
        complete(parts),
        first_error(parts, 0) is None,
        0 <= j < parts.len(),
        parts[j] is Ok,
        parts[j]->Ok_0.0 < parts.len(),
    ensures
        ({
            let said = parts[j]->Ok_0.1@;
            let number = parts[j]->Ok_0.0;
            &&& parts.len() == 1 ==> combined(parts) == said
            &&& parts.len() > 1 ==> text::occurs(
                combined(parts),
                "Chunk "@ + text::decimal((number + 1) as nat) + ":\n"@ + text::trimmed(said),
            )
        }),
{
    let idx = parts[j]->Ok_0.0 as int;
    assert(is_place_of(parts, idx, j));
    assert(came_back(parts, idx));
    let k = choose|k: int| is_place_of(parts, idx, k);
    assert(k == j);
    assert(piece_text(parts, idx) == parts[j]->Ok_0.1@);
    if parts.len() == 1 {
        assert(idx == 0);
    } else {
        lemma_numbered_holds(parts, parts.len() as int, idx);
    }
}

/// The summaries of the pieces stand in the order of the pieces: those of more
/// pieces begin with those of fewer.
pub proof fn law_pieces_stand_in_order(parts: Seq<PieceOutcome>, m: int, n: int)
    requires
        0 <= m <= n,
    ensures
        numbered(parts, m).len() <= numbered(parts, n).len(),
        numbered(parts, n).take(numbered(parts, m).len() as int) == numbered(parts, m),
    decreases n,
{
    if m == n {
        assert(numbered(parts, n).take(numbered(parts, n).len() as int) =~= numbered(parts, n));
    } else {
        law_pieces_stand_in_order(parts, m, n - 1);
        let k = numbered(parts, m).len() as int;
        assert(numbered(parts, n).take(k) =~= numbered(parts, n - 1).take(k));
    }
}

/// The error of some pieces is that of the first that failed; there is none
/// exactly where all came back.
pub proof fn law_first_error_counts(parts: Seq<PieceOutcome>, i: int, j: int)
    requires
        0 <= i <= j < parts.len(),
        parts[j] is Err,
        forall|k: int| i <= k < j ==> #[trigger] parts[k] is Ok,
    ensures
        first_error(parts, i) == Some(parts[j]->Err_0@),
    decreases j - i,
{
    if i < j {
        assert(parts[i] is Ok);
        law_first_error_counts(parts, i + 1, j);
    }
}

/// An answer is a summary where its first alternative says something, and then
/// it is all that it says.
pub proof fn law_summary_is_the_whole_answer(json: ChatCompletionsResponse)
    ensures
        answer_text(json) matches Some(t) ==> json.choices@.len() > 0
            && json.choices@[0].message.content.deep_view() == Some(t) && text::trimmed(t).len()
            > 0,
        json.choices@.len() > 0 && (json.choices@[0].message.content matches Some(t)
            && text::trimmed(t@).len() > 0) ==> answer_text(json) is Some,
{
}

} // verus!
