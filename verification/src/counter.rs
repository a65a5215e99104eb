//! The per-metric accumulator and its update algorithm.
//!
//! A [`Counter`] owns four numeric accumulators and an optional metrics-point
//! descriptor. Its one mutating operation, [`Counter::inc`], adds to the
//! accumulators, lazily resolves the counter's log rate, decides whether a
//! diagnostic log line is due, and computes the delta for a metrics
//! submission. The side effects themselves — printing the line, sending the
//! point — are returned to the caller as plain values in an [`IncAction`].

use vstd::prelude::*;

verus! {

use vstd::string::*;

/// Number of `inc` calls between log emissions when no configured override
/// applies.
pub const DEFAULT_LOG_RATE: usize = 1000;

#[verifier::external_type_specification]
#[verifier::external_body]
pub struct ExLevel(log::Level);

/// One metrics-point descriptor: the point's name and its single numeric
/// field, the delta accumulated since the last submission.
pub struct CounterPoint {
    pub name: String,
    pub count: i64,
}

/// A per-metric accumulator, one per distinct named metric.
pub struct Counter {
    pub name: String,
    /// total accumulated value
    pub counts: usize,
    /// number of `inc` calls
    pub times: usize,
    /// last accumulated value handed to a metrics submission
    pub lastlog: usize,
    /// calls between log emissions; `0` means "not yet resolved"
    pub lograte: usize,
    /// present only once the counter is initialized for metrics emission
    pub point: Option<CounterPoint>,
}

// ---------------------------------------------------------------------------
// Decimal parsing, as `str::parse::<usize>` does it.
// ---------------------------------------------------------------------------

pub open spec fn is_digit(c: char) -> bool {
    48 <= c as int <= 57
}

pub open spec fn digit_val(c: char) -> int {
    c as int - 48
}

pub open spec fn all_digits(s: Seq<char>) -> bool {
    forall|i: int| 0 <= i < s.len() ==> is_digit(#[trigger] s[i])
}

/// The value of a string of decimal digits, most significant first.
pub open spec fn digits_value(s: Seq<char>) -> int
    decreases s.len(),
{
    if s.len() == 0 {
        0
    } else {
        digits_value(s.drop_last()) * 10 + digit_val(s.last())
    }
}

/// The digit part of a decimal string: what follows an optional leading `+`.
pub open spec fn digits_part(s: Seq<char>) -> Seq<char> {
    if s.len() > 0 && s[0] == '+' {
        s.skip(1)
    } else {
        s
    }
}

/// What `str::parse::<usize>` accepts and returns: an optional `+` sign, then
/// at least one decimal digit, with a value that fits in `usize`.
pub open spec fn spec_parse_usize(s: Seq<char>) -> Option<int> {
    let d = digits_part(s);
    if d.len() > 0 && all_digits(d) && digits_value(d) <= usize::MAX {
        Some(digits_value(d))
    } else {
        None
    }
}

pub proof fn lemma_digits_value_nonneg(s: Seq<char>)
    requires
        all_digits(s),
    ensures
        digits_value(s) >= 0,
    decreases s.len(),
{
    if s.len() > 0 {
        assert forall|i: int| 0 <= i < s.drop_last().len() implies is_digit(
            #[trigger] s.drop_last()[i],
        ) by {
            assert(s.drop_last()[i] == s[i]);
        }
        lemma_digits_value_nonneg(s.drop_last());
    }
}

/// A prefix of a digit string never has a larger value than the whole.
pub proof fn lemma_digits_value_prefix(s: Seq<char>, n: int)
    requires
        all_digits(s),
        0 <= n <= s.len(),
    ensures
        digits_value(s.subrange(0, n)) <= digits_value(s),
    decreases s.len() - n,
{
    if n == s.len() {
        assert(s.subrange(0, n) =~= s);
    } else {
        let s1 = s.drop_last();
        assert forall|i: int| 0 <= i < s1.len() implies is_digit(#[trigger] s1[i]) by {
            assert(s1[i] == s[i]);
        }
        assert(s.subrange(0, n) =~= s1.subrange(0, n));
        lemma_digits_value_prefix(s1, n);
        lemma_digits_value_nonneg(s1);
        assert(is_digit(s.last()));
    }
}

/// Parse a decimal `usize`, accepting exactly what `str::parse::<usize>`
/// accepts: an optional `+` sign, then one or more decimal digits, rejecting
/// values that do not fit.
pub fn parse_usize(s: &str) -> (r: Option<usize>)
    ensures
        match r {
            Some(v) => spec_parse_usize(s@) == Some(v as int),
            None => spec_parse_usize(s@) is None,
        },
{
    let len = s.unicode_len();
    let start: usize = if len > 0 && s.get_char(0) == '+' {
        1
    } else {
        0
    };
    proof {
        assert(digits_part(s@) =~= s@.subrange(start as int, len as int));
    }
    if start == len {
        return None;
    }
    let mut acc: usize = 0;
    let mut j: usize = start;
    while j < len
        invariant
            start <= j <= len,
            start < len,
            len == s@.len(),
            digits_part(s@) == s@.subrange(start as int, len as int),
            all_digits(s@.subrange(start as int, j as int)),
            acc as int == digits_value(s@.subrange(start as int, j as int)),
        decreases len - j,
    {
        let ghost d = digits_part(s@);
        let ghost m = j - start;
        let c = s.get_char(j);
        let u = c as u32;
        if !(48 <= u && u <= 57) {
            proof {
                assert(d[m] == s@[j as int]);
                assert(!is_digit(d[m]));
            }
            return None;
        }
        let dv = (u - 48) as usize;
        proof {
            assert(d.subrange(0, m + 1) =~= d.subrange(0, m).push(s@[j as int]));
            assert(d.subrange(0, m + 1).drop_last() =~= d.subrange(0, m));
            assert(d.subrange(0, m) =~= s@.subrange(start as int, j as int));
            assert(digits_value(d.subrange(0, m + 1)) == acc * 10 + dv);
        }
        if acc > (usize::MAX - dv) / 10 {
            proof {
                assert(acc * 10 + dv > usize::MAX) by (nonlinear_arith)
                    requires
                        acc > (usize::MAX - dv) / 10,
                        0 <= dv <= 9,
                ;
                if all_digits(d) && digits_value(d) <= usize::MAX {
                    assert forall|i: int| 0 <= i < d.subrange(0, m + 1).len() implies is_digit(
                        #[trigger] d.subrange(0, m + 1)[i],
                    ) by {
                        assert(d.subrange(0, m + 1)[i] == d[i]);
                    }
                    lemma_digits_value_prefix(d, m + 1);
                }
            }
            return None;
        }
        acc = acc * 10 + dv;
        j = j + 1;
        proof {
            assert(s@.subrange(start as int, j as int) =~= d.subrange(0, m + 1));
        }
    }
    proof {
        assert(s@.subrange(start as int, len as int) =~= digits_part(s@));
    }
    Some(acc)
}

// ---------------------------------------------------------------------------
// Log-rate resolution.
// ---------------------------------------------------------------------------

/// The view of an optional configuration string.
pub open spec fn env_view(env: Option<&str>) -> Option<Seq<char>> {
    match env {
        None => None,
        Some(s) => Some(s@),
    }
}

/// The log rate a configured override resolves to: the parsed value, with
/// "absent", "unparseable" and "zero" all mapped to the hardcoded default.
pub open spec fn spec_default_log_rate(env: Option<Seq<char>>) -> int {
    match env {
        None => DEFAULT_LOG_RATE as int,
        Some(s) => match spec_parse_usize(s) {
            None => DEFAULT_LOG_RATE as int,
            Some(v) => if v == 0 {
                DEFAULT_LOG_RATE as int
            } else {
                v
            },
        },
    }
}

/// A resolved log rate is always positive.
pub proof fn lemma_default_log_rate_pos(env: Option<Seq<char>>)
    ensures
        spec_default_log_rate(env) >= 1,
{
    match env {
        None => {},
        Some(s) => {
            if spec_parse_usize(s) is Some {
                lemma_digits_value_nonneg(digits_part(s));
            }
        },
    }
}

/// The rate a counter with rate `lograte` has after one `inc` call with
/// override `env`: an already-resolved rate is kept, an unresolved one is
/// replaced by what the override resolves to.
pub open spec fn resolved_rate(lograte: int, env: Option<Seq<char>>) -> int {
    if lograte != 0 {
        lograte
    } else {
        spec_default_log_rate(env)
    }
}

// ---------------------------------------------------------------------------
// Construction and metrics initialization.
// ---------------------------------------------------------------------------

/// The derived name of a counter's metrics point.
pub open spec fn point_name(name: Seq<char>) -> Seq<char> {
    "counter-"@ + name
}

/// How a counter after `init` relates to the counter before: the accumulators
/// are untouched and the metrics point is freshly seeded.
pub open spec fn init_post(pre: Counter, post: Counter) -> bool {
    &&& post.name@ == pre.name@
    &&& post.counts == pre.counts
    &&& post.times == pre.times
    &&& post.lastlog == pre.lastlog
    &&& post.lograte == pre.lograte
    &&& (post.point matches Some(p) && p.name@ == point_name(pre.name@) && p.count == 0)
}

/// Observable equality of two counters: every field agrees, strings by view.
pub open spec fn counter_obs_eq(a: Counter, b: Counter) -> bool {
    &&& a.name@ == b.name@
    &&& a.counts == b.counts
    &&& a.times == b.times
    &&& a.lastlog == b.lastlog
    &&& a.lograte == b.lograte
    &&& match (a.point, b.point) {
        (Some(p), Some(q)) => p.name@ == q.name@ && p.count == q.count,
        (None, None) => true,
        _ => false,
    }
}

/// Law: initializing the metrics descriptor a second time leaves the counter
/// exactly as one initialization does — `init` is idempotent.
pub proof fn lemma_init_idempotent(a: Counter, b: Counter, c: Counter)
    requires
        init_post(a, b),
        init_post(b, c),
    ensures
        counter_obs_eq(b, c),
{
}

impl Counter {
    /// The accumulators never run backwards past each other: what was last
    /// submitted is no more than what has been accumulated.
    pub open spec fn wf(self) -> bool {
        self.lastlog <= self.counts
    }

    /// A fresh counter: zeroed accumulators, the given (possibly unresolved)
    /// log rate, and no metrics point.
    pub fn new(name: &str, lograte: usize) -> (c: Counter)
        ensures
            c.name@ == name@,
            c.counts == 0,
            c.times == 0,
            c.lastlog == 0,
            c.lograte == lograte,
            c.point is None,
            c.wf(),
    {
        Counter {
            name: String::from_str(name),
            counts: 0,
            times: 0,
            lastlog: 0,
            lograte,
            point: None,
        }
    }

    /// The log rate to use for a counter whose rate is still unresolved;
    /// `env` is the configured override, if any.
    pub fn default_log_rate(env: Option<&str>) -> (r: usize)
        ensures
            r as int == spec_default_log_rate(env_view(env)),
            r >= 1,
    {
        proof {
            lemma_default_log_rate_pos(env_view(env));
        }
        let v = match env {
            None => DEFAULT_LOG_RATE,
            Some(s) => match parse_usize(s) {
                None => DEFAULT_LOG_RATE,
                Some(v) => v,
            },
        };
        if v == 0 {
            DEFAULT_LOG_RATE
        } else {
            v
        }
    }

    /// Create the metrics-point descriptor, seeded with a zero delta and
    /// keyed by the derived name.
    pub fn init(&mut self)
        ensures
            init_post(*old(self), *final(self)),
    {
        let mut pname = String::from_str("counter-");
        pname.append(self.name.as_str());
        self.point = Some(CounterPoint { name: pname, count: 0 });
    }

    /// Record `events` events, with the log decision already made: `enabled`
    /// says whether logging at the caller's severity is currently on. This is
    /// the whole update algorithm; [`Counter::inc`] only adds the logger
    /// query.
    pub fn inc_with_enabled(
        &mut self,
        enabled: bool,
        events: usize,
        env_log_rate: Option<&str>,
    ) -> (action: IncAction)
        requires
            old(self).wf(),
            inc_fits(*old(self), events as int),
        ensures
            final(self).wf(),
            inc_post(*old(self), *final(self), events as int, env_view(env_log_rate)),
            action.log_entry is Some <==> (enabled && final(self).times as int % final(self).lograte as int == 0),
            log_action_ok(*final(self), events as int, action),
            submit_action_ok(*old(self), *final(self), action),
    {
        let counts = self.counts;
        self.counts = self.counts + events;
        let times = self.times + 1;
        self.times = times;
        let mut lograte = self.lograte;
        if lograte == 0 {
            lograte = Counter::default_log_rate(env_log_rate);
            self.lograte = lograte;
        }
        let log_entry: Option<LogEntry> = if times % lograte == 0 && enabled {
            Some(
                LogEntry {
                    name: self.name.clone(),
                    counts: self.counts,
                    times,
                    events,
                },
            )
        } else {
            None
        };
        let lastlog = self.lastlog;
        self.lastlog = counts;
        let delta: usize = counts - lastlog;
        let submit: Option<CounterPoint> = match &self.point {
            Some(point) => Some(CounterPoint { name: point.name.clone(), count: delta as i64 }),
            None => None,
        };
        match &submit {
            Some(p) => {
                self.point = Some(CounterPoint { name: p.name.clone(), count: p.count });
            },
            None => {},
        }
        IncAction { log_entry, submit }
    }

    /// Record `events` events at severity `level`: add them to the
    /// accumulators, resolve the log rate if it is still unresolved, and say
    /// in the returned action which side effects are due.
    pub fn inc(&mut self, level: log::Level, events: usize, env_log_rate: Option<&str>) -> (action:
        IncAction)
        requires
            old(self).wf(),
            inc_fits(*old(self), events as int),
        ensures
            final(self).wf(),
            inc_post(*old(self), *final(self), events as int, env_view(env_log_rate)),
            action.log_entry is Some ==> final(self).times as int % final(self).lograte as int
                == 0,
            log_action_ok(*final(self), events as int, action),
            submit_action_ok(*old(self), *final(self), action),
    {
        let enabled = level_enabled(level);
        self.inc_with_enabled(enabled, events, env_log_rate)
    }
}

/// One structured log line that is due: the counter's name, the cumulative
/// total and call count after the call, and this call's amount. The caller
/// adds a timestamp when it emits the line.
pub struct LogEntry {
    pub name: String,
    pub counts: usize,
    pub times: usize,
    pub events: usize,
}

/// The side effects one `inc` call asks its caller to perform.
pub struct IncAction {
    /// the log line to emit, where one is due and the severity is enabled
    pub log_entry: Option<LogEntry>,
    /// the metrics point to submit, where the counter carries a descriptor
    pub submit: Option<CounterPoint>,
}

/// How a counter after `inc` relates to the counter before: the accumulators
/// grow, the log rate resolves, and the descriptor's delta field takes the
/// difference between the totals as of the last two submissions.
///
/// Note that the submission window closes at the total *before* this call's
/// amount: `lastlog` takes the pre-add total, and a point is handed out on
/// every call on which the counter carries a descriptor, so each call's
/// amount reaches the backend one call later. This keeps the long-standing
/// accumulate-then-snapshot order of the update algorithm rather than moving
/// the snapshot after the add; the bookkeeping tests depend on it.
pub open spec fn inc_post(pre: Counter, post: Counter, events: int, env: Option<Seq<char>>) -> bool {
    &&& post.name@ == pre.name@
    &&& post.counts == pre.counts + events
    &&& post.times == pre.times + 1
    &&& post.lograte == resolved_rate(pre.lograte as int, env)
    &&& post.lastlog == pre.counts
    &&& match (pre.point, post.point) {
        (None, None) => true,
        (Some(p), Some(q)) => q.name@ == p.name@ && q.count == pre.counts - pre.lastlog,
        _ => false,
    }
}

/// What holds of the log side of an action, whatever the logger said: a line
/// is only due on a full window, and a due line carries the post-call state.
pub open spec fn log_action_ok(post: Counter, events: int, action: IncAction) -> bool {
    match action.log_entry {
        Some(e) => {
            &&& post.times as int % post.lograte as int == 0
            &&& e.name@ == post.name@
            &&& e.counts == post.counts
            &&& e.times == post.times
            &&& e.events == events
        },
        None => true,
    }
}

/// What holds of the submission side of an action: a point is handed out
/// exactly when the counter carries a descriptor, and it is that descriptor.
pub open spec fn submit_action_ok(pre: Counter, post: Counter, action: IncAction) -> bool {
    match action.submit {
        Some(p) => {
            &&& pre.point is Some
            &&& post.point matches Some(q) && p.name@ == q.name@ && p.count == q.count
        },
        None => pre.point is None,
    }
}

/// The machine limits one `inc` call needs: the accumulators must not
/// overflow and the pending delta must fit the descriptor's `i64` field.
pub open spec fn inc_fits(c: Counter, events: int) -> bool {
    &&& c.counts + events <= usize::MAX
    &&& c.times + 1 <= usize::MAX
    &&& c.counts - c.lastlog <= i64::MAX
}

/// A counter as `new` followed by `init` leaves it: fresh accumulators, the
/// given starting rate, and a freshly seeded metrics point.
pub open spec fn fresh_init(name: Seq<char>, lograte: int, c: Counter) -> bool {
    &&& c.name@ == name
    &&& c.counts == 0
    &&& c.times == 0
    &&& c.lastlog == 0
    &&& c.lograte == lograte
    &&& (c.point matches Some(p) && p.name@ == point_name(name) && p.count == 0)
}

/// The sum of a sequence of recorded amounts.
pub open spec fn amount_sum(s: Seq<int>) -> int
    decreases s.len(),
{
    if s.len() == 0 {
        0
    } else {
        amount_sum(s.drop_last()) + s.last()
    }
}

/// Law: over any run of `inc` calls, the counter gains exactly the sum of
/// the recorded amounts, and exactly one call count per call — no update is
/// lost or double-counted, whatever rates and overrides were in play.
pub proof fn lemma_inc_run_totals(
    states: Seq<Counter>,
    amounts: Seq<int>,
    envs: Seq<Option<Seq<char>>>,
)
    requires
        states.len() == amounts.len() + 1,
        envs.len() == amounts.len(),
        forall|k: int|
            0 <= k < amounts.len() ==> inc_post(
                states[k],
                states[k + 1],
                amounts[k],
                #[trigger] envs[k],
            ),
    ensures
        states.last().counts == states[0].counts + amount_sum(amounts),
        states.last().times == states[0].times + amounts.len(),
    decreases amounts.len(),
{
    if amounts.len() > 0 {
        let n = amounts.len() as int;
        assert forall|k: int| 0 <= k < amounts.drop_last().len() implies inc_post(
            states.drop_last()[k],
            states.drop_last()[k + 1],
            amounts.drop_last()[k],
            #[trigger] envs.drop_last()[k],
        ) by {
            assert(inc_post(states[k], states[k + 1], amounts[k], envs[k]));
        }
        lemma_inc_run_totals(states.drop_last(), amounts.drop_last(), envs.drop_last());
        assert(inc_post(states[n - 1], states[n], amounts[n - 1], envs[n - 1]));
        assert(states.drop_last().last() == states[n - 1]);
    }
}

/// The sum of a run of equal amounts is the amount times the run's length.
pub proof fn lemma_amount_sum_uniform(s: Seq<int>, a: int)
    requires
        forall|k: int| 0 <= k < s.len() ==> #[trigger] s[k] == a,
    ensures
        amount_sum(s) == s.len() * a,
    decreases s.len(),
{
    if s.len() > 0 {
        assert forall|k: int| 0 <= k < s.drop_last().len() implies #[trigger] s.drop_last()[k]
            == a by {
            assert(s[k] == a);
        }
        lemma_amount_sum_uniform(s.drop_last(), a);
        assert((s.len() - 1) * a + a == s.len() * a) by (nonlinear_arith);
    }
}

/// Law: a run of calls that each record `a` events — for example the calls
/// of many callers, serialized in whatever order they reached the counter —
/// grows the total by exactly `a` times the number of calls, and the call
/// count by the number of calls: no update is lost to the interleaving.
pub proof fn lemma_uniform_run_totals(
    states: Seq<Counter>,
    amounts: Seq<int>,
    envs: Seq<Option<Seq<char>>>,
    a: int,
)
    requires
        states.len() == amounts.len() + 1,
        envs.len() == amounts.len(),
        forall|k: int|
            0 <= k < amounts.len() ==> inc_post(
                states[k],
                states[k + 1],
                amounts[k],
                #[trigger] envs[k],
            ),
        forall|k: int| 0 <= k < amounts.len() ==> #[trigger] amounts[k] == a,
    ensures
        states.last().counts == states[0].counts + amounts.len() * a,
        states.last().times == states[0].times + amounts.len(),
{
    lemma_inc_run_totals(states, amounts, envs);
    lemma_amount_sum_uniform(amounts, a);
}

/// Law: the log rate never changes once it is resolved — if it is nonzero at
/// some point of a run of `inc` calls, every later state carries the same
/// rate.
pub proof fn lemma_lograte_stable(
    states: Seq<Counter>,
    amounts: Seq<int>,
    envs: Seq<Option<Seq<char>>>,
    i: int,
    j: int,
)
    requires
        states.len() == amounts.len() + 1,
        envs.len() == amounts.len(),
        forall|k: int|
            0 <= k < amounts.len() ==> inc_post(
                states[k],
                states[k + 1],
                amounts[k],
                #[trigger] envs[k],
            ),
        0 <= i <= j < states.len(),
        states[i].lograte != 0,
    ensures
        states[j].lograte == states[i].lograte,
    decreases j - i,
{
    if i < j {
        lemma_lograte_stable(states, amounts, envs, i, j - 1);
        assert(inc_post(states[j - 1], states[j], amounts[j - 1], envs[j - 1]));
    }
}

/// Law: after any `inc` call the log rate is resolved, that is, positive.
pub proof fn lemma_lograte_pos_after_inc(
    pre: Counter,
    post: Counter,
    events: int,
    env: Option<Seq<char>>,
)
    requires
        inc_post(pre, post, events, env),
    ensures
        post.lograte >= 1,
{
    if pre.lograte == 0 {
        lemma_default_log_rate_pos(env);
    }
}

/// Relies on `log::max_level` and `log::Log::enabled` of the installed
/// logger: whether a record at `level` would currently be logged. The answer
/// depends on global logger state, so nothing is promised of it.
#[verifier::external_body]
fn level_enabled(level: log::Level) -> bool {
    level <= log::max_level() && log::logger().enabled(
        &log::Metadata::builder().level(level).target("counter").build(),
    )
}

} // verus!
