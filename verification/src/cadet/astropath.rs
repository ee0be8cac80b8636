//! The Astropath worker's decision core: which command a task names, whether
//! gated data is stale, what a per-ship survey cooldown requires, and the
//! bookkeeping that follows a successful side effect. The loop around these
//! decisions — channels, the game API, the persisted store — performs what
//! is decided here.

use vstd::prelude::*;
use vstd::string::StringExecFns;

use crate::clock::{parse_rfc3339_millis, rfc3339_millis_of};
use crate::rules::{is_stale, stale_spec, MillisByName, StalenessRules};

verus! {

/// The closed set of commands an Astropath dispatches on.
#[derive(Clone, Copy, Debug, PartialEq, Eq, Structural)]
pub enum AstropathCommand {
    RefreshSystems,
    RefreshFleet,
    Survey,
}

/// Which command a task's command string names; an unrecognized string is a
/// fatal condition for the worker, not a silently ignored one.
pub open spec fn command_spec(cmd: Seq<char>) -> Option<AstropathCommand> {
    if cmd == "refresh_systems"@ {
        Some(AstropathCommand::RefreshSystems)
    } else if cmd == "refresh_fleet"@ {
        Some(AstropathCommand::RefreshFleet)
    } else if cmd == "survey"@ {
        Some(AstropathCommand::Survey)
    } else {
        None
    }
}

pub fn parse_command(cmd: &String) -> (r: Option<AstropathCommand>)
    ensures
        r == command_spec(cmd@),
{
    if *cmd == String::from_str("refresh_systems") {
        Some(AstropathCommand::RefreshSystems)
    } else if *cmd == String::from_str("refresh_fleet") {
        Some(AstropathCommand::RefreshFleet)
    } else if *cmd == String::from_str("survey") {
        Some(AstropathCommand::Survey)
    } else {
        None
    }
}

/// What a cooldown demands of the worker: go ahead; block in place for the
/// given milliseconds (the remainder is tiny); or defer the task until the
/// cooldown's expiry so one slow cooldown never starves the queue.
#[derive(Clone, Copy, Debug, PartialEq, Eq, Structural)]
pub enum CooldownAction {
    Proceed,
    Block(u64),
    Defer(i64),
}

/// The action a cooldown expiring at `expiry` demands at `now`: nothing
/// once expired; a short in-place sleep of one millisecond past the
/// remainder when at most fifty milliseconds remain; otherwise a deferral
/// to the expiry itself.
pub open spec fn cooldown_action_spec(expiry: i64, now: i64) -> CooldownAction {
    if expiry - now <= 0 {
        CooldownAction::Proceed
    } else if expiry - now <= 50 {
        CooldownAction::Block((expiry - now + 1) as u64)
    } else {
        CooldownAction::Defer(expiry)
    }
}

/// Mathematical content of the per-category, per-key cooldown table.
pub open spec fn cooldowns_map(s: Seq<(String, String, i64)>) -> Map<(Seq<char>, Seq<char>), i64>
    decreases s.len(),
{
    if s.len() == 0 {
        Map::<(Seq<char>, Seq<char>), i64>::empty()
    } else {
        cooldowns_map(s.drop_last()).insert((s.last().0@, s.last().1@), s.last().2)
    }
}

/// No two entries share a (category, key) pair.
pub open spec fn distinct_cooldown_keys(s: Seq<(String, String, i64)>) -> bool {
    forall|i: int, j: int|
        0 <= i < j < s.len() ==> (#[trigger] s[i].0@, s[i].1@) != (#[trigger] s[j].0@, s[j].1@)
}

pub proof fn lemma_cooldowns_map_contains(s: Seq<(String, String, i64)>, k: (Seq<char>, Seq<char>))
    ensures
        cooldowns_map(s).dom().contains(k) <==> exists|i: int|
            0 <= i < s.len() && (#[trigger] s[i].0@, #[trigger] s[i].1@) == k,
    decreases s.len(),
{
    if s.len() > 0 {
        lemma_cooldowns_map_contains(s.drop_last(), k);
        if cooldowns_map(s).dom().contains(k) {
            if (s.last().0@, s.last().1@) != k {
                let i = choose|i: int|
                    0 <= i < s.drop_last().len() && (
                    #[trigger] s.drop_last()[i].0@,
                    #[trigger] s.drop_last()[i].1@,
                    ) == k;
                assert((s[i].0@, s[i].1@) == k);
            } else {
                assert((s[s.len() - 1].0@, s[s.len() - 1].1@) == k);
            }
        } else {
            assert(forall|i: int|
                0 <= i < s.len() - 1 ==> (#[trigger] s[i].0@, #[trigger] s[i].1@) == (
                s.drop_last()[i].0@,
                s.drop_last()[i].1@,
                ));
        }
    }
}

pub proof fn lemma_cooldowns_map_value(s: Seq<(String, String, i64)>, i: int)
    requires
        distinct_cooldown_keys(s),
        0 <= i < s.len(),
    ensures
        cooldowns_map(s).dom().contains((s[i].0@, s[i].1@)),
        cooldowns_map(s)[(s[i].0@, s[i].1@)] == s[i].2,
    decreases s.len(),
{
    if i == s.len() - 1 {
        assert(cooldowns_map(s) == cooldowns_map(s.drop_last()).insert(
            (s.last().0@, s.last().1@),
            s.last().2,
        ));
    } else {
        assert(s.drop_last()[i] == s[i]);
        lemma_distinct_cooldown_prefix(s);
        lemma_cooldowns_map_value(s.drop_last(), i);
        assert((s[i].0@, s[i].1@) != (s.last().0@, s.last().1@));
    }
}

/// Distinctness carries over to the list without its last entry.
pub proof fn lemma_distinct_cooldown_prefix(s: Seq<(String, String, i64)>)
    requires
        distinct_cooldown_keys(s),
        s.len() > 0,
    ensures
        distinct_cooldown_keys(s.drop_last()),
{
    assert forall|a: int, b: int| 0 <= a < b < s.drop_last().len() implies (
    #[trigger] s.drop_last()[a].0@,
    s.drop_last()[a].1@,
    ) != (#[trigger] s.drop_last()[b].0@, s.drop_last()[b].1@) by {
        assert(s.drop_last()[a] == s[a]);
        assert(s.drop_last()[b] == s[b]);
        assert((s[a].0@, s[a].1@) != (s[b].0@, s[b].1@));
    }
}

pub proof fn lemma_cooldowns_map_update(
    s: Seq<(String, String, i64)>,
    i: int,
    e: (String, String, i64),
)
    requires
        distinct_cooldown_keys(s),
        0 <= i < s.len(),
        (e.0@, e.1@) == (s[i].0@, s[i].1@),
    ensures
        cooldowns_map(s.update(i, e)) =~= cooldowns_map(s).insert((e.0@, e.1@), e.2),
        distinct_cooldown_keys(s.update(i, e)),
    decreases s.len(),
{
    let t = s.update(i, e);
    assert(forall|j: int| 0 <= j < s.len() && j != i ==> t[j] == s[j]);
    assert forall|a: int, b: int| 0 <= a < b < t.len() implies (#[trigger] t[a].0@, t[a].1@) != (
    #[trigger] t[b].0@,
    t[b].1@,
    ) by {
        if a == i {
            assert(t[a] == e);
            assert(t[b] == s[b]);
            assert((s[i].0@, s[i].1@) != (s[b].0@, s[b].1@));
        } else if b == i {
            assert(t[b] == e);
            assert(t[a] == s[a]);
            assert((s[a].0@, s[a].1@) != (s[i].0@, s[i].1@));
        } else {
            assert(t[a] == s[a]);
            assert(t[b] == s[b]);
            assert((s[a].0@, s[a].1@) != (s[b].0@, s[b].1@));
        }
    }
    if i == s.len() - 1 {
        assert(t.drop_last() =~= s.drop_last());
        assert(cooldowns_map(t) == cooldowns_map(s.drop_last()).insert((e.0@, e.1@), e.2));
        assert(cooldowns_map(s) == cooldowns_map(s.drop_last()).insert(
            (s.last().0@, s.last().1@),
            s.last().2,
        ));
        assert(cooldowns_map(t) =~= cooldowns_map(s).insert((e.0@, e.1@), e.2));
    } else {
        assert(t.drop_last() =~= s.drop_last().update(i, e));
        assert(s.drop_last()[i] == s[i]);
        lemma_distinct_cooldown_prefix(s);
        lemma_cooldowns_map_update(s.drop_last(), i, e);
        assert((s.last().0@, s.last().1@) != (e.0@, e.1@));
        assert(cooldowns_map(t) == cooldowns_map(s.drop_last()).insert((e.0@, e.1@), e.2).insert(
            (s.last().0@, s.last().1@),
            s.last().2,
        ));
        assert(cooldowns_map(t) =~= cooldowns_map(s).insert((e.0@, e.1@), e.2));
    }
}

pub proof fn lemma_cooldowns_map_push(s: Seq<(String, String, i64)>, e: (String, String, i64))
    ensures
        cooldowns_map(s.push(e)) =~= cooldowns_map(s).insert((e.0@, e.1@), e.2),
{
    assert(s.push(e).drop_last() =~= s);
    assert(s.push(e).last() == e);
}

/// The recorded value for a key, read with a default for a key never
/// recorded.
pub open spec fn lookup_or<K>(m: Map<K, i64>, k: K, dflt: i64) -> i64 {
    if m.dom().contains(k) {
        m[k]
    } else {
        dflt
    }
}

/// The last-refresh reading for a rule: absent when no refresh has ever
/// been recorded.
pub open spec fn refresh_lookup(m: Map<Seq<char>, i64>, k: Seq<char>) -> Option<i64> {
    if m.dom().contains(k) {
        Some(m[k])
    } else {
        None
    }
}

/// Walks the paginated fleet listing exactly as the worker does: pages of a
/// fixed size, continuing while the count fetched so far is below the total
/// the last page's metadata advertised.
pub struct FleetPager {
    pub limit: i32,
    pub page: i32,
    pub count: i32,
    pub total: i32,
}

impl FleetPager {
    pub fn new() -> (r: Self)
        ensures
            r.limit == 20,
            r.page == 1,
            r.count == 0,
            r.total == 1,
    {
        FleetPager { limit: 20, page: 1, count: 0, total: 1 }
    }

    /// Whether another page must be requested.
    pub fn more_pages(&self) -> (r: bool)
        ensures
            r == (self.count < self.total),
    {
        self.count < self.total
    }

    /// Record one received page: the advertised total replaces the old one,
    /// the count advances by the page size, and the page number steps.
    pub fn record_page(&mut self, meta_limit: i32)
        requires
            i32::MIN <= old(self).count + old(self).limit <= i32::MAX,
            old(self).page < i32::MAX,
        ensures
            final(self).total == meta_limit,
            final(self).count == old(self).count + old(self).limit,
            final(self).page == old(self).page + 1,
            final(self).limit == old(self).limit,
    {
        self.total = meta_limit;
        self.count = self.count + self.limit;
        self.page = self.page + 1;
    }
}

/// The Astropath's decision state: the staleness rules it was configured
/// with, the per-ship cooldowns it has observed, and the refresh times it
/// has recorded.
pub struct Astropath {
    label: String,
    rank: String,
    agent_symbol: String,
    staleness_rules: MillisByName,
    cooldowns: Vec<(String, String, i64)>,
    refresh_timestamps: MillisByName,
}

impl Astropath {
    pub closed spec fn wf(&self) -> bool {
        &&& self.staleness_rules.wf()
        &&& self.refresh_timestamps.wf()
        &&& distinct_cooldown_keys(self.cooldowns@)
    }

    /// The configured rule thresholds, by name, in milliseconds.
    pub closed spec fn rules_view(&self) -> Map<Seq<char>, i64> {
        self.staleness_rules.view()
    }

    /// The recorded last-refresh times, by rule name.
    pub closed spec fn refresh_view(&self) -> Map<Seq<char>, i64> {
        self.refresh_timestamps.view()
    }

    /// The recorded cooldown expiries, by (category, key).
    pub closed spec fn cooldowns_view(&self) -> Map<(Seq<char>, Seq<char>), i64> {
        cooldowns_map(self.cooldowns@)
    }

    pub closed spec fn label_spec(&self) -> Seq<char> {
        self.label@
    }

    pub closed spec fn agent_symbol_spec(&self) -> Seq<char> {
        self.agent_symbol@
    }

    pub closed spec fn rank_spec(&self) -> Seq<char> {
        self.rank@
    }

    pub fn new(label: String, agent_symbol: String, staleness_rules: StalenessRules) -> (r: Self)
        requires
            staleness_rules.wf(),
        ensures
            r.wf(),
            r.rules_view() == staleness_rules.view(),
            r.refresh_view() =~= Map::<Seq<char>, i64>::empty(),
            r.cooldowns_view() =~= Map::<(Seq<char>, Seq<char>), i64>::empty(),
            r.label_spec() == label@,
            r.agent_symbol_spec() == agent_symbol@,
            r.rank_spec() == "Astropath"@,
    {
        Astropath {
            label,
            rank: String::from_str("Astropath"),
            agent_symbol,
            staleness_rules,
            cooldowns: Vec::new(),
            refresh_timestamps: MillisByName::new(),
        }
    }

    /// Whether the data gated by `rule_name` is stale at `now`: stale
    /// exactly when its age has reached the rule's threshold, never-refreshed
    /// data being as old as the clock; an unknown rule is a configuration
    /// error and decides nothing.
    pub fn is_data_stale(&self, rule_name: &String, now: i64) -> (r: Option<bool>)
        requires
            self.wf(),
        ensures
            match r {
                Some(b) => self.rules_view().dom().contains(rule_name@) && b == stale_spec(
                    self.rules_view()[rule_name@],
                    refresh_lookup(self.refresh_view(), rule_name@),
                    now,
                ),
                None => !self.rules_view().dom().contains(rule_name@),
            },
    {
        match self.staleness_rules.get(rule_name) {
            Some(threshold) => {
                let last = self.refresh_timestamps.get(rule_name);
                Some(is_stale(threshold, last, now))
            },
            None => None,
        }
    }

    /// Record that a staleness-gated refresh for `rule_name` succeeded at
    /// `now`; nothing else changes.
    pub fn record_refresh(&mut self, rule_name: String, now: i64)
        requires
            old(self).wf(),
        ensures
            final(self).wf(),
            final(self).refresh_view() =~= old(self).refresh_view().insert(rule_name@, now),
            final(self).rules_view() == old(self).rules_view(),
            final(self).cooldowns_view() == old(self).cooldowns_view(),
            final(self).label_spec() == old(self).label_spec(),
            final(self).agent_symbol_spec() == old(self).agent_symbol_spec(),
            final(self).rank_spec() == old(self).rank_spec(),
    {
        self.refresh_timestamps.set(rule_name, now);
    }

    /// What the survey cooldown recorded for `ship_symbol` demands at
    /// `now`; a ship never seen has no cooldown to wait for.
    pub fn survey_cooldown_action(&self, ship_symbol: &String, now: i64) -> (r: CooldownAction)
        requires
            self.wf(),
        ensures
            r == cooldown_action_spec(
                lookup_or(self.cooldowns_view(), ("SURVEY"@, ship_symbol@), 0),
                now,
            ),
    {
        let category = String::from_str("SURVEY");
        let ghost cv = self.cooldowns@;
        let n = self.cooldowns.len();
        let mut i: usize = 0;
        let mut expiry: i64 = 0;
        let mut found: bool = false;
        while i < n && !found
            invariant
                n == self.cooldowns.len(),
                cv == self.cooldowns@,
                i <= n,
                self.wf(),
                category@ == "SURVEY"@,
                !found ==> expiry == 0 && forall|j: int|
                    0 <= j < i ==> (#[trigger] cv[j].0@, #[trigger] cv[j].1@) != (
                    "SURVEY"@,
                    ship_symbol@,
                    ),
                found ==> i > 0 && (cv[i - 1].0@, cv[i - 1].1@) == ("SURVEY"@, ship_symbol@)
                    && expiry == cv[i - 1].2,
            decreases n - i,
        {
            if self.cooldowns[i].0 == category && self.cooldowns[i].1 == *ship_symbol {
                expiry = self.cooldowns[i].2;
                found = true;
            }
            i += 1;
        }
        proof {
            if found {
                lemma_cooldowns_map_value(cv, i - 1);
            } else {
                lemma_cooldowns_map_contains(cv, ("SURVEY"@, ship_symbol@));
            }
        }
        let remaining: i128 = (expiry as i128) - (now as i128);
        if remaining <= 0 {
            CooldownAction::Proceed
        } else if remaining <= 50 {
            CooldownAction::Block((remaining + 1) as u64)
        } else {
            CooldownAction::Defer(expiry)
        }
    }

    /// Record the cooldown expiry a completed survey reported for
    /// `ship_symbol`, as the RFC 3339 text the response carried. Reports
    /// whether the text parsed; nothing changes when it did not.
    pub fn record_survey_cooldown(&mut self, ship_symbol: String, expiration: &str) -> (ok: bool)
        requires
            old(self).wf(),
        ensures
            final(self).wf(),
            ok == (rfc3339_millis_of(expiration@) is Some),
            ok ==> final(self).cooldowns_view() =~= old(self).cooldowns_view().insert(
                ("SURVEY"@, ship_symbol@),
                rfc3339_millis_of(expiration@)->Some_0,
            ),
            !ok ==> final(self).cooldowns_view() == old(self).cooldowns_view(),
            final(self).rules_view() == old(self).rules_view(),
            final(self).refresh_view() == old(self).refresh_view(),
            final(self).label_spec() == old(self).label_spec(),
            final(self).agent_symbol_spec() == old(self).agent_symbol_spec(),
            final(self).rank_spec() == old(self).rank_spec(),
    {
        match parse_rfc3339_millis(expiration) {
            Some(millis) => {
                self.set_cooldown(String::from_str("SURVEY"), ship_symbol, millis);
                true
            },
            None => false,
        }
    }

    /// Upsert one cooldown entry; no other entry changes.
    fn set_cooldown(&mut self, category: String, key: String, expiry: i64)
        requires
            old(self).wf(),
        ensures
            final(self).wf(),
            final(self).cooldowns_view() =~= old(self).cooldowns_view().insert(
                (category@, key@),
                expiry,
            ),
            final(self).rules_view() == old(self).rules_view(),
            final(self).refresh_view() == old(self).refresh_view(),
            final(self).label_spec() == old(self).label_spec(),
            final(self).agent_symbol_spec() == old(self).agent_symbol_spec(),
            final(self).rank_spec() == old(self).rank_spec(),
    {
        let ghost cv = old(self).cooldowns@;
        let entry = (category.clone(), key.clone(), expiry);
        let ghost ev = entry;
        let n = self.cooldowns.len();
        let mut i: usize = 0;
        while i < n
            invariant
                n == self.cooldowns.len(),
                cv == old(self).cooldowns@,
                self.cooldowns@ == cv,
                self.staleness_rules == old(self).staleness_rules,
                self.refresh_timestamps == old(self).refresh_timestamps,
                self.label == old(self).label,
                self.agent_symbol == old(self).agent_symbol,
                self.rank == old(self).rank,
                i <= n,
                self.wf(),
                entry == ev,
                ev.0@ == category@,
                ev.1@ == key@,
                ev.2 == expiry,
                forall|j: int|
                    0 <= j < i ==> (#[trigger] cv[j].0@, #[trigger] cv[j].1@) != (category@, key@),
            decreases n - i,
        {
            if self.cooldowns[i].0 == category && self.cooldowns[i].1 == key {
                proof {
                    lemma_cooldowns_map_update(cv, i as int, ev);
                }
                self.cooldowns.set(i, entry);
                proof {
                    assert(self.cooldowns@ =~= cv.update(i as int, ev));
                }
                return ;
            }
            i += 1;
        }
        proof {
            lemma_cooldowns_map_contains(cv, (category@, key@));
            lemma_cooldowns_map_push(cv, ev);
            assert forall|a: int, b: int| 0 <= a < b < cv.push(ev).len() implies (
            #[trigger] cv.push(ev)[a].0@,
            cv.push(ev)[a].1@,
            ) != (#[trigger] cv.push(ev)[b].0@, cv.push(ev)[b].1@) by {
                if b == cv.len() {
                    assert(cv.push(ev)[a] == cv[a]);
                    assert(cv.push(ev)[b] == ev);
                } else {
                    assert(cv.push(ev)[a] == cv[a]);
                    assert(cv.push(ev)[b] == cv[b]);
                }
            }
        }
        self.cooldowns.push(entry);
        proof {
            assert(self.cooldowns@ =~= cv.push(ev));
        }
    }
}


} // verus!
