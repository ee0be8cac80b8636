//! Named staleness rules and the temporal eligibility ("gate") decisions:
//! whether cached data is stale under a named rule, and how long a cooldown
//! still has to run.

use vstd::prelude::*;

verus! {

/// Mathematical content of an association list from names to millisecond
/// values: later entries win, as repeated map insertion would.
pub open spec fn map_of(s: Seq<(String, i64)>) -> Map<Seq<char>, i64>
    decreases s.len(),
{
    if s.len() == 0 {
        Map::<Seq<char>, i64>::empty()
    } else {
        map_of(s.drop_last()).insert(s.last().0@, s.last().1)
    }
}

/// No two entries share a name, so the list represents its map faithfully.
pub open spec fn distinct_keys(s: Seq<(String, i64)>) -> bool {
    forall|i: int, j: int| 0 <= i < j < s.len() ==> #[trigger] s[i].0@ != #[trigger] s[j].0@
}

pub proof fn lemma_map_of_contains(s: Seq<(String, i64)>, k: Seq<char>)
    ensures
        map_of(s).dom().contains(k) <==> exists|i: int| 0 <= i < s.len() && #[trigger] s[i].0@ == k,
    decreases s.len(),
{
    if s.len() > 0 {
        lemma_map_of_contains(s.drop_last(), k);
        if map_of(s).dom().contains(k) {
            if s.last().0@ != k {
                let i = choose|i: int| 0 <= i < s.drop_last().len() && #[trigger] s.drop_last()[i].0@ == k;
                assert(s[i].0@ == k);
            } else {
                assert(s[s.len() - 1].0@ == k);
            }
        } else {
            assert(forall|i: int| 0 <= i < s.len() - 1 ==> #[trigger] s[i].0@ == s.drop_last()[i].0@);
        }
    }
}

pub proof fn lemma_map_of_value(s: Seq<(String, i64)>, i: int)
    requires
        distinct_keys(s),
        0 <= i < s.len(),
    ensures
        map_of(s).dom().contains(s[i].0@),
        map_of(s)[s[i].0@] == s[i].1,
    decreases s.len(),
{
    if i == s.len() - 1 {
        assert(map_of(s) == map_of(s.drop_last()).insert(s.last().0@, s.last().1));
    } else {
        assert(s.drop_last()[i] == s[i]);
        lemma_map_of_value(s.drop_last(), i);
        assert(s[i].0@ != s.last().0@);
    }
}

pub proof fn lemma_map_of_update(s: Seq<(String, i64)>, i: int, name: String, v: i64)
    requires
        distinct_keys(s),
        0 <= i < s.len(),
        s[i].0@ == name@,
    ensures
        map_of(s.update(i, (name, v))) =~= map_of(s).insert(name@, v),
        distinct_keys(s.update(i, (name, v))),
    decreases s.len(),
{
    let t = s.update(i, (name, v));
    assert(forall|j: int| 0 <= j < s.len() && j != i ==> t[j] == s[j]);
    if i == s.len() - 1 {
        assert(t.drop_last() =~= s.drop_last());
        assert(map_of(t) == map_of(s.drop_last()).insert(name@, v));
        assert(map_of(s) == map_of(s.drop_last()).insert(s.last().0@, s.last().1));
        assert(map_of(t) =~= map_of(s).insert(name@, v));
    } else {
        assert(t.drop_last() =~= s.drop_last().update(i, (name, v)));
        assert(s.drop_last()[i] == s[i]);
        lemma_map_of_update(s.drop_last(), i, name, v);
        assert(s.last().0@ != name@);
        assert(map_of(t) == map_of(s.drop_last()).insert(name@, v).insert(s.last().0@, s.last().1));
        assert(map_of(t) =~= map_of(s).insert(name@, v));
    }
}

pub proof fn lemma_map_of_push(s: Seq<(String, i64)>, name: String, v: i64)
    ensures
        map_of(s.push((name, v))) =~= map_of(s).insert(name@, v),
{
    assert(s.push((name, v)).drop_last() =~= s);
    assert(s.push((name, v)).last() == (name, v));
}

/// An association from names to millisecond values, faithful to its map.
pub struct MillisByName {
    entries: Vec<(String, i64)>,
}

/// The process-wide set of staleness rules: a named maximum age, in
/// milliseconds, before the corresponding cached data must be refreshed.
pub type StalenessRules = MillisByName;

impl MillisByName {
    /// The map from rule names to their millisecond thresholds.
    pub closed spec fn view(&self) -> Map<Seq<char>, i64> {
        map_of(self.entries@)
    }

    pub closed spec fn wf(&self) -> bool {
        distinct_keys(self.entries@)
    }

    pub fn new() -> (r: Self)
        ensures
            r.wf(),
            r.view() =~= Map::<Seq<char>, i64>::empty(),
    {
        MillisByName { entries: Vec::new() }
    }

    /// The threshold recorded for `name`, if that rule exists.
    pub fn get(&self, name: &String) -> (r: Option<i64>)
        requires
            self.wf(),
        ensures
            match r {
                Some(v) => self.view().dom().contains(name@) && self.view()[name@] == v,
                None => !self.view().dom().contains(name@),
            },
    {
        let n = self.entries.len();
        let mut idx: usize = 0;
        while idx < n
            invariant
                n == self.entries.len(),
                idx <= n,
                self.wf(),
                forall|j: int| 0 <= j < idx ==> #[trigger] self.entries@[j].0@ != name@,
            decreases n - idx,
        {
            if self.entries[idx].0 == *name {
                proof {
                    lemma_map_of_value(self.entries@, idx as int);
                }
                return Some(self.entries[idx].1);
            }
            idx += 1;
        }
        proof {
            lemma_map_of_contains(self.entries@, name@);
        }
        None
    }

    /// Record (or overwrite) the threshold for `name`.
    pub fn set(&mut self, name: String, millis: i64)
        requires
            old(self).wf(),
        ensures
            final(self).wf(),
            final(self).view() =~= old(self).view().insert(name@, millis),
    {
        let n = self.entries.len();
        let mut idx: usize = 0;
        while idx < n
            invariant
                n == self.entries.len(),
                idx <= n,
                self.entries@ == old(self).entries@,
                self.wf(),
                forall|j: int| 0 <= j < idx ==> #[trigger] self.entries@[j].0@ != name@,
            decreases n - idx,
        {
            if self.entries[idx].0 == name {
                proof {
                    lemma_map_of_update(self.entries@, idx as int, name, millis);
                }
                self.entries.set(idx, (name, millis));
                return;
            }
            idx += 1;
        }
        proof {
            lemma_map_of_contains(self.entries@, name@);
            lemma_map_of_push(self.entries@, name, millis);
            assert(forall|j: int| 0 <= j < self.entries@.len() ==> #[trigger] self.entries@[j].0@ != name@);
        }
        self.entries.push((name, millis));
    }
}

/// Holds the process-wide staleness rules, loaded once at startup and
/// read-only afterwards.
pub struct RulesManager {
    staleness_rules: StalenessRules,
}

impl RulesManager {
    pub closed spec fn wf(&self) -> bool {
        self.staleness_rules.wf()
    }

    /// The map of rules this manager holds.
    pub closed spec fn view(&self) -> Map<Seq<char>, i64> {
        self.staleness_rules.view()
    }

    /// The configured rules are whatever the loader hands in; loading them
    /// from the settings source is the caller's concern.
    pub fn new(rules: StalenessRules) -> (r: Self)
        requires
            rules.wf(),
        ensures
            r.wf(),
            r.view() == rules.view(),
    {
        RulesManager { staleness_rules: rules }
    }

    pub fn get_staleness_rules(&self) -> (r: &StalenessRules)
        ensures
            r.wf() == self.wf(),
            r.view() == self.view(),
    {
        &self.staleness_rules
    }

    pub fn _get_staleness_rule(&self, rule_name: &String) -> (r: Option<i64>)
        requires
            self.wf(),
        ensures
            match r {
                Some(v) => self.view().dom().contains(rule_name@) && self.view()[rule_name@] == v,
                None => !self.view().dom().contains(rule_name@),
            },
    {
        let result = self.staleness_rules.get(rule_name);
        match result {
            Some(rule) => Some(rule),
            None => None,
        }
    }
}

/// The age that gated data has reached by `now`: a missing last-refresh
/// timestamp reads as the epoch, so never-refreshed data is as old as the
/// clock itself.
pub open spec fn millis_since_refresh(last_refresh: Option<i64>, now: i64) -> int {
    match last_refresh {
        Some(last) => now - last,
        None => now as int,
    }
}

/// Data is stale exactly when its age has reached the rule's threshold.
pub open spec fn stale_spec(threshold: i64, last_refresh: Option<i64>, now: i64) -> bool {
    threshold <= millis_since_refresh(last_refresh, now)
}

/// Decide staleness for one rule threshold, against the caller's clock.
pub fn is_stale(threshold: i64, last_refresh: Option<i64>, now: i64) -> (r: bool)
    ensures
        r == stale_spec(threshold, last_refresh, now),
{
    let last: i64 = match last_refresh {
        Some(l) => l,
        None => 0,
    };
    (threshold as i128) <= (now as i128) - (last as i128)
}

/// How long a cooldown that expires at `expiry` still has to run at `now`:
/// zero once the expiry has passed.
pub open spec fn cooldown_remaining_spec(expiry: i64, now: i64) -> int {
    if expiry - now >= 0 {
        expiry - now
    } else {
        0
    }
}

pub fn cooldown_remaining(expiry: i64, now: i64) -> (r: i64)
    requires
        i64::MIN <= expiry - now <= i64::MAX,
    ensures
        r == cooldown_remaining_spec(expiry, now),
{
    if expiry > now {
        expiry - now
    } else {
        0
    }
}

/// Staleness is monotone in the clock: data stale at `now1` stays stale at
/// any later `now2` (for a fixed rule and last refresh), data never refreshed
/// is stale as soon as the clock reaches the threshold, and in general
/// staleness holds exactly when the age reaches the threshold.
pub proof fn lemma_staleness_monotonic(
    threshold: i64,
    last_refresh: Option<i64>,
    now1: i64,
    now2: i64,
)
    requires
        now1 <= now2,
    ensures
        stale_spec(threshold, last_refresh, now1) ==> stale_spec(threshold, last_refresh, now2),
        last_refresh.is_none() && now1 >= threshold ==> stale_spec(threshold, last_refresh, now1),
        stale_spec(threshold, last_refresh, now1) <==> threshold
            <= millis_since_refresh(last_refresh, now1),
{
}

} // verus!
