//! Economic state: balances, contracts, market records, and survey records
//! with their historical deposit statistics and value-ordered sorting.

use vstd::multiset::group_multiset_axioms;
use vstd::multiset::Multiset;
use vstd::prelude::*;
use vstd::seq_lib::group_to_multiset_ensures;

use crate::clock::now_seconds;

verus! {

broadcast use group_to_multiset_ensures, group_multiset_axioms;

/// A balance together with when it was last refreshed and how soon it goes
/// stale.
#[derive(Clone, Copy, Debug, PartialEq, Eq, Structural)]
pub struct Balance {
    pub balance: i64,
    pub timestamp: u64,
    pub stale_after_seconds: u32,
}

impl Balance {
    /// A fresh balance record, never yet refreshed; an absent staleness
    /// bound reads as zero.
    pub fn new(starting_balance: i64, stale_after_seconds: Option<u32>) -> (r: Self)
        ensures
            r.balance == starting_balance,
            r.timestamp == 0,
            r.stale_after_seconds == (match stale_after_seconds {
                Some(s) => s,
                None => 0u32,
            }),
    {
        Balance {
            balance: starting_balance,
            timestamp: 0,
            stale_after_seconds: match stale_after_seconds {
                Some(s) => s,
                None => 0,
            },
        }
    }
}

impl Default for Balance {
    fn default() -> (r: Balance)
        ensures
            r.balance == 0,
            r.timestamp == 0,
            r.stale_after_seconds == 60,
    {
        Balance { balance: 0, timestamp: 0, stale_after_seconds: 60 }
    }
}

/// What the ledger reads of a game contract: its identity. The full
/// contract payload lives with the store.
#[derive(Debug)]
pub struct Contract {
    pub id: String,
}

/// Market knowledge for one waypoint: price and volume series per traded
/// good.
#[derive(Debug)]
pub struct MarketData {
    pub waypoint_symbol: String,
    pub sell_price_history: Vec<(String, Vec<i32>)>,
    pub buy_price_history: Vec<(String, Vec<i32>)>,
    pub volume_history: Vec<(String, Vec<i32>)>,
    pub timestamp: i64,
    pub stale_after: i64,
}

/// One survey: its signature and the deposit symbols it found, one entry
/// per deposit.
#[derive(Debug)]
pub struct Survey {
    pub signature: String,
    pub deposits: Vec<String>,
}

/// How many of `sym` a deposit list holds.
pub open spec fn deposit_count(deps: Seq<String>, sym: Seq<char>) -> nat
    decreases deps.len(),
{
    if deps.len() == 0 {
        0
    } else {
        deposit_count(deps.drop_last(), sym) + (if deps.last()@ == sym {
            1nat
        } else {
            0nat
        })
    }
}

pub proof fn lemma_deposit_count_le_len(deps: Seq<String>, sym: Seq<char>)
    ensures
        deposit_count(deps, sym) <= deps.len(),
    decreases deps.len(),
{
    if deps.len() > 0 {
        lemma_deposit_count_le_len(deps.drop_last(), sym);
    }
}

/// Whether position `j` holds the first occurrence of its symbol.
pub open spec fn first_occurrence(deps: Seq<String>, j: int) -> bool {
    forall|i: int| 0 <= i < j ==> (#[trigger] deps[i])@ != deps[j]@
}

/// A symbol's series extended by one count.
pub open spec fn append_count(
    h: Map<Seq<char>, Seq<u8>>,
    sym: Seq<char>,
    amt: u8,
) -> Map<Seq<char>, Seq<u8>> {
    h.insert(
        sym,
        (if h.dom().contains(sym) {
            h[sym]
        } else {
            Seq::<u8>::empty()
        }).push(amt),
    )
}

/// What recording the first `upto` deposits of a survey does to the
/// history: at each symbol's first occurrence, the symbol's count over the
/// whole survey is appended to that symbol's series.
pub open spec fn record_deposits(
    h: Map<Seq<char>, Seq<u8>>,
    deps: Seq<String>,
    upto: int,
) -> Map<Seq<char>, Seq<u8>>
    decreases upto,
{
    if upto <= 0 {
        h
    } else {
        let prev = record_deposits(h, deps, upto - 1);
        if first_occurrence(deps, upto - 1) {
            append_count(prev, deps[upto - 1]@, deposit_count(deps, deps[upto - 1]@) as u8)
        } else {
            prev
        }
    }
}

/// What recording one whole survey does to the history.
pub open spec fn record_survey(h: Map<Seq<char>, Seq<u8>>, s: Survey) -> Map<Seq<char>, Seq<u8>> {
    record_deposits(h, s.deposits@, s.deposits@.len() as int)
}

/// What recording a sequence of surveys does to the history, in order.
pub open spec fn record_surveys(h: Map<Seq<char>, Seq<u8>>, ss: Seq<Survey>) -> Map<
    Seq<char>,
    Seq<u8>,
>
    decreases ss.len(),
{
    if ss.len() == 0 {
        h
    } else {
        record_survey(record_surveys(h, ss.drop_last()), ss.last())
    }
}

/// The per-symbol deposit series, keyed by symbol.
pub struct HistoryTable {
    entries: Vec<(String, Vec<u8>)>,
}

impl HistoryTable {
    /// The map from symbols to their series.
    pub closed spec fn view(&self) -> Map<Seq<char>, Seq<u8>> {
        history_map(self.entries@)
    }

    pub closed spec fn wf(&self) -> bool {
        distinct_history_keys(self.entries@)
    }

    pub fn new() -> (r: Self)
        ensures
            r.wf(),
            r.view() =~= Map::<Seq<char>, Seq<u8>>::empty(),
    {
        HistoryTable { entries: Vec::new() }
    }

    /// The series recorded for `sym`, if any.
    pub fn get(&self, sym: &String) -> (r: Option<&Vec<u8>>)
        requires
            self.wf(),
        ensures
            match r {
                Some(v) => self.view().dom().contains(sym@) && self.view()[sym@] == v@,
                None => !self.view().dom().contains(sym@),
            },
    {
        let n = self.entries.len();
        let mut i: usize = 0;
        while i < n
            invariant
                n == self.entries.len(),
                i <= n,
                self.wf(),
                forall|j: int| 0 <= j < i ==> #[trigger] self.entries@[j].0@ != sym@,
            decreases n - i,
        {
            if self.entries[i].0 == *sym {
                proof {
                    lemma_history_map_value(self.entries@, i as int);
                }
                return Some(&self.entries[i].1);
            }
            i += 1;
        }
        proof {
            lemma_history_map_contains(self.entries@, sym@);
        }
        None
    }

    /// Append one count to a symbol's series, starting the series when the
    /// symbol is new.
    fn append(&mut self, sym: String, amt: u8)
        requires
            old(self).wf(),
        ensures
            final(self).wf(),
            final(self).view() =~= append_count(old(self).view(), sym@, amt),
    {
        let ghost ev = old(self).entries@;
        let n = self.entries.len();
        let mut i: usize = 0;
        while i < n
            invariant
                n == self.entries.len(),
                ev == old(self).entries@,
                self.entries@ == ev,
                i <= n,
                self.wf(),
                forall|j: int| 0 <= j < i ==> #[trigger] ev[j].0@ != sym@,
            decreases n - i,
        {
            if self.entries[i].0 == sym {
                proof {
                    lemma_history_map_value(ev, i as int);
                }
                let mut entry = self.entries.remove(i);
                entry.1.push(amt);
                let ghost entry_snap = entry;
                self.entries.insert(i, entry);
                proof {
                    assert(self.entries@ =~= ev.update(i as int, entry_snap));
                    lemma_history_map_update(ev, i as int, entry_snap);
                }
                return ;
            }
            i += 1;
        }
        proof {
            lemma_history_map_contains(ev, sym@);
        }
        let mut series: Vec<u8> = Vec::new();
        series.push(amt);
        let entry = (sym, series);
        let ghost entry_snap = entry;
        proof {
            lemma_history_map_push(ev, entry_snap);
            assert forall|a: int, b: int| 0 <= a < b < ev.push(entry_snap).len() implies (
            #[trigger] ev.push(entry_snap)[a]).0@ != (#[trigger] ev.push(entry_snap)[b]).0@ by {
                if b == ev.len() {
                    assert(ev.push(entry_snap)[a] == ev[a]);
                    assert(ev.push(entry_snap)[b] == entry_snap);
                } else {
                    assert(ev.push(entry_snap)[a] == ev[a]);
                    assert(ev.push(entry_snap)[b] == ev[b]);
                }
            }
        }
        self.entries.push(entry);
        proof {
            assert(self.entries@ =~= ev.push(entry_snap));
        }
    }
}

/// Mathematical content of the history list.
pub open spec fn history_map(s: Seq<(String, Vec<u8>)>) -> Map<Seq<char>, Seq<u8>>
    decreases s.len(),
{
    if s.len() == 0 {
        Map::<Seq<char>, Seq<u8>>::empty()
    } else {
        history_map(s.drop_last()).insert(s.last().0@, s.last().1@)
    }
}

/// No two entries share a symbol.
pub open spec fn distinct_history_keys(s: Seq<(String, Vec<u8>)>) -> bool {
    forall|i: int, j: int| 0 <= i < j < s.len() ==> (#[trigger] s[i]).0@ != (#[trigger] s[j]).0@
}

pub proof fn lemma_history_map_contains(s: Seq<(String, Vec<u8>)>, k: Seq<char>)
    ensures
        history_map(s).dom().contains(k) <==> exists|i: int|
            0 <= i < s.len() && (#[trigger] s[i]).0@ == k,
    decreases s.len(),
{
    if s.len() > 0 {
        lemma_history_map_contains(s.drop_last(), k);
        if history_map(s).dom().contains(k) {
            if s.last().0@ != k {
                let i = choose|i: int|
                    0 <= i < s.drop_last().len() && (#[trigger] s.drop_last()[i]).0@ == k;
                assert(s[i].0@ == k);
            } else {
                assert(s[s.len() - 1].0@ == k);
            }
        } else {
            assert(forall|i: int|
                0 <= i < s.len() - 1 ==> (#[trigger] s[i]).0@ == s.drop_last()[i].0@);
        }
    }
}

pub proof fn lemma_history_map_value(s: Seq<(String, Vec<u8>)>, i: int)
    requires
        distinct_history_keys(s),
        0 <= i < s.len(),
    ensures
        history_map(s).dom().contains(s[i].0@),
        history_map(s)[s[i].0@] == s[i].1@,
    decreases s.len(),
{
    if i == s.len() - 1 {
        assert(history_map(s) == history_map(s.drop_last()).insert(s.last().0@, s.last().1@));
    } else {
        assert(s.drop_last()[i] == s[i]);
        lemma_history_map_value(s.drop_last(), i);
        assert(s[i].0@ != s.last().0@);
    }
}

pub proof fn lemma_history_map_update(s: Seq<(String, Vec<u8>)>, i: int, e: (String, Vec<u8>))
    requires
        distinct_history_keys(s),
        0 <= i < s.len(),
        e.0@ == s[i].0@,
    ensures
        history_map(s.update(i, e)) =~= history_map(s).insert(e.0@, e.1@),
        distinct_history_keys(s.update(i, e)),
    decreases s.len(),
{
    let t = s.update(i, e);
    assert(forall|j: int| 0 <= j < s.len() && j != i ==> t[j] == s[j]);
    if i == s.len() - 1 {
        assert(t.drop_last() =~= s.drop_last());
        assert(history_map(t) == history_map(s.drop_last()).insert(e.0@, e.1@));
        assert(history_map(s) == history_map(s.drop_last()).insert(s.last().0@, s.last().1@));
        assert(history_map(t) =~= history_map(s).insert(e.0@, e.1@));
    } else {
        assert(t.drop_last() =~= s.drop_last().update(i, e));
        assert(s.drop_last()[i] == s[i]);
        lemma_history_map_update(s.drop_last(), i, e);
        assert(s.last().0@ != e.0@);
        assert(history_map(t) == history_map(s.drop_last()).insert(e.0@, e.1@).insert(
            s.last().0@,
            s.last().1@,
        ));
        assert(history_map(t) =~= history_map(s).insert(e.0@, e.1@));
    }
}

pub proof fn lemma_history_map_push(s: Seq<(String, Vec<u8>)>, e: (String, Vec<u8>))
    ensures
        history_map(s.push(e)) =~= history_map(s).insert(e.0@, e.1@),
{
    assert(s.push(e).drop_last() =~= s);
    assert(s.push(e).last() == e);
}

/// Economic state: balances, the known contracts, and per-waypoint market
/// and survey knowledge.
pub struct Ledger {
    pub credit_balance: Balance,
    pub net_worth: Balance,
    pub contracts: Vec<Contract>,
    pub market_data: Vec<MarketData>,
    pub survey_data: Vec<SurveyData>,
}

impl Ledger {
    /// No two contract entries share an id.
    pub open spec fn wf(&self) -> bool {
        forall|i: int, j: int|
            0 <= i < j < self.contracts@.len() ==> (#[trigger] self.contracts@[i]).id@ != (
            #[trigger] self.contracts@[j]).id@
    }

    /// Record one contract: a known id has its entry replaced, an unknown
    /// one is added; every other entry is untouched.
    pub fn upsert_contract(&mut self, contract: Contract)
        requires
            old(self).wf(),
        ensures
            final(self).wf(),
            final(self).credit_balance == old(self).credit_balance,
            final(self).net_worth == old(self).net_worth,
            final(self).market_data == old(self).market_data,
            final(self).survey_data == old(self).survey_data,
            (exists|j: int|
                0 <= j < old(self).contracts@.len() && (#[trigger] old(self).contracts@[j]).id@
                    == contract.id@) ==> {
                let j = choose|j: int|
                    0 <= j < old(self).contracts@.len() && (#[trigger] old(
                        self,
                    ).contracts@[j]).id@ == contract.id@;
                &&& final(self).contracts@.len() == old(self).contracts@.len()
                &&& final(self).contracts@[j].id@ == contract.id@
                &&& forall|k: int|
                    0 <= k < old(self).contracts@.len() && k != j ==> final(self).contracts@[k]
                        == old(self).contracts@[k]
            },
            (forall|j: int|
                0 <= j < old(self).contracts@.len() ==> (#[trigger] old(self).contracts@[j]).id@
                    != contract.id@) ==> {
                &&& final(self).contracts@.len() == old(self).contracts@.len() + 1
                &&& final(self).contracts@.last().id@ == contract.id@
                &&& forall|k: int|
                    0 <= k < old(self).contracts@.len() ==> final(self).contracts@[k] == old(
                        self,
                    ).contracts@[k]
            },
    {
        let n = self.contracts.len();
        let mut i: usize = 0;
        while i < n
            invariant
                n == self.contracts.len(),
                self.contracts@ == old(self).contracts@,
                self.credit_balance == old(self).credit_balance,
                self.net_worth == old(self).net_worth,
                self.market_data == old(self).market_data,
                self.survey_data == old(self).survey_data,
                i <= n,
                old(self).wf(),
                forall|j: int| 0 <= j < i ==> (#[trigger] self.contracts@[j]).id@ != contract.id@,
            decreases n - i,
        {
            if self.contracts[i].id == contract.id {
                proof {
                    assert forall|j: int|
                        0 <= j < old(self).contracts@.len() && (#[trigger] old(
                            self,
                        ).contracts@[j]).id@ == contract.id@ implies j == i as int by {}
                }
                self.contracts.set(i, contract);
                return ;
            }
            i += 1;
        }
        self.contracts.push(contract);
        proof {
            assert(forall|k: int|
                0 <= k < old(self).contracts@.len() ==> self.contracts@[k] == old(
                    self,
                ).contracts@[k]);
        }
    }
}

impl Default for Ledger {
    fn default() -> (r: Self)
        ensures
            r.wf(),
            r.credit_balance.balance == 0,
            r.net_worth.balance == 0,
            r.contracts@.len() == 0,
            r.market_data@.len() == 0,
            r.survey_data@.len() == 0,
    {
        Ledger {
            credit_balance: Balance::default(),
            net_worth: Balance::default(),
            contracts: Vec::new(),
            market_data: Vec::new(),
            survey_data: Vec::new(),
        }
    }
}

/// Survey knowledge for one waypoint: the latest surveys and the history of
/// what each deposit symbol has yielded (one series entry per deposit
/// occurrence count per survey), for rarity and purity estimation.
pub struct SurveyData {
    pub waypoint_symbol: String,
    pub most_recent_surveys: Vec<Survey>,
    pub historical_survey_data: HistoryTable,
    pub historical_survey_count: u64,
    pub timestamp: i64,
    pub stale_after: i64,
}

impl Default for SurveyData {
    fn default() -> (r: Self)
        ensures
            r.waypoint_symbol@ == Seq::<char>::empty(),
            r.most_recent_surveys@ == Seq::<Survey>::empty(),
            r.historical_survey_data.wf(),
            r.historical_survey_data.view() =~= Map::<Seq<char>, Seq<u8>>::empty(),
            r.historical_survey_count == 0,
            r.timestamp == 0,
            r.stale_after == 0,
    {
        SurveyData {
            waypoint_symbol: String::new(),
            most_recent_surveys: Vec::new(),
            historical_survey_data: HistoryTable::new(),
            historical_survey_count: 0,
            timestamp: 0,
            stale_after: 0,
        }
    }
}

/// How many times `sym` occurs among the deposits.
fn count_occurrences(deps: &Vec<String>, sym: &String) -> (r: u8)
    requires
        deps@.len() <= 255,
    ensures
        r as nat == deposit_count(deps@, sym@),
{
    let n = deps.len();
    let mut c: u8 = 0;
    let mut i: usize = 0;
    while i < n
        invariant
            n == deps@.len() <= 255,
            i <= n,
            c as nat == deposit_count(deps@.subrange(0, i as int), sym@),
            c <= i,
        decreases n - i,
    {
        proof {
            assert(deps@.subrange(0, i as int + 1).drop_last() =~= deps@.subrange(0, i as int));
            assert(deps@.subrange(0, i as int + 1).last() == deps@[i as int]);
        }
        if deps[i] == *sym {
            c += 1;
        }
        i += 1;
    }
    proof {
        assert(deps@.subrange(0, n as int) =~= deps@);
    }
    c
}

impl SurveyData {
    /// Record one survey into the history and count it.
    fn record_one_survey(&mut self, survey: &Survey)
        requires
            old(self).historical_survey_data.wf(),
            survey.deposits@.len() <= 255,
            old(self).historical_survey_count < u64::MAX,
        ensures
            final(self).historical_survey_data.wf(),
            final(self).historical_survey_data.view() =~= record_survey(
                old(self).historical_survey_data.view(),
                *survey,
            ),
            final(self).historical_survey_count == old(self).historical_survey_count + 1,
            final(self).waypoint_symbol == old(self).waypoint_symbol,
            final(self).most_recent_surveys == old(self).most_recent_surveys,
            final(self).timestamp == old(self).timestamp,
            final(self).stale_after == old(self).stale_after,
    {
        let ghost h0 = old(self).historical_survey_data.view();
        let n = survey.deposits.len();
        let mut d: usize = 0;
        while d < n
            invariant
                n == survey.deposits@.len() <= 255,
                d <= n,
                self.historical_survey_data.wf(),
                self.historical_survey_data.view() == record_deposits(
                    h0,
                    survey.deposits@,
                    d as int,
                ),
                self.historical_survey_count == old(self).historical_survey_count,
                self.waypoint_symbol == old(self).waypoint_symbol,
                self.most_recent_surveys == old(self).most_recent_surveys,
                self.timestamp == old(self).timestamp,
                self.stale_after == old(self).stale_after,
            decreases n - d,
        {
            let mut seen = false;
            let mut j: usize = 0;
            while j < d
                invariant
                    d < n == survey.deposits@.len(),
                    j <= d,
                    seen <==> exists|i: int|
                        0 <= i < j && (#[trigger] survey.deposits@[i])@ == survey.deposits@[
                            d as int
                        ]@,
                decreases d - j,
            {
                if survey.deposits[j] == survey.deposits[d] {
                    seen = true;
                }
                j += 1;
            }
            if !seen {
                let amt = count_occurrences(&survey.deposits, &survey.deposits[d]);
                proof {
                    lemma_deposit_count_le_len(survey.deposits@, survey.deposits@[d as int]@);
                    assert(first_occurrence(survey.deposits@, d as int));
                }
                self.historical_survey_data.append(survey.deposits[d].clone(), amt);
                proof {
                    assert(self.historical_survey_data.view() =~= record_deposits(
                        h0,
                        survey.deposits@,
                        d as int + 1,
                    ));
                }
            } else {
                proof {
                    assert(!first_occurrence(survey.deposits@, d as int));
                    assert(record_deposits(h0, survey.deposits@, d as int + 1) == record_deposits(
                        h0,
                        survey.deposits@,
                        d as int,
                    ));
                }
            }
            d += 1;
        }
        self.historical_survey_count = self.historical_survey_count + 1;
    }

    /// Replace the latest surveys with `new_surveys`, recording each into
    /// the historical deposit series in order and counting it; the
    /// timestamp is read from the clock.
    pub fn insert(&mut self, new_surveys: Vec<Survey>)
        requires
            old(self).historical_survey_data.wf(),
            forall|si: int|
                0 <= si < new_surveys@.len() ==> (#[trigger] new_surveys@[si]).deposits@.len()
                    <= 255,
            old(self).historical_survey_count + new_surveys@.len() <= u64::MAX,
        ensures
            final(self).historical_survey_data.wf(),
            final(self).historical_survey_data.view() =~= record_surveys(
                old(self).historical_survey_data.view(),
                new_surveys@,
            ),
            final(self).most_recent_surveys@ == new_surveys@,
            final(self).historical_survey_count == old(self).historical_survey_count
                + new_surveys@.len(),
            final(self).waypoint_symbol == old(self).waypoint_symbol,
            final(self).stale_after == old(self).stale_after,
    {
        let ghost h0 = old(self).historical_survey_data.view();
        let n = new_surveys.len();
        let mut si: usize = 0;
        while si < n
            invariant
                n == new_surveys@.len(),
                si <= n,
                forall|k: int|
                    0 <= k < new_surveys@.len() ==> (#[trigger] new_surveys@[k]).deposits@.len()
                        <= 255,
                self.historical_survey_data.wf(),
                self.historical_survey_data.view() == record_surveys(
                    h0,
                    new_surveys@.subrange(0, si as int),
                ),
                self.historical_survey_count == old(self).historical_survey_count + si,
                old(self).historical_survey_count + n <= u64::MAX,
                self.waypoint_symbol == old(self).waypoint_symbol,
                self.timestamp == old(self).timestamp,
                self.stale_after == old(self).stale_after,
            decreases n - si,
        {
            proof {
                assert(new_surveys@.subrange(0, si as int + 1).drop_last() =~= new_surveys@.subrange(
                    0,
                    si as int,
                ));
                assert(new_surveys@.subrange(0, si as int + 1).last() == new_surveys@[si as int]);
            }
            self.record_one_survey(&new_surveys[si]);
            si += 1;
        }
        proof {
            assert(new_surveys@.subrange(0, n as int) =~= new_surveys@);
        }
        self.most_recent_surveys = new_surveys;
        self.timestamp = now_seconds();
    }

    /// Reorder the latest surveys by the approximate market value of their
    /// contents, most valuable first: a survey's value is the sum of its
    /// deposits' good values divided by its deposit count. The surveys
    /// themselves are only rearranged.
    pub fn sort_surveys_by_market_data(&mut self, markets: &Vec<(String, (String, i64))>)
        requires
            forall|i: int| 0 <= i < markets@.len() ==> (#[trigger] markets@[i]).1.1 >= 0,
            forall|si: int|
                0 <= si < old(self).most_recent_surveys@.len() ==> (#[trigger] old(
                    self,
                ).most_recent_surveys@[si]).deposits@.len() >= 1,
        ensures
            final(self).most_recent_surveys@.to_multiset() == old(
                self,
            ).most_recent_surveys@.to_multiset(),
            final(self).most_recent_surveys@.len() == old(self).most_recent_surveys@.len(),
            forall|a: int, b: int|
                0 <= a < b < final(self).most_recent_surveys@.len() ==> market_key(
                    #[trigger] final(self).most_recent_surveys@[a],
                    markets@,
                ) >= market_key(#[trigger] final(self).most_recent_surveys@[b], markets@),
            final(self).waypoint_symbol == old(self).waypoint_symbol,
            final(self).historical_survey_data == old(self).historical_survey_data,
            final(self).historical_survey_count == old(self).historical_survey_count,
            final(self).timestamp == old(self).timestamp,
            final(self).stale_after == old(self).stale_after,
    {
        let n = self.most_recent_surveys.len();
        let mut keys: Vec<u128> = Vec::new();
        let mut si: usize = 0;
        while si < n
            invariant
                n == self.most_recent_surveys@.len(),
                self.most_recent_surveys@ == old(self).most_recent_surveys@,
                si <= n,
                keys@.len() == si,
                forall|i: int| 0 <= i < markets@.len() ==> (#[trigger] markets@[i]).1.1 >= 0,
                forall|k: int|
                    0 <= k < n ==> (#[trigger] self.most_recent_surveys@[k]).deposits@.len() >= 1,
                forall|k: int|
                    0 <= k < si ==> keys@[k] == market_key(
                        #[trigger] self.most_recent_surveys@[k],
                        markets@,
                    ),
            decreases n - si,
        {
            let key = market_key_of(&self.most_recent_surveys[si], markets);
            keys.push(key);
            si += 1;
        }
        let mut taken: Vec<Survey> = Vec::new();
        core::mem::swap(&mut self.most_recent_surveys, &mut taken);
        let sorted = select_sort_desc(taken, keys, Ghost(|s: Survey| market_key(s, markets@)));
        self.most_recent_surveys = sorted;
    }

    /// Reorder the latest surveys by how much of the wanted items they
    /// hold, best first: a survey's value is the count of its deposits that
    /// name a wanted item, divided by its deposit count. The surveys
    /// themselves are only rearranged.
    pub fn sort_surveys_for_items(&mut self, item_symbols: &Vec<String>)
        requires
            forall|si: int|
                0 <= si < old(self).most_recent_surveys@.len() ==> (#[trigger] old(
                    self,
                ).most_recent_surveys@[si]).deposits@.len() >= 1,
        ensures
            final(self).most_recent_surveys@.to_multiset() == old(
                self,
            ).most_recent_surveys@.to_multiset(),
            final(self).most_recent_surveys@.len() == old(self).most_recent_surveys@.len(),
            forall|a: int, b: int|
                0 <= a < b < final(self).most_recent_surveys@.len() ==> items_key(
                    #[trigger] final(self).most_recent_surveys@[a],
                    item_symbols@,
                ) >= items_key(#[trigger] final(self).most_recent_surveys@[b], item_symbols@),
            final(self).waypoint_symbol == old(self).waypoint_symbol,
            final(self).historical_survey_data == old(self).historical_survey_data,
            final(self).historical_survey_count == old(self).historical_survey_count,
            final(self).timestamp == old(self).timestamp,
            final(self).stale_after == old(self).stale_after,
    {
        let n = self.most_recent_surveys.len();
        let mut keys: Vec<u128> = Vec::new();
        let mut si: usize = 0;
        while si < n
            invariant
                n == self.most_recent_surveys@.len(),
                self.most_recent_surveys@ == old(self).most_recent_surveys@,
                si <= n,
                keys@.len() == si,
                forall|k: int|
                    0 <= k < n ==> (#[trigger] self.most_recent_surveys@[k]).deposits@.len() >= 1,
                forall|k: int|
                    0 <= k < si ==> keys@[k] == items_key(
                        #[trigger] self.most_recent_surveys@[k],
                        item_symbols@,
                    ),
            decreases n - si,
        {
            let key = items_key_of(&self.most_recent_surveys[si], item_symbols);
            keys.push(key);
            si += 1;
        }
        let mut taken: Vec<Survey> = Vec::new();
        core::mem::swap(&mut self.most_recent_surveys, &mut taken);
        let sorted = select_sort_desc(taken, keys, Ghost(|s: Survey| items_key(s, item_symbols@)));
        self.most_recent_surveys = sorted;
    }
}

/// The market value recorded for a good: the value of the first market
/// entry naming it, or zero for a good no market lists.
pub open spec fn good_value(markets: Seq<(String, (String, i64))>, sym: Seq<char>) -> i64
    decreases markets.len(),
{
    if markets.len() == 0 {
        0
    } else if markets.first().0@ == sym {
        markets.first().1.1
    } else {
        good_value(markets.drop_first(), sym)
    }
}

/// The summed market value of a deposit list.
pub open spec fn deposits_value(deps: Seq<String>, markets: Seq<(String, (String, i64))>) -> int
    decreases deps.len(),
{
    if deps.len() == 0 {
        0
    } else {
        deposits_value(deps.drop_last(), markets) + good_value(markets, deps.last()@)
    }
}

/// The sort key of a survey under market values: its average deposit value.
pub open spec fn market_key(s: Survey, markets: Seq<(String, (String, i64))>) -> u128 {
    (deposits_value(s.deposits@, markets) / s.deposits@.len() as int) as u128
}

/// Whether a wanted-item list names this symbol.
pub open spec fn names_item(items: Seq<String>, sym: Seq<char>) -> bool {
    exists|i: int| 0 <= i < items.len() && (#[trigger] items[i])@ == sym
}

/// How many deposits of the list name a wanted item.
pub open spec fn items_value(deps: Seq<String>, items: Seq<String>) -> nat
    decreases deps.len(),
{
    if deps.len() == 0 {
        0
    } else {
        items_value(deps.drop_last(), items) + (if names_item(items, deps.last()@) {
            1nat
        } else {
            0nat
        })
    }
}

/// The sort key of a survey under a wanted-item list: the share of its
/// deposits that name a wanted item.
pub open spec fn items_key(s: Survey, items: Seq<String>) -> u128 {
    (items_value(s.deposits@, items) as int / s.deposits@.len() as int) as u128
}

/// The market value of one good, by scan: the first entry naming it wins.
fn good_value_of(markets: &Vec<(String, (String, i64))>, sym: &String) -> (r: i64)
    requires
        forall|i: int| 0 <= i < markets@.len() ==> (#[trigger] markets@[i]).1.1 >= 0,
    ensures
        r == good_value(markets@, sym@),
        r >= 0,
{
    let n = markets.len();
    proof {
        assert(markets@.subrange(0, n as int) =~= markets@);
    }
    let mut i: usize = 0;
    while i < n
        invariant
            n == markets@.len(),
            i <= n,
            forall|j: int| 0 <= j < markets@.len() ==> (#[trigger] markets@[j]).1.1 >= 0,
            good_value(markets@, sym@) == good_value(markets@.subrange(i as int, n as int), sym@),
        decreases n - i,
    {
        proof {
            assert(markets@.subrange(i as int, n as int).first() == markets@[i as int]);
            assert(markets@.subrange(i as int, n as int).drop_first() =~= markets@.subrange(
                i as int + 1,
                n as int,
            ));
        }
        if markets[i].0 == *sym {
            return markets[i].1.1;
        }
        i += 1;
    }
    proof {
        assert(markets@.subrange(n as int, n as int).len() == 0);
    }
    0
}

/// The market sort key of one survey.
fn market_key_of(s: &Survey, markets: &Vec<(String, (String, i64))>) -> (r: u128)
    requires
        forall|i: int| 0 <= i < markets@.len() ==> (#[trigger] markets@[i]).1.1 >= 0,
        s.deposits@.len() >= 1,
    ensures
        r == market_key(*s, markets@),
{
    let n = s.deposits.len();
    let mut sum: u128 = 0;
    let mut d: usize = 0;
    while d < n
        invariant
            n == s.deposits@.len(),
            d <= n,
            forall|i: int| 0 <= i < markets@.len() ==> (#[trigger] markets@[i]).1.1 >= 0,
            sum == deposits_value(s.deposits@.subrange(0, d as int), markets@),
            sum <= d * 0x7fff_ffff_ffff_ffffu128,
        decreases n - d,
    {
        proof {
            assert(s.deposits@.subrange(0, d as int + 1).drop_last() =~= s.deposits@.subrange(
                0,
                d as int,
            ));
            assert(s.deposits@.subrange(0, d as int + 1).last() == s.deposits@[d as int]);
        }
        let v = good_value_of(markets, &s.deposits[d]);
        sum = sum + (v as u128);
        d += 1;
    }
    proof {
        assert(s.deposits@.subrange(0, n as int) =~= s.deposits@);
    }
    sum / (n as u128)
}

/// The wanted-item sort key of one survey.
fn items_key_of(s: &Survey, items: &Vec<String>) -> (r: u128)
    requires
        s.deposits@.len() >= 1,
    ensures
        r == items_key(*s, items@),
{
    let n = s.deposits.len();
    let m = items.len();
    let mut sum: u128 = 0;
    let mut d: usize = 0;
    while d < n
        invariant
            n == s.deposits@.len(),
            m == items@.len(),
            d <= n,
            sum == items_value(s.deposits@.subrange(0, d as int), items@),
            sum <= d,
        decreases n - d,
    {
        proof {
            assert(s.deposits@.subrange(0, d as int + 1).drop_last() =~= s.deposits@.subrange(
                0,
                d as int,
            ));
            assert(s.deposits@.subrange(0, d as int + 1).last() == s.deposits@[d as int]);
        }
        let mut hit = false;
        let mut j: usize = 0;
        while j < m
            invariant
                m == items@.len(),
                d < n == s.deposits@.len(),
                j <= m,
                hit <==> exists|i: int|
                    0 <= i < j && (#[trigger] items@[i])@ == s.deposits@[d as int]@,
            decreases m - j,
        {
            if items[j] == s.deposits[d] {
                hit = true;
            }
            j += 1;
        }
        if hit {
            sum = sum + 1;
        }
        d += 1;
    }
    proof {
        assert(s.deposits@.subrange(0, n as int) =~= s.deposits@);
    }
    sum / (n as u128)
}

/// Selection sort, descending by the given keys: repeatedly move the
/// earliest remaining survey with the greatest key. The keys mirror the
/// ghost key function on every element.
fn select_sort_desc(
    items: Vec<Survey>,
    keys: Vec<u128>,
    Ghost(key_fn): Ghost<spec_fn(Survey) -> u128>,
) -> (r: Vec<Survey>)
    requires
        keys@.len() == items@.len(),
        forall|i: int| 0 <= i < items@.len() ==> keys@[i] == key_fn(#[trigger] items@[i]),
    ensures
        r@.len() == items@.len(),
        r@.to_multiset() == items@.to_multiset(),
        forall|a: int, b: int|
            0 <= a < b < r@.len() ==> key_fn(#[trigger] r@[a]) >= key_fn(#[trigger] r@[b]),
{
    let ghost orig = items@;
    let mut rest_s = items;
    let mut rest_k = keys;
    let mut out: Vec<Survey> = Vec::new();
    while rest_s.len() > 0
        invariant
            rest_k@.len() == rest_s@.len(),
            forall|i: int|
                0 <= i < rest_s@.len() ==> rest_k@[i] == key_fn(#[trigger] rest_s@[i]),
            out@.to_multiset().add(rest_s@.to_multiset()) =~= orig.to_multiset(),
            out@.len() + rest_s@.len() == orig.len(),
            forall|a: int, b: int|
                0 <= a < b < out@.len() ==> key_fn(#[trigger] out@[a]) >= key_fn(
                    #[trigger] out@[b],
                ),
            forall|a: int, j: int|
                0 <= a < out@.len() && 0 <= j < rest_s@.len() ==> key_fn(#[trigger] out@[a])
                    >= key_fn(#[trigger] rest_s@[j]),
        decreases rest_s@.len(),
    {
        let m = rest_k.len();
        let mut best: usize = 0;
        let mut bi: usize = 1;
        while bi < m
            invariant
                m == rest_k@.len(),
                m > 0,
                best < bi,
                bi <= m,
                forall|j: int| 0 <= j < bi ==> (#[trigger] rest_k@[j]) <= rest_k@[best as int],
            decreases m - bi,
        {
            if rest_k[bi] > rest_k[best] {
                best = bi;
            }
            bi += 1;
        }
        let ghost pre_s = rest_s@;
        let ghost pre_out = out@;
        let s = rest_s.remove(best);
        rest_k.remove(best);
        proof {
            assert(pre_s.contains(s));
            assert(pre_s.to_multiset().count(s) > 0);
            assert(rest_s@.to_multiset() =~= pre_s.to_multiset().remove(s));
            assert(forall|i: int|
                0 <= i < rest_s@.len() ==> #[trigger] rest_s@[i] == (if i < best {
                    pre_s[i]
                } else {
                    pre_s[i + 1]
                }));
        }
        out.push(s);
        proof {
            assert(out@.to_multiset() =~= pre_out.to_multiset().insert(s));
            assert(out@.to_multiset().add(rest_s@.to_multiset()) =~= orig.to_multiset());
            assert(forall|a: int| 0 <= a < pre_out.len() ==> #[trigger] out@[a] == pre_out[a]);
            assert(out@[pre_out.len() as int] == s);
        }
    }
    proof {
        assert(rest_s@.to_multiset() =~= Multiset::<Survey>::empty());
        assert(out@.to_multiset() =~= orig.to_multiset());
    }
    out
}

} // verus!
