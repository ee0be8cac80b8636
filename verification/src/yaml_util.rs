//! Turning loaded rule values into the staleness-rule table. Reading and
//! deserializing the rule files is the caller's concern; what the collected
//! table holds is pinned here.

use vstd::prelude::*;

use crate::models::rules::Rule;
use crate::rules::StalenessRules;

verus! {

/// The table that a sequence of loaded rules yields: each staleness rule
/// records its seconds threshold under its name, later entries winning.
pub open spec fn collect_spec(rules: Seq<Rule>) -> Map<Seq<char>, i64>
    decreases rules.len(),
{
    if rules.len() == 0 {
        Map::<Seq<char>, i64>::empty()
    } else {
        match rules.last() {
            Rule::StalenessRule { name, seconds_till_stale } => collect_spec(
                rules.drop_last(),
            ).insert(name@, seconds_till_stale as i64),
        }
    }
}

/// Filter the loaded rules into the staleness-rule table.
pub fn collect_staleness_rules(resvec: Vec<Rule>) -> (r: StalenessRules)
    ensures
        r.wf(),
        r.view() =~= collect_spec(resvec@),
{
    let ghost rv = resvec@;
    let n = resvec.len();
    let mut staleness_rules = StalenessRules::new();
    let mut i: usize = 0;
    while i < n
        invariant
            n == resvec.len(),
            rv == resvec@,
            i <= n,
            staleness_rules.wf(),
            staleness_rules.view() =~= collect_spec(rv.subrange(0, i as int)),
        decreases n - i,
    {
        proof {
            assert(rv.subrange(0, i as int + 1).drop_last() =~= rv.subrange(0, i as int));
            assert(rv.subrange(0, i as int + 1).last() == rv[i as int]);
        }
        match &resvec[i] {
            Rule::StalenessRule { name, seconds_till_stale } => {
                staleness_rules.set(name.clone(), *seconds_till_stale as i64);
            },
        }
        i += 1;
    }
    proof {
        assert(rv.subrange(0, n as int) =~= rv);
    }
    staleness_rules
}

} // verus!
