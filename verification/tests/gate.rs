use starscript::cadet::astropath::{parse_command, Astropath, AstropathCommand, CooldownAction, FleetPager};
use starscript::models::rules::Rule;
use starscript::rules::{cooldown_remaining, is_stale, RulesManager, StalenessRules};
use starscript::yaml_util::collect_staleness_rules;

const T0: i64 = 1_700_000_000_000;

fn fleet_rules() -> StalenessRules {
    let mut rules = StalenessRules::new();
    rules.set("fleet".to_string(), 60_000);
    rules
}

#[test]
fn staleness_scenario_fleet_rule() {
    // Rule "fleet" with a sixty-second threshold; nothing refreshed yet.
    let mut astropath = Astropath::new("AST-1".to_string(), "GREEN".to_string(), fleet_rules());
    let rule = "fleet".to_string();

    // Never refreshed: as old as the clock, so stale.
    assert_eq!(astropath.is_data_stale(&rule, T0), Some(true));

    // A refresh now makes an immediate re-check fresh.
    astropath.record_refresh(rule.clone(), T0);
    assert_eq!(astropath.is_data_stale(&rule, T0), Some(false));

    // Sixty-one seconds later it is stale again.
    assert_eq!(astropath.is_data_stale(&rule, T0 + 61_000), Some(true));
}

#[test]
fn staleness_boundary_is_inclusive() {
    let mut astropath = Astropath::new("AST-1".to_string(), "GREEN".to_string(), fleet_rules());
    let rule = "fleet".to_string();
    astropath.record_refresh(rule.clone(), T0);
    // Stale exactly when the age reaches the threshold.
    assert_eq!(astropath.is_data_stale(&rule, T0 + 59_999), Some(false));
    assert_eq!(astropath.is_data_stale(&rule, T0 + 60_000), Some(true));
}

#[test]
fn unknown_rule_is_a_configuration_error() {
    let astropath = Astropath::new("AST-1".to_string(), "GREEN".to_string(), fleet_rules());
    assert_eq!(astropath.is_data_stale(&"systems".to_string(), T0), None);
}

#[test]
fn is_stale_treats_missing_refresh_as_epoch() {
    assert!(is_stale(60_000, None, 60_000));
    assert!(!is_stale(60_000, None, 59_999));
    assert!(is_stale(60_000, Some(T0), T0 + 60_000));
    assert!(!is_stale(60_000, Some(T0), T0 + 59_999));
}

#[test]
fn cooldown_remaining_clamps_at_zero() {
    assert_eq!(cooldown_remaining(T0 + 30, T0), 30);
    assert_eq!(cooldown_remaining(T0, T0), 0);
    assert_eq!(cooldown_remaining(T0 - 5, T0), 0);
}

#[test]
fn survey_cooldown_demands_follow_the_thresholds() {
    let mut astropath = Astropath::new("AST-1".to_string(), "GREEN".to_string(), fleet_rules());
    let ship = "GREEN-1".to_string();

    // A ship never seen has nothing to wait for.
    assert!(matches!(astropath.survey_cooldown_action(&ship, T0), CooldownAction::Proceed));

    // Expiry recorded ten seconds from T0 (2023-11-14T22:13:30Z).
    let ok = astropath.record_survey_cooldown(ship.clone(), "2023-11-14T22:13:30Z");
    assert!(ok);
    let expiry = T0 + 10_000;
    // Far from expiry: defer until the expiry itself.
    assert!(matches!(
        astropath.survey_cooldown_action(&ship, T0),
        CooldownAction::Defer(e) if e == expiry
    ));
    // Within fifty milliseconds: block one millisecond past the remainder.
    assert!(matches!(
        astropath.survey_cooldown_action(&ship, expiry - 50),
        CooldownAction::Block(51)
    ));
    assert!(matches!(
        astropath.survey_cooldown_action(&ship, expiry - 1),
        CooldownAction::Block(2)
    ));
    // At or past expiry: proceed.
    assert!(matches!(
        astropath.survey_cooldown_action(&ship, expiry),
        CooldownAction::Proceed
    ));
}

#[test]
fn unparsable_cooldown_expiry_changes_nothing() {
    let mut astropath = Astropath::new("AST-1".to_string(), "GREEN".to_string(), fleet_rules());
    let ship = "GREEN-1".to_string();
    let ok = astropath.record_survey_cooldown(ship.clone(), "not a timestamp");
    assert!(!ok);
    assert!(matches!(astropath.survey_cooldown_action(&ship, T0), CooldownAction::Proceed));
}

#[test]
fn commands_parse_to_the_closed_set() {
    assert!(matches!(
        parse_command(&"refresh_systems".to_string()),
        Some(AstropathCommand::RefreshSystems)
    ));
    assert!(matches!(
        parse_command(&"refresh_fleet".to_string()),
        Some(AstropathCommand::RefreshFleet)
    ));
    assert!(matches!(parse_command(&"survey".to_string()), Some(AstropathCommand::Survey)));
    assert!(parse_command(&"mine_asteroid".to_string()).is_none());
}

#[test]
fn fleet_pager_walks_pages_as_advertised() {
    let mut pager = FleetPager::new();
    assert_eq!(pager.limit, 20);
    assert_eq!(pager.page, 1);
    assert!(pager.more_pages());
    pager.record_page(20);
    assert_eq!(pager.count, 20);
    assert_eq!(pager.total, 20);
    assert_eq!(pager.page, 2);
    assert!(!pager.more_pages());
}

#[test]
fn rules_manager_looks_up_thresholds() {
    let manager = RulesManager::new(fleet_rules());
    assert_eq!(manager._get_staleness_rule(&"fleet".to_string()), Some(60_000));
    assert_eq!(manager._get_staleness_rule(&"systems".to_string()), None);
    assert_eq!(
        manager.get_staleness_rules().get(&"fleet".to_string()),
        Some(60_000)
    );
}

#[test]
fn staleness_rules_overwrite_by_name() {
    let mut rules = StalenessRules::new();
    rules.set("fleet".to_string(), 1_000);
    rules.set("fleet".to_string(), 2_000);
    rules.set("systems".to_string(), 3_000);
    assert_eq!(rules.get(&"fleet".to_string()), Some(2_000));
    assert_eq!(rules.get(&"systems".to_string()), Some(3_000));
    assert_eq!(rules.get(&"markets".to_string()), None);
}

#[test]
fn collected_rules_keep_last_entry_per_name() {
    let loaded = vec![
        Rule::StalenessRule { name: "fleet".to_string(), seconds_till_stale: 60 },
        Rule::StalenessRule { name: "systems".to_string(), seconds_till_stale: 3_600 },
        Rule::StalenessRule { name: "fleet".to_string(), seconds_till_stale: 90 },
    ];
    let rules = collect_staleness_rules(loaded);
    assert_eq!(rules.get(&"fleet".to_string()), Some(90));
    assert_eq!(rules.get(&"systems".to_string()), Some(3_600));
}
