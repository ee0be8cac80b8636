use starscript::captains_log::ledger::{Balance, Contract, Survey, SurveyData};
use starscript::captains_log::shiprole::ShipRole;
use starscript::captains_log::shipstate::{determine_ship_state, ShipNavStatus, ShipState};
use starscript::captains_log::shiptask::TaskID;
use starscript::captains_log::{CaptainsLog, Ship};

fn survey(signature: &str, deposits: &[&str]) -> Survey {
    Survey {
        signature: signature.to_string(),
        deposits: deposits.iter().map(|d| d.to_string()).collect(),
    }
}

#[test]
fn insert_replaces_recent_and_accumulates_history() {
    let mut data = SurveyData::default();
    data.insert(vec![
        survey("sig-1", &["IRON", "IRON", "COPPER"]),
        survey("sig-2", &["IRON"]),
    ]);

    assert_eq!(data.historical_survey_count, 2);
    assert_eq!(data.most_recent_surveys.len(), 2);
    assert_eq!(data.most_recent_surveys[0].signature, "sig-1");

    // One series entry per survey that named the symbol, holding its count.
    assert_eq!(data.historical_survey_data.get(&"IRON".to_string()), Some(&vec![2u8, 1u8]));
    assert_eq!(data.historical_survey_data.get(&"COPPER".to_string()), Some(&vec![1u8]));
    assert!(data.historical_survey_data.get(&"GOLD".to_string()).is_none());

    // A second insert replaces the recent surveys but extends the history.
    data.insert(vec![survey("sig-3", &["COPPER"])]);
    assert_eq!(data.historical_survey_count, 3);
    assert_eq!(data.most_recent_surveys.len(), 1);
    assert_eq!(data.historical_survey_data.get(&"COPPER".to_string()), Some(&vec![1u8, 1u8]));
}

#[test]
fn surveys_sort_by_average_market_value() {
    let mut data = SurveyData::default();
    data.insert(vec![
        survey("mixed", &["IRON", "IRON", "COPPER"]),
        survey("pure", &["IRON"]),
    ]);
    let markets = vec![
        ("IRON".to_string(), ("WP-1".to_string(), 10i64)),
        ("COPPER".to_string(), ("WP-1".to_string(), 4i64)),
    ];
    data.sort_surveys_by_market_data(&markets);
    // "pure" averages 10, "mixed" averages (10+10+4)/3 = 8.
    assert_eq!(data.most_recent_surveys[0].signature, "pure");
    assert_eq!(data.most_recent_surveys[1].signature, "mixed");
}

#[test]
fn surveys_sort_by_wanted_items() {
    let mut data = SurveyData::default();
    data.insert(vec![
        survey("diluted", &["IRON", "QUARTZ", "QUARTZ"]),
        survey("rich", &["IRON"]),
    ]);
    data.sort_surveys_for_items(&vec!["IRON".to_string()]);
    // "rich" scores 1/1, "diluted" scores 1/3 (integer share 0).
    assert_eq!(data.most_recent_surveys[0].signature, "rich");
    assert_eq!(data.most_recent_surveys[1].signature, "diluted");
}

#[test]
fn balance_new_and_default() {
    let b = Balance::new(1_000, Some(30));
    assert_eq!(b.balance, 1_000);
    assert_eq!(b.timestamp, 0);
    assert_eq!(b.stale_after_seconds, 30);
    let unbounded = Balance::new(5, None);
    assert_eq!(unbounded.stale_after_seconds, 0);
    let d = Balance::default();
    assert_eq!(d.balance, 0);
    assert_eq!(d.stale_after_seconds, 60);
}

#[test]
fn upsert_ship_keeps_role_and_tasks() {
    let mut log = CaptainsLog::new();
    log.upsert_ship(Ship {
        symbol: "GREEN-1".to_string(),
        nav_status: ShipNavStatus::Docked,
    });
    assert_eq!(log.ships.len(), 1);
    assert!(matches!(log.ships[0].role, ShipRole::Unassigned));
    assert!(matches!(log.ships[0].state, ShipState::Docked));

    log.update_ship_role(&"GREEN-1".to_string(), ShipRole::Miner);
    assert!(matches!(log.ships[0].role, ShipRole::Miner));

    // Re-upserting the same ship keeps the assigned role but refreshes the
    // state from the new record.
    log.upsert_ship(Ship {
        symbol: "GREEN-1".to_string(),
        nav_status: ShipNavStatus::InOrbit,
    });
    assert_eq!(log.ships.len(), 1);
    assert!(matches!(log.ships[0].role, ShipRole::Miner));
    assert!(matches!(log.ships[0].state, ShipState::InOrbit));
}

#[test]
fn upsert_fleet_adds_each_ship() {
    let mut log = CaptainsLog::new();
    log.upsert_fleet(vec![
        Ship { symbol: "A-1".to_string(), nav_status: ShipNavStatus::InTransit },
        Ship { symbol: "A-2".to_string(), nav_status: ShipNavStatus::Docked },
    ]);
    assert_eq!(log.ships.len(), 2);
}

#[test]
fn upsert_contracts_keys_by_id() {
    let mut log = CaptainsLog::new();
    log.upsert_ledger_contracts(vec![
        Contract { id: "c-1".to_string() },
        Contract { id: "c-2".to_string() },
        Contract { id: "c-1".to_string() },
    ]);
    assert_eq!(log.ledger.contracts.len(), 2);
}

#[test]
fn nav_status_maps_to_ship_state() {
    assert!(matches!(determine_ship_state(ShipNavStatus::InTransit), ShipState::InTransit));
    assert!(matches!(determine_ship_state(ShipNavStatus::InOrbit), ShipState::InOrbit));
    assert!(matches!(determine_ship_state(ShipNavStatus::Docked), ShipState::Docked));
}

#[test]
fn ship_enums_render_their_labels() {
    assert_eq!(ShipRole::MarketScout.to_string(), "MARKET_SCOUT");
    assert_eq!(ShipState::Extracting.to_string(), "EXTRACTING");
    assert_eq!(ShipState::default().to_string(), "UNKNOWN");
    assert_eq!(TaskID::Idle.to_string(), "IDLE");
    assert_eq!(TaskID::Navigate.to_string(), "IN_TRANSIT");
    assert_eq!(TaskID::Extract.to_string(), "DOCKED");
    assert!(matches!(TaskID::default(), TaskID::Idle));
    assert!(matches!(ShipRole::default(), ShipRole::Unassigned));
}
