use ice_cream_shop::stock::render_backup;
use ice_cream_shop::stock::StockEngine;
use ice_cream_shop::stock::StockError;
use ice_cream_shop::stock::StockResult;

fn testing_engine() -> StockEngine {
    let mut engine = StockEngine::new(5);
    engine.add_flavor("VAINILLA", 10);
    engine.add_flavor("CHOCOLATE", 5);
    engine.add_flavor("FRUTILLA", 3);
    engine
}

#[test]
fn test01_cannot_reserve_more_than_available() {
    let mut stock = testing_engine();
    let (result, _) = stock.reserve(0, "VAINILLA", 15);
    assert_eq!(Err(StockError::NotEnoughStock), result);
}

#[test]
fn test02_can_reserve_ice_cream() {
    let mut stock = testing_engine();
    let (result, _) = stock.reserve(0, "VAINILLA", 5);
    assert!(result.is_ok());
}

#[test]
fn test03_cannot_reserve_if_shop_runs_out() {
    let mut stock = testing_engine();
    let (result_1, _) = stock.reserve(0, "VAINILLA", 9);
    let (result_2, _) = stock.reserve(0, "VAINILLA", 5);
    assert!(result_1.is_ok());
    assert_eq!(Err(StockError::NotEnoughStock), result_2);
}

#[test]
fn test04_cannot_reserve_non_existent_flavor() {
    let mut stock = testing_engine();
    let (result, _) = stock.reserve(0, "PISTACHO", 5);
    assert_eq!(Err(StockError::FlavorUnknown), result);
}

#[test]
fn test05_can_cancel_reserve_and_stock_becomes_available() {
    let mut stock = testing_engine();
    let _ = stock.reserve(0, "VAINILLA", 10);
    let cancel_results = stock.cancel(&vec![("VAINILLA".to_string(), 5)]);
    let (reserve_result, _) = stock.reserve(0, "VAINILLA", 5);
    assert!(cancel_results[0].is_ok());
    assert!(reserve_result.is_ok());
}

#[test]
fn test06_cannot_cancel_what_has_not_been_reserved() {
    let mut stock = testing_engine();
    let cancel_results = stock.cancel(&vec![("VAINILLA".to_string(), 5)]);
    assert_eq!(Err(StockError::InvalidCancel), cancel_results[0]);
}

#[test]
fn test07_can_confirm_reserves() {
    let mut stock = testing_engine();
    let _ = stock.reserve(0, "VAINILLA", 10);
    let (confirm_results, _) = stock.confirm(&vec![("VAINILLA".to_string(), 10)]);
    assert!(confirm_results[0].is_ok());
}

#[test]
fn test08_cannot_confirm_before_reserve() {
    let mut stock = testing_engine();
    let (confirm_results, _) = stock.confirm(&vec![("VAINILLA".to_string(), 10)]);
    assert_eq!(Err(StockError::InvalidConfirm), confirm_results[0]);
}

#[test]
fn test09_cannot_cancel_after_confirm() {
    let mut stock = testing_engine();
    let _ = stock.reserve(0, "VAINILLA", 10);
    let _ = stock.confirm(&vec![("VAINILLA".to_string(), 10)]);
    let cancel_results = stock.cancel(&vec![("VAINILLA".to_string(), 5)]);
    assert_eq!(Err(StockError::InvalidCancel), cancel_results[0]);
}

#[test]
fn test10_manager_responds_after_successful_reserve() {
    let mut stock = testing_engine();
    let (_, note) = stock.reserve(0, "VAINILLA", 10);
    assert_eq!(
        note,
        StockResult { requester: 0, result: Some(("VAINILLA".to_string(), 10)) },
    );
}

#[test]
fn test11_manager_responds_after_failed_request() {
    let mut stock = testing_engine();
    let (_, note) = stock.reserve(0, "VAINILLA", 15);
    assert_eq!(note, StockResult { requester: 0, result: None });
}

#[test]
fn reserve_is_case_insensitive() {
    let mut stock = testing_engine();
    let (result, note) = stock.reserve(0, "vainilla", 4);
    assert!(result.is_ok());
    assert_eq!(note.result, Some(("VAINILLA".to_string(), 4)));
}

#[test]
fn confirm_outside_backup_commits_stock() {
    let mut stock = testing_engine();
    let _ = stock.reserve(0, "VAINILLA", 4);
    let (results, _) = stock.confirm(&vec![("VAINILLA".to_string(), 4)]);
    assert!(results[0].is_ok());
    assert_eq!(stock.flavors[0].stock, 6);
    assert_eq!(stock.flavors[0].reserved, 0);
    assert_eq!(stock.flavors[0].confirmed, 0);
}

#[test]
fn cancel_releases_reserve_and_keeps_stock() {
    let mut stock = testing_engine();
    let _ = stock.reserve(0, "VAINILLA", 4);
    assert_eq!(stock.flavors[0].reserved, 4);
    let results = stock.cancel(&vec![("VAINILLA".to_string(), 4)]);
    assert!(results[0].is_ok());
    assert_eq!(stock.flavors[0].stock, 10);
    assert_eq!(stock.flavors[0].reserved, 0);
}

#[test]
fn scenario_over_reserve() {
    // Reserve nine of ten, a second reserve of five is refused, and after a
    // cancellation it goes through.
    let mut stock = StockEngine::new(100);
    stock.add_flavor("VAINILLA", 10);
    let (first, _) = stock.reserve(1, "VAINILLA", 9);
    assert!(first.is_ok());
    let (second, note) = stock.reserve(2, "VAINILLA", 5);
    assert_eq!(second, Err(StockError::NotEnoughStock));
    assert_eq!(note.result, None);
    let results = stock.cancel(&vec![("VAINILLA".to_string(), 9)]);
    assert!(results[0].is_ok());
    let (third, _) = stock.reserve(3, "VAINILLA", 5);
    assert!(third.is_ok());
}

#[test]
fn scenario_backup_deferral() {
    // A confirm landing during a backup is staged in `confirmed`; the
    // snapshot still shows the old stock, and finalizing drains the stage.
    let mut stock = StockEngine::new(100);
    stock.add_flavor("CHOCOLATE", 5);
    let (reserved, _) = stock.reserve(1, "CHOCOLATE", 3);
    assert!(reserved.is_ok());
    let snapshot = stock.backup_start().expect("no backup was running");
    assert_eq!(snapshot.len(), 1);
    assert_eq!(snapshot[0], ("CHOCOLATE".to_string(), 5));
    assert_eq!(render_backup(&snapshot), "CHOCOLATE,5\n");
    let (results, _) = stock.confirm(&vec![("CHOCOLATE".to_string(), 3)]);
    assert!(results[0].is_ok());
    assert_eq!(stock.flavors[0].stock, 5);
    assert_eq!(stock.flavors[0].confirmed, 3);
    stock.finalize_backup();
    assert_eq!(stock.flavors[0].stock, 2);
    assert_eq!(stock.flavors[0].confirmed, 0);
    assert!(!stock.backup_in_progress);
}

#[test]
fn backup_refused_while_one_runs() {
    let mut stock = testing_engine();
    let first = stock.backup_start();
    assert!(first.is_ok());
    let second = stock.backup_start();
    assert_eq!(second, Err(StockError::BackupBusy));
}

#[test]
fn confirms_schedule_automatic_backup() {
    let mut stock = StockEngine::new(2);
    stock.add_flavor("VAINILLA", 10);
    let _ = stock.reserve(1, "VAINILLA", 2);
    let (_, due1) = stock.confirm(&vec![("VAINILLA".to_string(), 1)]);
    assert!(!due1);
    let (_, due2) = stock.confirm(&vec![("VAINILLA".to_string(), 1)]);
    assert!(due2);
}

#[test]
fn load_inventory_reads_lines_and_skips_bad_counts() {
    let lines = vec![
        "vainilla,10".to_string(),
        "CHOCOLATE,5".to_string(),
        "menta,many".to_string(),
        "incomplete".to_string(),
    ];
    let engine = StockEngine::load_inventory(&lines, 25);
    assert_eq!(engine.flavors.len(), 2);
    assert_eq!(engine.flavors[0].name, "VAINILLA");
    assert_eq!(engine.flavors[0].stock, 10);
    assert_eq!(engine.flavors[1].name, "CHOCOLATE");
    assert_eq!(engine.flavors[1].stock, 5);
    assert_eq!(engine.max_confirms_before_backup, 25);
}

#[test]
fn load_inventory_keeps_last_count_of_a_repeated_flavor() {
    let lines = vec!["vainilla,10".to_string(), "VAINILLA,7".to_string()];
    let engine = StockEngine::load_inventory(&lines, 25);
    assert_eq!(engine.flavors.len(), 1);
    assert_eq!(engine.flavors[0].stock, 7);
}

#[test]
fn rendered_backup_loads_back() {
    let mut stock = testing_engine();
    let snapshot = stock.backup_start().expect("no backup was running");
    let text = render_backup(&snapshot);
    assert_eq!(text, "VAINILLA,10\nCHOCOLATE,5\nFRUTILLA,3\n");
    let lines: Vec<String> = text.lines().map(|l| l.to_string()).collect();
    let reloaded = StockEngine::load_inventory(&lines, 25);
    assert_eq!(reloaded.flavors.len(), 3);
    assert_eq!(reloaded.flavors[0].name, "VAINILLA");
    assert_eq!(reloaded.flavors[0].stock, 10);
    assert_eq!(reloaded.flavors[2].name, "FRUTILLA");
    assert_eq!(reloaded.flavors[2].stock, 3);
}

#[test]
fn auto_backup_file_has_the_expected_shape() {
    let name = ice_cream_shop::stock::auto_backup_file();
    assert!(name.starts_with("auto-"));
    assert!(name.ends_with(".csv"));
}
