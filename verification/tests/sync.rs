use mmbak_parser::error::MMBakError;
use mmbak_parser::reader::MMBakFile;
use mmbak_parser::sync::{
    build_rows, build_rows_at, google_error_text, sync_step, AccountMapping, EntityLogRow, SyncConfig,
    SyncStep,
};
use mmbak_parser::types::Asset;

const ENTITY_ID_FORMULA: &str =
    r#"=XLOOKUP(INDIRECT("D"&ROW()),Entity!$C$2:$C$1005,Entity!$A$2:$A$1005,"NOT_FOUND")"#;
const SYMBOL_FORMULA: &str =
    r#"=XLOOKUP(INDIRECT("D"&ROW()),Entity!$C$2:$C$1005,Entity!$E$2:$E$1005,"NOT_FOUND")"#;

fn asset(uid: &str, name: &str, nick: Option<&str>, deleted: bool) -> Asset {
    Asset {
        uid: uid.to_string(),
        name: name.to_string(),
        nicname: nick.map(|n| n.to_string()),
        asset_type: 0,
        left_money: 0,
        calculated_balance: 0,
        currency_uid: None,
        group_uid: None,
        memo: None,
        is_deleted: deleted,
    }
}

fn backup(assets: Vec<Asset>) -> MMBakFile {
    MMBakFile::new(vec![], assets, vec![], vec![], 0, 0, 0)
}

fn mapping(mmbak: &str, entity: &str, id: Option<i64>) -> AccountMapping {
    AccountMapping { mmbak_name: mmbak.to_string(), entity_name: entity.to_string(), entity_id: id }
}

fn config(mappings: Vec<AccountMapping>) -> SyncConfig {
    SyncConfig {
        spreadsheet_id: "sheet".to_string(),
        service_account_key: "key.json".to_string(),
        mappings,
    }
}

fn texts(v: &[&str]) -> Vec<String> {
    v.iter().map(|s| s.to_string()).collect()
}

#[test]
fn rows_take_the_balance_of_the_named_active_account() {
    let b = backup(vec![
        asset("1", "Old", Some("Cash"), true),
        asset("2", "Wallet", Some("Cash"), false),
        asset("3", "Bank", None, false),
    ]);
    let c = config(vec![mapping("Cash", "CASH-E", Some(7)), mapping("Bank", "BANK-E", None)]);
    let rows = build_rows_at(&b, &c, &"2024-05-06 07:08:09".to_string(), &texts(&["1.00", "12.50", "-3.25"]))
        .unwrap();
    assert_eq!(rows.len(), 2);
    assert_eq!(rows[0].timestamp, "2024-05-06 07:08:09");
    assert_eq!(rows[0].entity_id, Some(7));
    assert_eq!(rows[0].denormation_holding, "12.50");
    assert_eq!(rows[0].valuation, "12.50");
    assert_eq!(rows[0].entity_name, "CASH-E");
    assert_eq!(rows[1].entity_id, None);
    assert_eq!(rows[1].valuation, "-3.25");
    assert_eq!(rows[1].entity_name, "BANK-E");
}

#[test]
fn a_missing_account_is_an_error() {
    let b = backup(vec![asset("1", "Cash", None, true)]);
    let c = config(vec![mapping("Cash", "E", None)]);
    match build_rows_at(&b, &c, &"t".to_string(), &texts(&["0.00"])) {
        Err(MMBakError::EntryNotFound(m)) => assert_eq!(m, "Account 'Cash' not found in .mmbak file"),
        _ => panic!("expected EntryNotFound"),
    }
    let e = build_rows_at(&b, &c, &"t".to_string(), &texts(&["0.00"])).unwrap_err();
    assert_eq!(e.message(), "Entry not found: Account 'Cash' not found in .mmbak file");
}

#[test]
fn no_mappings_give_no_rows() {
    let b = backup(vec![]);
    let rows = build_rows_at(&b, &config(vec![]), &"t".to_string(), &texts(&[])).unwrap();
    assert!(rows.is_empty());
    assert_eq!(sync_step(rows.len(), false), SyncStep::NothingToSync);
}

#[test]
fn rows_are_stamped_with_the_local_time() {
    let b = backup(vec![asset("1", "Cash", None, false)]);
    let rows = build_rows(&b, &config(vec![mapping("Cash", "E", Some(1))]), &texts(&["2.00"])).unwrap();
    assert_eq!(rows.len(), 1);
    let ts = rows[0].timestamp.as_bytes();
    assert_eq!(ts.len(), 19);
    assert_eq!(ts[4], b'-');
    assert_eq!(ts[10], b' ');
    assert_eq!(ts[13], b':');
    assert_eq!(rows[0].valuation, "2.00");
}

#[test]
fn row_cells_in_column_order() {
    let mut row = EntityLogRow {
        timestamp: "ts".to_string(),
        entity_id: Some(-42),
        denormation_holding: "1.50".to_string(),
        entity_name: "Name".to_string(),
        valuation: "1.50".to_string(),
    };
    assert_eq!(row.to_vec(), vec!["ts", "-42", "1.50", "Name", SYMBOL_FORMULA, "1.50"]);
    row.entity_id = None;
    assert_eq!(row.to_vec(), vec!["ts", ENTITY_ID_FORMULA, "1.50", "Name", SYMBOL_FORMULA, "1.50"]);
    assert_eq!(row.entity_id_formula(), ENTITY_ID_FORMULA);
    assert_eq!(row.symbol_formula(), SYMBOL_FORMULA);
    row.entity_id = Some(i64::MIN);
    assert_eq!(row.to_vec()[1], "-9223372036854775808");
}

#[test]
fn dry_runs_preview_and_others_append() {
    assert_eq!(sync_step(0, true), SyncStep::NothingToSync);
    assert_eq!(sync_step(3, true), SyncStep::Preview);
    assert_eq!(sync_step(3, false), SyncStep::Append);
}

#[test]
fn permission_errors_get_advice() {
    let m = google_error_text("{\"status\": \"PERMISSION_DENIED\"}", "Bad request");
    assert!(m.starts_with("Permission denied.\n\nThe service account does not have access"));
    assert!(m.ends_with("Raw response: {\"status\": \"PERMISSION_DENIED\"}"));
    let m2 = google_error_text("no permission here", "x");
    assert!(m2.starts_with("Permission denied."));
    assert_eq!(google_error_text("quota exceeded", "Quota"), "Quota");
}

#[test]
fn error_messages_name_their_kind() {
    assert_eq!(MMBakError::DatabaseError("x".to_string()).message(), "Database error: x");
    assert_eq!(MMBakError::InvalidDataFormat("y".to_string()).message(), "Invalid data format: y");
    assert_eq!(MMBakError::ConfigParseError("z".to_string()).message(), "Config parse error: z");
    assert_eq!(MMBakError::JsonError("j".to_string()).message(), "JSON error: j");
    assert_eq!(MMBakError::GoogleApiError("g".to_string()).message(), "Google API error: g");
    let io = MMBakError::Io(std::io::Error::new(std::io::ErrorKind::Other, "disk"));
    assert_eq!(io.message(), "IO error: disk");
    let sq = MMBakError::SqliteError(rusqlite::Error::InvalidQuery);
    assert!(sq.message().starts_with("SQLite error: "));
}
