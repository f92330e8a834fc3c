use mmbak_parser::events::{map_key, Action, Key};
use mmbak_parser::reader::MMBakFile;
use mmbak_parser::tui::{
    build_account_rows, build_tx_rows, category_label, collect_tx, date_divider, first_visible, in_tx_window,
    scrolled_offset,
    truncate_chars, truncate_name, type_label, AccountGroup, AccountRow, ActivePanel, App, TxRow,
};
use mmbak_parser::types::{Asset, Transaction, TransactionType};

fn tx(uid: &str, ty: TransactionType, date: &str) -> Transaction {
    Transaction {
        uid: uid.to_string(),
        transaction_type: ty,
        raw_do_type: 1,
        amount: 10.0f64.to_bits(),
        date: date.to_string(),
        category_uid: None,
        category_name: None,
        parent_category_name: None,
        asset_uid: None,
        asset_name: None,
        to_asset_uid: None,
        to_asset_name: None,
        currency_uid: None,
        memo: None,
        note: None,
        payee: None,
        is_deleted: false,
    }
}

fn asset(uid: &str, name: &str, group: Option<&str>, deleted: bool) -> Asset {
    Asset {
        uid: uid.to_string(),
        name: name.to_string(),
        nicname: None,
        asset_type: 0,
        left_money: 0,
        calculated_balance: 5.0f64.to_bits(),
        currency_uid: None,
        group_uid: group.map(|g| g.to_string()),
        memo: None,
        is_deleted: deleted,
    }
}

fn group(uid: &str, name: &str, order: i64) -> AccountGroup {
    AccountGroup { uid: uid.to_string(), name: name.to_string(), order }
}

fn tx_uids(rows: &[TxRow]) -> Vec<String> {
    rows.iter()
        .map(|r| match r {
            TxRow::DateHeader { date } => format!("#{}", date),
            TxRow::Tx { tx } => tx.uid.clone(),
        })
        .collect()
}

fn account_names(rows: &[AccountRow]) -> Vec<String> {
    rows.iter()
        .map(|r| if r.is_header() { format!("#{}", r.display_name()) } else { r.display_name() })
        .collect()
}

/// A backup with two accounts in two groups and four transactions over two days.
fn sample_backup() -> MMBakFile {
    let mut t1 = tx("t1", TransactionType::Expense, "2024-01-01");
    t1.asset_uid = Some("cash".to_string());
    let mut t2 = tx("t2", TransactionType::TransferOut, "2024-01-01");
    t2.asset_uid = Some("cash".to_string());
    t2.to_asset_uid = Some("bank".to_string());
    let mut t3 = tx("t3", TransactionType::TransferIn, "2024-01-01");
    t3.asset_uid = Some("bank".to_string());
    let mut t4 = tx("t4", TransactionType::Income, "2024-01-02");
    t4.asset_uid = Some("bank".to_string());
    let mut t5 = tx("t5", TransactionType::Income, "2024-01-02");
    t5.asset_uid = Some("cash".to_string());
    t5.is_deleted = true;
    MMBakFile::new(
        vec![t1, t2, t3, t4, t5],
        vec![asset("cash", "Cash", Some("g1"), false), asset("bank", "Bank", Some("g2"), false)],
        vec![],
        vec![],
        0,
        0,
        0,
    )
}

#[test]
fn date_dividers_come_before_each_new_date() {
    let rows = build_tx_rows(vec![
        tx("a", TransactionType::Expense, "2024-01-01"),
        tx("b", TransactionType::Expense, "2024-01-01"),
        tx("c", TransactionType::Income, "2024-01-03"),
        tx("d", TransactionType::Income, "2024-01-01"),
    ]);
    assert_eq!(tx_uids(&rows), vec!["#2024-01-01", "a", "b", "#2024-01-03", "c", "#2024-01-01", "d"]);
    assert!(rows[0].is_header());
    assert!(!rows[1].is_header());
}

#[test]
fn empty_date_gets_no_divider_at_the_start() {
    let rows = build_tx_rows(vec![tx("a", TransactionType::Expense, ""), tx("b", TransactionType::Expense, "x")]);
    assert_eq!(tx_uids(&rows), vec!["a", "#x", "b"]);
    assert!(build_tx_rows(vec![]).is_empty());
}

#[test]
fn transfer_pairs_are_shown_once() {
    let a = tx("a", TransactionType::TransferOut, "d");
    let b = tx("b", TransactionType::TransferIn, "d");
    let c = tx("c", TransactionType::Expense, "d");
    let kept = collect_tx(&vec![&a, &b, &c]);
    let uids: Vec<&str> = kept.iter().map(|t| t.uid.as_str()).collect();
    assert_eq!(uids, vec!["a", "c"]);
}

#[test]
fn accounts_are_grouped_in_group_order() {
    let backup = MMBakFile::new(
        vec![],
        vec![
            asset("1", "Wallet", Some("cash"), false),
            asset("2", "Checking", Some("bank"), false),
            asset("3", "Loose", None, false),
            asset("4", "Savings", Some("bank"), false),
            asset("5", "Closed", Some("bank"), true),
            asset("6", "Card", Some("cards"), false),
        ],
        vec![],
        vec![],
        0,
        0,
        0,
    );
    let groups = vec![group("bank", "Banks", 1), group("cash", "Cash", 0), group("cards", "Cards", 1)];
    let rows = build_account_rows(&backup, &groups);
    assert_eq!(
        account_names(&rows),
        vec!["#Cash", "Wallet", "#Banks", "Checking", "Savings", "#Cards", "Card", "#Uncategorized", "Loose"]
    );
    // Each of the five active accounts is shown once.
    assert_eq!(rows.iter().filter(|r| !r.is_header()).count(), 5);
    assert_eq!(rows[1].asset_uid(), Some("1".to_string()));
    assert_eq!(rows[0].asset_uid(), None);
    assert_eq!(rows[0].balance(), None);
    assert_eq!(rows[1].balance().map(f64::from_bits), Some(5.0));
}

#[test]
fn unknown_groups_come_last_in_first_seen_order() {
    let backup = MMBakFile::new(
        vec![],
        vec![asset("1", "A", Some("x"), false), asset("2", "B", Some("y"), false), asset("3", "C", Some("k"), false)],
        vec![],
        vec![],
        0,
        0,
        0,
    );
    let rows = build_account_rows(&backup, &vec![group("k", "Known", 5)]);
    assert_eq!(account_names(&rows), vec!["#Known", "C", "#Uncategorized", "A", "#Uncategorized", "B"]);
}

#[test]
fn nicknames_are_shown_for_accounts() {
    let mut a = asset("1", "Name", None, false);
    a.nicname = Some("Nick".to_string());
    let backup = MMBakFile::new(vec![], vec![a], vec![], vec![], 0, 0, 0);
    let rows = build_account_rows(&backup, &vec![]);
    assert_eq!(account_names(&rows), vec!["#Uncategorized", "Nick"]);
}

#[test]
fn viewer_starts_on_all_transactions() {
    let app = App::new(sample_backup(), &vec![group("g1", "Cash", 0), group("g2", "Bank", 1)]);
    assert_eq!(account_names(&app.account_rows), vec!["#Cash", "Cash", "#Bank", "Bank"]);
    assert_eq!(tx_uids(&app.tx_rows), vec!["#2024-01-01", "t1", "t2", "#2024-01-02", "t4"]);
    assert_eq!(app.account_cursor, 0);
    assert_eq!(app.tx_cursor, 0);
    assert_eq!(app.tx_offset, 0);
    assert!(app.selected_asset_uid.is_none());
    assert!(app.active_panel == ActivePanel::Accounts);
    assert!(!app.should_quit);
}

#[test]
fn cursor_skips_headers() {
    let mut app = App::new(sample_backup(), &vec![group("g1", "Cash", 0), group("g2", "Bank", 1)]);
    app.move_down();
    assert_eq!(app.account_cursor, 1);
    app.move_down();
    assert_eq!(app.account_cursor, 3);
    app.move_down();
    assert_eq!(app.account_cursor, 3);
    app.move_up();
    assert_eq!(app.account_cursor, 1);
    app.move_up();
    assert_eq!(app.account_cursor, 0);
    app.move_up();
    assert_eq!(app.account_cursor, 0);

    app.switch_panel();
    app.move_down();
    assert_eq!(app.tx_cursor, 1);
    assert_eq!(app.account_cursor, 0);
    app.move_down();
    app.move_down();
    assert_eq!(app.tx_cursor, 4);
    app.move_up();
    assert_eq!(app.tx_cursor, 2);
}

#[test]
fn switching_twice_restores_the_focus() {
    let mut app = App::new(sample_backup(), &vec![]);
    app.switch_panel();
    assert!(app.active_panel == ActivePanel::Transactions);
    app.switch_panel();
    assert!(app.active_panel == ActivePanel::Accounts);
}

#[test]
fn selecting_an_account_shows_its_transactions() {
    let mut app = App::new(sample_backup(), &vec![group("g1", "Cash", 0), group("g2", "Bank", 1)]);
    app.tx_cursor = 3;
    app.tx_offset = 2;
    app.apply(Action::Down);
    app.apply(Action::Down);
    assert_eq!(app.account_cursor, 3);
    app.apply(Action::Select);
    assert_eq!(app.selected_asset_uid, Some("bank".to_string()));
    // The transfer into the bank is shown through its outgoing record.
    assert_eq!(tx_uids(&app.tx_rows), vec!["#2024-01-01", "t2", "#2024-01-02", "t4"]);
    assert_eq!(app.tx_cursor, 0);
    assert_eq!(app.tx_offset, 0);

    app.apply(Action::Deselect);
    assert!(app.selected_asset_uid.is_none());
    assert_eq!(tx_uids(&app.tx_rows), vec!["#2024-01-01", "t1", "t2", "#2024-01-02", "t4"]);
}

#[test]
fn selecting_on_a_header_or_the_other_panel_changes_nothing() {
    let mut app = App::new(sample_backup(), &vec![]);
    app.select_account();
    assert!(app.selected_asset_uid.is_none());
    assert_eq!(tx_uids(&app.tx_rows).len(), 5);
    app.apply(Action::SwitchPanel);
    app.account_cursor = 1;
    app.apply(Action::Select);
    assert!(app.selected_asset_uid.is_none());
}

#[test]
fn quitting_sets_the_flag() {
    let mut app = App::new(sample_backup(), &vec![]);
    app.apply(Action::Quit);
    assert!(app.should_quit);
}

#[test]
fn keys_map_to_actions() {
    assert_eq!(map_key(Key::Up), Some(Action::Up));
    assert_eq!(map_key(Key::Char('k')), Some(Action::Up));
    assert_eq!(map_key(Key::Down), Some(Action::Down));
    assert_eq!(map_key(Key::Char('j')), Some(Action::Down));
    assert_eq!(map_key(Key::Tab), Some(Action::SwitchPanel));
    assert_eq!(map_key(Key::Enter), Some(Action::Select));
    assert_eq!(map_key(Key::Esc), Some(Action::Deselect));
    assert_eq!(map_key(Key::Char('q')), Some(Action::Quit));
    assert_eq!(map_key(Key::Char('x')), None);
    assert_eq!(map_key(Key::Other), None);
}

#[test]
fn scrolling_keeps_the_cursor_visible() {
    assert_eq!(scrolled_offset(3, 0, 10), 0);
    assert_eq!(scrolled_offset(10, 0, 10), 1);
    assert_eq!(scrolled_offset(25, 5, 10), 16);
    assert_eq!(scrolled_offset(2, 5, 10), 2);
    assert_eq!(scrolled_offset(0, 0, 0), 1);
    let mut app = App::new(sample_backup(), &vec![]);
    app.tx_cursor = 4;
    app.adjust_tx_offset(2);
    assert_eq!(app.tx_offset, 3);
    app.tx_cursor = 1;
    app.adjust_tx_offset(2);
    assert_eq!(app.tx_offset, 1);
}

#[test]
fn first_visible_row_brings_the_cursor_in() {
    assert_eq!(first_visible(0, 5), 0);
    assert_eq!(first_visible(4, 5), 0);
    assert_eq!(first_visible(5, 5), 1);
    assert_eq!(first_visible(12, 5), 8);
    assert_eq!(first_visible(3, 0), 0);
}

#[test]
fn labels_of_transactions() {
    assert_eq!(type_label(TransactionType::Income), "Income");
    assert_eq!(type_label(TransactionType::Expense), "Expense");
    assert_eq!(type_label(TransactionType::TransferOut), "Transfer");
    assert_eq!(type_label(TransactionType::TransferIn), "TransferIn");
    let mut t = tx("a", TransactionType::Expense, "d");
    assert_eq!(category_label(&t), "-");
    t.category_name = Some("Food".to_string());
    assert_eq!(category_label(&t), "Food");
    t.parent_category_name = Some("Living".to_string());
    assert_eq!(category_label(&t), "Living/Food");
    t.category_name = None;
    assert_eq!(category_label(&t), "-");
}

#[test]
fn long_texts_are_cut_with_an_ellipsis() {
    assert_eq!(truncate_chars("hello", 5), "hello");
    assert_eq!(truncate_chars("hello world", 5), "hell…");
    assert_eq!(truncate_chars("héllo wörld", 6), "héllo…");
    assert_eq!(truncate_chars("", 0), "");
    assert_eq!(truncate_chars("ab", 0), "…");
    assert_eq!(truncate_name("Checking", 20), "Checking");
    assert_eq!(truncate_name("A very long account name", 10), "A very lo…");
    // Width counts bytes: five two-byte characters do not fit in eight.
    assert_eq!(truncate_name("ééééé", 8), "ééééé…");
    assert_eq!(truncate_name("éé", 4), "éé");
}

#[test]
fn actions_move_the_focused_cursor() {
    let mut app = App::new(sample_backup(), &vec![group("g1", "Cash", 0), group("g2", "Bank", 1)]);
    app.apply(Action::Down);
    assert_eq!(app.account_cursor, 1);
    app.apply(Action::Down);
    assert_eq!(app.account_cursor, 3);
    app.apply(Action::Up);
    assert_eq!(app.account_cursor, 1);
    assert_eq!(app.tx_cursor, 0);
    app.apply(Action::SwitchPanel);
    assert!(app.active_panel == ActivePanel::Transactions);
    app.apply(Action::Down);
    assert_eq!(app.tx_cursor, 1);
    assert_eq!(app.account_cursor, 1);
    app.apply(Action::Select);
    assert!(app.selected_asset_uid.is_none());
}

#[test]
fn transaction_window_leaves_a_row_for_the_titles() {
    assert!(!in_tx_window(1, 2, 5));
    assert!(in_tx_window(2, 2, 5));
    assert!(in_tx_window(5, 2, 5));
    assert!(!in_tx_window(6, 2, 5));
    assert!(!in_tx_window(0, 0, 1));
}

#[test]
fn date_dividers_fill_the_width() {
    assert_eq!(date_divider("2024-01-01", 24), "── 2024-01-01 ──────");
    assert_eq!(date_divider("2024-01-01", 10), "── 2024-01-01 ");
    assert_eq!(date_divider("", 9), "──  ─");
}
