use mmbak_parser::reader::{
    balance_postings, calculate_stats, indices_of, AssetRow, CategoryRow, CurrencyRow, MMBakFile,
    TransactionRow,
};
use mmbak_parser::text::{i64_to_decimal, parse_i64, text_contains};
use mmbak_parser::types::{
    format_size, Asset, Category, Currency, Transaction, TransactionType, ONE_F64_BITS,
};

#[test]
fn test_format_size() {
    assert_eq!(format_size(0), "0 B");
    assert_eq!(format_size(512), "512 B");
    assert_eq!(format_size(1024), "1.00 KB");
    assert_eq!(format_size(1536), "1.50 KB");
    assert_eq!(format_size(1024 * 1024), "1.00 MB");
    assert_eq!(format_size(1024 * 1024 * 1024), "1.00 GB");
}

/// The formula of the float-based implementation.
fn format_size_float(size: u64) -> String {
    const UNITS: &[&str] = &["B", "KB", "MB", "GB", "TB"];
    if size == 0 {
        return "0 B".to_string();
    }
    let exp = (size as f64).log(1024.0).min(UNITS.len() as f64 - 1.0) as usize;
    let value = size as f64 / 1024f64.powi(exp as i32);
    if exp == 0 {
        format!("{} {}", size, UNITS[0])
    } else {
        format!("{:.2} {}", value, UNITS[exp])
    }
}

#[test]
fn format_size_matches_float_formula() {
    let mut samples: Vec<u64> = vec![1, 2, 9, 10, 999, 1000, 1023, 1025, 1152, 1153, 1151, 2047, 2048];
    for e in 1..5u32 {
        let p = 1024u64.pow(e);
        for d in [0u64, 1, 2, 3, 5, 511, 512, 513] {
            samples.push(p + d);
            samples.push(p - d);
        }
    }
    samples.extend([
        (1u64 << 53) - 1,
        1u64 << 53,
        (1u64 << 53) + 1,
        (1u64 << 53) + 3,
        (1u64 << 54) + 2,
        (1u64 << 54) + 6,
        u64::MAX,
        u64::MAX - 1024,
        123_456_789_012_345,
        987_654_321,
        5_368_709_120,
    ]);
    let mut x: u64 = 0x9E37_79B9_7F4A_7C15;
    for _ in 0..20000 {
        x ^= x << 13;
        x ^= x >> 7;
        x ^= x << 17;
        samples.push(x >> (x % 60));
    }
    for s in samples {
        assert_eq!(format_size(s), format_size_float(s), "size {}", s);
    }
}

#[test]
fn format_size_rounds_half_to_even() {
    // 1152 bytes are exactly 1.125 KB.
    assert_eq!(format_size(1152), "1.12 KB");
    assert_eq!(format_size(2048 + 128 + 256), format_size_float(2048 + 128 + 256));
    assert_eq!(format_size(u64::MAX), "16777216.00 TB");
}

#[test]
fn transaction_type_codes() {
    assert_eq!(TransactionType::from_str("E"), Some(TransactionType::Expense));
    assert_eq!(TransactionType::from_str("I"), Some(TransactionType::Income));
    assert_eq!(TransactionType::from_str("TO"), Some(TransactionType::TransferOut));
    assert_eq!(TransactionType::from_str("TI"), Some(TransactionType::TransferIn));
    assert_eq!(TransactionType::from_str("T"), None);
    assert_eq!(TransactionType::from_str(""), None);
    assert_eq!(TransactionType::from_i64(0), Some(TransactionType::Income));
    assert_eq!(TransactionType::from_i64(7), Some(TransactionType::Income));
    assert_eq!(TransactionType::from_i64(1), Some(TransactionType::Expense));
    assert_eq!(TransactionType::from_i64(8), Some(TransactionType::Expense));
    assert_eq!(TransactionType::from_i64(3), Some(TransactionType::TransferOut));
    assert_eq!(TransactionType::from_i64(4), Some(TransactionType::TransferIn));
    for v in [2i64, 5, 6, 9, -1, i64::MAX] {
        assert_eq!(TransactionType::from_i64(v), None);
    }
    assert!(TransactionType::TransferIn.is_transfer());
    assert!(TransactionType::TransferOut.is_transfer());
    assert!(!TransactionType::Income.is_transfer());
    assert!(!TransactionType::Expense.is_transfer());
    assert_eq!(TransactionType::TransferOut.as_str(), "TransferOut");
    assert_eq!(TransactionType::Expense.as_str(), "Expense");
}

#[test]
fn parse_i64_matches_std() {
    for s in [
        "0", "7", "-3", "+4", "", "-", "+", "12a", " 1", "007", "9223372036854775807",
        "9223372036854775808", "-9223372036854775808", "-9223372036854775809", "99999999999999999999",
        "١",
    ] {
        assert_eq!(parse_i64(s), s.parse::<i64>().ok(), "text {:?}", s);
    }
    assert_eq!(i64_to_decimal(-42), "-42");
    assert_eq!(i64_to_decimal(i64::MIN), i64::MIN.to_string());
    assert_eq!(i64_to_decimal(0), "0");
    assert!(text_contains("a permission b", "permission"));
    assert!(!text_contains("perm", "permission"));
}

pub fn tx(uid: &str, ty: TransactionType, date: &str) -> Transaction {
    Transaction {
        uid: uid.to_string(),
        transaction_type: ty,
        raw_do_type: 1,
        amount: 10.0f64.to_bits(),
        date: date.to_string(),
        category_uid: None,
        category_name: None,
        parent_category_name: None,
        asset_uid: None,
        asset_name: None,
        to_asset_uid: None,
        to_asset_name: None,
        currency_uid: None,
        memo: None,
        note: None,
        payee: None,
        is_deleted: false,
    }
}

#[test]
fn description_prefers_route_then_note_memo_payee() {
    let mut t = tx("1", TransactionType::TransferOut, "2024-01-01");
    t.asset_name = Some("Cash".to_string());
    t.memo = Some("memo".to_string());
    assert_eq!(t.description(), "Cash → ?");
    t.transaction_type = TransactionType::Expense;
    assert_eq!(t.description(), "memo");
    t.note = Some(String::new());
    assert_eq!(t.description(), "memo");
    t.note = Some("note".to_string());
    assert_eq!(t.description(), "note");
    let mut u = tx("2", TransactionType::Income, "");
    assert_eq!(u.description(), "No description");
    u.payee = Some("Shop".to_string());
    assert_eq!(u.description(), "Shop");
}

fn tx_row(uid: &str, do_type: Option<&str>, deleted: Option<i64>) -> TransactionRow {
    TransactionRow {
        uid: uid.to_string(),
        do_type: do_type.map(|s| s.to_string()),
        amount: 2.5f64.to_bits(),
        date: None,
        category_uid: None,
        category_name: None,
        parent_category_name: None,
        asset_uid: Some("A".to_string()),
        asset_name: None,
        to_asset_uid: None,
        to_asset_name: None,
        currency_uid: None,
        memo: None,
        note: None,
        payee: None,
        is_deleted: deleted,
    }
}

#[test]
fn rows_become_records() {
    let t = Transaction::from_row(tx_row("u", Some("8"), Some(1)));
    assert_eq!(t.transaction_type, TransactionType::Expense);
    assert_eq!(t.raw_do_type, 8);
    assert!(t.is_deleted);
    assert_eq!(t.date, "");
    assert_eq!(f64::from_bits(t.amount), 2.5);
    let t = Transaction::from_row(tx_row("u", Some("0"), None));
    assert_eq!(t.transaction_type, TransactionType::Income);
    assert!(!t.is_deleted);
    let t = Transaction::from_row(tx_row("u", Some("x"), Some(0)));
    assert_eq!(t.transaction_type, TransactionType::Expense);
    assert_eq!(t.raw_do_type, -1);
    let t = Transaction::from_row(tx_row("u", None, Some(0)));
    assert_eq!(t.raw_do_type, -1);

    let a = Asset::from_row(AssetRow {
        uid: "A1".to_string(),
        nicname: None,
        asset_type: None,
        left_money: Some(5),
        currency_uid: None,
        group_uid: None,
        memo: None,
        is_deleted: Some(0),
    });
    assert_eq!(a.name, "A1");
    assert_eq!(a.display_name(), "A1");
    assert_eq!(a.asset_type, 0);
    assert_eq!(a.left_money, 5);
    assert_eq!(f64::from_bits(a.calculated_balance), 0.0);
    let b = Asset::from_row(AssetRow {
        uid: "A2".to_string(),
        nicname: Some("Wallet".to_string()),
        asset_type: Some(3),
        left_money: None,
        currency_uid: None,
        group_uid: None,
        memo: None,
        is_deleted: None,
    });
    assert_eq!(b.name, "Wallet");
    assert_eq!(b.display_name(), "Wallet");

    let c = Category::from_row(CategoryRow {
        uid: "C".to_string(),
        name: "Food".to_string(),
        parent_uid: None,
        do_type: None,
        status: Some(2),
        is_deleted: Some(7),
    });
    assert_eq!(c.do_type, 0);
    assert_eq!(c.status, 2);
    assert!(c.is_deleted);

    let cur = Currency::from_row(CurrencyRow {
        uid: "U".to_string(),
        iso: "EUR".to_string(),
        symbol: None,
        rate: None,
        is_main: None,
        is_show: None,
    });
    assert_eq!(cur.rate, ONE_F64_BITS);
    assert_eq!(f64::from_bits(cur.rate), 1.0);
    assert!(!cur.is_main_currency);
    assert!(cur.is_show);
}

#[test]
fn postings_follow_transaction_types() {
    let mut a = tx("1", TransactionType::Income, "d");
    a.asset_uid = Some("A".to_string());
    let mut b = tx("2", TransactionType::Expense, "d");
    b.asset_uid = Some("A".to_string());
    let mut c = tx("3", TransactionType::TransferOut, "d");
    c.asset_uid = Some("A".to_string());
    c.to_asset_uid = Some("B".to_string());
    let mut d = tx("4", TransactionType::TransferIn, "d");
    d.asset_uid = Some("B".to_string());
    let mut e = tx("5", TransactionType::Income, "d");
    e.asset_uid = Some("B".to_string());
    e.is_deleted = true;
    let all = vec![a, b, c, d, e];
    let p = balance_postings(&all);
    let got: Vec<(String, usize, bool)> = p.iter().map(|p| (p.asset_uid.clone(), p.tx_index, p.credit)).collect();
    assert_eq!(
        got,
        vec![
            ("A".to_string(), 0, true),
            ("A".to_string(), 1, false),
            ("A".to_string(), 2, false),
            ("B".to_string(), 2, true),
        ]
    );
    assert_eq!(indices_of(&all, TransactionType::Income), vec![0]);
    assert_eq!(indices_of(&all, TransactionType::Expense), vec![1]);
    let stats = calculate_stats(&all, &[], &[], &[], 1.0f64.to_bits(), 2.0f64.to_bits());
    assert_eq!(stats.total_transactions, 5);
    assert_eq!(stats.active_transactions, 4);
    assert_eq!(f64::from_bits(stats.total_expense), 2.0);
}

#[test]
fn backup_queries() {
    let mut t1 = tx("1", TransactionType::Income, "d");
    t1.is_deleted = true;
    let t2 = tx("2", TransactionType::Expense, "d");
    let asset = |uid: &str, deleted: bool| Asset {
        uid: uid.to_string(),
        name: uid.to_string(),
        nicname: None,
        asset_type: 0,
        left_money: 0,
        calculated_balance: 0,
        currency_uid: None,
        group_uid: None,
        memo: None,
        is_deleted: deleted,
    };
    let cat = Category {
        uid: "c".to_string(),
        name: "n".to_string(),
        parent_uid: None,
        do_type: 0,
        status: 0,
        is_deleted: false,
    };
    let f = MMBakFile::new(vec![t1, t2], vec![asset("a", true), asset("b", false)], vec![cat], vec![], 0, 0, 99);
    assert_eq!(f.transactions().len(), 2);
    assert_eq!(f.active_transactions().len(), 1);
    assert_eq!(f.active_transactions()[0].uid, "2");
    assert_eq!(f.active_assets().len(), 1);
    assert_eq!(f.active_categories().len(), 1);
    assert_eq!(f.file_size(), 99);
    assert!(f.find_asset("a").is_some());
    assert!(f.find_asset("z").is_none());
    assert!(f.find_category("c").is_some());
    assert!(f.find_currency("c").is_none());
    assert_eq!(f.stats().active_assets, 1);
    assert_eq!(f.stats().active_transactions, 1);
    assert_eq!(f.stats().total_assets, 2);
    assert_eq!(f.stats().total_categories, 1);
}
