//! The records of a backup database, turned from the rows the database gives
//! into the library's types, and the backup as a whole.

use vstd::prelude::*;
use crate::text::{parse_i64, spec_parse_i64, str_eq};
use crate::types::{
    Asset, Category, Currency, DatabaseStats, ONE_F64_BITS, Transaction, TransactionType,
    ZERO_F64_BITS, spec_type_from_do_type,
};

verus! {

/// The columns of a ZINOUTCOME row, as read from the database.
pub struct TransactionRow {
    pub uid: String,
    pub do_type: Option<String>,
    /// ZAMOUNT, as the bit pattern of a 64-bit float
    pub amount: u64,
    pub date: Option<String>,
    pub category_uid: Option<String>,
    pub category_name: Option<String>,
    pub parent_category_name: Option<String>,
    pub asset_uid: Option<String>,
    pub asset_name: Option<String>,
    pub to_asset_uid: Option<String>,
    pub to_asset_name: Option<String>,
    pub currency_uid: Option<String>,
    pub memo: Option<String>,
    pub note: Option<String>,
    pub payee: Option<String>,
    /// ZISDEL, or `None` where it could not be read as an integer
    pub is_deleted: Option<i64>,
}

/// The columns of a ZASSET row; an integer column that could not be read is `None`.
pub struct AssetRow {
    pub uid: String,
    pub nicname: Option<String>,
    pub asset_type: Option<i64>,
    pub left_money: Option<i64>,
    pub currency_uid: Option<String>,
    pub group_uid: Option<String>,
    pub memo: Option<String>,
    pub is_deleted: Option<i64>,
}

/// The columns of a ZCATEGORY row; an integer column that could not be read is `None`.
pub struct CategoryRow {
    pub uid: String,
    pub name: String,
    pub parent_uid: Option<String>,
    pub do_type: Option<i64>,
    pub status: Option<i64>,
    pub is_deleted: Option<i64>,
}

/// The columns of a ZCURRENCY row; a column that could not be read is `None`.
pub struct CurrencyRow {
    pub uid: String,
    pub iso: String,
    pub symbol: Option<String>,
    /// ZRATE, as the bit pattern of a 64-bit float
    pub rate: Option<u64>,
    pub is_main: Option<i64>,
    pub is_show: Option<i64>,
}

pub open spec fn or_default(o: Option<i64>, d: i64) -> i64 {
    match o {
        Some(v) => v,
        None => d,
    }
}

/// The type of a transaction whose DO_TYPE column holds `do_type`: the type
/// that number stands for, an expense when there is none.
pub open spec fn spec_row_type(do_type: Option<String>) -> TransactionType {
    match do_type {
        Some(s) => match spec_parse_i64(s@) {
            Some(v) => match spec_type_from_do_type(v as int) {
                Some(t) => t,
                None => TransactionType::Expense,
            },
            None => TransactionType::Expense,
        },
        None => TransactionType::Expense,
    }
}

/// The DO_TYPE number, -1 when there is none.
pub open spec fn spec_row_do_type(do_type: Option<String>) -> i64 {
    match do_type {
        Some(s) => match spec_parse_i64(s@) {
            Some(v) => v,
            None => -1i64,
        },
        None => -1i64,
    }
}

impl Transaction {
    /// The transaction a ZINOUTCOME row describes.
    pub fn from_row(row: TransactionRow) -> (r: Transaction)
        ensures
            r.uid == row.uid,
            r.transaction_type == spec_row_type(row.do_type),
            r.raw_do_type == spec_row_do_type(row.do_type),
            r.amount == row.amount,
            r.date@ == (match row.date {
                Some(d) => d@,
                None => Seq::<char>::empty(),
            }),
            r.category_uid == row.category_uid,
            r.category_name == row.category_name,
            r.parent_category_name == row.parent_category_name,
            r.asset_uid == row.asset_uid,
            r.asset_name == row.asset_name,
            r.to_asset_uid == row.to_asset_uid,
            r.to_asset_name == row.to_asset_name,
            r.currency_uid == row.currency_uid,
            r.memo == row.memo,
            r.note == row.note,
            r.payee == row.payee,
            r.is_deleted == (or_default(row.is_deleted, 0) != 0),
    {
        let parsed = match &row.do_type {
            Some(s) => parse_i64(s.as_str()),
            None => None,
        };
        let transaction_type = match parsed {
            Some(v) => match TransactionType::from_i64(v) {
                Some(t) => t,
                None => TransactionType::Expense,
            },
            None => TransactionType::Expense,
        };
        let raw_do_type = match parsed {
            Some(v) => v,
            None => -1i64,
        };
        let is_deleted = match row.is_deleted {
            Some(v) => v,
            None => 0,
        };
        let date = match row.date {
            Some(d) => d,
            None => String::new(),
        };
        Transaction {
            uid: row.uid,
            transaction_type,
            raw_do_type,
            amount: row.amount,
            date,
            category_uid: row.category_uid,
            category_name: row.category_name,
            parent_category_name: row.parent_category_name,
            asset_uid: row.asset_uid,
            asset_name: row.asset_name,
            to_asset_uid: row.to_asset_uid,
            to_asset_name: row.to_asset_name,
            currency_uid: row.currency_uid,
            memo: row.memo,
            note: row.note,
            payee: row.payee,
            is_deleted: is_deleted != 0,
        }
    }
}

impl Asset {
    /// The account a ZASSET row describes; it is named by its nickname, or by
    /// its UID when it has none, and its balance starts at zero.
    pub fn from_row(row: AssetRow) -> (r: Asset)
        ensures
            r.uid == row.uid,
            r.name@ == (match row.nicname {
                Some(n) => n@,
                None => row.uid@,
            }),
            r.nicname == row.nicname,
            r.asset_type == or_default(row.asset_type, 0),
            r.left_money == or_default(row.left_money, 0),
            r.calculated_balance == ZERO_F64_BITS,
            r.currency_uid == row.currency_uid,
            r.group_uid == row.group_uid,
            r.memo == row.memo,
            r.is_deleted == (or_default(row.is_deleted, 0) != 0),
    {
        let name = match &row.nicname {
            Some(n) => n.clone(),
            None => row.uid.clone(),
        };
        Asset {
            uid: row.uid,
            name,
            nicname: row.nicname,
            asset_type: match row.asset_type {
                Some(v) => v,
                None => 0,
            },
            left_money: match row.left_money {
                Some(v) => v,
                None => 0,
            },
            calculated_balance: ZERO_F64_BITS,
            currency_uid: row.currency_uid,
            group_uid: row.group_uid,
            memo: row.memo,
            is_deleted: match row.is_deleted {
                Some(v) => v != 0,
                None => false,
            },
        }
    }
}

impl Category {
    /// The category a ZCATEGORY row describes.
    pub fn from_row(row: CategoryRow) -> (r: Category)
        ensures
            r.uid == row.uid,
            r.name == row.name,
            r.parent_uid == row.parent_uid,
            r.do_type == or_default(row.do_type, 0),
            r.status == or_default(row.status, 0),
            r.is_deleted == (or_default(row.is_deleted, 0) != 0),
    {
        Category {
            uid: row.uid,
            name: row.name,
            parent_uid: row.parent_uid,
            do_type: match row.do_type {
                Some(v) => v,
                None => 0,
            },
            status: match row.status {
                Some(v) => v,
                None => 0,
            },
            is_deleted: match row.is_deleted {
                Some(v) => v != 0,
                None => false,
            },
        }
    }
}

impl Currency {
    /// The currency a ZCURRENCY row describes; a missing rate is 1.0, a
    /// missing "main" flag is false and a missing "shown" flag is true.
    pub fn from_row(row: CurrencyRow) -> (r: Currency)
        ensures
            r.uid == row.uid,
            r.iso == row.iso,
            r.symbol == row.symbol,
            r.rate == (match row.rate {
                Some(v) => v,
                None => ONE_F64_BITS,
            }),
            r.is_main_currency == (or_default(row.is_main, 0) != 0),
            r.is_show == (or_default(row.is_show, 1) != 0),
    {
        Currency {
            uid: row.uid,
            iso: row.iso,
            symbol: row.symbol,
            rate: match row.rate {
                Some(v) => v,
                None => ONE_F64_BITS,
            },
            is_main_currency: match row.is_main {
                Some(v) => v != 0,
                None => false,
            },
            is_show: match row.is_show {
                Some(v) => v != 0,
                None => true,
            },
        }
    }
}


// ---------------------------------------------------------------------------
// Balances and statistics. Amounts are floats, so the sums are made by the
// caller; the library decides which amounts go into which sum and with which
// sign.

/// One amount added to (`credit`) or taken from an account's balance.
pub struct Posting {
    pub asset_uid: String,
    /// The position of the transaction whose amount is posted
    pub tx_index: usize,
    pub credit: bool,
}

impl View for Posting {
    type V = (Seq<char>, nat, bool);

    open spec fn view(&self) -> (Seq<char>, nat, bool) {
        (self.asset_uid@, self.tx_index as nat, self.credit)
    }
}

pub open spec fn post_to(uid: Option<String>, i: nat, credit: bool) -> Seq<(Seq<char>, nat, bool)> {
    match uid {
        Some(u) => seq![(u@, i, credit)],
        None => Seq::empty(),
    }
}

/// What transaction `i` does to account balances: income is added to its
/// account, an expense taken from it, a transfer out taken from the source and
/// added to the destination. Deleted transactions and the mirrored transfer-in
/// records change nothing.
pub open spec fn spec_tx_postings(t: Transaction, i: nat) -> Seq<(Seq<char>, nat, bool)> {
    if t.is_deleted {
        Seq::empty()
    } else {
        match t.transaction_type {
            TransactionType::Income => post_to(t.asset_uid, i, true),
            TransactionType::Expense => post_to(t.asset_uid, i, false),
            TransactionType::TransferOut => post_to(t.asset_uid, i, false) + post_to(
                t.to_asset_uid,
                i,
                true,
            ),
            TransactionType::TransferIn => Seq::empty(),
        }
    }
}

/// The postings of all transactions, in order.
pub open spec fn spec_postings(ts: Seq<Transaction>) -> Seq<(Seq<char>, nat, bool)>
    decreases ts.len(),
{
    if ts.len() == 0 {
        Seq::empty()
    } else {
        spec_postings(ts.drop_last()) + spec_tx_postings(ts.last(), (ts.len() - 1) as nat)
    }
}

fn push_posting(out: &mut Vec<Posting>, uid: &Option<String>, i: usize, credit: bool)
    ensures
        final(out)@.map_values(|p: Posting| p@) == old(out)@.map_values(|p: Posting| p@) + post_to(
            *uid,
            i as nat,
            credit,
        ),
{
    let ghost before = out@;
    match uid {
        Some(u) => {
            out.push(Posting { asset_uid: u.clone(), tx_index: i, credit });
            assert(out@.map_values(|p: Posting| p@) =~= before.map_values(|p: Posting| p@) + post_to(
                *uid,
                i as nat,
                credit,
            ));
        },
        None => {
            assert(out@.map_values(|p: Posting| p@) =~= before.map_values(|p: Posting| p@) + post_to(
                *uid,
                i as nat,
                credit,
            ));
        },
    }
}

/// Every amount that the transactions add to or take from account balances,
/// in the order of the transactions.
pub fn balance_postings(transactions: &[Transaction]) -> (r: Vec<Posting>)
    ensures
        r@.map_values(|p: Posting| p@) == spec_postings(transactions@),
{
    let mut out: Vec<Posting> = Vec::new();
    let mut i: usize = 0;
    assert(out@.map_values(|p: Posting| p@) =~= spec_postings(transactions@.take(0)));
    while i < transactions.len()
        invariant
            0 <= i <= transactions@.len(),
            out@.map_values(|p: Posting| p@) == spec_postings(transactions@.take(i as int)),
        decreases transactions@.len() - i,
    {
        let t = &transactions[i];
        assert(transactions@.take(i + 1).drop_last() =~= transactions@.take(i as int));
        let ghost before = out@.map_values(|p: Posting| p@);
        if !t.is_deleted {
            match t.transaction_type {
                TransactionType::Income => push_posting(&mut out, &t.asset_uid, i, true),
                TransactionType::Expense => push_posting(&mut out, &t.asset_uid, i, false),
                TransactionType::TransferOut => {
                    push_posting(&mut out, &t.asset_uid, i, false);
                    push_posting(&mut out, &t.to_asset_uid, i, true);
                    assert(out@.map_values(|p: Posting| p@) =~= before + spec_tx_postings(*t, i as nat));
                },
                TransactionType::TransferIn => {},
            }
        }
        i += 1;
    }
    assert(transactions@.take(i as int) =~= transactions@);
    out
}

/// A deleted transaction, or a transfer-in record, is never posted; every
/// posting names a transaction that exists.
pub proof fn lemma_postings_only_active(ts: Seq<Transaction>, k: int)
    requires
        0 <= k < spec_postings(ts).len(),
    ensures
        spec_postings(ts)[k].1 < ts.len(),
        !ts[spec_postings(ts)[k].1 as int].is_deleted,
        ts[spec_postings(ts)[k].1 as int].transaction_type != TransactionType::TransferIn,
    decreases ts.len(),
{
    let p = ts.drop_last();
    let n = spec_postings(p).len();
    if k < n {
        lemma_postings_only_active(p, k);
        assert(spec_postings(ts)[k] == spec_postings(p)[k]);
    } else {
        assert(spec_postings(ts)[k] == spec_tx_postings(ts.last(), (ts.len() - 1) as nat)[k - n]);
    }
}

/// Which amounts go into account balances. Each active transaction posts by
/// its type and its accounts alone: income is credited to its account, an
/// expense debited from it, a transfer out debited from its source and
/// credited to its destination. Every posting is one of these.
pub proof fn lemma_postings_by_type(ts: Seq<Transaction>, i: int)
    requires
        0 <= i < ts.len(),
    ensures
        ({
            let t = ts[i];
            let ps = spec_postings(ts);
            &&& (!t.is_deleted && t.transaction_type == TransactionType::Income && t.asset_uid is Some)
                ==> ps.contains((t.asset_uid->0@, i as nat, true))
            &&& (!t.is_deleted && t.transaction_type == TransactionType::Expense && t.asset_uid is Some)
                ==> ps.contains((t.asset_uid->0@, i as nat, false))
            &&& (!t.is_deleted && t.transaction_type == TransactionType::TransferOut && t.asset_uid is Some)
                ==> ps.contains((t.asset_uid->0@, i as nat, false))
            &&& (!t.is_deleted && t.transaction_type == TransactionType::TransferOut && t.to_asset_uid is Some)
                ==> ps.contains((t.to_asset_uid->0@, i as nat, true))
        }),
    decreases ts.len(),
{
    let d = ts.drop_last();
    let n = (ts.len() - 1) as nat;
    let ps = spec_postings(ts);
    let own = spec_tx_postings(ts.last(), n);
    assert(ps == spec_postings(d) + own);
    if i < ts.len() - 1 {
        lemma_postings_by_type(d, i);
        assert(d[i] == ts[i]);
        assert forall|x: (Seq<char>, nat, bool)| spec_postings(d).contains(x) implies ps.contains(x) by {
            let k = choose|k: int| 0 <= k < spec_postings(d).len() && spec_postings(d)[k] == x;
            assert(ps[k] == x);
        }
    } else {
        let t = ts[i];
        assert(t == ts.last());
        let m = spec_postings(d).len() as int;
        if !t.is_deleted {
            if t.asset_uid is Some && t.transaction_type != TransactionType::TransferIn {
                assert(ps[m] == own[0]);
            }
            if t.transaction_type == TransactionType::TransferOut && t.to_asset_uid is Some {
                let k = own.len() - 1;
                assert(ps[m + k] == own[k]);
            }
        }
    }
}

/// Every posting names an active transaction and follows its type: a credit
/// goes to the account of an income or the destination of a transfer out, a
/// debit comes from the account of an expense or the source of a transfer out.
pub proof fn lemma_postings_sound(ts: Seq<Transaction>, k: int)
    requires
        0 <= k < spec_postings(ts).len(),
    ensures
        ({
            let (u, i, credit) = spec_postings(ts)[k];
            let t = ts[i as int];
            &&& i < ts.len()
            &&& !t.is_deleted
            &&& credit ==> ((t.transaction_type == TransactionType::Income && t.asset_uid is Some
                && t.asset_uid->0@ == u) || (t.transaction_type == TransactionType::TransferOut
                && t.to_asset_uid is Some && t.to_asset_uid->0@ == u))
            &&& !credit ==> ((t.transaction_type == TransactionType::Expense || t.transaction_type
                == TransactionType::TransferOut) && t.asset_uid is Some && t.asset_uid->0@ == u)
        }),
    decreases ts.len(),
{
    let d = ts.drop_last();
    let m = spec_postings(d).len();
    let own = spec_tx_postings(ts.last(), (ts.len() - 1) as nat);
    assert(spec_postings(ts) == spec_postings(d) + own);
    if k < m {
        lemma_postings_sound(d, k);
        assert(spec_postings(ts)[k] == spec_postings(d)[k]);
        let i = spec_postings(d)[k].1;
        assert(d[i as int] == ts[i as int]);
    } else {
        assert(spec_postings(ts)[k] == own[k - m]);
    }
}

/// The amounts of total income (for `Income`) or total expense (for
/// `Expense`): exactly the positions, in ascending order, of the active
/// transactions of that type, whatever their DO_TYPE number.
pub proof fn lemma_indices_of_exact(ts: Seq<Transaction>, kind: TransactionType)
    ensures
        forall|i: nat|
            spec_indices_of(ts, kind).contains(i) <==> (i < ts.len() && !ts[i as int].is_deleted
                && ts[i as int].transaction_type == kind),
        forall|a: int, b: int|
            0 <= a < b < spec_indices_of(ts, kind).len() ==> spec_indices_of(ts, kind)[a] < spec_indices_of(
                ts,
                kind,
            )[b],
        forall|a: int| 0 <= a < spec_indices_of(ts, kind).len() ==> spec_indices_of(ts, kind)[a] < ts.len(),
    decreases ts.len(),
{
    if ts.len() > 0 {
        let d = ts.drop_last();
        lemma_indices_of_exact(d, kind);
        let pd = spec_indices_of(d, kind);
        let p = spec_indices_of(ts, kind);
        let n = (ts.len() - 1) as nat;
        assert forall|i: nat| p.contains(i) <==> (i < ts.len() && !ts[i as int].is_deleted
            && ts[i as int].transaction_type == kind) by {
            if i < n {
                assert(d[i as int] == ts[i as int]);
            }
            if p.contains(i) {
                let k = choose|k: int| 0 <= k < p.len() && p[k] == i;
                if k < pd.len() {
                    assert(pd[k] == i);
                    assert(pd.contains(i));
                }
            }
            if i < ts.len() && !ts[i as int].is_deleted && ts[i as int].transaction_type == kind {
                if i < n {
                    assert(pd.contains(i));
                    let k = choose|k: int| 0 <= k < pd.len() && pd[k] == i;
                    assert(p[k] == i);
                } else {
                    assert(p[p.len() - 1] == i);
                }
            }
        }
    }
}

/// The positions of the active transactions of type `kind`.
pub open spec fn spec_indices_of(ts: Seq<Transaction>, kind: TransactionType) -> Seq<nat>
    decreases ts.len(),
{
    if ts.len() == 0 {
        Seq::empty()
    } else if !ts.last().is_deleted && ts.last().transaction_type == kind {
        spec_indices_of(ts.drop_last(), kind).push((ts.len() - 1) as nat)
    } else {
        spec_indices_of(ts.drop_last(), kind)
    }
}

/// The positions of the active transactions of type `kind`, in order: the
/// amounts that make up the total income (for `Income`) or expense (for
/// `Expense`). Transfers count in neither.
pub fn indices_of(transactions: &[Transaction], kind: TransactionType) -> (r: Vec<usize>)
    ensures
        r@.map_values(|i: usize| i as nat) == spec_indices_of(transactions@, kind),
{
    let mut out: Vec<usize> = Vec::new();
    let mut i: usize = 0;
    assert(out@.map_values(|i: usize| i as nat) =~= spec_indices_of(transactions@.take(0), kind));
    while i < transactions.len()
        invariant
            0 <= i <= transactions@.len(),
            out@.map_values(|i: usize| i as nat) == spec_indices_of(transactions@.take(i as int), kind),
        decreases transactions@.len() - i,
    {
        assert(transactions@.take(i + 1).drop_last() =~= transactions@.take(i as int));
        let ghost before = out@;
        if !transactions[i].is_deleted && transactions[i].transaction_type == kind {
            out.push(i);
            assert(out@.map_values(|i: usize| i as nat) =~= before.map_values(|i: usize| i as nat).push(i as nat));
        }
        i += 1;
    }
    assert(transactions@.take(i as int) =~= transactions@);
    out
}

pub open spec fn spec_active_count(ts: Seq<Transaction>) -> nat
    decreases ts.len(),
{
    if ts.len() == 0 {
        0
    } else {
        spec_active_count(ts.drop_last()) + if ts.last().is_deleted {
            0nat
        } else {
            1nat
        }
    }
}

pub open spec fn spec_active_asset_count(assets: Seq<Asset>) -> nat
    decreases assets.len(),
{
    if assets.len() == 0 {
        0
    } else {
        spec_active_asset_count(assets.drop_last()) + if assets.last().is_deleted {
            0nat
        } else {
            1nat
        }
    }
}

pub proof fn lemma_active_count_le(ts: Seq<Transaction>)
    ensures
        spec_active_count(ts) <= ts.len(),
    decreases ts.len(),
{
    if ts.len() > 0 {
        lemma_active_count_le(ts.drop_last());
    }
}

pub proof fn lemma_active_asset_count_le(assets: Seq<Asset>)
    ensures
        spec_active_asset_count(assets) <= assets.len(),
    decreases assets.len(),
{
    if assets.len() > 0 {
        lemma_active_asset_count_le(assets.drop_last());
    }
}

/// Calculate database statistics: the counts of records and of active ones,
/// with the given totals of income and expense.
pub fn calculate_stats(
    transactions: &[Transaction],
    assets: &[Asset],
    categories: &[Category],
    currencies: &[Currency],
    total_income: u64,
    total_expense: u64,
) -> (r: DatabaseStats)
    ensures
        r.total_transactions == transactions@.len(),
        r.total_assets == assets@.len(),
        r.total_categories == categories@.len(),
        r.total_currencies == currencies@.len(),
        r.active_transactions == spec_active_count(transactions@),
        r.active_assets == spec_active_asset_count(assets@),
        r.total_income == total_income,
        r.total_expense == total_expense,
{
    let mut active_tx: usize = 0;
    let mut i: usize = 0;
    while i < transactions.len()
        invariant
            0 <= i <= transactions@.len(),
            active_tx == spec_active_count(transactions@.take(i as int)),
        decreases transactions@.len() - i,
    {
        assert(transactions@.take(i + 1).drop_last() =~= transactions@.take(i as int));
        proof {
            lemma_active_count_le(transactions@.take(i as int));
        }
        if !transactions[i].is_deleted {
            active_tx = active_tx + 1;
        }
        i += 1;
    }
    assert(transactions@.take(i as int) =~= transactions@);
    let mut active_assets: usize = 0;
    let mut j: usize = 0;
    while j < assets.len()
        invariant
            0 <= j <= assets@.len(),
            active_assets == spec_active_asset_count(assets@.take(j as int)),
        decreases assets@.len() - j,
    {
        assert(assets@.take(j + 1).drop_last() =~= assets@.take(j as int));
        proof {
            lemma_active_asset_count_le(assets@.take(j as int));
        }
        if !assets[j].is_deleted {
            active_assets = active_assets + 1;
        }
        j += 1;
    }
    assert(assets@.take(j as int) =~= assets@);
    DatabaseStats {
        total_transactions: transactions.len(),
        total_assets: assets.len(),
        total_categories: categories.len(),
        total_currencies: currencies.len(),
        active_transactions: active_tx,
        active_assets,
        total_income,
        total_expense,
    }
}


// ---------------------------------------------------------------------------
// The backup as a whole.

/// Represents a fully parsed MoneyManager backup file
#[derive(Debug)]
pub struct MMBakFile {
    transactions: Vec<Transaction>,
    assets: Vec<Asset>,
    categories: Vec<Category>,
    currencies: Vec<Currency>,
    stats: DatabaseStats,
    file_size: u64,
}

pub open spec fn active_tx(t: Transaction) -> bool {
    !t.is_deleted
}

pub open spec fn active_asset(a: Asset) -> bool {
    !a.is_deleted
}

pub open spec fn active_category(c: Category) -> bool {
    !c.is_deleted
}

impl MMBakFile {
    pub closed spec fn spec_transactions(&self) -> Seq<Transaction> {
        self.transactions@
    }

    pub closed spec fn spec_assets(&self) -> Seq<Asset> {
        self.assets@
    }

    pub closed spec fn spec_categories(&self) -> Seq<Category> {
        self.categories@
    }

    pub closed spec fn spec_currencies(&self) -> Seq<Currency> {
        self.currencies@
    }

    pub closed spec fn spec_stats(&self) -> DatabaseStats {
        self.stats
    }

    pub closed spec fn spec_file_size(&self) -> u64 {
        self.file_size
    }

    /// The backup made of these records, read from a file of `file_size` bytes;
    /// its statistics count the records and take the given totals of income
    /// and expense.
    pub fn new(
        transactions: Vec<Transaction>,
        assets: Vec<Asset>,
        categories: Vec<Category>,
        currencies: Vec<Currency>,
        total_income: u64,
        total_expense: u64,
        file_size: u64,
    ) -> (r: MMBakFile)
        ensures
            r.spec_transactions() == transactions@,
            r.spec_assets() == assets@,
            r.spec_categories() == categories@,
            r.spec_currencies() == currencies@,
            r.spec_stats().total_transactions == transactions@.len(),
            r.spec_stats().total_assets == assets@.len(),
            r.spec_stats().total_categories == categories@.len(),
            r.spec_stats().total_currencies == currencies@.len(),
            r.spec_stats().active_transactions == spec_active_count(transactions@),
            r.spec_stats().active_assets == spec_active_asset_count(assets@),
            r.spec_stats().total_income == total_income,
            r.spec_stats().total_expense == total_expense,
            r.spec_file_size() == file_size,
    {
        let stats = calculate_stats(
            transactions.as_slice(),
            assets.as_slice(),
            categories.as_slice(),
            currencies.as_slice(),
            total_income,
            total_expense,
        );
        MMBakFile { transactions, assets, categories, currencies, stats, file_size }
    }

    /// Get all transactions
    pub fn transactions(&self) -> (r: &[Transaction])
        ensures
            r@ == self.spec_transactions(),
    {
        self.transactions.as_slice()
    }

    /// Get active (non-deleted) transactions
    pub fn active_transactions(&self) -> (r: Vec<&Transaction>)
        ensures
            r@.map_values(|t: &Transaction| *t) == self.spec_transactions().filter(
                |t: Transaction| active_tx(t),
            ),
    {
        let ghost pred = |t: Transaction| active_tx(t);
        let mut r: Vec<&Transaction> = Vec::new();
        let mut i: usize = 0;
        while i < self.transactions.len()
            invariant
                0 <= i <= self.transactions@.len(),
                pred == (|t: Transaction| active_tx(t)),
                r@.map_values(|t: &Transaction| *t) == self.transactions@.take(i as int).filter(pred),
            decreases self.transactions@.len() - i,
        {
            proof {
                reveal(Seq::filter);
                assert(self.transactions@.take(i + 1).drop_last() =~= self.transactions@.take(i as int));
            }
            let ghost before = r@;
            if !self.transactions[i].is_deleted {
                r.push(&self.transactions[i]);
                assert(r@.map_values(|t: &Transaction| *t) =~= before.map_values(|t: &Transaction| *t).push(self.transactions@[i as int]));
            }
            i += 1;
        }
        assert(self.transactions@.take(i as int) =~= self.transactions@);
        r
    }

    /// Get all assets
    pub fn assets(&self) -> (r: &[Asset])
        ensures
            r@ == self.spec_assets(),
    {
        self.assets.as_slice()
    }

    /// Get active (non-deleted) assets
    pub fn active_assets(&self) -> (r: Vec<&Asset>)
        ensures
            r@.map_values(|a: &Asset| *a) == self.spec_assets().filter(|a: Asset| active_asset(a)),
    {
        let ghost pred = |a: Asset| active_asset(a);
        let mut r: Vec<&Asset> = Vec::new();
        let mut i: usize = 0;
        while i < self.assets.len()
            invariant
                0 <= i <= self.assets@.len(),
                pred == (|a: Asset| active_asset(a)),
                r@.map_values(|a: &Asset| *a) == self.assets@.take(i as int).filter(pred),
            decreases self.assets@.len() - i,
        {
            proof {
                reveal(Seq::filter);
                assert(self.assets@.take(i + 1).drop_last() =~= self.assets@.take(i as int));
            }
            let ghost before = r@;
            if !self.assets[i].is_deleted {
                r.push(&self.assets[i]);
                assert(r@.map_values(|a: &Asset| *a) =~= before.map_values(|a: &Asset| *a).push(self.assets@[i as int]));
            }
            i += 1;
        }
        assert(self.assets@.take(i as int) =~= self.assets@);
        r
    }

    /// Get all categories
    pub fn categories(&self) -> (r: &[Category])
        ensures
            r@ == self.spec_categories(),
    {
        self.categories.as_slice()
    }

    /// Get active (non-deleted) categories
    pub fn active_categories(&self) -> (r: Vec<&Category>)
        ensures
            r@.map_values(|c: &Category| *c) == self.spec_categories().filter(
                |c: Category| active_category(c),
            ),
    {
        let ghost pred = |c: Category| active_category(c);
        let mut r: Vec<&Category> = Vec::new();
        let mut i: usize = 0;
        while i < self.categories.len()
            invariant
                0 <= i <= self.categories@.len(),
                pred == (|c: Category| active_category(c)),
                r@.map_values(|c: &Category| *c) == self.categories@.take(i as int).filter(pred),
            decreases self.categories@.len() - i,
        {
            proof {
                reveal(Seq::filter);
                assert(self.categories@.take(i + 1).drop_last() =~= self.categories@.take(i as int));
            }
            let ghost before = r@;
            if !self.categories[i].is_deleted {
                r.push(&self.categories[i]);
                assert(r@.map_values(|c: &Category| *c) =~= before.map_values(|c: &Category| *c).push(self.categories@[i as int]));
            }
            i += 1;
        }
        assert(self.categories@.take(i as int) =~= self.categories@);
        r
    }

    /// Get all currencies
    pub fn currencies(&self) -> (r: &[Currency])
        ensures
            r@ == self.spec_currencies(),
    {
        self.currencies.as_slice()
    }

    /// Get statistics
    pub fn stats(&self) -> (r: &DatabaseStats)
        ensures
            *r == self.spec_stats(),
    {
        &self.stats
    }

    /// Get file size
    pub fn file_size(&self) -> (r: u64)
        ensures
            r == self.spec_file_size(),
    {
        self.file_size
    }

    /// Find an asset by UID: the first one with that UID.
    pub fn find_asset(&self, uid: &str) -> (r: Option<&Asset>)
        ensures
            r matches Some(a) ==> exists|i: int|
                0 <= i < self.spec_assets().len() && self.spec_assets()[i] == *a && a.uid@ == uid@
                    && forall|j: int| 0 <= j < i ==> (#[trigger] self.spec_assets()[j]).uid@ != uid@,
            r is None ==> forall|i: int|
                0 <= i < self.spec_assets().len() ==> (#[trigger] self.spec_assets()[i]).uid@ != uid@,
    {
        let mut i: usize = 0;
        while i < self.assets.len()
            invariant
                0 <= i <= self.assets@.len(),
                forall|j: int| 0 <= j < i ==> (#[trigger] self.assets@[j]).uid@ != uid@,
            decreases self.assets@.len() - i,
        {
            if str_eq(self.assets[i].uid.as_str(), uid) {
                assert(self.spec_assets()[i as int] == self.assets@[i as int]);
                assert(forall|j: int| 0 <= j < i ==> self.spec_assets()[j] == self.assets@[j]);
                return Some(&self.assets[i]);
            }
            i += 1;
        }
        None
    }

    /// Find a category by UID: the first one with that UID.
    pub fn find_category(&self, uid: &str) -> (r: Option<&Category>)
        ensures
            r matches Some(c) ==> exists|i: int|
                0 <= i < self.spec_categories().len() && self.spec_categories()[i] == *c && c.uid@
                    == uid@ && forall|j: int|
                    0 <= j < i ==> (#[trigger] self.spec_categories()[j]).uid@ != uid@,
            r is None ==> forall|i: int|
                0 <= i < self.spec_categories().len() ==> (#[trigger] self.spec_categories()[i]).uid@
                    != uid@,
    {
        let mut i: usize = 0;
        while i < self.categories.len()
            invariant
                0 <= i <= self.categories@.len(),
                forall|j: int| 0 <= j < i ==> (#[trigger] self.categories@[j]).uid@ != uid@,
            decreases self.categories@.len() - i,
        {
            if str_eq(self.categories[i].uid.as_str(), uid) {
                assert(self.spec_categories()[i as int] == self.categories@[i as int]);
                assert(forall|j: int| 0 <= j < i ==> self.spec_categories()[j] == self.categories@[j]);
                return Some(&self.categories[i]);
            }
            i += 1;
        }
        None
    }

    /// Find a currency by UID: the first one with that UID.
    pub fn find_currency(&self, uid: &str) -> (r: Option<&Currency>)
        ensures
            r matches Some(c) ==> exists|i: int|
                0 <= i < self.spec_currencies().len() && self.spec_currencies()[i] == *c && c.uid@
                    == uid@ && forall|j: int|
                    0 <= j < i ==> (#[trigger] self.spec_currencies()[j]).uid@ != uid@,
            r is None ==> forall|i: int|
                0 <= i < self.spec_currencies().len() ==> (#[trigger] self.spec_currencies()[i]).uid@
                    != uid@,
    {
        let mut i: usize = 0;
        while i < self.currencies.len()
            invariant
                0 <= i <= self.currencies@.len(),
                forall|j: int| 0 <= j < i ==> (#[trigger] self.currencies@[j]).uid@ != uid@,
            decreases self.currencies@.len() - i,
        {
            if str_eq(self.currencies[i].uid.as_str(), uid) {
                assert(self.spec_currencies()[i as int] == self.currencies@[i as int]);
                assert(forall|j: int| 0 <= j < i ==> self.spec_currencies()[j] == self.currencies@[j]);
                return Some(&self.currencies[i]);
            }
            i += 1;
        }
        None
    }
}

} // verus!
