//! The state of the terminal viewer: the account list grouped by account
//! group, the transaction list with date dividers, the cursors and the focus.

use vstd::prelude::*;
use vstd::utf8::encode_utf8;
use crate::events::Action;
use crate::reader::{MMBakFile, active_asset, active_tx};
use crate::text::{clone_opt, str_eq};
use vstd::string::{StrSliceExecFns, StringExecFns};
use crate::types::{Asset, Transaction, TransactionType};

verus! {

/// A row in the account list: either a group header or an actual account.
#[derive(Clone)]
pub enum AccountRow {
    GroupHeader { name: String },
    Account { asset: Asset },
}

/// What a row of the account list shows.
pub enum AccountRowView {
    Header(Seq<char>),
    Account(Asset),
}

impl View for AccountRow {
    type V = AccountRowView;

    open spec fn view(&self) -> AccountRowView {
        match self {
            AccountRow::GroupHeader { name } => AccountRowView::Header(name@),
            AccountRow::Account { asset } => AccountRowView::Account(*asset),
        }
    }
}

impl AccountRow {
    pub open spec fn spec_is_header(&self) -> bool {
        self is GroupHeader
    }

    pub fn is_header(&self) -> (r: bool)
        ensures
            r == self.spec_is_header(),
    {
        match self {
            AccountRow::GroupHeader { .. } => true,
            AccountRow::Account { .. } => false,
        }
    }

    /// The group's name, or the account's display name.
    pub fn display_name(&self) -> (r: String)
        ensures
            r@ == (match self {
                AccountRow::GroupHeader { name } => name@,
                AccountRow::Account { asset } => asset.spec_display_name(),
            }),
    {
        match self {
            AccountRow::GroupHeader { name } => name.clone(),
            AccountRow::Account { asset } => asset.display_name().to_owned(),
        }
    }

    /// The account's balance (the bit pattern of a 64-bit float); none for a header.
    pub fn balance(&self) -> (r: Option<u64>)
        ensures
            r == (match self {
                AccountRow::GroupHeader { .. } => None,
                AccountRow::Account { asset } => Some(asset.calculated_balance),
            }),
    {
        match self {
            AccountRow::GroupHeader { .. } => None,
            AccountRow::Account { asset } => Some(asset.calculated_balance),
        }
    }

    /// The account's UID; none for a header.
    pub fn asset_uid(&self) -> (r: Option<String>)
        ensures
            r == (match self {
                AccountRow::GroupHeader { .. } => None,
                AccountRow::Account { asset } => Some(asset.uid),
            }),
    {
        match self {
            AccountRow::GroupHeader { .. } => None,
            AccountRow::Account { asset } => Some(asset.uid.clone()),
        }
    }
}

/// Which panel is currently focused.
#[derive(Debug, Clone, Copy, PartialEq, Eq, Structural)]
pub enum ActivePanel {
    Accounts,
    Transactions,
}

/// A row in the transactions panel: either a date divider or an actual transaction.
#[derive(Clone)]
pub enum TxRow {
    DateHeader { date: String },
    Tx { tx: Transaction },
}

pub enum TxRowView {
    DateHeader(Seq<char>),
    Tx(Transaction),
}

impl View for TxRow {
    type V = TxRowView;

    open spec fn view(&self) -> TxRowView {
        match self {
            TxRow::DateHeader { date } => TxRowView::DateHeader(date@),
            TxRow::Tx { tx } => TxRowView::Tx(*tx),
        }
    }
}

impl TxRow {
    pub open spec fn spec_is_header(&self) -> bool {
        self is DateHeader
    }

    pub fn is_header(&self) -> (r: bool)
        ensures
            r == self.spec_is_header(),
    {
        match self {
            TxRow::DateHeader { .. } => true,
            TxRow::Tx { .. } => false,
        }
    }
}

// ---------------------------------------------------------------------------
// The transaction list.

pub open spec fn not_transfer_in(t: Transaction) -> bool {
    t.transaction_type != TransactionType::TransferIn
}

/// Copies the transactions, merging transfer pairs into a single row: the
/// database stores each transfer twice (out of the source and into the
/// destination); only the outgoing record is kept, as it names both accounts.
pub fn collect_tx(txs: &Vec<&Transaction>) -> (r: Vec<Transaction>)
    ensures
        r@ == txs@.map_values(|t: &Transaction| *t).filter(|t: Transaction| not_transfer_in(t)),
{
    let ghost all = txs@.map_values(|t: &Transaction| *t);
    let ghost pred = |t: Transaction| not_transfer_in(t);
    let mut r: Vec<Transaction> = Vec::new();
    let mut i: usize = 0;
    while i < txs.len()
        invariant
            0 <= i <= txs@.len(),
            all == txs@.map_values(|t: &Transaction| *t),
            pred == (|t: Transaction| not_transfer_in(t)),
            r@ == all.take(i as int).filter(pred),
        decreases txs@.len() - i,
    {
        proof {
            reveal(Seq::filter);
            assert(all.take(i + 1).drop_last() =~= all.take(i as int));
        }
        let t: &Transaction = txs[i];
        if t.transaction_type != TransactionType::TransferIn {
            r.push(t.duplicate());
        }
        i += 1;
    }
    assert(all.take(i as int) =~= all);
    r
}

/// The date after which transaction `i` comes: the previous transaction's, or
/// the empty text before the first.
pub open spec fn previous_date(txs: Seq<Transaction>, i: int) -> Seq<char> {
    if i == 0 {
        Seq::empty()
    } else {
        txs[i - 1].date@
    }
}

/// The rows for `txs`: each transaction, preceded by a divider with its date
/// when that date differs from the one before.
pub open spec fn spec_tx_rows(txs: Seq<Transaction>) -> Seq<TxRowView>
    decreases txs.len(),
{
    if txs.len() == 0 {
        Seq::empty()
    } else {
        let t = txs.last();
        let head = if t.date@ != previous_date(txs, txs.len() - 1) {
            seq![TxRowView::DateHeader(t.date@)]
        } else {
            Seq::empty()
        };
        spec_tx_rows(txs.drop_last()) + head + seq![TxRowView::Tx(t)]
    }
}

/// Wrap a flat transaction list into `TxRow`s, inserting a `DateHeader` whenever
/// the date changes between consecutive transactions.
pub fn build_tx_rows(txs: Vec<Transaction>) -> (r: Vec<TxRow>)
    ensures
        r@.map_values(|row: TxRow| row@) == spec_tx_rows(txs@),
{
    let ghost all = txs@;
    let mut rows: Vec<TxRow> = Vec::new();
    let mut last_date = String::new();
    let mut i: usize = 0;
    assert(rows@.map_values(|row: TxRow| row@) =~= spec_tx_rows(all.take(0)));
    while i < txs.len()
        invariant
            0 <= i <= txs@.len(),
            all == txs@,
            rows@.map_values(|row: TxRow| row@) == spec_tx_rows(all.take(i as int)),
            last_date@ == previous_date(all, i as int),
        decreases txs@.len() - i,
    {
        let tx = txs[i].duplicate();
        let ghost pre = all.take(i + 1);
        assert(pre.drop_last() =~= all.take(i as int));
        assert(pre.last() == tx);
        assert(previous_date(pre, i as int) == previous_date(all, i as int));
        let ghost before = rows@.map_values(|row: TxRow| row@);
        if tx.date != last_date {
            last_date = tx.date.clone();
            rows.push(TxRow::DateHeader { date: last_date.clone() });
        }
        let ghost mid = rows@.map_values(|row: TxRow| row@);
        rows.push(TxRow::Tx { tx });
        assert(rows@.map_values(|row: TxRow| row@) =~= mid.push(TxRowView::Tx(all[i as int])));
        assert(rows@.map_values(|row: TxRow| row@) =~= spec_tx_rows(pre));
        i += 1;
    }
    assert(all.take(i as int) =~= all);
    rows
}


// ---------------------------------------------------------------------------
// The account list.

/// An account group from ZASSETGROUP: its UID, name and place in the app's order.
pub struct AccountGroup {
    pub uid: String,
    pub name: String,
    pub order: i64,
}

/// The group an account belongs to; the empty text for none.
pub open spec fn group_key(a: Asset) -> Seq<char> {
    match a.group_uid {
        Some(g) => g@,
        None => Seq::empty(),
    }
}

pub open spec fn string_views(v: Seq<String>) -> Seq<Seq<char>> {
    v.map_values(|s: String| s@)
}

/// The groups of the accounts, each once, in the order of their first account.
pub open spec fn spec_group_keys(assets: Seq<Asset>) -> Seq<Seq<char>>
    decreases assets.len(),
{
    if assets.len() == 0 {
        Seq::empty()
    } else {
        let ks = spec_group_keys(assets.drop_last());
        let k = group_key(assets.last());
        if ks.contains(k) {
            ks
        } else {
            ks.push(k)
        }
    }
}

/// The group with UID `k` (the last listed, as a later row replaces an earlier one).
pub open spec fn spec_group_info(groups: Seq<AccountGroup>, k: Seq<char>) -> Option<AccountGroup>
    decreases groups.len(),
{
    if groups.len() == 0 {
        None
    } else if groups.last().uid@ == k {
        Some(groups.last())
    } else {
        spec_group_info(groups.drop_last(), k)
    }
}

/// Where group `k` comes in the list; groups the database does not know come at 999.
pub open spec fn spec_group_order(groups: Seq<AccountGroup>, k: Seq<char>) -> i64 {
    match spec_group_info(groups, k) {
        Some(g) => g.order,
        None => 999,
    }
}

/// The name shown for group `k`; "Uncategorized" for a group the database does not know.
pub open spec fn spec_group_name(groups: Seq<AccountGroup>, k: Seq<char>) -> Seq<char> {
    match spec_group_info(groups, k) {
        Some(g) => g.name@,
        None => "Uncategorized"@,
    }
}

/// The position of the first of `ks` whose group comes earliest.
pub open spec fn spec_first_min(ks: Seq<Seq<char>>, groups: Seq<AccountGroup>) -> int
    decreases ks.len(),
{
    if ks.len() <= 1 {
        0
    } else {
        let m = spec_first_min(ks.drop_last(), groups);
        if spec_group_order(groups, ks.last()) < spec_group_order(groups, ks[m]) {
            ks.len() - 1
        } else {
            m
        }
    }
}

pub proof fn lemma_first_min(ks: Seq<Seq<char>>, groups: Seq<AccountGroup>)
    requires
        ks.len() >= 1,
    ensures
        0 <= spec_first_min(ks, groups) < ks.len(),
        forall|j: int|
            0 <= j < ks.len() ==> spec_group_order(groups, ks[spec_first_min(ks, groups)])
                <= spec_group_order(groups, #[trigger] ks[j]),
        forall|j: int|
            0 <= j < spec_first_min(ks, groups) ==> spec_group_order(
                groups,
                ks[spec_first_min(ks, groups)],
            ) < spec_group_order(groups, #[trigger] ks[j]),
    decreases ks.len(),
{
    if ks.len() > 1 {
        lemma_first_min(ks.drop_last(), groups);
        let m = spec_first_min(ks.drop_last(), groups);
        assert forall|j: int| 0 <= j < ks.len() - 1 implies #[trigger] ks[j] == ks.drop_last()[j] by {}
    }
}

/// The groups `ks` ordered by their place in the app's order; groups with the
/// same place keep the order of `ks`.
pub open spec fn spec_sort_keys(ks: Seq<Seq<char>>, groups: Seq<AccountGroup>) -> Seq<Seq<char>>
    decreases ks.len(),
{
    if ks.len() == 0 {
        Seq::empty()
    } else {
        let m = spec_first_min(ks, groups);
        proof {
            lemma_first_min(ks, groups);
        }
        seq![ks[m]] + spec_sort_keys(ks.remove(m), groups)
    }
}

pub open spec fn in_group(a: Asset, k: Seq<char>) -> bool {
    group_key(a) == k
}

pub open spec fn account_view(a: Asset) -> AccountRowView {
    AccountRowView::Account(a)
}

/// The rows of the groups `sorted`: each group's header, then its accounts in order.
pub open spec fn spec_group_rows(sorted: Seq<Seq<char>>, assets: Seq<Asset>, groups: Seq<AccountGroup>) -> Seq<AccountRowView>
    decreases sorted.len(),
{
    if sorted.len() == 0 {
        Seq::empty()
    } else {
        let k = sorted.last();
        spec_group_rows(sorted.drop_last(), assets, groups) + seq![
            AccountRowView::Header(spec_group_name(groups, k)),
        ] + assets.filter(|a: Asset| in_group(a, k)).map_values(|a: Asset| account_view(a))
    }
}

/// The account list of a backup: its active accounts under headers of their
/// groups, the groups in the app's order.
pub open spec fn spec_account_rows(assets: Seq<Asset>, groups: Seq<AccountGroup>) -> Seq<AccountRowView> {
    let active = assets.filter(|a: Asset| active_asset(a));
    spec_group_rows(spec_sort_keys(spec_group_keys(active), groups), active, groups)
}


/// The place and name of group `k`.
fn group_order_and_name(groups: &Vec<AccountGroup>, k: &String) -> (r: (i64, String))
    ensures
        r.0 == spec_group_order(groups@, k@),
        r.1@ == spec_group_name(groups@, k@),
{
    let mut i: usize = groups.len();
    assert(groups@.take(i as int) =~= groups@);
    while i > 0
        invariant
            0 <= i <= groups@.len(),
            spec_group_info(groups@, k@) == spec_group_info(groups@.take(i as int), k@),
        decreases i,
    {
        let ghost pre = groups@.take(i as int);
        assert(pre.drop_last() =~= groups@.take(i - 1));
        let g = &groups[i - 1];
        if str_eq(g.uid.as_str(), k.as_str()) {
            return (g.order, g.name.clone());
        }
        i -= 1;
    }
    let name = "Uncategorized";
    (999, name.to_owned())
}

/// Whether the text `k` is one of `ks`.
fn contains_key(ks: &Vec<String>, k: &String) -> (r: bool)
    ensures
        r == string_views(ks@).contains(k@),
{
    let mut i: usize = 0;
    while i < ks.len()
        invariant
            0 <= i <= ks@.len(),
            forall|j: int| 0 <= j < i ==> ks@[j]@ != k@,
        decreases ks@.len() - i,
    {
        if str_eq(ks[i].as_str(), k.as_str()) {
            assert(string_views(ks@)[i as int] == k@);
            return true;
        }
        i += 1;
    }
    proof {
        if string_views(ks@).contains(k@) {
            let j = choose|j: int| 0 <= j < string_views(ks@).len() && string_views(ks@)[j] == k@;
            assert(ks@[j]@ == k@);
        }
    }
    false
}

/// The group of an account, as text.
fn group_key_of(a: &Asset) -> (r: String)
    ensures
        r@ == group_key(*a),
{
    match &a.group_uid {
        Some(g) => g.clone(),
        None => String::new(),
    }
}

/// The groups of the accounts, each once, in the order of their first account.
fn collect_group_keys(active: &Vec<&Asset>) -> (r: Vec<String>)
    ensures
        string_views(r@) == spec_group_keys(active@.map_values(|a: &Asset| *a)),
{
    let ghost all = active@.map_values(|a: &Asset| *a);
    let mut keys: Vec<String> = Vec::new();
    let mut i: usize = 0;
    assert(string_views(keys@) =~= spec_group_keys(all.take(0)));
    while i < active.len()
        invariant
            0 <= i <= active@.len(),
            all == active@.map_values(|a: &Asset| *a),
            string_views(keys@) == spec_group_keys(all.take(i as int)),
        decreases active@.len() - i,
    {
        let ghost pre = all.take(i + 1);
        assert(pre.drop_last() =~= all.take(i as int));
        let k = group_key_of(active[i]);
        if !contains_key(&keys, &k) {
            let ghost before = keys@;
            keys.push(k);
            assert(string_views(keys@) =~= string_views(before).push(group_key(all[i as int])));
        }
        i += 1;
    }
    assert(all.take(i as int) =~= all);
    keys
}

/// Orders the groups by their place in the app's order, keeping the given
/// order among groups with the same place.
fn sort_keys(keys: Vec<String>, groups: &Vec<AccountGroup>) -> (r: Vec<String>)
    ensures
        string_views(r@) == spec_sort_keys(string_views(keys@), groups@),
{
    let ghost target = spec_sort_keys(string_views(keys@), groups@);
    let mut remaining = keys;
    let mut sorted: Vec<String> = Vec::new();
    assert(string_views(sorted@) + spec_sort_keys(string_views(remaining@), groups@) =~= target);
    while remaining.len() > 0
        invariant
            string_views(sorted@) + spec_sort_keys(string_views(remaining@), groups@) == target,
        decreases remaining@.len(),
    {
        let ghost ks = string_views(remaining@);
        // The first group with the least place.
        let mut m: usize = 0;
        let mut best = group_order_and_name(groups, &remaining[0]).0;
        let mut j: usize = 1;
        assert(ks.take(1).len() == 1);
        while j < remaining.len()
            invariant
                1 <= j <= remaining@.len(),
                ks == string_views(remaining@),
                m == spec_first_min(ks.take(j as int), groups@),
                0 <= m < j,
                best == spec_group_order(groups@, ks[m as int]),
            decreases remaining@.len() - j,
        {
            let ghost pre = ks.take(j + 1);
            assert(pre.drop_last() =~= ks.take(j as int));
            proof {
                lemma_first_min(ks.take(j as int), groups@);
            }
            assert(ks.take(j as int)[m as int] == ks[m as int]);
            let o = group_order_and_name(groups, &remaining[j]).0;
            if o < best {
                m = j;
                best = o;
            }
            j += 1;
        }
        assert(ks.take(j as int) =~= ks);
        proof {
            lemma_first_min(ks, groups@);
        }
        let ghost before_sorted = sorted@;
        let k = remaining.remove(m);
        assert(string_views(remaining@) =~= ks.remove(m as int));
        sorted.push(k);
        assert(string_views(sorted@) =~= string_views(before_sorted).push(ks[m as int]));
        assert(seq![ks[m as int]] + spec_sort_keys(ks.remove(m as int), groups@) == spec_sort_keys(ks, groups@));
        assert(string_views(sorted@) + spec_sort_keys(string_views(remaining@), groups@) =~= string_views(before_sorted) + spec_sort_keys(ks, groups@));
    }
    assert(string_views(remaining@) =~= Seq::<Seq<char>>::empty());
    assert(string_views(sorted@) =~= target);
    sorted
}


/// Build the grouped account rows from the backup data: each active account
/// under the header of its group, the groups in the order `groups` gives them
/// (a group the list lacks comes at 999, named "Uncategorized"), groups with
/// the same place in the order of their first account.
pub fn build_account_rows(backup: &MMBakFile, groups: &Vec<AccountGroup>) -> (r: Vec<AccountRow>)
    ensures
        r@.map_values(|row: AccountRow| row@) == spec_account_rows(backup.spec_assets(), groups@),
{
    let active = backup.active_assets();
    let ghost act = active@.map_values(|a: &Asset| *a);
    assert(act == backup.spec_assets().filter(|a: Asset| active_asset(a)));
    let keys = collect_group_keys(&active);
    let sorted = sort_keys(keys, groups);
    let ghost sk = string_views(sorted@);
    let mut rows: Vec<AccountRow> = Vec::new();
    let mut j: usize = 0;
    assert(rows@.map_values(|row: AccountRow| row@) =~= spec_group_rows(sk.take(0), act, groups@));
    while j < sorted.len()
        invariant
            0 <= j <= sorted@.len(),
            sk == string_views(sorted@),
            act == active@.map_values(|a: &Asset| *a),
            rows@.map_values(|row: AccountRow| row@) == spec_group_rows(sk.take(j as int), act, groups@),
        decreases sorted@.len() - j,
    {
        let key = &sorted[j];
        let ghost k = key@;
        assert(sk.take(j + 1).drop_last() =~= sk.take(j as int));
        assert(sk.take(j + 1).last() == k);
        let name = group_order_and_name(groups, key).1;
        rows.push(AccountRow::GroupHeader { name });
        let ghost base = rows@.map_values(|row: AccountRow| row@);
        let ghost pred = |a: Asset| in_group(a, k);
        let mut i: usize = 0;
        assert(act.take(0).filter(pred) =~= Seq::<Asset>::empty()) by {
            reveal(Seq::filter);
        }
        assert(rows@.map_values(|row: AccountRow| row@) =~= base + act.take(0).filter(pred).map_values(|a: Asset| account_view(a)));
        while i < active.len()
            invariant
                0 <= i <= active@.len(),
                act == active@.map_values(|a: &Asset| *a),
                pred == (|a: Asset| in_group(a, k)),
                k == key@,
                rows@.map_values(|row: AccountRow| row@) == base + act.take(i as int).filter(pred).map_values(
                    |a: Asset| account_view(a),
                ),
            decreases active@.len() - i,
        {
            proof {
                reveal(Seq::filter);
                assert(act.take(i + 1).drop_last() =~= act.take(i as int));
            }
            let a: &Asset = active[i];
            let g = group_key_of(a);
            let ghost before = rows@.map_values(|row: AccountRow| row@);
            if str_eq(g.as_str(), key.as_str()) {
                rows.push(AccountRow::Account { asset: a.duplicate() });
                assert(rows@.map_values(|row: AccountRow| row@) =~= before.push(account_view(act[i as int])));
                assert(act.take(i + 1).filter(pred) == act.take(i as int).filter(pred).push(act[i as int]));
                assert(act.take(i + 1).filter(pred).map_values(|a: Asset| account_view(a)) =~= act.take(i as int).filter(pred).map_values(|a: Asset| account_view(a)).push(account_view(act[i as int])));
            }
            i += 1;
        }
        assert(act.take(i as int) =~= act);
        assert(rows@.map_values(|row: AccountRow| row@) =~= spec_group_rows(sk.take(j + 1), act, groups@));
        j += 1;
    }
    assert(sk.take(j as int) =~= sk);
    rows
}


// ---------------------------------------------------------------------------
// The viewer's state.

/// A transaction that moves money from or to the account `uid`.
pub open spec fn involves(t: Transaction, uid: Seq<char>) -> bool {
    (t.asset_uid matches Some(a) && a@ == uid) || (t.to_asset_uid matches Some(b) && b@ == uid)
}

/// The transaction list over all accounts.
pub open spec fn spec_all_tx_rows(backup: MMBakFile) -> Seq<TxRowView> {
    spec_tx_rows(
        backup.spec_transactions().filter(|t: Transaction| active_tx(t)).filter(
            |t: Transaction| not_transfer_in(t),
        ),
    )
}

/// The transaction list of the account `uid`.
pub open spec fn spec_account_tx_rows(backup: MMBakFile, uid: Seq<char>) -> Seq<TxRowView> {
    spec_tx_rows(
        backup.spec_transactions().filter(|t: Transaction| active_tx(t)).filter(
            |t: Transaction| involves(t, uid),
        ).filter(|t: Transaction| not_transfer_in(t)),
    )
}

/// Whether each row is a header.
pub open spec fn account_headers(rows: Seq<AccountRow>) -> Seq<bool> {
    rows.map_values(|r: AccountRow| r.spec_is_header())
}

pub open spec fn tx_headers(rows: Seq<TxRow>) -> Seq<bool> {
    rows.map_values(|r: TxRow| r.spec_is_header())
}

/// From row `c`, the nearest row at or above that is not a header, or row 0.
pub open spec fn skip_up(hs: Seq<bool>, c: int) -> int
    decreases c,
{
    if c > 0 && hs[c] {
        skip_up(hs, c - 1)
    } else {
        c
    }
}

/// From row `c`, the nearest row at or below that is not a header, or the end.
pub open spec fn skip_down(hs: Seq<bool>, c: int) -> int
    decreases hs.len() - c,
{
    if 0 <= c < hs.len() && hs[c] {
        skip_down(hs, c + 1)
    } else {
        c
    }
}

/// The cursor after moving up from `c`.
pub open spec fn spec_move_up(hs: Seq<bool>, c: int) -> int {
    if c > 0 {
        skip_up(hs, c - 1)
    } else {
        c
    }
}

/// The cursor after moving down from `c`.
pub open spec fn spec_move_down(hs: Seq<bool>, c: int) -> int {
    if c + 1 < hs.len() {
        skip_down(hs, c + 1)
    } else {
        c
    }
}

/// The viewer after moving up: the focused panel's cursor moves as `spec_move_up` says.
pub open spec fn spec_moved_up(a: App) -> App {
    match a.active_panel {
        ActivePanel::Accounts => App {
            account_cursor: spec_move_up(account_headers(a.account_rows@), a.account_cursor as int) as usize,
            ..a
        },
        ActivePanel::Transactions => App {
            tx_cursor: spec_move_up(tx_headers(a.tx_rows@), a.tx_cursor as int) as usize,
            ..a
        },
    }
}

/// The viewer after moving down: the focused panel's cursor moves as `spec_move_down` says.
pub open spec fn spec_moved_down(a: App) -> App {
    match a.active_panel {
        ActivePanel::Accounts => App {
            account_cursor: spec_move_down(account_headers(a.account_rows@), a.account_cursor as int) as usize,
            ..a
        },
        ActivePanel::Transactions => App {
            tx_cursor: spec_move_down(tx_headers(a.tx_rows@), a.tx_cursor as int) as usize,
            ..a
        },
    }
}

/// The viewer with the focus on the other panel.
pub open spec fn spec_switched(a: App) -> App {
    App { active_panel: other_panel(a.active_panel), ..a }
}

/// `b` is the viewer `a` after selecting: on the account panel with the cursor
/// on an account, that account's transactions are shown from the top and it
/// is the selected one; otherwise nothing changes.
pub open spec fn spec_selected(a: App, b: App) -> bool {
    if a.active_panel == ActivePanel::Accounts && 0 <= a.account_cursor < a.account_rows@.len() {
        match a.account_rows@[a.account_cursor as int] {
            AccountRow::GroupHeader { .. } => b == a,
            AccountRow::Account { asset } => {
                &&& b.selected_asset_uid == Some(asset.uid)
                &&& b.tx_rows_view() == spec_account_tx_rows(a.backup, asset.uid@)
                &&& b.tx_cursor == 0
                &&& b.tx_offset == 0
                &&& b.backup == a.backup
                &&& b.account_rows == a.account_rows
                &&& b.account_cursor == a.account_cursor
                &&& b.active_panel == a.active_panel
                &&& b.should_quit == a.should_quit
            },
        }
    } else {
        b == a
    }
}

/// `b` is the viewer `a` after deselecting: the transactions of all accounts
/// are shown again from the top, and no account is selected.
pub open spec fn spec_deselected(a: App, b: App) -> bool {
    &&& b.selected_asset_uid is None
    &&& b.tx_rows_view() == spec_all_tx_rows(a.backup)
    &&& b.tx_cursor == 0
    &&& b.tx_offset == 0
    &&& b.backup == a.backup
    &&& b.account_rows == a.account_rows
    &&& b.account_cursor == a.account_cursor
    &&& b.active_panel == a.active_panel
    &&& b.should_quit == a.should_quit
}

/// The panel that is not `p`.
pub open spec fn other_panel(p: ActivePanel) -> ActivePanel {
    match p {
        ActivePanel::Accounts => ActivePanel::Transactions,
        ActivePanel::Transactions => ActivePanel::Accounts,
    }
}

/// Full application state for the viewer.
pub struct App {
    pub backup: MMBakFile,
    pub account_rows: Vec<AccountRow>,
    pub account_cursor: usize,
    pub selected_asset_uid: Option<String>,
    pub tx_rows: Vec<TxRow>,
    pub tx_cursor: usize,
    pub tx_offset: usize,
    pub active_panel: ActivePanel,
    pub should_quit: bool,
}

impl App {
    pub open spec fn account_rows_view(&self) -> Seq<AccountRowView> {
        self.account_rows@.map_values(|r: AccountRow| r@)
    }

    pub open spec fn tx_rows_view(&self) -> Seq<TxRowView> {
        self.tx_rows@.map_values(|r: TxRow| r@)
    }

    /// Moving up reads the row above the focused cursor, unless that row is the
    /// first: it must be in the list.
    pub open spec fn can_move_up(&self) -> bool {
        match self.active_panel {
            ActivePanel::Accounts => self.account_cursor <= 1 || self.account_cursor <= self.account_rows@.len(),
            ActivePanel::Transactions => self.tx_cursor <= 1 || self.tx_cursor <= self.tx_rows@.len(),
        }
    }

    /// The cursors are within their lists (or just past the end).
    pub open spec fn cursors_in_range(&self) -> bool {
        &&& self.account_cursor <= self.account_rows@.len()
        &&& self.tx_cursor <= self.tx_rows@.len()
    }

    /// The viewer's starting state for `backup`, with its account groups.
    pub fn new(backup: MMBakFile, groups: &Vec<AccountGroup>) -> (r: App)
        ensures
            r.backup == backup,
            r.account_rows_view() == spec_account_rows(backup.spec_assets(), groups@),
            r.tx_rows_view() == spec_all_tx_rows(backup),
            r.account_cursor == 0,
            r.selected_asset_uid is None,
            r.tx_cursor == 0,
            r.tx_offset == 0,
            r.active_panel == ActivePanel::Accounts,
            !r.should_quit,
    {
        let account_rows = build_account_rows(&backup, groups);
        let tx_rows = all_tx_rows(&backup);
        App {
            account_rows,
            account_cursor: 0,
            selected_asset_uid: None,
            tx_rows,
            tx_cursor: 0,
            tx_offset: 0,
            active_panel: ActivePanel::Accounts,
            should_quit: false,
            backup,
        }
    }
}

impl App {
    /// Moves the cursor of the focused panel up, past group headers and date
    /// dividers (never above the first row).
    pub fn move_up(&mut self)
        requires
            old(self).can_move_up(),
        ensures
            old(self).cursors_in_range() ==> final(self).cursors_in_range(),
            *final(self) == spec_moved_up(*old(self)),
    {
        match self.active_panel {
            ActivePanel::Accounts => {
                let ghost hs = account_headers(self.account_rows@);
                if self.account_cursor > 0 {
                    self.account_cursor -= 1;
                    // Skip group headers
                    while self.account_cursor > 0 && self.account_rows[self.account_cursor].is_header()
                        invariant
                            hs == account_headers(self.account_rows@),
                            self.account_cursor == 0 || self.account_cursor < self.account_rows@.len(),
                            self.account_rows == old(self).account_rows,
                            skip_up(hs, self.account_cursor as int) == skip_up(hs, old(self).account_cursor - 1),
                            *self == (App { account_cursor: self.account_cursor, ..*old(self) }),
                        decreases self.account_cursor,
                    {
                        self.account_cursor -= 1;
                    }
                }
            },
            ActivePanel::Transactions => {
                let ghost hs = tx_headers(self.tx_rows@);
                if self.tx_cursor > 0 {
                    self.tx_cursor -= 1;
                    while self.tx_cursor > 0 && self.tx_rows[self.tx_cursor].is_header()
                        invariant
                            hs == tx_headers(self.tx_rows@),
                            self.tx_cursor == 0 || self.tx_cursor < self.tx_rows@.len(),
                            self.tx_rows == old(self).tx_rows,
                            skip_up(hs, self.tx_cursor as int) == skip_up(hs, old(self).tx_cursor - 1),
                            *self == (App { tx_cursor: self.tx_cursor, ..*old(self) }),
                        decreases self.tx_cursor,
                    {
                        self.tx_cursor -= 1;
                    }
                }
            },
        }
    }

    /// Moves the cursor of the focused panel down, past group headers and date
    /// dividers, when there is a row below.
    pub fn move_down(&mut self)
        ensures
            old(self).cursors_in_range() ==> final(self).cursors_in_range(),
            *final(self) == spec_moved_down(*old(self)),
    {
        match self.active_panel {
            ActivePanel::Accounts => {
                let ghost hs = account_headers(self.account_rows@);
                if self.account_cursor < self.account_rows.len() && self.account_cursor + 1 < self.account_rows.len() {
                    self.account_cursor += 1;
                    // Skip group headers
                    while self.account_cursor < self.account_rows.len() && self.account_rows[self.account_cursor].is_header()
                        invariant
                            hs == account_headers(self.account_rows@),
                            self.account_cursor <= self.account_rows@.len(),
                            self.account_rows == old(self).account_rows,
                            skip_down(hs, self.account_cursor as int) == skip_down(hs, old(self).account_cursor + 1),
                            *self == (App { account_cursor: self.account_cursor, ..*old(self) }),
                        decreases self.account_rows@.len() - self.account_cursor,
                    {
                        self.account_cursor += 1;
                    }
                }
            },
            ActivePanel::Transactions => {
                let ghost hs = tx_headers(self.tx_rows@);
                if self.tx_cursor < self.tx_rows.len() && self.tx_cursor + 1 < self.tx_rows.len() {
                    self.tx_cursor += 1;
                    while self.tx_cursor < self.tx_rows.len() && self.tx_rows[self.tx_cursor].is_header()
                        invariant
                            hs == tx_headers(self.tx_rows@),
                            self.tx_cursor <= self.tx_rows@.len(),
                            self.tx_rows == old(self).tx_rows,
                            skip_down(hs, self.tx_cursor as int) == skip_down(hs, old(self).tx_cursor + 1),
                            *self == (App { tx_cursor: self.tx_cursor, ..*old(self) }),
                        decreases self.tx_rows@.len() - self.tx_cursor,
                    {
                        self.tx_cursor += 1;
                    }
                }
            },
        }
    }

    /// Moves the focus to the other panel.
    pub fn switch_panel(&mut self)
        ensures
            *final(self) == spec_switched(*old(self)),
    {
        self.active_panel = match self.active_panel {
            ActivePanel::Accounts => ActivePanel::Transactions,
            ActivePanel::Transactions => ActivePanel::Accounts,
        };
    }
}

impl App {
    /// On the account panel, with the cursor on an account: shows that
    /// account's transactions (from the top). Nothing changes on a header or
    /// on the other panel.
    pub fn select_account(&mut self)
        requires
            old(self).active_panel == ActivePanel::Accounts ==> old(self).account_cursor
                < old(self).account_rows@.len(),
        ensures
            spec_selected(*old(self), *final(self)),
    {
        if self.active_panel != ActivePanel::Accounts {
            return;
        }
        if let Some(uid) = self.account_rows[self.account_cursor].asset_uid() {
            let rows = account_tx_rows(&self.backup, &uid);
            self.selected_asset_uid = Some(uid);
            self.tx_rows = rows;
            self.tx_cursor = 0;
            self.tx_offset = 0;
        }
    }

    /// Shows the transactions of all accounts again (from the top).
    pub fn deselect_account(&mut self)
        ensures
            spec_deselected(*old(self), *final(self)),
    {
        self.selected_asset_uid = None;
        self.tx_rows = all_tx_rows(&self.backup);
        self.tx_cursor = 0;
        self.tx_offset = 0;
    }

    /// Applies a user action.
    pub fn apply(&mut self, action: Action)
        requires
            action == Action::Up ==> old(self).can_move_up(),
            action == Action::Select && old(self).active_panel == ActivePanel::Accounts
                ==> old(self).account_cursor < old(self).account_rows@.len(),
        ensures
            action == Action::Up ==> *final(self) == spec_moved_up(*old(self)),
            action == Action::Down ==> *final(self) == spec_moved_down(*old(self)),
            action == Action::SwitchPanel ==> *final(self) == spec_switched(*old(self)),
            action == Action::Select ==> spec_selected(*old(self), *final(self)),
            action == Action::Deselect ==> spec_deselected(*old(self), *final(self)),
            action == Action::Quit ==> *final(self) == (App { should_quit: true, ..*old(self) }),
            old(self).cursors_in_range() ==> final(self).cursors_in_range(),
    {
        match action {
            Action::Up => self.move_up(),
            Action::Down => self.move_down(),
            Action::SwitchPanel => self.switch_panel(),
            Action::Select => self.select_account(),
            Action::Deselect => self.deselect_account(),
            Action::Quit => self.should_quit = true,
        }
    }

    /// Scrolls the transaction panel, `height` rows high, so that its cursor is visible.
    pub fn adjust_tx_offset(&mut self, height: usize)
        ensures
            *final(self) == (App { tx_offset: spec_scrolled_offset(old(self).tx_cursor as int, old(self).tx_offset as int, height as int) as usize, ..*old(self) }),
            height >= 1 ==> final(self).tx_offset <= final(self).tx_cursor < final(self).tx_offset + height,
    {
        self.tx_offset = scrolled_offset(self.tx_cursor, self.tx_offset, height);
    }
}

/// The first visible row of a panel `height` rows high whose cursor is at
/// `cursor`, having shown rows from `offset`: unchanged while the cursor is in
/// view, else moved just enough to bring it in.
pub open spec fn spec_scrolled_offset(cursor: int, offset: int, height: int) -> int {
    if cursor >= offset + height {
        if cursor - height + 1 <= usize::MAX {
            if cursor >= height { cursor - height + 1 } else { 1 }
        } else {
            usize::MAX as int
        }
    } else if cursor < offset {
        cursor
    } else {
        offset
    }
}

pub fn scrolled_offset(cursor: usize, offset: usize, height: usize) -> (r: usize)
    ensures
        r == spec_scrolled_offset(cursor as int, offset as int, height as int),
{
    if cursor >= offset && cursor - offset >= height {
        let base = if cursor >= height { cursor - height } else { 0 };
        if base < usize::MAX { base + 1 } else { usize::MAX }
    } else if cursor < offset {
        cursor
    } else {
        offset
    }
}

/// The first row shown by a list `height` rows high whose cursor is at
/// `cursor`: the top while the cursor fits, else so that the cursor is last.
pub open spec fn spec_first_visible(cursor: int, height: int) -> int {
    if cursor >= height && height > 0 {
        cursor + 1 - height
    } else {
        0
    }
}

pub fn first_visible(cursor: usize, height: usize) -> (r: usize)
    ensures
        r == spec_first_visible(cursor as int, height as int),
        height > 0 ==> r <= cursor < r + height,
{
    if cursor >= height && height > 0 {
        cursor - height + 1
    } else {
        0
    }
}

// ---------------------------------------------------------------------------
// What the rows show.

/// The word shown for a transaction's type.
pub open spec fn spec_type_label(t: TransactionType) -> Seq<char> {
    match t {
        TransactionType::Income => "Income"@,
        TransactionType::Expense => "Expense"@,
        TransactionType::TransferOut => "Transfer"@,
        TransactionType::TransferIn => "TransferIn"@,
    }
}

pub fn type_label(t: TransactionType) -> (r: &'static str)
    ensures
        r@ == spec_type_label(t),
{
    match t {
        TransactionType::Income => "Income",
        TransactionType::Expense => "Expense",
        TransactionType::TransferOut => "Transfer",
        TransactionType::TransferIn => "TransferIn",
    }
}

/// The category shown for a transaction: "parent/sub", the category alone, or "-".
pub open spec fn spec_category_label(t: Transaction) -> Seq<char> {
    match (t.parent_category_name, t.category_name) {
        (Some(p), Some(c)) => p@ + "/"@ + c@,
        (None, Some(c)) => c@,
        _ => "-"@,
    }
}

pub fn category_label(t: &Transaction) -> (r: String)
    ensures
        r@ == spec_category_label(*t),
{
    match (&t.parent_category_name, &t.category_name) {
        (Some(p), Some(c)) => {
            let mut s = p.clone();
            s.append("/");
            s.append(c.as_str());
            s
        },
        (None, Some(c)) => c.clone(),
        _ => "-".to_owned(),
    }
}

/// A text cut to `width` characters: longer text keeps its first `width - 1`
/// characters followed by an ellipsis.
pub open spec fn spec_truncate(s: Seq<char>, width: nat) -> Seq<char> {
    if s.len() > width {
        s.take(if width >= 1 { width - 1 } else { 0 }) + "…"@
    } else {
        s
    }
}

pub fn truncate_chars(s: &str, width: usize) -> (r: String)
    ensures
        r@ == spec_truncate(s@, width as nat),
{
    let n = s.unicode_len();
    if n > width {
        let keep = if width >= 1 { width - 1 } else { 0 };
        let mut t = s.substring_char(0, keep).to_owned();
        t.append("…");
        assert(s@.take(keep as int) =~= s@.subrange(0, keep as int));
        t
    } else {
        s.to_owned()
    }
}

/// An account name cut for a column `width` wide: a name of more than `width`
/// bytes keeps its first `width - 1` characters followed by an ellipsis.
pub open spec fn spec_truncate_name(s: &str, width: nat) -> Seq<char> {
    if vstd::utf8::encode_utf8(s@).len() > width {
        s@.take(if width >= 1 { if width - 1 <= s@.len() { width - 1 } else { s@.len() as int } } else { 0 }) + "…"@
    } else {
        s@
    }
}

pub fn truncate_name(s: &str, width: usize) -> (r: String)
    ensures
        r@ == spec_truncate_name(s, width as nat),
{
    if s.as_bytes().len() > width {
        let n = s.unicode_len();
        let want = if width >= 1 { width - 1 } else { 0 };
        let keep = if want <= n { want } else { n };
        let mut t = s.substring_char(0, keep).to_owned();
        t.append("…");
        assert(s@.take(keep as int) =~= s@.subrange(0, keep as int));
        t
    } else {
        s.to_owned()
    }
}

/// Whether the transaction row `idx` is shown in a panel `height` rows high
/// (one of them taken by the column titles) scrolled to `offset`.
pub open spec fn spec_in_tx_window(idx: int, offset: int, height: int) -> bool {
    offset <= idx < offset + height - 1
}

pub fn in_tx_window(idx: usize, offset: usize, height: usize) -> (r: bool)
    requires
        height >= 1,
    ensures
        r == spec_in_tx_window(idx as int, offset as int, height as int),
{
    idx >= offset && idx - offset < height - 1
}

/// The divider above the transactions of `date`, `width` columns wide:
/// "── ", the date and a space, then "─" up to the width, counting the bytes
/// of the start.
pub open spec fn spec_date_divider(date: Seq<char>, width: int) -> Seq<char> {
    let start = "── "@ + date + " "@;
    let used = encode_utf8(date).len() + 8;
    start + Seq::new(if width > used { (width - used) as nat } else { 0 }, |i: int| '─')
}

pub fn date_divider(date: &str, width: usize) -> (r: String)
    ensures
        r@ == spec_date_divider(date@, width as int),
{
    proof {
        reveal_strlit("── ");
        reveal_strlit(" ");
        reveal_strlit("─");
    }
    let mut s = "── ".to_owned();
    s.append(date);
    s.append(" ");
    let used = date.as_bytes().len();
    let fill: usize = if used < width && width - used > 8 { width - used - 8 } else { 0 };
    let ghost start = s@;
    assert(start =~= "── "@ + date@ + " "@);
    assert(used == encode_utf8(date@).len());
    let mut k: usize = 0;
    while k < fill
        invariant
            0 <= k <= fill,
            s@ == start + Seq::new(k as nat, |i: int| '─'),
        decreases fill - k,
    {
        proof {
            reveal_strlit("─");
        }
        s.append("─");
        assert(s@ =~= start + Seq::new((k + 1) as nat, |i: int| '─'));
        k += 1;
    }
    assert(s@ =~= spec_date_divider(date@, width as int));
    s
}

// ---------------------------------------------------------------------------
// What navigation keeps.

/// Skipping up from a row in range ends on a row no lower, which is row 0 or
/// not a header.
pub proof fn lemma_skip_up(hs: Seq<bool>, c: int)
    requires
        0 <= c < hs.len(),
    ensures
        0 <= skip_up(hs, c) <= c,
        skip_up(hs, c) == 0 || !hs[skip_up(hs, c)],
    decreases c,
{
    if c > 0 && hs[c] {
        lemma_skip_up(hs, c - 1);
    }
}

/// Skipping down ends on a row no higher, which is past the end or not a header.
pub proof fn lemma_skip_down(hs: Seq<bool>, c: int)
    requires
        0 <= c <= hs.len(),
    ensures
        c <= skip_down(hs, c) <= hs.len(),
        skip_down(hs, c) == hs.len() || !hs[skip_down(hs, c)],
    decreases hs.len() - c,
{
    if c < hs.len() && hs[c] {
        lemma_skip_down(hs, c + 1);
    }
}

/// Moving up never moves the cursor down, and a cursor that moves comes to
/// rest on the first row or on a row that is not a header.
pub proof fn lemma_move_up(hs: Seq<bool>, c: int)
    requires
        0 <= c <= hs.len(),
    ensures
        0 <= spec_move_up(hs, c) <= c,
        spec_move_up(hs, c) != c ==> spec_move_up(hs, c) == 0 || !hs[spec_move_up(hs, c)],
{
    if c > 0 {
        lemma_skip_up(hs, c - 1);
    }
}

/// Moving down never moves the cursor up nor past the end, and a cursor that
/// moves comes to rest past the end or on a row that is not a header; when the
/// last row is not a header, it stays on a row.
pub proof fn lemma_move_down(hs: Seq<bool>, c: int)
    requires
        0 <= c <= hs.len(),
    ensures
        c <= spec_move_down(hs, c) <= hs.len(),
        spec_move_down(hs, c) != c ==> spec_move_down(hs, c) == hs.len() || !hs[spec_move_down(
            hs,
            c,
        )],
        c < hs.len() && !hs[hs.len() - 1] ==> spec_move_down(hs, c) < hs.len(),
{
    if c + 1 < hs.len() {
        lemma_skip_down(hs, c + 1);
        if !hs[hs.len() - 1] {
            lemma_skip_down_stops(hs, c + 1);
        }
    }
}

pub proof fn lemma_skip_down_stops(hs: Seq<bool>, c: int)
    requires
        0 <= c < hs.len(),
        !hs[hs.len() - 1],
    ensures
        skip_down(hs, c) < hs.len(),
    decreases hs.len() - c,
{
    if hs[c] {
        lemma_skip_down_stops(hs, c + 1);
    }
}

/// Switching the focus twice gives it back: after two calls of `switch_panel`
/// the viewer is as it was.
pub proof fn lemma_switch_panel_twice(a: App)
    ensures
        spec_switched(spec_switched(a)) == a,
{
}

/// The transactions shown, dividers left out.
pub open spec fn shown_transactions(rows: Seq<TxRowView>) -> Seq<Transaction>
    decreases rows.len(),
{
    if rows.len() == 0 {
        Seq::empty()
    } else {
        let rest = shown_transactions(rows.drop_last());
        match rows.last() {
            TxRowView::Tx(t) => rest.push(t),
            TxRowView::DateHeader(_) => rest,
        }
    }
}

pub proof fn lemma_shown_concat(a: Seq<TxRowView>, b: Seq<TxRowView>)
    ensures
        shown_transactions(a + b) == shown_transactions(a) + shown_transactions(b),
    decreases b.len(),
{
    if b.len() == 0 {
        assert(a + b =~= a);
        assert(shown_transactions(a) + shown_transactions(b) =~= shown_transactions(a));
    } else {
        lemma_shown_concat(a, b.drop_last());
        assert((a + b).drop_last() =~= a + b.drop_last());
        match b.last() {
            TxRowView::Tx(t) => {
                assert(shown_transactions(a) + shown_transactions(b) =~= (shown_transactions(a) + shown_transactions(b.drop_last())).push(t));
            },
            TxRowView::DateHeader(_) => {},
        }
    }
}

/// Leaving out the date dividers gives back the transactions, in order.
pub proof fn lemma_tx_rows_keep_transactions(txs: Seq<Transaction>)
    ensures
        shown_transactions(spec_tx_rows(txs)) == txs,
    decreases txs.len(),
{
    if txs.len() > 0 {
        let t = txs.last();
        let head = if t.date@ != previous_date(txs, txs.len() - 1) {
            seq![TxRowView::DateHeader(t.date@)]
        } else {
            Seq::<TxRowView>::empty()
        };
        lemma_tx_rows_keep_transactions(txs.drop_last());
        lemma_shown_concat(spec_tx_rows(txs.drop_last()), head + seq![TxRowView::Tx(t)]);
        lemma_shown_concat(head, seq![TxRowView::Tx(t)]);
        assert(shown_transactions(Seq::<TxRowView>::empty()) == Seq::<Transaction>::empty());
        assert(shown_transactions(head) =~= Seq::<Transaction>::empty()) by {
            if head.len() == 1 {
                assert(head.drop_last() =~= Seq::<TxRowView>::empty());
                assert(head.last() is DateHeader);
            }
        }
        assert(seq![TxRowView::Tx(t)].drop_last() =~= Seq::<TxRowView>::empty());
        assert(shown_transactions(seq![TxRowView::Tx(t)]) =~= seq![t]);
        assert(spec_tx_rows(txs) == spec_tx_rows(txs.drop_last()) + (head + seq![TxRowView::Tx(t)]));
        assert(txs =~= txs.drop_last().push(t));
    }
}

/// Every date divider is followed by a transaction of that date, and every
/// transaction whose date differs from the one before is preceded by its divider.
pub proof fn lemma_tx_rows_dividers(txs: Seq<Transaction>, k: int)
    requires
        0 <= k < spec_tx_rows(txs).len(),
        spec_tx_rows(txs)[k] is DateHeader,
    ensures
        k + 1 < spec_tx_rows(txs).len(),
        spec_tx_rows(txs)[k + 1] matches TxRowView::Tx(t) && spec_tx_rows(txs)[k] == TxRowView::DateHeader(t.date@),
    decreases txs.len(),
{
    let t = txs.last();
    let prev = spec_tx_rows(txs.drop_last());
    let head = if t.date@ != previous_date(txs, txs.len() - 1) {
        seq![TxRowView::DateHeader(t.date@)]
    } else {
        Seq::<TxRowView>::empty()
    };
    assert(spec_tx_rows(txs) == prev + head + seq![TxRowView::Tx(t)]);
    if k < prev.len() {
        lemma_tx_rows_dividers(txs.drop_last(), k);
        assert(spec_tx_rows(txs)[k] == prev[k]);
        assert(spec_tx_rows(txs)[k + 1] == prev[k + 1]);
    } else {
        assert(k == prev.len());
        assert(head.len() == 1);
    }
}

/// The rows built for the first transactions are the first rows built for all.
pub proof fn lemma_tx_rows_prefix(txs: Seq<Transaction>, n: int)
    requires
        0 <= n <= txs.len(),
    ensures
        spec_tx_rows(txs.take(n)).len() <= spec_tx_rows(txs).len(),
        forall|k: int|
            0 <= k < spec_tx_rows(txs.take(n)).len() ==> spec_tx_rows(txs)[k] == #[trigger] spec_tx_rows(
                txs.take(n),
            )[k],
    decreases txs.len(),
{
    if n == txs.len() {
        assert(txs.take(n) =~= txs);
    } else {
        let d = txs.drop_last();
        assert(d.take(n) =~= txs.take(n));
        lemma_tx_rows_prefix(d, n);
        let t = txs.last();
        let head = if t.date@ != previous_date(txs, txs.len() - 1) {
            seq![TxRowView::DateHeader(t.date@)]
        } else {
            Seq::<TxRowView>::empty()
        };
        assert(spec_tx_rows(txs) == spec_tx_rows(d) + head + seq![TxRowView::Tx(t)]);
    }
}

/// Where transaction `i` stands among the rows.
pub open spec fn tx_row_position(txs: Seq<Transaction>, i: int) -> int {
    spec_tx_rows(txs.take(i + 1)).len() - 1
}

/// Each transaction has its row, and a date divider stands right before it
/// exactly when its date differs from the one before (for the first, when its
/// date is not empty); the divider shows that date.
pub proof fn lemma_tx_rows_divider_before(txs: Seq<Transaction>, i: int)
    requires
        0 <= i < txs.len(),
    ensures
        0 <= tx_row_position(txs, i) < spec_tx_rows(txs).len(),
        spec_tx_rows(txs)[tx_row_position(txs, i)] == TxRowView::Tx(txs[i]),
        (tx_row_position(txs, i) > 0 && spec_tx_rows(txs)[tx_row_position(txs, i) - 1] is DateHeader)
            <==> txs[i].date@ != previous_date(txs, i),
        txs[i].date@ != previous_date(txs, i) ==> spec_tx_rows(txs)[tx_row_position(txs, i) - 1]
            == TxRowView::DateHeader(txs[i].date@),
{
    let pre = txs.take(i + 1);
    let before = txs.take(i);
    assert(pre.drop_last() =~= before);
    assert(pre.last() == txs[i]);
    assert(previous_date(pre, i) == previous_date(txs, i));
    let t = txs[i];
    let head = if t.date@ != previous_date(txs, i) {
        seq![TxRowView::DateHeader(t.date@)]
    } else {
        Seq::<TxRowView>::empty()
    };
    let rb = spec_tx_rows(before);
    assert(spec_tx_rows(pre) == rb + head + seq![TxRowView::Tx(t)]);
    lemma_tx_rows_prefix(txs, i + 1);
    let p = tx_row_position(txs, i);
    assert(spec_tx_rows(pre)[p] == TxRowView::Tx(t));
    assert(spec_tx_rows(txs)[p] == spec_tx_rows(pre)[p]);
    if p > 0 {
        assert(spec_tx_rows(txs)[p - 1] == spec_tx_rows(pre)[p - 1]);
    }
    if head.len() == 0 && i > 0 {
        let b = before;
        assert(b.len() > 0);
        let hb = if b.last().date@ != previous_date(b, b.len() - 1) {
            seq![TxRowView::DateHeader(b.last().date@)]
        } else {
            Seq::<TxRowView>::empty()
        };
        assert(rb == spec_tx_rows(b.drop_last()) + hb + seq![TxRowView::Tx(b.last())]);
        assert(rb[rb.len() - 1] is Tx);
        assert(spec_tx_rows(pre)[p - 1] == rb[rb.len() - 1]);
    }
    if head.len() == 0 && i == 0 {
        assert(before =~= Seq::<Transaction>::empty());
        assert(rb.len() == 0);
    }
}

// ---------------------------------------------------------------------------
// What the account list keeps.

/// Ordering the groups keeps exactly the same groups.
pub proof fn lemma_sort_keys_members(ks: Seq<Seq<char>>, groups: Seq<AccountGroup>)
    ensures
        spec_sort_keys(ks, groups).len() == ks.len(),
        forall|x: Seq<char>| spec_sort_keys(ks, groups).contains(x) <==> ks.contains(x),
    decreases ks.len(),
{
    if ks.len() > 0 {
        let m = spec_first_min(ks, groups);
        lemma_first_min(ks, groups);
        let rest = ks.remove(m);
        ks.remove_ensures(m);
        lemma_sort_keys_members(rest, groups);
        let sorted = spec_sort_keys(ks, groups);
        assert(sorted == seq![ks[m]] + spec_sort_keys(rest, groups));
        assert forall|x: Seq<char>| sorted.contains(x) <==> ks.contains(x) by {
            if sorted.contains(x) {
                let i = choose|i: int| 0 <= i < sorted.len() && sorted[i] == x;
                if i > 0 {
                    assert(spec_sort_keys(rest, groups)[i - 1] == x);
                    assert(spec_sort_keys(rest, groups).contains(x));
                    assert(rest.contains(x));
                    let j = choose|j: int| 0 <= j < rest.len() && rest[j] == x;
                    assert(rest[j] == x);
                    if j < m {
                        assert(ks[j] == x);
                    } else {
                        assert(ks[j + 1] == x);
                    }
                } else {
                    assert(ks[m] == x);
                }
            }
            if ks.contains(x) {
                let j = choose|j: int| 0 <= j < ks.len() && ks[j] == x;
                if j == m {
                    assert(sorted[0] == x);
                } else {
                    let r = if j < m { j } else { j - 1 };
                    assert(rest[r] == x);
                    assert(rest.contains(x));
                    let i = choose|i: int| 0 <= i < spec_sort_keys(rest, groups).len() && spec_sort_keys(rest, groups)[i] == x;
                    assert(sorted[i + 1] == x);
                }
            }
        }
    }
}

/// The groups come in the app's order: a group never comes after one with a
/// later place.
pub proof fn lemma_sort_keys_ordered(ks: Seq<Seq<char>>, groups: Seq<AccountGroup>, i: int, j: int)
    requires
        0 <= i < j < spec_sort_keys(ks, groups).len(),
    ensures
        spec_group_order(groups, spec_sort_keys(ks, groups)[i]) <= spec_group_order(
            groups,
            spec_sort_keys(ks, groups)[j],
        ),
    decreases ks.len(),
{
    let m = spec_first_min(ks, groups);
    lemma_first_min(ks, groups);
    let rest = ks.remove(m);
    ks.remove_ensures(m);
    let sr = spec_sort_keys(rest, groups);
    lemma_sort_keys_members(rest, groups);
    lemma_sort_keys_members(ks, groups);
    let sorted = spec_sort_keys(ks, groups);
    assert(sorted == seq![ks[m]] + sr);
    if i == 0 {
        let x = sorted[j];
        assert(sr[j - 1] == x);
        assert(sr.contains(x));
        assert(rest.contains(x));
        let r = choose|r: int| 0 <= r < rest.len() && rest[r] == x;
        if r < m {
            assert(ks[r] == x);
        } else {
            assert(ks[r + 1] == x);
        }
    } else {
        lemma_sort_keys_ordered(rest, groups, i - 1, j - 1);
    }
}

/// Every account of the list is among the accounts whose group is `k` in the
/// rows of the groups `sorted`, and conversely.
pub proof fn lemma_group_rows_accounts(sorted: Seq<Seq<char>>, assets: Seq<Asset>, groups: Seq<AccountGroup>, a: Asset)
    ensures
        spec_group_rows(sorted, assets, groups).contains(AccountRowView::Account(a)) <==> (assets.contains(a)
            && sorted.contains(group_key(a))),
    decreases sorted.len(),
{
    if sorted.len() > 0 {
        let k = sorted.last();
        let prev = spec_group_rows(sorted.drop_last(), assets, groups);
        let pred = |x: Asset| in_group(x, k);
        let mine = assets.filter(pred).map_values(|x: Asset| account_view(x));
        let hd = seq![AccountRowView::Header(spec_group_name(groups, k))];
        lemma_group_rows_accounts(sorted.drop_last(), assets, groups, a);
        let all = spec_group_rows(sorted, assets, groups);
        assert(all == prev + hd + mine);
        let v = AccountRowView::Account(a);
        // In this group's accounts exactly when it is an account of this group.
        assert(mine.contains(v) <==> (assets.contains(a) && group_key(a) == k)) by {
            if mine.contains(v) {
                let i = choose|i: int| 0 <= i < mine.len() && mine[i] == v;
                assert(assets.filter(pred)[i] == a);
                assets.lemma_filter_pred(pred, i);
                assert(assets.filter(pred).contains(a));
                assets.lemma_filter_contains_rev(pred, a);
            }
            if assets.contains(a) && group_key(a) == k {
                let j = choose|j: int| 0 <= j < assets.len() && assets[j] == a;
                assets.lemma_filter_contains(pred, j);
                assert(assets.filter(pred).contains(a));
                let i = choose|i: int| 0 <= i < assets.filter(pred).len() && assets.filter(pred)[i] == a;
                assert(mine[i] == v);
            }
        }
        assert(all.contains(v) <==> (prev.contains(v) || mine.contains(v))) by {
            if all.contains(v) {
                let i = choose|i: int| 0 <= i < all.len() && all[i] == v;
                if i < prev.len() {
                    assert(prev[i] == v);
                } else if i > prev.len() {
                    assert(mine[i - prev.len() - 1] == v);
                }
            }
            if prev.contains(v) {
                let i = choose|i: int| 0 <= i < prev.len() && prev[i] == v;
                assert(all[i] == v);
            }
            if mine.contains(v) {
                let i = choose|i: int| 0 <= i < mine.len() && mine[i] == v;
                assert(all[prev.len() + 1 + i] == v);
            }
        }
        assert(sorted.contains(group_key(a)) <==> (sorted.drop_last().contains(group_key(a)) || group_key(a) == k)) by {
            if sorted.contains(group_key(a)) {
                let i = choose|i: int| 0 <= i < sorted.len() && sorted[i] == group_key(a);
                if i < sorted.len() - 1 {
                    assert(sorted.drop_last()[i] == group_key(a));
                }
            }
            if sorted.drop_last().contains(group_key(a)) {
                let i = choose|i: int| 0 <= i < sorted.len() - 1 && sorted.drop_last()[i] == group_key(a);
                assert(sorted[i] == group_key(a));
            }
        }
    }
}

/// The group keys list the group of every account.
pub proof fn lemma_group_keys_cover(assets: Seq<Asset>, a: Asset)
    requires
        assets.contains(a),
    ensures
        spec_group_keys(assets).contains(group_key(a)),
    decreases assets.len(),
{
    let ks = spec_group_keys(assets.drop_last());
    if assets.last() == a {
        if !ks.contains(group_key(a)) {
            assert(ks.push(group_key(a))[ks.len() as int] == group_key(a));
        }
    } else {
        let i = choose|i: int| 0 <= i < assets.len() && assets[i] == a;
        assert(assets.drop_last()[i] == a);
        lemma_group_keys_cover(assets.drop_last(), a);
        let j = choose|j: int| 0 <= j < ks.len() && ks[j] == group_key(a);
        if !ks.contains(group_key(assets.last())) {
            assert(ks.push(group_key(assets.last()))[j] == group_key(a));
        }
    }
}

/// The account list shows exactly the active accounts: every account it shows
/// is an active account of the backup, and every active account is shown.
pub proof fn lemma_account_rows_show_active(assets: Seq<Asset>, groups: Seq<AccountGroup>, a: Asset)
    ensures
        spec_account_rows(assets, groups).contains(AccountRowView::Account(a)) <==> (assets.contains(a)
            && !a.is_deleted),
{
    let pred = |x: Asset| active_asset(x);
    let active = assets.filter(pred);
    let keys = spec_group_keys(active);
    lemma_sort_keys_members(keys, groups);
    lemma_group_rows_accounts(spec_sort_keys(keys, groups), active, groups, a);
    if active.contains(a) {
        let i = choose|i: int| 0 <= i < active.len() && active[i] == a;
        assets.lemma_filter_pred(pred, i);
        assets.lemma_filter_contains_rev(pred, a);
        lemma_group_keys_cover(active, a);
    }
    if assets.contains(a) && !a.is_deleted {
        let j = choose|j: int| 0 <= j < assets.len() && assets[j] == a;
        assets.lemma_filter_contains(pred, j);
        lemma_group_keys_cover(active, a);
    }
}

/// The number of account rows, headers left out.
pub open spec fn account_row_count(rows: Seq<AccountRowView>) -> nat
    decreases rows.len(),
{
    if rows.len() == 0 {
        0
    } else {
        account_row_count(rows.drop_last()) + if rows.last() is Account {
            1nat
        } else {
            0nat
        }
    }
}

proof fn lemma_account_row_count_concat(a: Seq<AccountRowView>, b: Seq<AccountRowView>)
    ensures
        account_row_count(a + b) == account_row_count(a) + account_row_count(b),
    decreases b.len(),
{
    if b.len() == 0 {
        assert(a + b =~= a);
    } else {
        lemma_account_row_count_concat(a, b.drop_last());
        assert((a + b).drop_last() =~= a + b.drop_last());
    }
}

proof fn lemma_account_row_count_accounts(xs: Seq<Asset>)
    ensures
        account_row_count(xs.map_values(|a: Asset| account_view(a))) == xs.len(),
    decreases xs.len(),
{
    if xs.len() > 0 {
        lemma_account_row_count_accounts(xs.drop_last());
        assert(xs.map_values(|a: Asset| account_view(a)).drop_last() =~= xs.drop_last().map_values(
            |a: Asset| account_view(a),
        ));
    }
}

/// How many of `assets` belong to the groups `sorted`, group by group.
pub open spec fn spec_grouped_count(sorted: Seq<Seq<char>>, assets: Seq<Asset>) -> nat
    decreases sorted.len(),
{
    if sorted.len() == 0 {
        0
    } else {
        spec_grouped_count(sorted.drop_last(), assets) + assets.filter(
            |a: Asset| in_group(a, sorted.last()),
        ).len()
    }
}

proof fn lemma_group_rows_count(sorted: Seq<Seq<char>>, assets: Seq<Asset>, groups: Seq<AccountGroup>)
    ensures
        account_row_count(spec_group_rows(sorted, assets, groups)) == spec_grouped_count(sorted, assets),
    decreases sorted.len(),
{
    if sorted.len() > 0 {
        let k = sorted.last();
        let prev = spec_group_rows(sorted.drop_last(), assets, groups);
        let hd = seq![AccountRowView::Header(spec_group_name(groups, k))];
        let xs = assets.filter(|a: Asset| in_group(a, k));
        let mine = xs.map_values(|a: Asset| account_view(a));
        lemma_group_rows_count(sorted.drop_last(), assets, groups);
        lemma_account_row_count_concat(prev + hd, mine);
        lemma_account_row_count_concat(prev, hd);
        assert(hd.drop_last() =~= Seq::<AccountRowView>::empty());
        assert(account_row_count(Seq::<AccountRowView>::empty()) == 0);
        assert(account_row_count(hd) == 0);
        lemma_account_row_count_accounts(xs);
        assert(spec_group_rows(sorted, assets, groups) == prev + hd + mine);
    }
}

/// How many times `k` occurs in `ks`.
pub open spec fn spec_occurrences(ks: Seq<Seq<char>>, k: Seq<char>) -> nat
    decreases ks.len(),
{
    if ks.len() == 0 {
        0
    } else {
        spec_occurrences(ks.drop_last(), k) + if ks.last() == k {
            1nat
        } else {
            0nat
        }
    }
}

proof fn lemma_occurrences_none(ks: Seq<Seq<char>>, k: Seq<char>)
    requires
        !ks.contains(k),
    ensures
        spec_occurrences(ks, k) == 0,
    decreases ks.len(),
{
    if ks.len() > 0 {
        assert(ks.last() == ks[ks.len() - 1]);
        assert forall|x: Seq<char>| ks.drop_last().contains(x) implies ks.contains(x) by {
            let i = choose|i: int| 0 <= i < ks.drop_last().len() && ks.drop_last()[i] == x;
            assert(ks[i] == x);
        }
        lemma_occurrences_none(ks.drop_last(), k);
    }
}

proof fn lemma_occurrences_once(ks: Seq<Seq<char>>, k: Seq<char>)
    requires
        ks.no_duplicates(),
        ks.contains(k),
    ensures
        spec_occurrences(ks, k) == 1,
    decreases ks.len(),
{
    let p = ks.drop_last();
    let n = ks.len() - 1;
    if ks.last() == k {
        assert(!p.contains(k)) by {
            if p.contains(k) {
                let i = choose|i: int| 0 <= i < p.len() && p[i] == k;
                assert(ks[i] == ks[n]);
            }
        }
        lemma_occurrences_none(p, k);
    } else {
        let j = choose|j: int| 0 <= j < ks.len() && ks[j] == k;
        assert(j != n);
        assert(p[j] == k);
        assert(p.no_duplicates()) by {
            assert forall|a: int, b: int| 0 <= a < p.len() && 0 <= b < p.len() && a != b implies p[a] != p[b] by {
                assert(ks[a] == p[a] && ks[b] == p[b]);
            }
        }
        lemma_occurrences_once(p, k);
    }
}

proof fn lemma_grouped_count_push(sorted: Seq<Seq<char>>, assets: Seq<Asset>, a: Asset)
    ensures
        spec_grouped_count(sorted, assets.push(a)) == spec_grouped_count(sorted, assets) + spec_occurrences(
            sorted,
            group_key(a),
        ),
    decreases sorted.len(),
{
    if sorted.len() > 0 {
        lemma_grouped_count_push(sorted.drop_last(), assets, a);
        let k = sorted.last();
        assets.lemma_filter_push(a, |x: Asset| in_group(x, k));
    }
}

proof fn lemma_grouped_count_empty(sorted: Seq<Seq<char>>)
    ensures
        spec_grouped_count(sorted, Seq::<Asset>::empty()) == 0,
    decreases sorted.len(),
{
    if sorted.len() > 0 {
        lemma_grouped_count_empty(sorted.drop_last());
        reveal(Seq::filter);
    }
}

/// When the groups `sorted` are distinct and hold the group of every account,
/// every account is counted once.
proof fn lemma_grouped_count_all(sorted: Seq<Seq<char>>, assets: Seq<Asset>)
    requires
        sorted.no_duplicates(),
        forall|a: Asset| assets.contains(a) ==> sorted.contains(group_key(a)),
    ensures
        spec_grouped_count(sorted, assets) == assets.len(),
    decreases assets.len(),
{
    if assets.len() == 0 {
        lemma_grouped_count_empty(sorted);
        assert(assets =~= Seq::<Asset>::empty());
    } else {
        let p = assets.drop_last();
        let a = assets.last();
        assert(assets =~= p.push(a));
        assert forall|x: Asset| p.contains(x) implies sorted.contains(group_key(x)) by {
            let i = choose|i: int| 0 <= i < p.len() && p[i] == x;
            assert(assets[i] == x);
            assert(assets.contains(x));
        }
        lemma_grouped_count_all(sorted, p);
        lemma_grouped_count_push(sorted, p, a);
        assert(assets[assets.len() - 1] == a);
        assert(assets.contains(a));
        lemma_occurrences_once(sorted, group_key(a));
    }
}

proof fn lemma_group_keys_distinct(assets: Seq<Asset>)
    ensures
        spec_group_keys(assets).no_duplicates(),
    decreases assets.len(),
{
    if assets.len() > 0 {
        lemma_group_keys_distinct(assets.drop_last());
        let ks = spec_group_keys(assets.drop_last());
        let k = group_key(assets.last());
        if !ks.contains(k) {
            let n = ks.len() as int;
            assert forall|a: int, b: int| 0 <= a < n + 1 && 0 <= b < n + 1 && a != b implies ks.push(k)[a]
                != ks.push(k)[b] by {
                if a == n {
                    assert(ks[b] == ks.push(k)[b]);
                } else if b == n {
                    assert(ks[a] == ks.push(k)[a]);
                }
            }
        }
    }
}

proof fn lemma_sort_keys_distinct(ks: Seq<Seq<char>>, groups: Seq<AccountGroup>)
    requires
        ks.no_duplicates(),
    ensures
        spec_sort_keys(ks, groups).no_duplicates(),
    decreases ks.len(),
{
    if ks.len() > 0 {
        let m = spec_first_min(ks, groups);
        lemma_first_min(ks, groups);
        let rest = ks.remove(m);
        ks.remove_ensures(m);
        assert(rest.no_duplicates()) by {
            assert forall|a: int, b: int| 0 <= a < rest.len() && 0 <= b < rest.len() && a != b implies rest[a]
                != rest[b] by {
                let ia = if a < m { a } else { a + 1 };
                let ib = if b < m { b } else { b + 1 };
                assert(rest[a] == ks[ia] && rest[b] == ks[ib]);
            }
        }
        lemma_sort_keys_distinct(rest, groups);
        lemma_sort_keys_members(rest, groups);
        let sr = spec_sort_keys(rest, groups);
        assert(!rest.contains(ks[m])) by {
            if rest.contains(ks[m]) {
                let i = choose|i: int| 0 <= i < rest.len() && rest[i] == ks[m];
                let ii = if i < m { i } else { i + 1 };
                assert(ks[ii] == ks[m]);
            }
        }
        let sorted = spec_sort_keys(ks, groups);
        assert(sorted == seq![ks[m]] + sr);
        assert forall|a: int, b: int| 0 <= a < sorted.len() && 0 <= b < sorted.len() && a != b implies sorted[a]
            != sorted[b] by {
            if a == 0 && b > 0 {
                assert(sorted[b] == sr[b - 1]);
                assert(sr.contains(sr[b - 1]));
            } else if b == 0 && a > 0 {
                assert(sorted[a] == sr[a - 1]);
                assert(sr.contains(sr[a - 1]));
            } else if a > 0 && b > 0 {
                assert(sorted[a] == sr[a - 1] && sorted[b] == sr[b - 1]);
            }
        }
    }
}

/// The account list shows as many accounts as the backup has active accounts:
/// with the law above, every active account is shown exactly once.
pub proof fn lemma_account_rows_count(assets: Seq<Asset>, groups: Seq<AccountGroup>)
    ensures
        account_row_count(spec_account_rows(assets, groups)) == assets.filter(|a: Asset| active_asset(a)).len(),
{
    let active = assets.filter(|a: Asset| active_asset(a));
    let keys = spec_group_keys(active);
    let sorted = spec_sort_keys(keys, groups);
    lemma_group_keys_distinct(active);
    lemma_sort_keys_distinct(keys, groups);
    lemma_sort_keys_members(keys, groups);
    assert forall|a: Asset| active.contains(a) implies sorted.contains(group_key(a)) by {
        lemma_group_keys_cover(active, a);
    }
    lemma_grouped_count_all(sorted, active);
    lemma_group_rows_count(sorted, active, groups);
}

/// The transaction list over all accounts.
fn all_tx_rows(backup: &MMBakFile) -> (r: Vec<TxRow>)
    ensures
        r@.map_values(|row: TxRow| row@) == spec_all_tx_rows(*backup),
{
    let active = backup.active_transactions();
    build_tx_rows(collect_tx(&active))
}

/// The transaction list of the account `uid`.
fn account_tx_rows(backup: &MMBakFile, uid: &String) -> (r: Vec<TxRow>)
    ensures
        r@.map_values(|row: TxRow| row@) == spec_account_tx_rows(*backup, uid@),
{
    let active = backup.active_transactions();
    let ghost act = active@.map_values(|t: &Transaction| *t);
    let ghost pred = |t: Transaction| involves(t, uid@);
    let mut mine: Vec<&Transaction> = Vec::new();
    let mut i: usize = 0;
    while i < active.len()
        invariant
            0 <= i <= active@.len(),
            act == active@.map_values(|t: &Transaction| *t),
            pred == (|t: Transaction| involves(t, uid@)),
            mine@.map_values(|t: &Transaction| *t) == act.take(i as int).filter(pred),
        decreases active@.len() - i,
    {
        proof {
            reveal(Seq::filter);
            assert(act.take(i + 1).drop_last() =~= act.take(i as int));
        }
        let t: &Transaction = active[i];
        let from = match &t.asset_uid {
            Some(a) => str_eq(a.as_str(), uid.as_str()),
            None => false,
        };
        let to = match &t.to_asset_uid {
            Some(b) => str_eq(b.as_str(), uid.as_str()),
            None => false,
        };
        let ghost before = mine@;
        if from || to {
            mine.push(t);
            assert(mine@.map_values(|t: &Transaction| *t) =~= before.map_values(|t: &Transaction| *t).push(act[i as int]));
        }
        i += 1;
    }
    assert(act.take(i as int) =~= act);
    build_tx_rows(collect_tx(&mine))
}

} // verus!
