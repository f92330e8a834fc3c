//! Records of a backup and the kinds of transactions.

use vstd::prelude::*;
use crate::text::{
    clone_opt, digit, digit_char, opt_or, parse_i64, push_char, push_decimal, spec_decimal,
    spec_parse_i64, str_eq,
};
use vstd::string::StringExecFns;

verus! {

/// Transaction type (income, expense, transfer out, or transfer in).
#[derive(Debug, Clone, Copy, PartialEq, Eq, Structural)]
pub enum TransactionType {
    /// Expense transaction (DO_TYPE=1) or market value decrease (DO_TYPE=8)
    Expense,
    /// Income transaction (DO_TYPE=0) or market value increase (DO_TYPE=7)
    Income,
    /// Transfer out: money leaving this account (DO_TYPE=3)
    TransferOut,
    /// Transfer in: money arriving at this account (DO_TYPE=4)
    TransferIn,
}

/// The type named by a short code of the export format.
pub open spec fn spec_type_from_code(s: Seq<char>) -> Option<TransactionType> {
    if s == seq!['E'] {
        Some(TransactionType::Expense)
    } else if s == seq!['I'] {
        Some(TransactionType::Income)
    } else if s == seq!['T', 'O'] {
        Some(TransactionType::TransferOut)
    } else if s == seq!['T', 'I'] {
        Some(TransactionType::TransferIn)
    } else {
        None
    }
}

/// The type stored under a numeric DO_TYPE value.
pub open spec fn spec_type_from_do_type(v: int) -> Option<TransactionType> {
    if v == 0 || v == 7 {
        Some(TransactionType::Income)
    } else if v == 1 || v == 8 {
        Some(TransactionType::Expense)
    } else if v == 3 {
        Some(TransactionType::TransferOut)
    } else if v == 4 {
        Some(TransactionType::TransferIn)
    } else {
        None
    }
}

impl TransactionType {
    pub open spec fn spec_is_transfer(self) -> bool {
        self is TransferIn || self is TransferOut
    }

    /// The name under which the type is shown.
    pub open spec fn spec_name(self) -> Seq<char> {
        match self {
            TransactionType::Expense => seq!['E', 'x', 'p', 'e', 'n', 's', 'e'],
            TransactionType::Income => seq!['I', 'n', 'c', 'o', 'm', 'e'],
            TransactionType::TransferOut => seq!['T', 'r', 'a', 'n', 's', 'f', 'e', 'r', 'O', 'u', 't'],
            TransactionType::TransferIn => seq!['T', 'r', 'a', 'n', 's', 'f', 'e', 'r', 'I', 'n'],
        }
    }

    pub fn from_str(s: &str) -> (r: Option<Self>)
        ensures
            r == spec_type_from_code(s@),
    {
        proof {
            reveal_strlit("E");
            reveal_strlit("I");
            reveal_strlit("TO");
            reveal_strlit("TI");
        }
        assert("E"@ =~= seq!['E']);
        assert("I"@ =~= seq!['I']);
        assert("TO"@ =~= seq!['T', 'O']);
        assert("TI"@ =~= seq!['T', 'I']);
        if str_eq(s, "E") {
            Some(TransactionType::Expense)
        } else if str_eq(s, "I") {
            assert(s@[0] == 'I');
            Some(TransactionType::Income)
        } else if str_eq(s, "TO") {
            assert(s@.len() == 2);
            Some(TransactionType::TransferOut)
        } else if str_eq(s, "TI") {
            assert(s@.len() == 2 && s@[1] == 'I');
            Some(TransactionType::TransferIn)
        } else {
            None
        }
    }

    pub fn from_i64(value: i64) -> (r: Option<Self>)
        ensures
            r == spec_type_from_do_type(value as int),
    {
        match value {
            0 => Some(TransactionType::Income),
            1 => Some(TransactionType::Expense),
            3 => Some(TransactionType::TransferOut),
            4 => Some(TransactionType::TransferIn),
            7 => Some(TransactionType::Income),
            8 => Some(TransactionType::Expense),
            _ => None,
        }
    }

    /// Returns true if this is a transfer (either direction)
    pub fn is_transfer(&self) -> (r: bool)
        ensures
            r == self.spec_is_transfer(),
    {
        match self {
            TransactionType::TransferIn | TransactionType::TransferOut => true,
            _ => false,
        }
    }

    /// The name under which the type is shown ("Expense", "Income", ...).
    pub fn as_str(&self) -> (r: &'static str)
        ensures
            r@ == self.spec_name(),
    {
        match self {
            TransactionType::Expense => {
                let s = "Expense";
                proof { reveal_strlit("Expense"); }
                assert(s@ =~= self.spec_name());
                s
            }
            TransactionType::Income => {
                let s = "Income";
                proof { reveal_strlit("Income"); }
                assert(s@ =~= self.spec_name());
                s
            }
            TransactionType::TransferOut => {
                let s = "TransferOut";
                proof { reveal_strlit("TransferOut"); }
                assert(s@ =~= self.spec_name());
                s
            }
            TransactionType::TransferIn => {
                let s = "TransferIn";
                proof { reveal_strlit("TransferIn"); }
                assert(s@ =~= self.spec_name());
                s
            }
        }
    }
}


// ---------------------------------------------------------------------------
// Records of a backup. Amounts, balances and rates are 64-bit floats in the
// database; they are held here as their bit patterns (`f64::to_bits`), which
// this library carries but does not compute with.

/// The bit pattern of the float `0.0`.
pub const ZERO_F64_BITS: u64 = 0;
/// The bit pattern of the float `1.0`.
pub const ONE_F64_BITS: u64 = 0x3ff0_0000_0000_0000;

/// A transaction (income/expense entry) from ZINOUTCOME table
#[derive(Debug, Clone)]
pub struct Transaction {
    pub uid: String,
    pub transaction_type: TransactionType,
    /// Raw DO_TYPE value from the database (0=Income, 1=Expense, 3=TransferOut, 4=TransferIn, 7=MktIncrease, 8=MktDecrease);
    /// -1 where the stored value is missing or not a number
    pub raw_do_type: i64,
    /// The amount, as the bit pattern of a 64-bit float
    pub amount: u64,
    pub date: String,
    pub category_uid: Option<String>,
    pub category_name: Option<String>,
    pub parent_category_name: Option<String>,
    pub asset_uid: Option<String>,
    pub asset_name: Option<String>,
    pub to_asset_uid: Option<String>,
    pub to_asset_name: Option<String>,
    pub currency_uid: Option<String>,
    pub memo: Option<String>,
    pub note: Option<String>,
    pub payee: Option<String>,
    pub is_deleted: bool,
}

/// The text shown for an optional name that is missing.
pub open spec fn unknown_name() -> Seq<char> {
    "?"@
}

/// The text of a present, non-empty optional string.
pub open spec fn nonempty(o: Option<String>) -> bool {
    o matches Some(s) && s@.len() > 0
}

/// The short description of a transaction: the account route of a transfer,
/// else its note, memo or payee (the first that is present and not empty).
pub open spec fn spec_description(t: Transaction) -> Seq<char> {
    if t.transaction_type.spec_is_transfer() {
        opt_or(t.asset_name, unknown_name()) + " → "@ + opt_or(t.to_asset_name, unknown_name())
    } else if nonempty(t.note) {
        t.note.unwrap()@
    } else if nonempty(t.memo) {
        t.memo.unwrap()@
    } else if nonempty(t.payee) {
        t.payee.unwrap()@
    } else {
        "No description"@
    }
}

/// What a transaction's description shows. A transfer shows its route. Any
/// other transaction shows its note when the note has text; otherwise its memo
/// when that has text, whatever the payee; otherwise its payee when that has
/// text; otherwise "No description".
pub proof fn lemma_description_order(t: Transaction)
    ensures
        (t.transaction_type == TransactionType::TransferOut || t.transaction_type == TransactionType::TransferIn)
            ==> spec_description(t) == opt_or(t.asset_name, unknown_name()) + " → "@ + opt_or(
            t.to_asset_name,
            unknown_name(),
        ),
        t.transaction_type != TransactionType::TransferOut && t.transaction_type != TransactionType::TransferIn
            ==> {
            let note = (t.note matches Some(n) && n@.len() > 0);
            let memo = (t.memo matches Some(m) && m@.len() > 0);
            let payee = (t.payee matches Some(p) && p@.len() > 0);
            &&& note ==> spec_description(t) == t.note->0@
            &&& (!note && memo) ==> spec_description(t) == t.memo->0@
            &&& (!note && !memo && payee) ==> spec_description(t) == t.payee->0@
            &&& (!note && !memo && !payee) ==> spec_description(t) == "No description"@
        },
{
}

/// The text held by an optional string that is present and not empty.
fn nonempty_text(o: &Option<String>) -> (r: Option<String>)
    ensures
        r is Some <==> nonempty(*o),
        r matches Some(s) ==> s == o.unwrap(),
{
    match o {
        Some(s) => {
            if s.as_str().unicode_len() > 0 {
                Some(s.clone())
            } else {
                None
            }
        },
        None => None,
    }
}

impl Transaction {
    /// A copy of the transaction.
    pub fn duplicate(&self) -> (r: Transaction)
        ensures
            r == *self,
    {
        Transaction {
            uid: self.uid.clone(),
            transaction_type: self.transaction_type,
            raw_do_type: self.raw_do_type,
            amount: self.amount,
            date: self.date.clone(),
            category_uid: clone_opt(&self.category_uid),
            category_name: clone_opt(&self.category_name),
            parent_category_name: clone_opt(&self.parent_category_name),
            asset_uid: clone_opt(&self.asset_uid),
            asset_name: clone_opt(&self.asset_name),
            to_asset_uid: clone_opt(&self.to_asset_uid),
            to_asset_name: clone_opt(&self.to_asset_name),
            currency_uid: clone_opt(&self.currency_uid),
            memo: clone_opt(&self.memo),
            note: clone_opt(&self.note),
            payee: clone_opt(&self.payee),
            is_deleted: self.is_deleted,
        }
    }

    /// Get a short description of the transaction
    pub fn description(&self) -> (r: String)
        ensures
            r@ == spec_description(*self),
    {
        // For transfers, show the account route regardless of memo
        if self.transaction_type == TransactionType::TransferOut
            || self.transaction_type == TransactionType::TransferIn {
            let mut s = String::new();
            match &self.asset_name {
                Some(n) => s.append(n.as_str()),
                None => s.append("?"),
            }
            s.append(" → ");
            match &self.to_asset_name {
                Some(n) => s.append(n.as_str()),
                None => s.append("?"),
            }
            return s;
        }
        if let Some(note) = nonempty_text(&self.note) {
            return note;
        }
        if let Some(memo) = nonempty_text(&self.memo) {
            return memo;
        }
        if let Some(payee) = nonempty_text(&self.payee) {
            return payee;
        }
        "No description".to_owned()
    }
}

/// An account/asset from ZASSET table
#[derive(Debug, Clone)]
pub struct Asset {
    pub uid: String,
    pub name: String,
    pub nicname: Option<String>,
    pub asset_type: i64,
    pub left_money: i64,
    /// The balance computed from the transactions, as the bit pattern of a 64-bit float
    pub calculated_balance: u64,
    pub currency_uid: Option<String>,
    pub group_uid: Option<String>,
    pub memo: Option<String>,
    pub is_deleted: bool,
}

impl Asset {
    /// The name shown for the account: its nickname when it has one.
    pub open spec fn spec_display_name(self) -> Seq<char> {
        match self.nicname {
            Some(n) => n@,
            None => self.name@,
        }
    }

    /// Get the display name (prefer nicname if available)
    pub fn display_name(&self) -> (r: &str)
        ensures
            r@ == self.spec_display_name(),
    {
        match &self.nicname {
            Some(n) => n.as_str(),
            None => self.name.as_str(),
        }
    }

    /// A copy of the asset.
    pub fn duplicate(&self) -> (r: Asset)
        ensures
            r == *self,
    {
        Asset {
            uid: self.uid.clone(),
            name: self.name.clone(),
            nicname: clone_opt(&self.nicname),
            asset_type: self.asset_type,
            left_money: self.left_money,
            calculated_balance: self.calculated_balance,
            currency_uid: clone_opt(&self.currency_uid),
            group_uid: clone_opt(&self.group_uid),
            memo: clone_opt(&self.memo),
            is_deleted: self.is_deleted,
        }
    }
}

/// A category from ZCATEGORY table
#[derive(Debug, Clone)]
pub struct Category {
    pub uid: String,
    pub name: String,
    pub parent_uid: Option<String>,
    /// Type: income or expense
    pub do_type: i64,
    pub status: i64,
    pub is_deleted: bool,
}

/// A currency from ZCURRENCY table
#[derive(Debug, Clone)]
pub struct Currency {
    pub uid: String,
    pub iso: String,
    pub symbol: Option<String>,
    /// The exchange rate, as the bit pattern of a 64-bit float
    pub rate: u64,
    pub is_main_currency: bool,
    pub is_show: bool,
}

/// Database statistics
#[derive(Debug, Clone)]
pub struct DatabaseStats {
    pub total_transactions: usize,
    pub total_assets: usize,
    pub total_categories: usize,
    pub total_currencies: usize,
    pub active_transactions: usize,
    pub active_assets: usize,
    /// Sum of the active income amounts, as the bit pattern of a 64-bit float
    pub total_income: u64,
    /// Sum of the active expense amounts, as the bit pattern of a 64-bit float
    pub total_expense: u64,
}

// ---------------------------------------------------------------------------
// Human-readable byte sizes.

pub open spec fn pow2(k: nat) -> nat
    decreases k,
{
    if k == 0 {
        1
    } else {
        2 * pow2((k - 1) as nat)
    }
}

pub open spec fn pow1024(e: nat) -> nat
    decreases e,
{
    if e == 0 {
        1
    } else {
        1024 * pow1024((e - 1) as nat)
    }
}

/// The number of binary digits of `n`.
pub open spec fn bit_length(n: nat) -> nat
    decreases n,
{
    if n == 0 {
        0
    } else {
        1 + bit_length(n / 2)
    }
}

/// `n / d` rounded to the nearest whole number, ties to the even one.
pub open spec fn round_half_even(n: nat, d: nat) -> nat {
    let q = n / d;
    let r = n % d;
    if 2 * r > d {
        q + 1
    } else if 2 * r < d {
        q
    } else if q % 2 == 0 {
        q
    } else {
        q + 1
    }
}

/// The value of `n` converted to a 64-bit float: the nearest number with a
/// 53-bit significand, ties to the even significand.
pub open spec fn f64_value(n: nat) -> nat {
    if n < pow2(53) {
        n
    } else {
        let k = (bit_length(n) - 53) as nat;
        round_half_even(n, pow2(k)) * pow2(k)
    }
}

/// The unit for sizes of `1024^e` bytes.
pub open spec fn size_unit(e: nat) -> Seq<char> {
    if e == 0 {
        "B"@
    } else if e == 1 {
        "KB"@
    } else if e == 2 {
        "MB"@
    } else if e == 3 {
        "GB"@
    } else {
        "TB"@
    }
}

/// The largest `e <= 4` with `1024^e <= size`.
pub open spec fn size_exponent(size: nat) -> nat {
    if size >= pow1024(4) {
        4
    } else if size >= pow1024(3) {
        3
    } else if size >= pow1024(2) {
        2
    } else if size >= pow1024(1) {
        1
    } else {
        0
    }
}

/// `num / den` written with two decimals, rounded half to even.
pub open spec fn fixed2(num: nat, den: nat) -> Seq<char> {
    let q = round_half_even(num * 100, den);
    spec_decimal(q / 100) + seq!['.', digit_char((q % 100) / 10), digit_char(q % 10)]
}

/// The text `format_size` gives for `size` bytes: whole bytes below 1 KB, else
/// the size in the largest unit up to TB with two decimals.
pub open spec fn spec_format_size(size: nat) -> Seq<char> {
    if size == 0 {
        "0 B"@
    } else {
        let e = size_exponent(size);
        if e == 0 {
            spec_decimal(size) + " "@ + size_unit(0)
        } else {
            fixed2(f64_value(size), pow1024(e)) + " "@ + size_unit(e)
        }
    }
}

pub proof fn lemma_pow_values()
    ensures
        pow1024(1) == 0x400,
        pow1024(2) == 0x10_0000,
        pow1024(3) == 0x4000_0000,
        pow1024(4) == 0x100_0000_0000,
        pow2(53) == 0x20_0000_0000_0000,
{
    reveal_with_fuel(pow1024, 5);
    reveal_with_fuel(pow2, 54);
}

/// Rounds `n / d` half to even.
fn round_div(n: u128, d: u128) -> (r: u128)
    requires
        d > 0,
        n / d < u128::MAX,
    ensures
        r == round_half_even(n as nat, d as nat),
{
    let q = n / d;
    let rem = n % d;
    if rem > d - rem {
        q + 1
    } else if rem < d - rem {
        q
    } else if q % 2 == 0 {
        q
    } else {
        q + 1
    }
}

/// A number with `l` binary digits lies in `[2^(l-1), 2^l)`.
pub proof fn lemma_bit_length(n: nat, l: nat)
    requires
        l >= 1,
        pow2((l - 1) as nat) <= n < pow2(l),
    ensures
        bit_length(n) == l,
    decreases l,
{
    if l == 1 {
        assert(pow2(0) == 1);
        assert(pow2(1) == 2) by {
            reveal_with_fuel(pow2, 2);
        }
        assert(n == 1);
        assert(bit_length(0) == 0);
    } else {
        assert(pow2((l - 1) as nat) == 2 * pow2((l - 2) as nat));
        lemma_bit_length(n / 2, (l - 1) as nat);
    }
}

/// The nearest 64-bit float to `n`, as an integer.
fn to_f64_value(n: u64) -> (r: u128)
    ensures
        r == f64_value(n as nat),
        r <= 0x2_0000_0000_0000_0000,
{
    proof {
        lemma_pow_values();
    }
    if n < 0x20_0000_0000_0000 {
        return n as u128;
    }
    // The number of binary digits: the smallest `l` with `n < 2^l`.
    let mut l: u64 = 54;
    let mut t: u128 = 0x40_0000_0000_0000;
    assert(pow2(54) == 2 * pow2(53));
    while t <= n as u128
        invariant
            t == pow2(l as nat),
            pow2((l - 1) as nat) <= n,
            54 <= l <= 64,
            n < 0x1_0000_0000_0000_0000,
        decreases 64 - l,
    {
        assert(l < 64) by {
            if l == 64 {
                lemma_pow2_64();
            }
        }
        assert(pow2((l + 1) as nat) == 2 * pow2(l as nat));
        t = t * 2;
        l = l + 1;
    }
    proof {
        lemma_bit_length(n as nat, l as nat);
    }
    let k = l - 53;
    let mut d: u128 = 1;
    let mut i: u64 = 0;
    while i < k
        invariant
            d == pow2(i as nat),
            d >= 1,
            i <= k,
            k <= 11,
            d <= 0x800,
        decreases k - i,
    {
        assert(pow2((i + 1) as nat) == 2 * pow2(i as nat));
        proof {
            if i + 1 <= 11 {
                assert(pow2(11) == 0x800) by {
                    reveal_with_fuel(pow2, 12);
                }
                lemma_pow2_mono((i + 1) as nat, 11);
            }
        }
        d = d * 2;
        i = i + 1;
    }
    let nn = n as u128;
    proof {
        vstd::arithmetic::div_mod::lemma_fundamental_div_mod(nn as int, d as int);
        vstd::arithmetic::div_mod::lemma_div_pos_is_pos(nn as int, d as int);
        assert(nn / d <= nn) by {
            vstd::arithmetic::div_mod::lemma_div_is_ordered_by_denominator(nn as int, 1, d as int);
        }
    }
    let q = round_div(nn, d);
    proof {
        assert(q <= nn / d + 1);
        assert(d * (nn / d) <= nn);
        assert(q * d <= nn + d) by (nonlinear_arith)
            requires
                q <= nn / d + 1,
                d * (nn / d) <= nn,
                d > 0,
        ;
    }
    q * d
}

pub proof fn lemma_pow2_64()
    ensures
        pow2(64) == 0x1_0000_0000_0000_0000,
{
    reveal_with_fuel(pow2, 65);
}

pub proof fn lemma_pow2_mono(a: nat, b: nat)
    requires
        a <= b,
    ensures
        pow2(a) <= pow2(b),
    decreases b,
{
    if a < b {
        lemma_pow2_mono(a, (b - 1) as nat);
    }
}

/// Format byte size to human-readable string
pub fn format_size(size: u64) -> (r: String)
    ensures
        r@ == spec_format_size(size as nat),
{
    proof {
        lemma_pow_values();
    }
    if size == 0 {
        return "0 B".to_owned();
    }
    let e: u64 = if size >= 0x100_0000_0000 {
        4
    } else if size >= 0x4000_0000 {
        3
    } else if size >= 0x10_0000 {
        2
    } else if size >= 0x400 {
        1
    } else {
        0
    };
    let mut s = String::new();
    if e == 0 {
        push_decimal(&mut s, size as u128);
        s.append(" ");
        s.append("B");
        return s;
    }
    let den: u128 = if e == 4 {
        0x100_0000_0000
    } else if e == 3 {
        0x4000_0000
    } else if e == 2 {
        0x10_0000
    } else {
        0x400
    };
    let v = to_f64_value(size);
    let q = round_div(v * 100, den);
    push_decimal(&mut s, q / 100);
    push_char(&mut s, '.');
    push_char(&mut s, digit((q % 100) / 10));
    push_char(&mut s, digit(q % 10));
    s.append(" ");
    if e == 1 {
        s.append("KB");
    } else if e == 2 {
        s.append("MB");
    } else if e == 3 {
        s.append("GB");
    } else {
        s.append("TB");
    }
    assert(s@ =~= spec_format_size(size as nat));
    s
}

} // verus!
