//! The rows appended to the spreadsheet's Entity_Log when balances are synchronised.

use vstd::prelude::*;
use vstd::string::StringExecFns;
use crate::clock::{local_time_text, plain_time_format};
use crate::error::MMBakError;
use crate::reader::MMBakFile;
use crate::text::{clone_opt, contains_text, i64_to_decimal, spec_signed_decimal, str_eq, text_contains};
use crate::types::Asset;

verus! {

/// Configuration for syncing .mmbak balances to Google Sheets.
#[derive(Debug)]
pub struct SyncConfig {
    /// Google Sheets spreadsheet ID
    pub spreadsheet_id: String,
    /// Path to the service-account JSON key file
    pub service_account_key: String,
    /// Account name mappings
    pub mappings: Vec<AccountMapping>,
}

/// Maps an .mmbak account name to an Entity_Log entity.
#[derive(Debug, Clone)]
pub struct AccountMapping {
    /// Account name as it appears in the .mmbak file
    pub mmbak_name: String,
    /// The entity_name value in Entity_Log
    pub entity_name: String,
    /// The entity_id value in Entity_Log.
    /// If omitted, an XLOOKUP formula is inserted in column B instead.
    pub entity_id: Option<i64>,
}

/// A single row to append to Entity_Log
#[derive(Debug, Clone)]
pub struct EntityLogRow {
    pub timestamp: String,
    /// `None` means an XLOOKUP formula will be used in column B
    pub entity_id: Option<i64>,
    pub denormation_holding: String,
    pub entity_name: String,
    pub valuation: String,
}

pub struct EntityLogRowView {
    pub timestamp: Seq<char>,
    pub entity_id: Option<i64>,
    pub denormation_holding: Seq<char>,
    pub entity_name: Seq<char>,
    pub valuation: Seq<char>,
}

impl View for EntityLogRow {
    type V = EntityLogRowView;

    open spec fn view(&self) -> EntityLogRowView {
        EntityLogRowView {
            timestamp: self.timestamp@,
            entity_id: self.entity_id,
            denormation_holding: self.denormation_holding@,
            entity_name: self.entity_name@,
            valuation: self.valuation@,
        }
    }
}

/// The formula that looks up the entity ID (column B) by the entity name in column D.
pub open spec fn spec_entity_id_formula() -> Seq<char> {
    "=XLOOKUP(INDIRECT(\"D\"&ROW()),Entity!$C$2:$C$1005,Entity!$A$2:$A$1005,\"NOT_FOUND\")"@
}

/// The formula that looks up the symbol (column E) by the entity name in column D.
pub open spec fn spec_symbol_formula() -> Seq<char> {
    "=XLOOKUP(INDIRECT(\"D\"&ROW()),Entity!$C$2:$C$1005,Entity!$E$2:$E$1005,\"NOT_FOUND\")"@
}

/// The cells of a row: timestamp, entity ID (or its formula), holding, entity
/// name, symbol formula and valuation.
pub open spec fn spec_row_cells(r: EntityLogRowView) -> Seq<Seq<char>> {
    seq![
        r.timestamp,
        match r.entity_id {
            Some(id) => spec_signed_decimal(id as int),
            None => spec_entity_id_formula(),
        },
        r.denormation_holding,
        r.entity_name,
        spec_symbol_formula(),
        r.valuation,
    ]
}

impl EntityLogRow {
    /// Build the XLOOKUP formula for entity_id (column B) when it's not provided.
    pub fn entity_id_formula(&self) -> (r: String)
        ensures
            r@ == spec_entity_id_formula(),
    {
        "=XLOOKUP(INDIRECT(\"D\"&ROW()),Entity!$C$2:$C$1005,Entity!$A$2:$A$1005,\"NOT_FOUND\")".to_owned()
    }

    /// Build the XLOOKUP formula for symbol (column E).
    pub fn symbol_formula(&self) -> (r: String)
        ensures
            r@ == spec_symbol_formula(),
    {
        "=XLOOKUP(INDIRECT(\"D\"&ROW()),Entity!$C$2:$C$1005,Entity!$E$2:$E$1005,\"NOT_FOUND\")".to_owned()
    }

    /// The row's cells, in column order.
    pub fn to_vec(&self) -> (r: Vec<String>)
        ensures
            r@.map_values(|c: String| c@) == spec_row_cells(self@),
    {
        let entity_id_cell = match self.entity_id {
            Some(id) => i64_to_decimal(id),
            None => self.entity_id_formula(),
        };
        let mut v: Vec<String> = Vec::new();
        v.push(self.timestamp.clone());
        v.push(entity_id_cell);
        v.push(self.denormation_holding.clone());
        v.push(self.entity_name.clone());
        v.push(self.symbol_formula());
        v.push(self.valuation.clone());
        assert(v@.map_values(|c: String| c@) =~= spec_row_cells(self@));
        v
    }
}

/// The first active account shown under the name `name`.
pub open spec fn spec_find_mapped(assets: Seq<Asset>, name: Seq<char>) -> Option<int>
    decreases assets.len(),
{
    if assets.len() == 0 {
        None
    } else {
        match spec_find_mapped(assets.drop_last(), name) {
            Some(i) => Some(i),
            None => if !assets.last().is_deleted && assets.last().spec_display_name() == name {
                Some(assets.len() - 1)
            } else {
                None
            },
        }
    }
}

/// The error for a mapped account that the backup lacks.
pub open spec fn spec_not_found_message(name: Seq<char>) -> Seq<char> {
    "Account '"@ + name + "' not found in .mmbak file"@
}

/// The Entity_Log rows for `mappings`, at time `now`, where `texts[j]` is the
/// balance of account `j` as text; an error names the first mapped account the
/// backup lacks.
pub open spec fn spec_build_rows(
    assets: Seq<Asset>,
    mappings: Seq<AccountMapping>,
    now: Seq<char>,
    texts: Seq<String>,
) -> Result<Seq<EntityLogRowView>, Seq<char>>
    decreases mappings.len(),
{
    if mappings.len() == 0 {
        Ok(Seq::empty())
    } else {
        match spec_build_rows(assets, mappings.drop_last(), now, texts) {
            Err(e) => Err(e),
            Ok(rows) => {
                let m = mappings.last();
                match spec_find_mapped(assets, m.mmbak_name@) {
                    None => Err(spec_not_found_message(m.mmbak_name@)),
                    Some(j) => Ok(
                        rows.push(
                            EntityLogRowView {
                                timestamp: now,
                                entity_id: m.entity_id,
                                denormation_holding: texts[j]@,
                                entity_name: m.entity_name@,
                                valuation: texts[j]@,
                            },
                        ),
                    ),
                }
            },
        }
    }
}

pub proof fn lemma_find_mapped_in_range(assets: Seq<Asset>, name: Seq<char>)
    ensures
        spec_find_mapped(assets, name) matches Some(i) ==> 0 <= i < assets.len(),
    decreases assets.len(),
{
    if assets.len() > 0 {
        lemma_find_mapped_in_range(assets.drop_last(), name);
    }
}

/// The position of the first active account shown under the name `name`.
fn find_mapped(assets: &[Asset], name: &String) -> (r: Option<usize>)
    ensures
        match r {
            Some(i) => spec_find_mapped(assets@, name@) == Some(i as int),
            None => spec_find_mapped(assets@, name@) is None,
        },
{
    let mut i: usize = 0;
    while i < assets.len()
        invariant
            0 <= i <= assets@.len(),
            spec_find_mapped(assets@.take(i as int), name@) is None,
        decreases assets@.len() - i,
    {
        assert(assets@.take(i + 1).drop_last() =~= assets@.take(i as int));
        let a = &assets[i];
        if !a.is_deleted && str_eq(a.display_name(), name.as_str()) {
            proof {
                lemma_find_mapped_prefix(assets@, name@, i as int + 1);
            }
            return Some(i);
        }
        i += 1;
    }
    assert(assets@.take(i as int) =~= assets@);
    None
}

/// Once an account is found in a prefix, it is the one found in the whole list.
pub proof fn lemma_find_mapped_prefix(assets: Seq<Asset>, name: Seq<char>, n: int)
    requires
        0 <= n <= assets.len(),
        spec_find_mapped(assets.take(n), name) is Some,
    ensures
        spec_find_mapped(assets, name) == spec_find_mapped(assets.take(n), name),
    decreases assets.len() - n,
{
    if n < assets.len() {
        assert(assets.take(n + 1).drop_last() =~= assets.take(n));
        lemma_find_mapped_prefix(assets, name, n + 1);
    } else {
        assert(assets.take(n) =~= assets);
    }
}

/// Build Entity_Log rows from the backup file and config mappings at the time
/// `now`, where `balance_texts[j]` is the balance of the backup's account `j`
/// as text. A mapped account that is not an active account of the backup is
/// an error.
pub fn build_rows_at(
    backup: &MMBakFile,
    config: &SyncConfig,
    now: &String,
    balance_texts: &Vec<String>,
) -> (r: Result<Vec<EntityLogRow>, MMBakError>)
    requires
        balance_texts@.len() == backup.spec_assets().len(),
    ensures
        match spec_build_rows(backup.spec_assets(), config.mappings@, now@, balance_texts@) {
            Ok(rows) => r matches Ok(v) && v@.map_values(|x: EntityLogRow| x@) == rows,
            Err(m) => r matches Err(MMBakError::EntryNotFound(e)) && e@ == m,
        },
{
    let assets = backup.assets();
    let ghost ms = config.mappings@;
    let mut rows: Vec<EntityLogRow> = Vec::new();
    let mut i: usize = 0;
    assert(rows@.map_values(|x: EntityLogRow| x@) =~= Seq::<EntityLogRowView>::empty());
    while i < config.mappings.len()
        invariant
            0 <= i <= ms.len(),
            ms == config.mappings@,
            assets@ == backup.spec_assets(),
            balance_texts@.len() == assets@.len(),
            spec_build_rows(assets@, ms.take(i as int), now@, balance_texts@) == Ok::<Seq<EntityLogRowView>, Seq<char>>(
                rows@.map_values(|x: EntityLogRow| x@),
            ),
        decreases ms.len() - i,
    {
        let mapping = &config.mappings[i];
        assert(ms.take(i + 1).drop_last() =~= ms.take(i as int));
        proof {
            lemma_find_mapped_in_range(assets@, mapping.mmbak_name@);
        }
        match find_mapped(assets, &mapping.mmbak_name) {
            None => {
                proof {
                    lemma_build_rows_err(assets@, ms, i as int + 1, now@, balance_texts@);
                }
                let mut msg = "Account '".to_owned();
                msg.append(mapping.mmbak_name.as_str());
                msg.append("' not found in .mmbak file");
                return Err(MMBakError::EntryNotFound(msg));
            },
            Some(j) => {
                let text = &balance_texts[j];
                let ghost before = rows@.map_values(|x: EntityLogRow| x@);
                rows.push(
                    EntityLogRow {
                        timestamp: now.clone(),
                        entity_id: mapping.entity_id,
                        denormation_holding: text.clone(),
                        entity_name: mapping.entity_name.clone(),
                        valuation: text.clone(),
                    },
                );
                let ghost expected = EntityLogRowView {
                    timestamp: now@,
                    entity_id: mapping.entity_id,
                    denormation_holding: balance_texts@[j as int]@,
                    entity_name: mapping.entity_name@,
                    valuation: balance_texts@[j as int]@,
                };
                assert(rows@.last()@ == expected);
                assert(rows@.map_values(|x: EntityLogRow| x@) =~= before.push(expected));
                assert(ms.take(i + 1).last() == *mapping);
            },
        }
        i += 1;
    }
    assert(ms.take(i as int) =~= ms);
    Ok(rows)
}

/// Once building the rows for a prefix of the mappings fails, it fails with
/// the same error for all of them.
pub proof fn lemma_build_rows_err(
    assets: Seq<Asset>,
    ms: Seq<AccountMapping>,
    n: int,
    now: Seq<char>,
    texts: Seq<String>,
)
    requires
        0 <= n <= ms.len(),
        spec_build_rows(assets, ms.take(n), now, texts) is Err,
    ensures
        spec_build_rows(assets, ms, now, texts) == spec_build_rows(assets, ms.take(n), now, texts),
    decreases ms.len() - n,
{
    if n < ms.len() {
        assert(ms.take(n + 1).drop_last() =~= ms.take(n));
        lemma_build_rows_err(assets, ms, n + 1, now, texts);
    } else {
        assert(ms.take(n) =~= ms);
    }
}

/// Build Entity_Log rows from the backup file and config mappings, stamped with
/// the current local time.
pub fn build_rows(backup: &MMBakFile, config: &SyncConfig, balance_texts: &Vec<String>) -> (r: Result<Vec<EntityLogRow>, MMBakError>)
    requires
        balance_texts@.len() == backup.spec_assets().len(),
    ensures
        exists|now: Seq<char>|
            match #[trigger] spec_build_rows(backup.spec_assets(), config.mappings@, now, balance_texts@) {
                Ok(rows) => r matches Ok(v) && v@.map_values(|x: EntityLogRow| x@) == rows,
                Err(m) => r matches Err(MMBakError::EntryNotFound(e)) && e@ == m,
            },
{
    let format = "%Y-%m-%d %H:%M:%S";
    proof {
        reveal_strlit("%Y-%m-%d %H:%M:%S");
        assert(format@ =~= seq!['%', 'Y', '-', '%', 'm', '-', '%', 'd', ' ', '%', 'H', ':', '%', 'M', ':', '%', 'S']);
        reveal_with_fuel(plain_time_format, 18);
    }
    let now = local_time_text(format);
    build_rows_at(backup, config, &now, balance_texts)
}

/// What synchronising does with the rows it built.
#[derive(Debug, Clone, Copy, PartialEq, Eq, Structural)]
pub enum SyncStep {
    /// No account is mapped: nothing to sync.
    NothingToSync,
    /// A dry run: the rows are only shown.
    Preview,
    /// The rows are appended to the sheet.
    Append,
}

pub fn sync_step(rows_len: usize, dry_run: bool) -> (r: SyncStep)
    ensures
        r == (if rows_len == 0 {
            SyncStep::NothingToSync
        } else if dry_run {
            SyncStep::Preview
        } else {
            SyncStep::Append
        }),
{
    if rows_len == 0 {
        SyncStep::NothingToSync
    } else if dry_run {
        SyncStep::Preview
    } else {
        SyncStep::Append
    }
}


/// The advice shown when the Sheets API refuses access, before the raw response.
pub open spec fn spec_permission_advice() -> Seq<char> {
    "Permission denied.\n\nThe service account does not have access to this spreadsheet.\nTo fix: open the Google Sheet, click Share, and add the service\naccount email (found in the JSON key's 'client_email' field)\nwith Editor permissions.\n\nRaw response: "@
}

/// The message for a failed Sheets API call whose response body reads `body`
/// and whose error reads `error_text`: advice on sharing the sheet when the
/// body speaks of permissions, else the error itself.
pub open spec fn spec_google_error_text(body: Seq<char>, error_text: Seq<char>) -> Seq<char> {
    if contains_text(body, "PERMISSION_DENIED"@) || contains_text(body, "permission"@) {
        spec_permission_advice() + body
    } else {
        error_text
    }
}

pub fn google_error_text(body: &str, error_text: &str) -> (r: String)
    ensures
        r@ == spec_google_error_text(body@, error_text@),
{
    if text_contains(body, "PERMISSION_DENIED") || text_contains(body, "permission") {
        let mut s = "Permission denied.\n\nThe service account does not have access to this spreadsheet.\nTo fix: open the Google Sheet, click Share, and add the service\naccount email (found in the JSON key's 'client_email' field)\nwith Editor permissions.\n\nRaw response: ".to_owned();
        s.append(body);
        s
    } else {
        error_text.to_owned()
    }
}

} // verus!
