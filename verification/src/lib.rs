//! Reading, writing and presenting MoneyManager `.mmbak` backups.
//!
//! The crate covers the data model of a backup (transactions, accounts,
//! categories, currencies), the binary archive container format, the
//! navigation state of the terminal viewer, and the rows that are appended to
//! a spreadsheet when balances are synchronised.

pub mod archive;
pub mod bytes;
pub mod clock;
pub mod error;
pub mod events;
pub mod sync;
pub mod text;
pub mod tui;
pub mod reader;
pub mod roundtrip;
pub mod types;
pub mod unpack;
pub mod writer;
