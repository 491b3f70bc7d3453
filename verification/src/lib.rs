//! A personal multi-account ledger's balance-reconstruction engine.
//!
//! Accounts are discovered at run time from the snapshot store's column
//! layout; balances live as monthly snapshot rows and a dated transaction
//! log.  The engine replays a month's transactions forward from a located
//! baseline, reports every intermediate balance, and rewrites the month's
//! snapshot row from the replayed result — the transaction log is the source
//! of truth and the snapshot table a self-correcting cache.

mod baseline;
mod dates;
mod db;
mod errors;
mod laws;
mod methods;
mod money;
mod replay;
mod text;

pub use baseline::fully_resolved;
pub use baseline::lemma_carry_forward;
pub use baseline::resolve_baseline;
pub use dates::get_sql_dates;
pub use db::empty_changes_row;
pub use db::get_all_changes;
pub use db::get_all_tx_methods;
pub use db::get_all_txs;
pub use db::get_empty_changes;
pub use db::get_last_balance_id;
pub use db::get_last_balances;
pub use db::get_last_time_balance;
pub use db::get_last_tx_id;
pub use db::methods_from_columns;
pub use errors::IntegrityFault;
pub use errors::LedgerError;
pub use laws::lemma_order_stability;
pub use laws::lemma_self_heal_slot;
pub use laws::lemma_transfer_conservation;
pub use methods::parse_method_input;
pub use money::format_cents;
pub use money::format_int;
pub use money::parse_cents_exec;
pub use replay::find_method;
pub use replay::replay_month;
pub use replay::ReplayOut;
pub use replay::TxRow;
