//! The records the ledger keeps and exchanges.

pub mod cliente;
pub mod saldo;
pub mod transacao;
