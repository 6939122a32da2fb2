//! A verified ledger of breedable digital assets ("kitties").
//!
//! The crate keeps three mutually consistent indices — the asset store, the
//! ownership index and the genealogy index — together with a monotonic
//! identity allocator, and proves that every operation either commits in full
//! or leaves the whole state unchanged.

pub mod assoc;
pub mod balances;
pub mod dna;
pub mod kitty;
pub mod ledger;
pub mod runtime;
pub mod seqs;

pub use balances::Balances;
pub use dna::combine_dna;
pub use kitty::Kitty;
pub use ledger::Error;
pub use ledger::Module;
pub use runtime::Event;
pub use runtime::Test;
pub use runtime::new_test_ext;
pub use runtime::run_to_block;
