//! Verified ledgers of a fungible token (ERC-20 style) and of a kitty
//! registry in the style of a FRAME pallet.
pub mod erc20;
pub mod balances_sum;
pub mod entropy;
pub mod kitties;
