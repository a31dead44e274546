//! An inventory of products: each line holds a product name, a quantity and
//! a unit price, with the sales tax and the total derived from them. Lines are
//! addressed by their 1-based position, listed as text, and stored as records.
pub mod amount;
pub mod command;
pub mod product;
pub mod record;
pub mod store;
pub mod text;
