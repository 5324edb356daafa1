//! The lookup and reference functions.
pub mod drop_take;
pub mod choosecols_chooserows;
pub mod expand;
pub mod transpose;
pub mod hstack_vstack;
pub mod tocol_torow;
pub mod wrapcols_wraprows;
pub mod lookup_table;
pub mod address_areas;
pub mod xmatch;
