//! Finite categories, finite sets and discrete double theories, with verified
//! composition laws.

pub mod assoc;
pub mod category;
pub mod dbl_theory;
pub mod fin_category;
pub mod ident;
pub mod set;
pub mod theories;

