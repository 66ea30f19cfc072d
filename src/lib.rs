//! The level-scheme side of coincidence-summing corrections: reading the input
//! file of levels, branches and observed transitions and the efficiency files,
//! checking that the scheme is consistent, and locating the branch behind each
//! matrix entry and each observation. Fields are separated by ASCII whitespace.

pub mod efficiency;
pub mod read_levels;
pub mod scheme;
pub mod text;
pub mod transitions;
