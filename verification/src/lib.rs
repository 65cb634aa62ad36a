//! Line-oriented differential text compression (the Hatanaka scheme) and
//! RINEX revision numbers.

mod text;

pub mod textdiff;
pub mod version;
