//! What holds of the log as a whole, proved from what its operations promise.
//!
//! `inspecting`, `lifecycle`, `publication`, `receiving`, `settling`, `shelving` and
//! `values` say of each call what it returns and leaves behind, in terms of its
//! arguments and of the numbers in the rows. The others relate operations to each
//! other: `histories`, `tallies` and `workers` over any sequence of them.
pub mod archives;
pub mod claiming;
pub mod consumers;
pub mod histories;
pub mod inspecting;
pub mod lifecycle;
pub mod publication;
pub mod publishing;
pub mod reading;
pub mod receipts;
pub mod receiving;
pub mod retention;
pub mod settling;
pub mod shelving;
pub mod tallies;
pub mod values;
pub mod workers;
pub mod writing;
