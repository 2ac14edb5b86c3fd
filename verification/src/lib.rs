//! Conflict-aware merging of directory trees, with the policy that decides
//! each collision and the bookkeeping that bounds concurrent disk work.

pub mod assoc;
pub mod chart;
pub mod command;
pub mod content;
pub mod disk;
pub mod event;
pub mod lang;
pub mod media;
pub mod merge;
pub mod naming;
pub mod pack;
pub mod path;
pub mod policy;
pub mod sync;
pub mod text;
pub mod title;
pub mod work;
