//! The items most callers need.

pub use crate::engine::{App, Check, Outcome};
pub use crate::entity::{Entity, Record};
pub use crate::filter::{CheckFilter, Valid};
pub use crate::policy::{invalid, purge};
pub use crate::policy::{repair, repair_remove};
pub use crate::policy::{repair_insert, repair_insert_default};
pub use crate::policy::{repair_replace, repair_replace_default, repair_replace_with};
pub use crate::recheck::CheckAgain;
