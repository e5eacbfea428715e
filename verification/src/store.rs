//! The records that the state store keeps about groups and switches.

use vstd::prelude::*;

verus! {

/// A group's node and switch times as last saved.
#[derive(Debug, Clone, PartialEq, Eq)]
pub struct GroupStateRecord {
    pub group_name: String,
    pub current_node: String,
    pub last_switch_ts: Option<i64>,
    pub cooldown_until_ts: Option<i64>,
    pub updated_at: i64,
}

/// One switch of a group's node. `score_gap` is in units of 10^-12.
#[derive(Debug, Clone)]
pub struct SwitchEventRecord {
    pub group_name: String,
    pub from_node: String,
    pub to_node: String,
    pub score_gap: i128,
    pub reason: String,
    pub created_at: i64,
}

} // verus!
