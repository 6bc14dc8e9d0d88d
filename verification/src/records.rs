//! Plain record types shared with the record-keeping collaborators:
//! evidence metadata, relationship and invite states, user settings,
//! and the per-process counters.  They carry data only; the engines in
//! the other modules never read them.

use vstd::prelude::*;

verus! {

/// Descriptive metadata attached to an uploaded evidence record.
#[derive(Clone, Debug)]
pub struct EvidenceMetadata {
    pub timestamp: u64,
    pub content_type: String,
    pub location: Option<String>,
    pub description: Option<String>,
    pub tags: Vec<String>,
}

/// The life cycle of a relationship record.
#[derive(Clone, Copy, Debug, PartialEq, Eq, Structural)]
pub enum RelationshipStatus {
    Pending,
    Active,
    Terminated,
}

/// The life cycle of a partner invite.
#[derive(Clone, Copy, Debug, PartialEq, Eq, Structural)]
pub enum InviteStatus {
    Pending,
    Accepted,
    Expired,
    Cancelled,
}

/// A user's preference record.
#[derive(Clone, Debug)]
pub struct UserSettings {
    pub ai_filters_enabled: bool,
    pub nsfw_filter: bool,
    pub explicit_text_filter: bool,
    pub upload_schedule: String,
    pub geolocation_enabled: bool,
    pub notification_preferences: Vec<String>,
    pub profile_metadata: Option<String>,
    pub updated_at: u64,
}

impl Default for UserSettings {
    /// All filters off, empty schedule and preferences, never updated.
    fn default() -> (r: Self)
        ensures
            !r.ai_filters_enabled,
            !r.nsfw_filter,
            !r.explicit_text_filter,
            r.upload_schedule@ == Seq::<char>::empty(),
            !r.geolocation_enabled,
            r.notification_preferences@ == Seq::<String>::empty(),
            r.profile_metadata is None,
            r.updated_at == 0,
    {
        UserSettings {
            ai_filters_enabled: false,
            nsfw_filter: false,
            explicit_text_filter: false,
            upload_schedule: String::new(),
            geolocation_enabled: false,
            notification_preferences: Vec::new(),
            profile_metadata: None,
            updated_at: 0,
        }
    }
}

/// The per-process identifier and volume counters.
#[derive(Clone, Copy, Debug)]
pub struct CanisterState {
    pub next_evidence_id: u64,
    pub next_relationship_id: u64,
    pub next_invite_id: u64,
    pub total_evidence_count: u64,
    pub total_relationship_count: u64,
    pub total_invite_count: u64,
}

impl Default for CanisterState {
    /// Every counter at zero.
    fn default() -> (r: Self)
        ensures
            r.next_evidence_id == 0,
            r.next_relationship_id == 0,
            r.next_invite_id == 0,
            r.total_evidence_count == 0,
            r.total_relationship_count == 0,
            r.total_invite_count == 0,
    {
        CanisterState {
            next_evidence_id: 0,
            next_relationship_id: 0,
            next_invite_id: 0,
            total_evidence_count: 0,
            total_relationship_count: 0,
            total_invite_count: 0,
        }
    }
}

} // verus!
