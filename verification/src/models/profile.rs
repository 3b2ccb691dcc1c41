//! User profile data structures: interaction totals, per-type counts and the first and last
//! interaction instants.

use vstd::prelude::*;

use crate::processing::keyed::{inserted, lookup, NamedMap};
use crate::sort::instant_less;

verus! {

/// Represents a user's profile with interaction statistics. Instants are whole seconds since
/// the epoch with the nanoseconds past them.
#[derive(Debug)]
pub struct UserProfile {
    /// User ID.
    pub user_id: String,
    /// Total number of interactions.
    pub total_interactions: u32,
    /// First interaction instant.
    pub first_interaction: Option<(i64, u32)>,
    /// Last interaction instant.
    pub last_interaction: Option<(i64, u32)>,
    /// Count of interactions by type.
    pub interaction_counts: NamedMap<u32>,
    /// Additional profile metadata.
    pub metadata: NamedMap<String>,
}

/// The earlier of a recorded instant and a new one.
pub open spec fn earliest(recorded: Option<(i64, u32)>, at: (i64, u32)) -> (i64, u32) {
    match recorded {
        Some(t) => if instant_less(at, t) {
            at
        } else {
            t
        },
        None => at,
    }
}

/// The later of a recorded instant and a new one.
pub open spec fn latest(recorded: Option<(i64, u32)>, at: (i64, u32)) -> (i64, u32) {
    match recorded {
        Some(t) => if instant_less(t, at) {
            at
        } else {
            t
        },
        None => at,
    }
}

/// Widening the first and last interaction by one more instant keeps the first no later
/// than the last.
pub proof fn lemma_interaction_bounds_stay_ordered(
    first: Option<(i64, u32)>,
    last: Option<(i64, u32)>,
    at: (i64, u32),
)
    requires
        match (first, last) {
            (Some(f), Some(l)) => !instant_less(l, f),
            (None, None) => true,
            _ => false,
        },
    ensures
        !instant_less(latest(last, at), earliest(first, at)),
{
}

impl UserProfile {
    /// Creates a new empty user profile.
    pub fn new(user_id: String) -> (profile: Self)
        ensures
            profile.user_id@ == user_id@,
            profile.total_interactions == 0,
            profile.first_interaction is None,
            profile.last_interaction is None,
            profile.interaction_counts.spec_entries().len() == 0,
            profile.metadata.spec_entries().len() == 0,
    {
        UserProfile {
            user_id,
            total_interactions: 0,
            first_interaction: None,
            last_interaction: None,
            interaction_counts: NamedMap::new(),
            metadata: NamedMap::new(),
        }
    }

    /// Updates the profile with a new interaction: one more in total and of its type, and the
    /// first and last instants widened to include it.
    pub fn add_interaction(&mut self, interaction_type: String, timestamp: (i64, u32))
        requires
            old(self).total_interactions < u32::MAX,
            match lookup(old(self).interaction_counts.spec_entries(), interaction_type@) {
                Some(c) => c < u32::MAX,
                None => true,
            },
        ensures
            final(self).user_id@ == old(self).user_id@,
            final(self).total_interactions == old(self).total_interactions + 1,
            final(self).interaction_counts.spec_entries() == inserted(
                old(self).interaction_counts.spec_entries(),
                interaction_type@,
                match lookup(old(self).interaction_counts.spec_entries(), interaction_type@) {
                    Some(c) => (c + 1) as u32,
                    None => 1u32,
                },
            ),
            final(self).first_interaction == Some(earliest(old(self).first_interaction, timestamp)),
            final(self).last_interaction == Some(latest(old(self).last_interaction, timestamp)),
            final(self).metadata.spec_entries() == old(self).metadata.spec_entries(),
    {
        self.total_interactions = self.total_interactions + 1;
        let count = match self.interaction_counts.get(interaction_type.as_str()) {
            Some(c) => *c + 1,
            None => 1,
        };
        self.interaction_counts.insert(interaction_type, count);
        let earlier = match self.first_interaction {
            Some(t) => timestamp.0 < t.0 || (timestamp.0 == t.0 && timestamp.1 < t.1),
            None => true,
        };
        if earlier {
            self.first_interaction = Some(timestamp);
        }
        let later = match self.last_interaction {
            Some(t) => t.0 < timestamp.0 || (t.0 == timestamp.0 && t.1 < timestamp.1),
            None => true,
        };
        if later {
            self.last_interaction = Some(timestamp);
        }
    }
}

} // verus!
