//! What holds of the operations for every input, stated over the same
//! spec functions as the contracts of the operations and proved.

pub mod normalizing;
pub mod relativizing;

pub use normalizing::{
    law_name_is_kept_verbatim, law_normal_form_invariants, law_normalize_empty,
    law_normalize_idempotent, law_normalizer_idempotent, law_root_climb_saturates,
};
pub use relativizing::{
    law_relative_climbs_first, law_relative_round_trip, law_relative_to_itself,
    law_relative_within_a_location,
};
