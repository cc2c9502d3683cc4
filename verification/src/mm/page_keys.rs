//! Page numbers as keys of the page map.
use vstd::prelude::*;

verus! {

broadcast use vstd::std_specs::hash::group_hash_axioms;

/// Page numbers are keys whose hashing and equality the map's model
/// follows, with the standard hasher.
pub broadcast proof fn lemma_page_keys()
    ensures
        #[trigger] vstd::std_specs::hash::obeys_key_model::<usize>(),
        #[trigger] vstd::std_specs::hash::builds_valid_hashers::<std::collections::hash_map::RandomState>(),
{
}

} // verus!
