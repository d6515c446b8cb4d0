use vstd::prelude::*;

verus! {

/// One known collection, as the registry lists it.
pub struct CollectionItem {
    pub collection_id: String,
    pub description: String,
    pub blockchain: String,
    pub network: String,
}

/// The registry's answer: the list of known collections.
pub struct CollectionsResponse {
    pub type_: String,
    pub data: Vec<CollectionItem>,
}

/// Why a policy identifier was refused.
pub enum PolicyError {
    /// No collection of the registry carries this identifier.
    NotFound(String),
}

/// Some collection of `data` carries the identifier `id`.
pub open spec fn is_listed(data: Seq<CollectionItem>, id: Seq<char>) -> bool {
    exists|i: int| 0 <= i < data.len() && data[i].collection_id@ == id
}

/// Accepts `policy_id` exactly when some collection of the registry's answer
/// carries it; otherwise names it in `NotFound`.
pub fn verify_bookio_policy(collections: &CollectionsResponse, policy_id: &str) -> (r: Result<
    (),
    PolicyError,
>)
    ensures
        r is Ok <==> is_listed(collections.data@, policy_id@),
        r matches Err(PolicyError::NotFound(id)) ==> id@ == policy_id@,
{
    let wanted = policy_id.to_owned();
    let mut i: usize = 0;
    while i < collections.data.len()
        invariant
            i <= collections.data@.len(),
            wanted@ == policy_id@,
            forall|j: int| 0 <= j < i ==> collections.data@[j].collection_id@ != policy_id@,
        decreases collections.data@.len() - i,
    {
        if collections.data[i].collection_id == wanted {
            assert(collections.data@[i as int].collection_id@ == policy_id@);
            return Ok(());
        }
        i += 1;
    }
    Err(PolicyError::NotFound(wanted))
}

} // verus!
