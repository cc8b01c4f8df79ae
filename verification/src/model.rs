//! The mathematical model of the registry.
//!
//! A registry state is a map from tenant names to per-tenant maps from key
//! names to identities, together with the allocator counter. The contracts of
//! the executable registry speak of this model, and the laws in `laws` are
//! proved over it.

use vstd::prelude::*;

verus! {

/// Abstract registry state: tenant name, then key name, to identity.
pub type RegistryModel = Map<Seq<char>, Map<Seq<char>, u64>>;

/// Whether the pair (tenant, key) has been assigned an identity.
pub open spec fn has_pair(m: RegistryModel, tenant: Seq<char>, key: Seq<char>) -> bool {
    m.contains_key(tenant) && m[tenant].contains_key(key)
}

/// The identity on record for the pair (tenant, key).
pub open spec fn pair_id(m: RegistryModel, tenant: Seq<char>, key: Seq<char>) -> u64 {
    m[tenant][key]
}

/// The state after recording `id` for the pair (tenant, key). The tenant's
/// sub-map is created on its first key, and existing entries are kept.
pub open spec fn with_pair(
    m: RegistryModel,
    tenant: Seq<char>,
    key: Seq<char>,
    id: u64,
) -> RegistryModel {
    let sub = if m.contains_key(tenant) {
        m[tenant]
    } else {
        Map::<Seq<char>, u64>::empty()
    };
    m.insert(tenant, sub.insert(key, id))
}

/// Well-formedness of a registry state with counter `c`: every assigned
/// identity lies below the counter, and distinct pairs never share one.
pub open spec fn registry_wf(m: RegistryModel, c: u64) -> bool {
    &&& 1 <= c
    &&& forall|t: Seq<char>, k: Seq<char>| #[trigger] has_pair(m, t, k) ==> pair_id(m, t, k) < c
    &&& forall|t1: Seq<char>, k1: Seq<char>, t2: Seq<char>, k2: Seq<char>|
        has_pair(m, t1, k1) && has_pair(m, t2, k2) && (t1 != t2 || k1 != k2)
            ==> pair_id(m, t1, k1) != pair_id(m, t2, k2)
}

/// A fresh registry: nothing recorded, and the first identity to mint is 1.
pub open spec fn fresh_registry(m: RegistryModel, c: u64) -> bool {
    m == Map::<Seq<char>, Map<Seq<char>, u64>>::empty() && c == 1
}

/// One insert-or-get step, from state (m0, c0) to state (m1, c1): a pair that
/// is already on record is returned unchanged; a new pair is recorded under
/// the identity minted from the counter.
pub open spec fn insert_transition(
    m0: RegistryModel,
    c0: u64,
    m1: RegistryModel,
    c1: u64,
    tenant: Seq<char>,
    key: Seq<char>,
    is_new: bool,
    id: u64,
) -> bool {
    if has_pair(m0, tenant, key) {
        &&& !is_new
        &&& id == pair_id(m0, tenant, key)
        &&& m1 == m0
        &&& c1 == c0
    } else {
        &&& is_new
        &&& id == c0
        &&& c1 == c0 + 1
        &&& m1 == with_pair(m0, tenant, key, id)
    }
}

/// Recording one pair touches no other pair: the new pair carries `id`, and
/// every other pair keeps exactly the assignment it had.
pub proof fn lemma_with_pair_lookup(
    m: RegistryModel,
    tenant: Seq<char>,
    key: Seq<char>,
    id: u64,
    t2: Seq<char>,
    k2: Seq<char>,
)
    ensures
        has_pair(with_pair(m, tenant, key, id), tenant, key),
        pair_id(with_pair(m, tenant, key, id), tenant, key) == id,
        t2 != tenant || k2 != key ==> (has_pair(with_pair(m, tenant, key, id), t2, k2)
            <==> has_pair(m, t2, k2)),
        (t2 != tenant || k2 != key) && has_pair(m, t2, k2) ==> pair_id(
            with_pair(m, tenant, key, id),
            t2,
            k2,
        ) == pair_id(m, t2, k2),
{
}

/// An insert-or-get step preserves well-formedness, and leaves the pair it
/// acted on recorded under the identity it returned.
pub proof fn lemma_transition_preserves_wf(
    m0: RegistryModel,
    c0: u64,
    m1: RegistryModel,
    c1: u64,
    tenant: Seq<char>,
    key: Seq<char>,
    is_new: bool,
    id: u64,
)
    requires
        registry_wf(m0, c0),
        insert_transition(m0, c0, m1, c1, tenant, key, is_new, id),
    ensures
        registry_wf(m1, c1),
        has_pair(m1, tenant, key),
        pair_id(m1, tenant, key) == id,
{
    if has_pair(m0, tenant, key) {
    } else {
        assert forall|t: Seq<char>, k: Seq<char>| #[trigger] has_pair(m1, t, k) implies pair_id(
            m1,
            t,
            k,
        ) < c1 by {
            lemma_with_pair_lookup(m0, tenant, key, id, t, k);
        }
        assert forall|t1: Seq<char>, k1: Seq<char>, t2: Seq<char>, k2: Seq<char>|
            has_pair(m1, t1, k1) && has_pair(m1, t2, k2) && (t1 != t2 || k1 != k2) implies pair_id(
            m1,
            t1,
            k1,
        ) != pair_id(m1, t2, k2) by {
            lemma_with_pair_lookup(m0, tenant, key, id, t1, k1);
            lemma_with_pair_lookup(m0, tenant, key, id, t2, k2);
        }
        lemma_with_pair_lookup(m0, tenant, key, id, tenant, key);
    }
}

/// Raising the counter cannot break well-formedness: it only has to stay
/// above every identity already assigned.
pub proof fn lemma_wf_counter_increase(m: RegistryModel, c0: u64, c1: u64)
    requires
        registry_wf(m, c0),
        c0 <= c1,
    ensures
        registry_wf(m, c1),
{
}

} // verus!
