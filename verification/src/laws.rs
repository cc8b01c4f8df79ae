//! Laws of the registry, proved over the abstract model.
//!
//! Every `insert_or_get` call of a well-formed registry satisfies
//! `insert_transition` (that is the contract of `InMemoryStorage::insert`),
//! so each law below binds every run of the executable registry, however the
//! calls interleave between tenants: a linearizable implementation orders
//! concurrent calls into some sequence of these transitions.

use vstd::prelude::*;

use crate::model::{
    fresh_registry, has_pair, insert_transition, lemma_with_pair_lookup, pair_id, registry_wf,
    RegistryModel,
};

verus! {

/// Idempotence: inserting a pair that is not yet on record and then inserting
/// it again yields `(true, id)` followed by `(false, id)` with the same
/// identity, and the second call changes nothing.
pub proof fn lemma_insert_idempotent(
    m0: RegistryModel,
    c0: u64,
    m1: RegistryModel,
    c1: u64,
    m2: RegistryModel,
    c2: u64,
    tenant: Seq<char>,
    key: Seq<char>,
    new1: bool,
    id1: u64,
    new2: bool,
    id2: u64,
)
    requires
        !has_pair(m0, tenant, key),
        insert_transition(m0, c0, m1, c1, tenant, key, new1, id1),
        insert_transition(m1, c1, m2, c2, tenant, key, new2, id2),
    ensures
        new1,
        !new2,
        id2 == id1,
        m2 == m1,
        c2 == c1,
{
    lemma_with_pair_lookup(m0, tenant, key, id1, tenant, key);
}

/// Global uniqueness: in a well-formed registry, distinct pairs hold
/// pairwise distinct identities.
pub proof fn lemma_global_uniqueness(
    m: RegistryModel,
    c: u64,
    t1: Seq<char>,
    k1: Seq<char>,
    t2: Seq<char>,
    k2: Seq<char>,
)
    requires
        registry_wf(m, c),
        has_pair(m, t1, k1),
        has_pair(m, t2, k2),
        t1 != t2 || k1 != k2,
    ensures
        pair_id(m, t1, k1) != pair_id(m, t2, k2),
{
}

/// The first identity a fresh registry ever mints is 1, whatever the pair.
pub proof fn lemma_first_identity(
    m0: RegistryModel,
    c0: u64,
    m1: RegistryModel,
    c1: u64,
    tenant: Seq<char>,
    key: Seq<char>,
    is_new: bool,
    id: u64,
)
    requires
        fresh_registry(m0, c0),
        insert_transition(m0, c0, m1, c1, tenant, key, is_new, id),
    ensures
        is_new,
        id == 1,
{
}

/// One shared counter: two mints from the same state return the same
/// identity whatever their tenants, so the sequence is global, never
/// per-tenant.
pub proof fn lemma_shared_counter(
    m0: RegistryModel,
    c0: u64,
    ma: RegistryModel,
    ca: u64,
    mb: RegistryModel,
    cb: u64,
    t1: Seq<char>,
    k1: Seq<char>,
    t2: Seq<char>,
    k2: Seq<char>,
    ida: u64,
    idb: u64,
)
    requires
        !has_pair(m0, t1, k1),
        !has_pair(m0, t2, k2),
        insert_transition(m0, c0, ma, ca, t1, k1, true, ida),
        insert_transition(m0, c0, mb, cb, t2, k2, true, idb),
    ensures
        ida == idb,
        ida == c0,
{
}

/// No sighting of one pair disturbs another: every other pair keeps exactly
/// the assignment it had, so a racing first sighting of a brand-new tenant
/// can never orphan keys inserted by its peers.
pub proof fn lemma_insert_preserves_pairs(
    m0: RegistryModel,
    c0: u64,
    m1: RegistryModel,
    c1: u64,
    tenant: Seq<char>,
    key: Seq<char>,
    is_new: bool,
    id: u64,
    t2: Seq<char>,
    k2: Seq<char>,
)
    requires
        insert_transition(m0, c0, m1, c1, tenant, key, is_new, id),
        has_pair(m0, t2, k2),
    ensures
        has_pair(m1, t2, k2),
        pair_id(m1, t2, k2) == pair_id(m0, t2, k2),
{
    if !has_pair(m0, tenant, key) {
        lemma_with_pair_lookup(m0, tenant, key, id, t2, k2);
    }
}

/// First sightings of one brand-new tenant with two different keys end up
/// sharing the tenant's sub-map: both keys are on record afterwards, each
/// under the identity its own call returned.
pub proof fn lemma_new_tenant_keeps_both_keys(
    m0: RegistryModel,
    c0: u64,
    m1: RegistryModel,
    c1: u64,
    m2: RegistryModel,
    c2: u64,
    tenant: Seq<char>,
    k1: Seq<char>,
    k2: Seq<char>,
    new1: bool,
    id1: u64,
    new2: bool,
    id2: u64,
)
    requires
        !m0.contains_key(tenant),
        k1 != k2,
        insert_transition(m0, c0, m1, c1, tenant, k1, new1, id1),
        insert_transition(m1, c1, m2, c2, tenant, k2, new2, id2),
    ensures
        new1,
        new2,
        has_pair(m2, tenant, k1),
        has_pair(m2, tenant, k2),
        pair_id(m2, tenant, k1) == id1,
        pair_id(m2, tenant, k2) == id2,
{
    lemma_with_pair_lookup(m0, tenant, k1, id1, tenant, k2);
    lemma_with_pair_lookup(m1, tenant, k2, id2, tenant, k1);
}

/// Step `i` of a sequence of insert-or-get calls for one (tenant, key) pair:
/// the transition from the i-th state to the next, returning `(news[i],
/// ids[i])`.
pub open spec fn chain_step(
    models: Seq<RegistryModel>,
    counters: Seq<u64>,
    news: Seq<bool>,
    ids: Seq<u64>,
    tenant: Seq<char>,
    key: Seq<char>,
    i: int,
) -> bool {
    insert_transition(
        models[i],
        counters[i],
        models[i + 1],
        counters[i + 1],
        tenant,
        key,
        news[i],
        ids[i],
    )
}

/// N callers, one pair: in any sequence of insert-or-get steps for one and
/// the same (tenant, key) pair, starting where the pair is absent, exactly
/// the first step reports the pair as new, and every step returns the one
/// identity the first step minted.
pub proof fn lemma_same_pair_many_callers(
    models: Seq<RegistryModel>,
    counters: Seq<u64>,
    news: Seq<bool>,
    ids: Seq<u64>,
    tenant: Seq<char>,
    key: Seq<char>,
)
    requires
        models.len() == counters.len(),
        models.len() == news.len() + 1,
        news.len() == ids.len(),
        news.len() >= 1,
        registry_wf(models[0], counters[0]),
        !has_pair(models[0], tenant, key),
        forall|i: int|
            0 <= i < news.len() ==> #[trigger] chain_step(
                models,
                counters,
                news,
                ids,
                tenant,
                key,
                i,
            ),
    ensures
        news[0],
        forall|i: int| 1 <= i < news.len() ==> !(#[trigger] news[i]),
        forall|i: int| 0 <= i < ids.len() ==> #[trigger] ids[i] == ids[0],
{
    assert(chain_step(models, counters, news, ids, tenant, key, 0));
    assert forall|i: int| 1 <= i < news.len() implies !(#[trigger] news[i]) by {
        lemma_pair_stays_recorded(models, counters, news, ids, tenant, key, i);
    }
    assert forall|i: int| 0 <= i < ids.len() implies #[trigger] ids[i] == ids[0] by {
        if i >= 1 {
            lemma_pair_stays_recorded(models, counters, news, ids, tenant, key, i);
        }
    }
}

/// Helper for [`lemma_same_pair_many_callers`]: after the first step of such
/// a sequence the pair stays on record under the first identity.
proof fn lemma_pair_stays_recorded(
    models: Seq<RegistryModel>,
    counters: Seq<u64>,
    news: Seq<bool>,
    ids: Seq<u64>,
    tenant: Seq<char>,
    key: Seq<char>,
    i: int,
)
    requires
        models.len() == counters.len(),
        models.len() == news.len() + 1,
        news.len() == ids.len(),
        registry_wf(models[0], counters[0]),
        !has_pair(models[0], tenant, key),
        forall|j: int|
            0 <= j < news.len() ==> #[trigger] chain_step(
                models,
                counters,
                news,
                ids,
                tenant,
                key,
                j,
            ),
        1 <= i < news.len(),
    ensures
        has_pair(models[i], tenant, key),
        pair_id(models[i], tenant, key) == ids[0],
        !news[i],
        ids[i] == ids[0],
    decreases i,
{
    if i == 1 {
        assert(chain_step(models, counters, news, ids, tenant, key, 0));
        lemma_with_pair_lookup(models[0], tenant, key, ids[0], tenant, key);
    } else {
        lemma_pair_stays_recorded(models, counters, news, ids, tenant, key, i - 1);
        assert(chain_step(models, counters, news, ids, tenant, key, i - 1));
    }
    assert(chain_step(models, counters, news, ids, tenant, key, i));
}

} // verus!

