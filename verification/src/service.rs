//! The executable registry: key validation, tenant identifiers, and the
//! deduplicating insert-or-get over a two-level table.

use vstd::prelude::*;

use crate::model::{
    fresh_registry, has_pair, insert_transition, lemma_transition_preserves_wf,
    lemma_wf_counter_increase, pair_id, registry_wf, with_pair, RegistryModel,
};

verus! {

/// The one error the registry can report: a raw key that does not match the
/// required pattern. It carries the offending raw value.
#[derive(Debug)]
pub enum StorageServiceError {
    KeyPatternNotValid(String),
}

/// A syntactically valid key. Construction through [`Key::new`] is the only
/// validation point; a value of this type always matches the key pattern.
#[derive(Debug, Clone, PartialEq, Eq, Hash)]
pub struct Key(pub String);

impl View for Key {
    type V = Seq<char>;

    open spec fn view(&self) -> Seq<char> {
        self.0@
    }
}

/// An uppercase ASCII letter (code points 65 through 90).
pub open spec fn is_upper_char(c: char) -> bool {
    65 <= c as u32 <= 90
}

/// A lowercase ASCII letter or ASCII digit (97 through 122, or 48 through 57).
pub open spec fn is_body_char(c: char) -> bool {
    (97 <= c as u32 <= 122) || (48 <= c as u32 <= 57)
}

/// The ASCII dash (code point 45).
pub open spec fn is_dash_char(c: char) -> bool {
    c as u32 == 45
}

/// The key pattern: one uppercase letter, a dash, exactly five
/// lowercase-alphanumeric characters, a dash, one uppercase letter.
pub open spec fn valid_key(s: Seq<char>) -> bool {
    &&& s.len() == 9
    &&& is_upper_char(s[0])
    &&& is_dash_char(s[1])
    &&& forall|i: int| 2 <= i < 7 ==> is_body_char(#[trigger] s[i])
    &&& is_dash_char(s[7])
    &&& is_upper_char(s[8])
}

fn upper_char(c: char) -> (b: bool)
    ensures
        b == is_upper_char(c),
{
    let u = c as u32;
    65 <= u && u <= 90
}

fn body_char(c: char) -> (b: bool)
    ensures
        b == is_body_char(c),
{
    let u = c as u32;
    (97 <= u && u <= 122) || (48 <= u && u <= 57)
}

fn dash_char(c: char) -> (b: bool)
    ensures
        b == is_dash_char(c),
{
    c as u32 == 45
}

/// Whether a raw string matches the key pattern.
fn key_matches_pattern(s: &str) -> (b: bool)
    ensures
        b == valid_key(s@),
{
    let n = s.unicode_len();
    if n != 9 {
        return false;
    }
    let b = upper_char(s.get_char(0)) && dash_char(s.get_char(1)) && body_char(s.get_char(2))
        && body_char(s.get_char(3)) && body_char(s.get_char(4)) && body_char(s.get_char(5))
        && body_char(s.get_char(6)) && dash_char(s.get_char(7)) && upper_char(s.get_char(8));
    if b {
        assert forall|i: int| 2 <= i < 7 implies is_body_char(s@[i]) by {
            assert(i == 2 || i == 3 || i == 4 || i == 5 || i == 6);
        }
    }
    b
}

impl Key {
    /// Validates a raw key. Succeeds exactly on strings matching the key
    /// pattern; any other input fails with `KeyPatternNotValid` carrying the
    /// offending raw value. No state is read or written.
    pub fn new(key: String) -> (r: Result<Self, StorageServiceError>)
        ensures
            r is Ok <==> valid_key(key@),
            r matches Ok(k) ==> k@ == key@,
            r matches Err(e) ==> (e matches StorageServiceError::KeyPatternNotValid(raw)
                && raw@ == key@),
    {
        if key_matches_pattern(key.as_str()) {
            Ok(Self(key))
        } else {
            Err(StorageServiceError::KeyPatternNotValid(key))
        }
    }
}

/// An opaque tenant identifier: an arbitrary raw string, deliberately
/// unconstrained. Two identifiers name the same tenant exactly when their raw
/// strings are equal.
#[derive(Debug, Clone, PartialEq, Eq, Hash)]
pub struct TenantId(pub String);

impl View for TenantId {
    type V = Seq<char>;

    open spec fn view(&self) -> Seq<char> {
        self.0@
    }
}

impl TenantId {
    /// Wraps a raw tenant string. Always succeeds: no format is enforced.
    pub fn new(id: String) -> (r: Self)
        ensures
            r@ == id@,
    {
        Self(id)
    }
}

/// One tenant's slot in the table: the tenant and its key-to-identity rows.
pub struct TenantEntry {
    pub tenant: TenantId,
    pub keys: Vec<(Key, u64)>,
}

/// No two rows carry the same key name.
pub open spec fn distinct_keys(s: Seq<(Key, u64)>) -> bool {
    forall|i: int, j: int| #![trigger s[i], s[j]] 0 <= i < j < s.len() ==> s[i].0@ != s[j].0@
}

/// No two slots carry the same tenant name.
pub open spec fn distinct_tenants(s: Seq<TenantEntry>) -> bool {
    forall|i: int, j: int| #![trigger s[i], s[j]]
        0 <= i < j < s.len() ==> s[i].tenant@ != s[j].tenant@
}

/// The map a sequence of key rows stands for.
pub open spec fn key_map_of(s: Seq<(Key, u64)>) -> Map<Seq<char>, u64>
    decreases s.len(),
{
    if s.len() == 0 {
        Map::<Seq<char>, u64>::empty()
    } else {
        key_map_of(s.drop_last()).insert(s.last().0@, s.last().1)
    }
}

/// The two-level map a sequence of tenant slots stands for.
pub open spec fn tenant_map_of(s: Seq<TenantEntry>) -> RegistryModel
    decreases s.len(),
{
    if s.len() == 0 {
        Map::<Seq<char>, Map<Seq<char>, u64>>::empty()
    } else {
        tenant_map_of(s.drop_last()).insert(s.last().tenant@, key_map_of(s.last().keys@))
    }
}

proof fn lemma_key_map_contains(s: Seq<(Key, u64)>, k: Seq<char>)
    ensures
        key_map_of(s).contains_key(k) <==> exists|i: int|
            0 <= i < s.len() && #[trigger] s[i].0@ == k,
    decreases s.len(),
{
    if s.len() > 0 {
        lemma_key_map_contains(s.drop_last(), k);
        if s.last().0@ == k {
            assert(s[s.len() - 1].0@ == k);
        } else {
            if exists|i: int| 0 <= i < s.len() && #[trigger] s[i].0@ == k {
                let i = choose|i: int| 0 <= i < s.len() && #[trigger] s[i].0@ == k;
                assert(s.drop_last()[i].0@ == k);
            }
        }
    }
}

proof fn lemma_key_map_value(s: Seq<(Key, u64)>, i: int)
    requires
        distinct_keys(s),
        0 <= i < s.len(),
    ensures
        key_map_of(s).contains_key(s[i].0@),
        key_map_of(s)[s[i].0@] == s[i].1,
    decreases s.len(),
{
    if i == s.len() - 1 {
    } else {
        assert(distinct_keys(s.drop_last()));
        lemma_key_map_value(s.drop_last(), i);
        assert(s.drop_last()[i] == s[i]);
        assert(s.last().0@ != s[i].0@);
    }
}

proof fn lemma_key_map_push(s: Seq<(Key, u64)>, p: (Key, u64))
    ensures
        key_map_of(s.push(p)) == key_map_of(s).insert(p.0@, p.1),
{
    assert(s.push(p).drop_last() =~= s);
    assert(s.push(p).last() == p);
}

proof fn lemma_tenant_map_contains(s: Seq<TenantEntry>, t: Seq<char>)
    ensures
        tenant_map_of(s).contains_key(t) <==> exists|i: int|
            0 <= i < s.len() && #[trigger] s[i].tenant@ == t,
    decreases s.len(),
{
    if s.len() > 0 {
        lemma_tenant_map_contains(s.drop_last(), t);
        if s.last().tenant@ == t {
            assert(s[s.len() - 1].tenant@ == t);
        } else {
            if exists|i: int| 0 <= i < s.len() && #[trigger] s[i].tenant@ == t {
                let i = choose|i: int| 0 <= i < s.len() && #[trigger] s[i].tenant@ == t;
                assert(s.drop_last()[i].tenant@ == t);
            }
        }
    }
}

proof fn lemma_tenant_map_value(s: Seq<TenantEntry>, i: int)
    requires
        distinct_tenants(s),
        0 <= i < s.len(),
    ensures
        tenant_map_of(s).contains_key(s[i].tenant@),
        tenant_map_of(s)[s[i].tenant@] == key_map_of(s[i].keys@),
    decreases s.len(),
{
    if i == s.len() - 1 {
    } else {
        assert(distinct_tenants(s.drop_last()));
        lemma_tenant_map_value(s.drop_last(), i);
        assert(s.drop_last()[i] == s[i]);
        assert(s.last().tenant@ != s[i].tenant@);
    }
}

proof fn lemma_tenant_map_push(s: Seq<TenantEntry>, e: TenantEntry)
    ensures
        tenant_map_of(s.push(e)) == tenant_map_of(s).insert(e.tenant@, key_map_of(e.keys@)),
{
    assert(s.push(e).drop_last() =~= s);
    assert(s.push(e).last() == e);
}

proof fn lemma_tenant_map_update(s: Seq<TenantEntry>, i: int, e: TenantEntry)
    requires
        distinct_tenants(s),
        0 <= i < s.len(),
        e.tenant@ == s[i].tenant@,
    ensures
        tenant_map_of(s.update(i, e)) == tenant_map_of(s).insert(e.tenant@, key_map_of(e.keys@)),
    decreases s.len(),
{
    let s2 = s.update(i, e);
    if i == s.len() - 1 {
        assert(s2.drop_last() =~= s.drop_last());
        assert(s2.last() == e);
        assert(tenant_map_of(s2) =~= tenant_map_of(s).insert(e.tenant@, key_map_of(e.keys@)));
    } else {
        assert(distinct_tenants(s.drop_last()));
        assert(s.drop_last()[i] == s[i]);
        assert(s2.drop_last() =~= s.drop_last().update(i, e));
        lemma_tenant_map_update(s.drop_last(), i, e);
        assert(s2.last() == s.last());
        assert(s.last().tenant@ != e.tenant@);
        assert(tenant_map_of(s2) =~= tenant_map_of(s).insert(e.tenant@, key_map_of(e.keys@)));
    }
}

/// The registry: the allocator counter and the two-level table, tenant slot
/// by tenant slot. Its model is the two-level map the table stands for.
pub struct StorageService {
    pub last_id: u64,
    pub entries: Vec<TenantEntry>,
}

impl View for StorageService {
    type V = RegistryModel;

    open spec fn view(&self) -> RegistryModel {
        tenant_map_of(self.entries@)
    }
}

impl StorageService {
    /// The representation invariant: tenant slots and key rows are free of
    /// duplicates, and the model is well-formed under the counter.
    pub open spec fn wf(self) -> bool {
        &&& distinct_tenants(self.entries@)
        &&& forall|i: int|
            0 <= i < self.entries@.len() ==> distinct_keys(#[trigger] self.entries@[i].keys@)
        &&& registry_wf(self@, self.last_id)
    }

    /// The slot of the given tenant, if the tenant has been seen.
    fn find_tenant(&self, tenant: &TenantId) -> (r: Option<usize>)
        ensures
            r matches Some(i) ==> i < self.entries@.len() && self.entries@[i as int].tenant@
                == tenant@,
            r is None ==> forall|i: int|
                0 <= i < self.entries@.len() ==> #[trigger] self.entries@[i].tenant@ != tenant@,
    {
        let n = self.entries.len();
        let mut i: usize = 0;
        while i < n
            invariant
                n == self.entries@.len(),
                i <= n,
                forall|j: int| 0 <= j < i ==> #[trigger] self.entries@[j].tenant@ != tenant@,
            decreases n - i,
        {
            if self.entries[i].tenant.0 == tenant.0 {
                return Some(i);
            }
            i = i + 1;
        }
        None
    }
}

/// The identity on the row of the given key, if the key has been seen in this
/// tenant's slot.
fn find_key(entry: &TenantEntry, key: &Key) -> (r: Option<u64>)
    ensures
        r matches Some(id) ==> exists|j: int|
            0 <= j < entry.keys@.len() && #[trigger] entry.keys@[j].0@ == key@
                && entry.keys@[j].1 == id,
        r is None ==> forall|j: int|
            0 <= j < entry.keys@.len() ==> #[trigger] entry.keys@[j].0@ != key@,
{
    let n = entry.keys.len();
    let mut i: usize = 0;
    while i < n
        invariant
            n == entry.keys@.len(),
            i <= n,
            forall|j: int| 0 <= j < i ==> #[trigger] entry.keys@[j].0@ != key@,
        decreases n - i,
    {
        if entry.keys[i].0.0 == key.0 {
            proof {
                assert(entry.keys@[i as int].0@ == key@);
            }
            return Some(entry.keys[i].1);
        }
        i = i + 1;
    }
    None
}

/// The storage interface of the registry: identity allocation and the
/// insert-or-get operation. The contracts are stated over the abstract model,
/// so they bind any implementation regardless of its internal layout.
pub trait InMemoryStorage: Sized {
    /// The implementation's internal invariant.
    spec fn inv(&self) -> bool;

    /// The (tenant, key) assignments on record.
    spec fn model(&self) -> RegistryModel;

    /// The allocator counter: the identity the next mint returns.
    spec fn counter(&self) -> u64;

    /// Mints the next identity: strictly monotonic, one greater on each call,
    /// drawn from the one counter shared by all tenants. Recorded
    /// assignments are untouched.
    fn get_next_id(&mut self) -> (id: u64)
        requires
            old(self).inv(),
            old(self).counter() < u64::MAX,
        ensures
            final(self).inv(),
            id == old(self).counter(),
            final(self).counter() == old(self).counter() + 1,
            final(self).model() == old(self).model(),
    ;

    /// Insert-or-get: returns the identity on record for (tenant, key), or
    /// mints, records and returns a fresh one, flagged as new. The exact
    /// effect is `insert_transition` over the model.
    fn insert(&mut self, tenant: TenantId, key: Key) -> (r: (bool, u64))
        requires
            old(self).inv(),
            old(self).counter() < u64::MAX,
        ensures
            final(self).inv(),
            insert_transition(
                old(self).model(),
                old(self).counter(),
                final(self).model(),
                final(self).counter(),
                tenant@,
                key@,
                r.0,
                r.1,
            ),
    ;
}

impl InMemoryStorage for StorageService {
    open spec fn inv(&self) -> bool {
        self.wf()
    }

    open spec fn model(&self) -> RegistryModel {
        self@
    }

    open spec fn counter(&self) -> u64 {
        self.last_id
    }

    fn get_next_id(&mut self) -> (id: u64) {
        let id = self.last_id;
        self.last_id = id + 1;
        proof {
            lemma_wf_counter_increase(self@, id, self.last_id);
        }
        id
    }

    fn insert(&mut self, tenant: TenantId, key: Key) -> (r: (bool, u64)) {
        let ghost m0 = self@;
        let ghost c0 = self.last_id;
        let ghost tenant_v = tenant@;
        let ghost key_v = key@;
        match self.find_tenant(&tenant) {
            None => {
                // First sighting of this tenant: materialize its slot with
                // the key as its only row.
                proof {
                    lemma_tenant_map_contains(self.entries@, tenant_v);
                    assert(!has_pair(m0, tenant_v, key_v));
                }
                let ghost old_entries = self.entries@;
                let id = self.last_id;
                self.last_id = id + 1;
                let mut keys: Vec<(Key, u64)> = Vec::new();
                keys.push((key, id));
                let entry = TenantEntry { tenant, keys };
                let ghost ge = entry;
                self.entries.push(entry);
                proof {
                    lemma_tenant_map_push(old_entries, ge);
                    assert(ge.keys@.drop_last() =~= Seq::<(Key, u64)>::empty());
                    assert(ge.keys@.last().0@ == key_v && ge.keys@.last().1 == id);
                    assert(key_map_of(Seq::<(Key, u64)>::empty()) == Map::<Seq<char>, u64>::empty());
                    assert(key_map_of(ge.keys@) == Map::<Seq<char>, u64>::empty().insert(
                        key_v,
                        id,
                    ));
                    assert(self@ =~= with_pair(m0, tenant_v, key_v, id));
                    assert forall|i: int, j: int| #![trigger self.entries@[i], self.entries@[j]]
                        0 <= i < j < self.entries@.len() implies self.entries@[i].tenant@
                        != self.entries@[j].tenant@ by {
                        if j < old_entries.len() {
                            assert(old_entries[i].tenant@ != old_entries[j].tenant@);
                        } else {
                            assert(old_entries[i].tenant@ != tenant_v);
                        }
                    }
                    assert forall|i: int| 0 <= i < self.entries@.len() implies distinct_keys(
                        #[trigger] self.entries@[i].keys@,
                    ) by {
                        if i < old_entries.len() {
                            assert(distinct_keys(old_entries[i].keys@));
                        }
                    }
                    lemma_transition_preserves_wf(
                        m0,
                        c0,
                        self@,
                        self.last_id,
                        tenant_v,
                        key_v,
                        true,
                        id,
                    );
                }
                (true, id)
            },
            Some(i) => {
                proof {
                    lemma_tenant_map_value(self.entries@, i as int);
                }
                match find_key(&self.entries[i], &key) {
                    Some(id) => {
                        // The pair is on record: a pure read, nothing changes.
                        proof {
                            let keys = self.entries@[i as int].keys@;
                            let j = choose|j: int|
                                0 <= j < keys.len() && #[trigger] keys[j].0@ == key_v && keys[j].1
                                    == id;
                            lemma_key_map_value(keys, j);
                            assert(has_pair(m0, tenant_v, key_v));
                            assert(pair_id(m0, tenant_v, key_v) == id);
                        }
                        (false, id)
                    },
                    None => {
                        // Known tenant, new key: mint and append one row.
                        proof {
                            lemma_key_map_contains(self.entries@[i as int].keys@, key_v);
                            assert(!has_pair(m0, tenant_v, key_v));
                        }
                        let ghost old_entries = self.entries@;
                        let ghost old_keys = self.entries@[i as int].keys@;
                        let id = self.last_id;
                        self.last_id = id + 1;
                        let ghost gkey = key;
                        let entry = &mut self.entries[i];
                        entry.keys.push((key, id));
                        proof {
                            let e2 = self.entries@[i as int];
                            assert(self.entries@ == old_entries.update(i as int, e2));
                            assert(e2.keys@ == old_keys.push((gkey, id)));
                            lemma_key_map_push(old_keys, (gkey, id));
                            lemma_tenant_map_update(old_entries, i as int, e2);
                            assert(self@ == with_pair(m0, tenant_v, key_v, id));
                            assert forall|i1: int, j1: int|
                                #![trigger self.entries@[i1], self.entries@[j1]]
                                0 <= i1 < j1 < self.entries@.len() implies self.entries@[i1].tenant@
                                != self.entries@[j1].tenant@ by {
                                assert(old_entries[i1].tenant@ != old_entries[j1].tenant@);
                            }
                            assert forall|i1: int| 0 <= i1 < self.entries@.len() implies
                                distinct_keys(#[trigger] self.entries@[i1].keys@) by {
                                assert(distinct_keys(old_entries[i1].keys@));
                                if i1 == i as int {
                                    assert forall|a: int, b: int|
                                        #![trigger e2.keys@[a], e2.keys@[b]]
                                        0 <= a < b < e2.keys@.len() implies e2.keys@[a].0@
                                        != e2.keys@[b].0@ by {
                                        if b < old_keys.len() {
                                            assert(old_keys[a].0@ != old_keys[b].0@);
                                        } else {
                                            assert(old_keys[a].0@ != key_v);
                                        }
                                    }
                                }
                            }
                            lemma_transition_preserves_wf(
                                m0,
                                c0,
                                self@,
                                self.last_id,
                                tenant_v,
                                key_v,
                                true,
                                id,
                            );
                        }
                        (true, id)
                    },
                }
            },
        }
    }
}

impl Default for StorageService {
    /// A fresh registry: nothing recorded, and the first identity it will
    /// ever mint is 1.
    fn default() -> (r: Self)
        ensures
            r.wf(),
            fresh_registry(r@, r.last_id),
    {
        let r = StorageService { last_id: 1, entries: Vec::new() };
        proof {
            assert(r@ =~= Map::<Seq<char>, Map<Seq<char>, u64>>::empty());
        }
        r
    }
}

/// The answer to one processed request.
#[derive(Debug, Clone, Copy, PartialEq, Eq)]
pub struct MessageOutput {
    /// Whether the returned identity was minted by this very call.
    pub new: bool,
    /// The identity on record for the (tenant, key) pair.
    pub id: u64,
    /// Server time in whole seconds since the Unix epoch when the answer was
    /// built; informational only.
    pub timestamp: i64,
}

/// Relies on chrono's `Utc::now` and `DateTime::timestamp`: the current time
/// as whole seconds since the Unix epoch. `Utc::now` panics rather than
/// report a pre-epoch time, so the count is never negative.
#[verifier::external_body]
fn current_timestamp() -> (r: i64)
    ensures
        r >= 0,
{
    chrono::Utc::now().timestamp()
}

impl StorageService {
    /// Handles one request: validates the raw key, then inserts or gets. On
    /// an invalid key the call fails with the offending raw value and the
    /// registry is left untouched; otherwise it returns the (is_new,
    /// identity) outcome stamped with the current server time.
    pub fn process(&mut self, tenant: String, key: String) -> (r: Result<
        MessageOutput,
        StorageServiceError,
    >)
        requires
            old(self).wf(),
            old(self).last_id < u64::MAX,
        ensures
            final(self).wf(),
            valid_key(key@) ==> (r matches Ok(out) && insert_transition(
                old(self)@,
                old(self).last_id,
                final(self)@,
                final(self).last_id,
                tenant@,
                key@,
                out.new,
                out.id,
            ) && out.timestamp >= 0),
            !valid_key(key@) ==> *final(self) == *old(self) && (r matches Err(e)
                && e matches StorageServiceError::KeyPatternNotValid(raw) && raw@ == key@),
    {
        match Key::new(key) {
            Ok(k) => {
                let (new, id) = self.insert(TenantId::new(tenant), k);
                Ok(MessageOutput { new, id, timestamp: current_timestamp() })
            },
            Err(e) => Err(e),
        }
    }
}

} // verus!
