//! The serving core: write coordination, resolution, startup, listing.
//!
//! A [`Service`] owns the durable [`Store`] and the derived
//! [`MappingCache`] and keeps them consistent: the cache always equals the
//! store's active image ([`active_view`]). Writes are authorized against a
//! configured secret, go to the store first and only then to the cache;
//! reads are served from the cache alone, falling back to a configured
//! default target; a listing bypasses the cache. The cache write cannot
//! fail by construction, so a durable write is never left uncached.

use crate::cache::MappingCache;
use crate::store::{faithful_listing, row_v, Mapping, RowV, Store};
use vstd::prelude::*;

verus! {

/// Why a submission was turned down.
#[derive(Clone, Copy, Debug, PartialEq, Eq, Structural)]
pub enum RejectReason {
    /// The presented credential does not match the configured secret, or
    /// no secret is configured.
    Unauthorized,
    /// The durable write failed; the cache was left untouched. The
    /// in-memory table of this crate cannot fail, so the verified write
    /// path never reports this; a deployment whose durable store sits
    /// behind I/O reports it when that store does.
    StoreFailure,
}

/// The answer of the write path.
#[derive(Clone, Copy, Debug, PartialEq, Eq, Structural)]
pub enum SubmitOutcome {
    /// The mapping was durably written and cached.
    Accepted,
    /// Nothing was written.
    Rejected(RejectReason),
}

/// The resolvable image of the store: the target of every active row,
/// keyed by name; inactive rows do not appear.
pub open spec fn active_view(store: Map<Seq<char>, RowV>) -> Map<Seq<char>, Seq<char>> {
    Map::new(
        |k: Seq<char>| store.contains_key(k) && store[k].active,
        |k: Seq<char>| store[k].target,
    )
}

/// The whole serving state, abstracted: the durable table, the cache, the
/// configured secret and the configured default target.
#[verifier::ext_equal]
pub ghost struct AbsState {
    pub store: Map<Seq<char>, RowV>,
    pub cache: Map<Seq<char>, Seq<char>>,
    pub secret: Option<Seq<char>>,
    pub default_target: Seq<char>,
}

impl AbsState {
    /// The consistency contract between cache and store: the cache is
    /// exactly the store's active image.
    pub open spec fn consistent(self) -> bool {
        self.cache == active_view(self.store)
    }

    /// A credential is good exactly when a secret is configured and the
    /// credential equals it.
    pub open spec fn authorized(self, credential: Seq<char>) -> bool {
        self.secret == Some(credential)
    }

    /// What resolving `name` yields: the cached target, or the default on
    /// a miss. A miss is an expected condition, never an error.
    pub open spec fn resolve_at(self, name: Seq<char>) -> Seq<char> {
        if self.cache.contains_key(name) {
            self.cache[name]
        } else {
            self.default_target
        }
    }

    /// The state after a submission: on a good credential the row is
    /// written durably (and becomes active) and then cached; otherwise
    /// nothing changes.
    pub open spec fn after_submit(
        self,
        name: Seq<char>,
        target: Seq<char>,
        credential: Seq<char>,
    ) -> AbsState {
        if self.authorized(credential) {
            AbsState {
                store: self.store.insert(name, RowV { target, active: true }),
                cache: self.cache.insert(name, target),
                secret: self.secret,
                default_target: self.default_target,
            }
        } else {
            self
        }
    }

    /// The answer a submission gets.
    pub open spec fn outcome_of(self, credential: Seq<char>) -> SubmitOutcome {
        if self.authorized(credential) {
            SubmitOutcome::Accepted
        } else {
            SubmitOutcome::Rejected(RejectReason::Unauthorized)
        }
    }
}

/// Whether the presented credential matches the configured secret.
/// A missing secret rejects every credential.
pub fn credential_ok(configured: &Option<String>, presented: &String) -> (r: bool)
    ensures
        r == (configured.deep_view() == Some(presented@)),
{
    match configured {
        Some(s) => *s == *presented,
        None => false,
    }
}

/// Cache-only read: the cached target for `name`, or the configured
/// default on a miss. The store is never consulted.
pub fn resolve_in(cache: &MappingCache, default_target: &String, name: &String) -> (target: String)
    ensures
        target@ == (if cache@.contains_key(name@) {
            cache@[name@]
        } else {
            default_target@
        }),
{
    match cache.get(name) {
        Some(t) => t.clone(),
        None => default_target.clone(),
    }
}

/// The serving state: the store, the cache derived from it, and the
/// configuration loaded once at startup.
pub struct Service {
    store: Store,
    cache: MappingCache,
    secret: Option<String>,
    default_target: String,
}

impl Service {
    /// The abstract state this service is in.
    pub closed spec fn abs(self) -> AbsState {
        AbsState {
            store: self.store@,
            cache: self.cache@,
            secret: self.secret.deep_view(),
            default_target: self.default_target@,
        }
    }

    #[verifier::type_invariant]
    spec fn inv(self) -> bool {
        self.abs().consistent()
    }

    /// Builds the serving state: seeds the cache with exactly the store's
    /// active rows, before anything is served. The configured secret and
    /// default target are loaded once, here.
    pub fn startup(store: Store, secret: Option<String>, default_target: String) -> (s: Service)
        ensures
            s.abs().store == store@,
            s.abs().secret == secret.deep_view(),
            s.abs().default_target == default_target@,
            s.abs().consistent(),
    {
        let cache = {
            let rows = store.fetch_all();
            let cache = MappingCache::bulk_load(rows);
            proof {
                assert forall|k: Seq<char>| #[trigger]
                    active_view(store@).contains_key(k) implies cache@.contains_key(k)
                    && cache@[k] == active_view(store@)[k] by {
                    let i = choose|i: int| 0 <= i < rows@.len() && (#[trigger] rows@[i])@.name == k;
                    assert(store@[k] == row_v(rows@[i]@));
                    assert(rows@[i]@.active);
                    assert(cache@[k] == rows@[i]@.target);
                }
                assert forall|k: Seq<char>| #[trigger]
                    cache@.contains_key(k) implies active_view(store@).contains_key(k) by {
                    let i = choose|i: int|
                        0 <= i < rows@.len() && (#[trigger] rows@[i])@.name == k && rows@[i]@.active;
                    assert(store@.contains_key(k) && store@[k] == row_v(rows@[i]@));
                }
                assert(cache@ =~= active_view(store@));
            }
            cache
        };
        Service { store, cache, secret, default_target }
    }

    /// Serves `name` from the cache alone; an unknown or inactive name
    /// gets the default target, never an error.
    pub fn resolve(&self, name: &String) -> (target: String)
        ensures
            target@ == self.abs().resolve_at(name@),
    {
        resolve_in(&self.cache, &self.default_target, name)
    }

    /// The write path. A bad credential rejects the submission with no
    /// mutation at all; a good one writes the row durably first — it
    /// becomes active — and caches it only after that, so the cache never
    /// leads the store.
    pub fn submit(&mut self, name: &String, target: &String, credential: &String) -> (r:
        SubmitOutcome)
        ensures
            final(self).abs() == old(self).abs().after_submit(name@, target@, credential@),
            r == old(self).abs().outcome_of(credential@),
            final(self).abs().consistent(),
    {
        proof {
            use_type_invariant(&*self);
        }
        if !credential_ok(&self.secret, credential) {
            return SubmitOutcome::Rejected(RejectReason::Unauthorized);
        }
        let st0 = Store::new();
        let ca0 = MappingCache::new();
        proof {
            assert(ca0@ =~= active_view(st0@));
        }
        let mut tmp = Service { store: st0, cache: ca0, secret: None, default_target: String::new() };
        std::mem::swap(&mut tmp, self);
        let Service { mut store, mut cache, secret, default_target } = tmp;
        store.upsert(name, target);
        cache.set(name, target);
        proof {
            lemma_submit_preserves_consistency(
                old(self).abs(),
                name@,
                target@,
                credential@,
            );
            assert(cache@ =~= active_view(store@));
        }
        let next = Service { store, cache, secret, default_target };
        proof {
            assert(next.abs() =~= old(self).abs().after_submit(name@, target@, credential@));
        }
        *self = next;
        SubmitOutcome::Accepted
    }

    /// Observability read: every row, active or not, straight from the
    /// store; the cache is not consulted.
    pub fn list(&self) -> (rows: &Vec<Mapping>)
        ensures
            faithful_listing(self.abs().store, rows@),
    {
        self.store.fetch_all()
    }
}

/// An authorized write-through preserves the consistency contract:
/// durably writing (name, target) and then caching it keeps the cache
/// equal to the store's active image. This is the invariant the whole
/// design protects.
pub proof fn lemma_submit_preserves_consistency(
    s: AbsState,
    name: Seq<char>,
    target: Seq<char>,
    credential: Seq<char>,
)
    requires
        s.consistent(),
    ensures
        s.after_submit(name, target, credential).consistent(),
{
    if s.authorized(credential) {
        assert(s.cache.insert(name, target) =~= active_view(
            s.store.insert(name, RowV { target, active: true }),
        ));
    }
}

/// Every active row of the store resolves to its stored target.
pub proof fn lemma_active_row_resolves(s: AbsState, name: Seq<char>)
    requires
        s.consistent(),
        s.store.contains_key(name),
        s.store[name].active,
    ensures
        s.resolve_at(name) == s.store[name].target,
{
    assert(active_view(s.store).contains_key(name));
}

/// A name whose row is inactive — or which has no row at all — resolves
/// to the default target, never to a stored value.
pub proof fn lemma_inactive_row_resolves_default(s: AbsState, name: Seq<char>)
    requires
        s.consistent(),
        s.store.contains_key(name) ==> !s.store[name].active,
    ensures
        s.resolve_at(name) == s.default_target,
{
    assert(!active_view(s.store).contains_key(name));
}

/// Write-through visibility: an authorized submission of (name, target)
/// is accepted, and resolving `name` immediately afterwards yields
/// `target`.
pub proof fn lemma_submit_then_resolve(
    s: AbsState,
    name: Seq<char>,
    target: Seq<char>,
    credential: Seq<char>,
)
    requires
        s.authorized(credential),
    ensures
        s.outcome_of(credential) == SubmitOutcome::Accepted,
        s.after_submit(name, target, credential).resolve_at(name) == target,
{
}

/// An unauthorized submission is rejected and changes nothing: the state
/// is exactly what it was, and so is every subsequent resolution.
pub proof fn lemma_rejected_submit_changes_nothing(
    s: AbsState,
    name: Seq<char>,
    target: Seq<char>,
    credential: Seq<char>,
)
    requires
        !s.authorized(credential),
    ensures
        s.outcome_of(credential) == SubmitOutcome::Rejected(RejectReason::Unauthorized),
        s.after_submit(name, target, credential) == s,
        forall|n: Seq<char>| #[trigger]
            s.after_submit(name, target, credential).resolve_at(n) == s.resolve_at(n),
{
}

/// Submitting the same (name, target, credential) twice leaves exactly
/// the state that submitting it once leaves.
pub proof fn lemma_submit_idempotent(
    s: AbsState,
    name: Seq<char>,
    target: Seq<char>,
    credential: Seq<char>,
)
    ensures
        s.after_submit(name, target, credential).after_submit(name, target, credential)
            == s.after_submit(name, target, credential),
{
    let s1 = s.after_submit(name, target, credential);
    if s.authorized(credential) {
        assert(s1.after_submit(name, target, credential).store =~= s1.store);
        assert(s1.after_submit(name, target, credential).cache =~= s1.cache);
        assert(s1.after_submit(name, target, credential) =~= s1);
    }
}

/// The listing shows what resolution hides: an inactive row appears in
/// the listing, while resolving its name yields only the default target.
pub proof fn lemma_listing_shows_inactive(s: AbsState, rows: Seq<Mapping>, name: Seq<char>)
    requires
        s.consistent(),
        faithful_listing(s.store, rows),
        s.store.contains_key(name),
        !s.store[name].active,
    ensures
        exists|i: int| 0 <= i < rows.len() && (#[trigger] rows[i])@.name == name,
        s.resolve_at(name) == s.default_target,
{
    lemma_inactive_row_resolves_default(s, name);
}

} // verus!
