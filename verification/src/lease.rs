//! Leased claims over a seeded set of pacts: the model the reconcile loop reasons over, and its
//! in-memory backend (`pacta-memory`).
//!
//! A registry holds one slot per pact, in seeding order: the pact's docket and its lease state.
//! Claiming a docket leases the first claimable slot on it to a fresh holder; fulfilling
//! settles the slot a holder holds; releasing defers it until a given instant. Holders are the
//! 128-bit identities of pacta retainers.

use vstd::prelude::*;

use pacta::Registry;
use pacta_memory::MemoryRegistry;

verus! {

/// The lease state of one slot (pacta's lifecycle `State`, with the retainer as its 128-bit id).
#[derive(PartialEq, Eq, Structural, Clone, Copy, Debug)]
pub enum Lease {
    /// Never claimed: claimable.
    Available,
    /// Leased to `holder` until `expiry` (milliseconds); claimable again once `expiry < now`.
    Held { holder: u128, expiry: u64 },
    /// Released by its holder: claimable again once `at <= now`.
    Deferred { at: u64 },
    /// Fulfilled: never claimable again.
    Settled,
}

/// A pact as the loop builds it: identity, docket, kind and clause.
#[derive(Clone, Debug)]
pub struct PactSpec {
    pub id: u128,
    pub docket: String,
    pub kind: String,
    pub clause: Vec<u8>,
}

/// A slot: the docket of its pact and its lease state.
pub type Slot = (Seq<char>, Lease);

/// Whether a slot in `lease` may be claimed at `now` (pacta's `is_claimable`).
pub open spec fn claimable(lease: Lease, now: u64) -> bool {
    match lease {
        Lease::Available => true,
        Lease::Held { expiry, .. } => expiry < now,
        Lease::Deferred { at } => at <= now,
        Lease::Settled => false,
    }
}

/// Whether `lease` is held by `holder` (whatever its expiry).
pub open spec fn held_by(lease: Lease, holder: u128) -> bool {
    lease matches Lease::Held { holder: h, .. } && h == holder
}

/// Slot `i` is the first slot on `docket` that is claimable at `now`.
pub open spec fn first_claimable(slots: Seq<Slot>, docket: Seq<char>, now: u64, i: int) -> bool {
    &&& 0 <= i < slots.len()
    &&& slots[i].0 == docket && claimable(slots[i].1, now)
    &&& forall|j: int| 0 <= j < i ==> !(#[trigger] slots[j].0 == docket && claimable(slots[j].1, now))
}

/// Slot `i` is the first slot held by `holder`.
pub open spec fn first_held(slots: Seq<Slot>, holder: u128, i: int) -> bool {
    &&& 0 <= i < slots.len()
    &&& held_by(slots[i].1, holder)
    &&& forall|j: int| 0 <= j < i ==> !held_by(#[trigger] slots[j].1, holder)
}

/// The instant `millis` after `now`, saturating (pacta's `Timestamp::plus_millis`).
pub open spec fn later(now: u64, millis: u64) -> u64 {
    if now + millis > u64::MAX {
        u64::MAX
    } else {
        (now + millis) as u64
    }
}

/// The slots of a freshly seeded registry: one available slot per pact, in order.
pub open spec fn seeded_slots(pacts: Seq<PactSpec>) -> Seq<Slot> {
    pacts.map_values(|p: PactSpec| (p.docket@, Lease::Available))
}

/// What a claim of `docket` at `now` does: with no claimable slot on the docket nothing is
/// handed out and nothing changes; otherwise the first claimable slot becomes held by the
/// returned holder until `later(now, lease)`.
pub open spec fn claim_effect(
    before: Seq<Slot>,
    after: Seq<Slot>,
    docket: Seq<char>,
    now: u64,
    lease: u64,
    held: Option<u128>,
) -> bool {
    match held {
        None => {
            &&& after == before
            &&& forall|i: int|
                0 <= i < before.len() ==> !(#[trigger] before[i].0 == docket && claimable(before[i].1, now))
        },
        Some(h) => exists|i: int|
            first_claimable(before, docket, now, i) && after == before.update(
                i,
                (docket, Lease::Held { holder: h, expiry: later(now, lease) }),
            ),
    }
}

/// What a transition by `holder` into `next` does: it succeeds exactly when some slot is held by
/// the holder, and then rewrites the first such slot to `next`; a refused one changes nothing.
pub open spec fn holder_effect(
    before: Seq<Slot>,
    after: Seq<Slot>,
    holder: u128,
    next: Lease,
    ok: bool,
) -> bool {
    &&& ok == exists|i: int| 0 <= i < before.len() && held_by(#[trigger] before[i].1, holder)
    &&& ok ==> exists|i: int|
        first_held(before, holder, i) && after == before.update(i, (before[i].0, next))
    &&& !ok ==> after == before
}

/// A lease registry: pacts seeded once, claimed by docket, and settled or released by the
/// holder of their claim.
pub trait LeaseRegistry: Sized {
    /// The slots, one per seeded pact, in seeding order.
    spec fn slots(&self) -> Seq<Slot>;

    /// The lease length, in milliseconds, that claims are granted.
    spec fn lease(&self) -> u64;

    /// A registry holding `pacts`, each available, granting leases of `lease_millis`.
    fn seeded(pacts: Vec<PactSpec>, lease_millis: u64) -> (r: Self)
        ensures
            r.slots() == seeded_slots(pacts@),
            r.lease() == lease_millis,
    ;

    /// Claims the first claimable pact on `docket` at `now`, returning its new holder.
    fn claim(&mut self, docket: &str, now: u64) -> (held: Option<u128>)
        ensures
            claim_effect(old(self).slots(), final(self).slots(), docket@, now, old(self).lease(), held),
            final(self).lease() == old(self).lease(),
    ;

    /// Settles the pact held by `holder`; refused when it holds none.
    fn fulfill(&mut self, holder: u128) -> (ok: bool)
        ensures
            holder_effect(old(self).slots(), final(self).slots(), holder, Lease::Settled, ok),
            final(self).lease() == old(self).lease(),
    ;

    /// Releases the pact held by `holder`, claimable again at or after `reclaimable_at`;
    /// refused when it holds none.
    fn release(&mut self, holder: u128, reclaimable_at: u64) -> (ok: bool)
        ensures
            holder_effect(
                old(self).slots(),
                final(self).slots(),
                holder,
                Lease::Deferred { at: reclaimable_at },
                ok,
            ),
            final(self).lease() == old(self).lease(),
    ;
}

/// The holders a registry handed out, in the order it handed them out. Only a recording
/// registry ([`Issuing`]) makes one.
#[derive(Clone, Debug)]
pub struct Issued {
    holders: Vec<u128>,
}

impl Issued {
    /// The holders, in the order they were handed out.
    pub closed spec fn log(&self) -> Seq<u128> {
        self.holders@
    }

    /// The holders, in the order they were handed out.
    pub fn holders(&self) -> (h: &Vec<u128>)
        ensures
            h@ == self.log(),
    {
        &self.holders
    }
}

/// A registry that records every holder its backend `R` hands out, and otherwise acts as `R`.
pub struct Issuing<R> {
    registry: R,
    issued: Vec<u128>,
}

impl<R: LeaseRegistry> Issuing<R> {
    /// The holders handed out so far, in order.
    pub closed spec fn issued(&self) -> Seq<u128> {
        self.issued@
    }

    /// What was handed out, once the registry is done with.
    pub fn into_issued(self) -> (r: Issued)
        ensures
            r.log() == self.issued(),
    {
        Issued { holders: self.issued }
    }
}

impl<R: LeaseRegistry> LeaseRegistry for Issuing<R> {
    closed spec fn slots(&self) -> Seq<Slot> {
        self.registry.slots()
    }

    closed spec fn lease(&self) -> u64 {
        self.registry.lease()
    }

    /// A fresh backend registry; nothing handed out yet.
    fn seeded(pacts: Vec<PactSpec>, lease_millis: u64) -> (r: Self)
        ensures
            r.issued() == Seq::<u128>::empty(),
    {
        Issuing { registry: R::seeded(pacts, lease_millis), issued: Vec::new() }
    }

    /// The backend's claim; a granted holder is recorded.
    fn claim(&mut self, docket: &str, now: u64) -> (held: Option<u128>)
        ensures
            final(self).issued() == match held {
                Some(h) => old(self).issued().push(h),
                None => old(self).issued(),
            },
    {
        let held = self.registry.claim(docket, now);
        match held {
            Some(h) => self.issued.push(h),
            None => {},
        }
        held
    }

    /// The backend's fulfilment; nothing is handed out.
    fn fulfill(&mut self, holder: u128) -> (ok: bool)
        ensures
            final(self).issued() == old(self).issued(),
    {
        self.registry.fulfill(holder)
    }

    /// The backend's release; nothing is handed out.
    fn release(&mut self, holder: u128, reclaimable_at: u64) -> (ok: bool)
        ensures
            final(self).issued() == old(self).issued(),
    {
        self.registry.release(holder, reclaimable_at)
    }
}

#[verifier::external_type_specification]
#[verifier::external_body]
pub struct ExMemoryRegistry(MemoryRegistry);

/// The slots of a `pacta_memory::MemoryRegistry`: its records, in seeding order, each as its
/// pact's docket and lease state.
pub uninterp spec fn memory_slots(r: MemoryRegistry) -> Seq<Slot>;

/// The lease length a `pacta_memory::MemoryRegistry` was made with.
pub uninterp spec fn memory_lease(r: MemoryRegistry) -> u64;

/// `MemoryRegistry::seeded`: one record per pact, each `Available`, leasing for
/// `lease_millis`.
#[verifier::external_body]
fn memory_seeded(pacts: Vec<PactSpec>, lease_millis: u64) -> (r: MemoryRegistry)
    ensures
        memory_slots(r) == seeded_slots(pacts@),
        memory_lease(r) == lease_millis,
{
    MemoryRegistry::seeded(
        pacts.into_iter().map(|p| {
            pacta::Pact::new(uuid::Uuid::from_u128(p.id), p.docket, p.kind, p.clause)
        }).collect(),
        lease_millis,
    )
}

/// `Registry::claim` on `MemoryRegistry` for the single docket `docket`. Its source takes the
/// first record (by position) on the docket that `lifecycle::is_claimable` admits at `now`,
/// mints a retainer and sets the record to `Held` until `now + lease` (saturating); with no
/// such record it hands out nothing and changes nothing. It never returns an error. The
/// retainer is random (`Uuid::new_v4`): nothing is stated of its value.
#[verifier::external_body]
fn memory_claim(r: &mut MemoryRegistry, docket: &str, now: u64) -> (held: Option<u128>)
    ensures
        claim_effect(memory_slots(*old(r)), memory_slots(*final(r)), docket@, now, memory_lease(*old(r)), held),
        memory_lease(*final(r)) == memory_lease(*old(r)),
{
    match Registry::claim(&*r, &[docket], pacta::Timestamp::from_millis(now)) {
        Ok(claim) => claim.map(|c| c.retainer.id().as_u128()),
        Err(_) => None,
    }
}

/// `Registry::fulfill` on `MemoryRegistry`: `apply` locates the first record held by the
/// retainer and `lifecycle::on_settle` makes it `Settled`; with no such record it returns
/// `NotHeld` and changes nothing.
#[verifier::external_body]
fn memory_fulfill(r: &mut MemoryRegistry, holder: u128) -> (ok: bool)
    ensures
        holder_effect(memory_slots(*old(r)), memory_slots(*final(r)), holder, Lease::Settled, ok),
        memory_lease(*final(r)) == memory_lease(*old(r)),
{
    Registry::fulfill(&*r, &pacta::Retainer::new(uuid::Uuid::from_u128(holder))).is_ok()
}

/// `Registry::release` on `MemoryRegistry`: `apply` locates the first record held by the
/// retainer and `lifecycle::on_release` makes it `Deferred` until `reclaimable_at`; with no
/// such record it returns `NotHeld` and changes nothing.
#[verifier::external_body]
fn memory_release(r: &mut MemoryRegistry, holder: u128, reclaimable_at: u64) -> (ok: bool)
    ensures
        holder_effect(
            memory_slots(*old(r)),
            memory_slots(*final(r)),
            holder,
            Lease::Deferred { at: reclaimable_at },
            ok,
        ),
        memory_lease(*final(r)) == memory_lease(*old(r)),
{
    Registry::release(
        &*r,
        &pacta::Retainer::new(uuid::Uuid::from_u128(holder)),
        pacta::Timestamp::from_millis(reclaimable_at),
    ).is_ok()
}

impl LeaseRegistry for MemoryRegistry {
    open spec fn slots(&self) -> Seq<Slot> {
        memory_slots(*self)
    }

    open spec fn lease(&self) -> u64 {
        memory_lease(*self)
    }

    fn seeded(pacts: Vec<PactSpec>, lease_millis: u64) -> (r: Self) {
        memory_seeded(pacts, lease_millis)
    }

    fn claim(&mut self, docket: &str, now: u64) -> (held: Option<u128>) {
        memory_claim(self, docket, now)
    }

    fn fulfill(&mut self, holder: u128) -> (ok: bool) {
        memory_fulfill(self, holder)
    }

    fn release(&mut self, holder: u128, reclaimable_at: u64) -> (ok: bool) {
        memory_release(self, holder, reclaimable_at)
    }
}

} // verus!
