//! Entities of the entity-component system.
use vstd::prelude::*;

verus! {

/// An entity: a bare identifier.
#[derive(Debug, Clone, Copy, PartialEq, Eq, Structural, Hash)]
pub struct Entity(pub u32);

/// The identifier that the `k`-th entity of a source gets (counting from
/// 0): identifiers run 0, 1, 2, ... and wrap around after `u32::MAX`.
pub open spec fn nth_entity_id(k: nat) -> u32 {
    (k % 0x1_0000_0000) as u32
}

/// The source of entity identifiers.
pub struct EntityIds {
    next: u32,
    issued: Ghost<nat>,
}

impl EntityIds {
    #[verifier::type_invariant]
    spec fn counts_issued(self) -> bool {
        self.next == nth_entity_id(self.issued@)
    }

    /// Identifier the next entity gets.
    pub closed spec fn next_spec(&self) -> u32 {
        self.next
    }

    /// How many entities this source has given out.
    pub closed spec fn issued(&self) -> nat {
        self.issued@
    }

    /// A source that has given out nothing; its first identifier is 0.
    pub fn new() -> (s: Self)
        ensures
            s.next_spec() == 0,
            s.issued() == 0,
    {
        EntityIds { next: 0, issued: Ghost(0) }
    }
}

proof fn lemma_nth_entity_id_step(k: nat)
    ensures
        nth_entity_id(k).wrapping_add(1) == nth_entity_id(k + 1),
{
    let m: int = 0x1_0000_0000;
    let kk: int = k as int;
    let r: int = kk % m;
    let q: int = kk / m;
    assert(kk == q * m + r && 0 <= r < m) by (nonlinear_arith)
        requires
            m > 0,
            r == kk % m,
            q == kk / m,
    ;
    if r + 1 < m {
        assert((kk + 1) % m == r + 1) by (nonlinear_arith)
            requires
                m > 0,
                0 <= r,
                r + 1 < m,
                kk == q * m + r,
        ;
    } else {
        assert((kk + 1) % m == 0) by (nonlinear_arith)
            requires
                m > 0,
                r + 1 == m,
                kk == q * m + r,
        ;
    }
}

impl Entity {
    /// A new entity with the next identifier of `ids`: the `k`-th entity a
    /// source gives out has identifier `nth_entity_id(k)`.
    pub fn new(ids: &mut EntityIds) -> (e: Entity)
        ensures
            e == Entity(old(ids).next_spec()),
            e == Entity(nth_entity_id(old(ids).issued())),
            final(ids).next_spec() == old(ids).next_spec().wrapping_add(1),
            final(ids).issued() == old(ids).issued() + 1,
    {
        proof {
            use_type_invariant(&*ids);
            lemma_nth_entity_id_step(ids.issued@);
        }
        let id = ids.next;
        let ghost k = ids.issued@;
        *ids = EntityIds { next: id.wrapping_add(1), issued: Ghost(k + 1) };
        Entity(id)
    }

    /// Identifier of the entity.
    pub fn id(self) -> (id: u32)
        ensures
            id == self.0,
    {
        self.0
    }
}

/// Entities given out by one source are fresh: the `i`-th and the `j`-th
/// differ whenever fewer than 2^32 entities were given out between them.
pub proof fn lemma_entities_fresh(i: nat, j: nat)
    requires
        i < j,
        j - i < 0x1_0000_0000,
    ensures
        Entity(nth_entity_id(i)) != Entity(nth_entity_id(j)),
{
    let m: int = 0x1_0000_0000;
    let ii: int = i as int;
    let jj: int = j as int;
    if nth_entity_id(i) == nth_entity_id(j) {
        assert(ii % m == jj % m);
        assert(false) by (nonlinear_arith)
            requires
                m > 0,
                ii % m == jj % m,
                ii < jj,
                jj - ii < m,
                ii >= 0,
        {
            let qi = ii / m;
            let qj = jj / m;
            assert(ii == qi * m + ii % m);
            assert(jj == qj * m + jj % m);
            assert((qj - qi) * m == jj - ii);
        }
    }
}

} // verus!
