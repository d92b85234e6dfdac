//! Entities, as scripts see them: 64-bit numbers.

use vstd::prelude::*;

verus! {

/// Whether a number stands for an entity: its low half, the entity's index, is not zero.
pub open spec fn is_entity(bits: u64) -> bool {
    bits % 0x1_0000_0000 != 0
}

/// `bevy::ecs::entity::Entity::try_from_bits`: the entity that a number stands for, given back as
/// the number that `Entity::to_bits` turns it into again. The two are inverse to each other, and a
/// number stands for an entity unless its low 32 bits are all zero.
#[verifier::external_body]
fn entity_try_from_bits(bits: u64) -> (entity: Option<u64>)
    ensures
        entity is Some <==> is_entity(bits),
        entity matches Some(b) ==> b == bits,
{
    bevy::ecs::entity::Entity::try_from_bits(bits).map(|entity| entity.to_bits())
}

/// The entity that an integer of a script stands for, where it stands for one.
pub fn entity_from_script(entity_bits: i64) -> (entity: Option<u64>)
    ensures
        entity is Some <==> is_entity(entity_bits as u64),
        entity matches Some(b) ==> b == entity_bits as u64,
{
    entity_try_from_bits(#[verifier::truncate] (entity_bits as u64))
}

/// The integer that a script sees for an entity.
pub fn entity_to_script(entity: u64) -> (entity_bits: i64)
    ensures
        entity_bits == entity as i64,
{
    #[verifier::truncate] (entity as i64)
}

/// A script that hands back the integer that it was given for an entity means that entity.
pub proof fn law_entity_round_trip(entity: u64)
    ensures
        (entity as i64) as u64 == entity,
{
    assert((entity as i64) as u64 == entity) by (bit_vector);
}

/// Different entities are different integers to a script.
pub proof fn law_entities_differ(a: u64, b: u64)
    requires
        a as i64 == b as i64,
    ensures
        a == b,
{
    assert(a as i64 == b as i64 ==> a == b) by (bit_vector);
}

/// A number stands for an entity by its low half alone, the high half being the generation.
pub proof fn law_entities_have_an_index(low: u32, high: u32)
    ensures
        is_entity((low + high * 0x1_0000_0000) as u64) <==> low != 0,
{
    assert((low + high * 0x1_0000_0000) % 0x1_0000_0000 == low) by (nonlinear_arith)
        requires
            0 <= low < 0x1_0000_0000,
    ;
}

/// An entity that a script was given as an integer, and hands back, is the same entity; and the
/// integers that stand for entities are those whose low half is not zero.
pub proof fn law_scripts_hand_entities_back(entity: u64, bits: i64, back: Option<u64>)
    requires
        call_ensures(entity_to_script, (entity,), bits),
        call_ensures(entity_from_script, (bits,), back),
    ensures
        entity % 0x1_0000_0000 != 0 ==> back == Some(entity),
        entity % 0x1_0000_0000 == 0 ==> back is None,
        entity <= i64::MAX ==> bits == entity,
        entity > i64::MAX ==> bits == entity - 0x1_0000_0000_0000_0000,
{
    assert((entity as i64) as u64 == entity) by (bit_vector);
    assert(entity <= i64::MAX ==> entity as i64 == entity) by (bit_vector);
    assert(entity > i64::MAX ==> entity as i64 == entity - 0x1_0000_0000_0000_0000) by (bit_vector);
}

} // verus!
