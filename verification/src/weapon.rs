//! The weapons a player can carry.

use vstd::prelude::*;

verus! {

/// The kind of projectile that a player fires.
#[derive(Copy, Clone, PartialEq, Eq, Debug, Structural)]
pub enum Weapon {
    Missile,
    Ray,
}

impl Weapon {
    /// The name of the weapon.
    pub open spec fn spec_name(&self) -> Seq<char> {
        match self {
            Weapon::Missile => "Missile"@,
            Weapon::Ray => "Ray"@,
        }
    }

    /// The weapon that follows this one when the player switches.
    pub open spec fn spec_next(&self) -> Weapon {
        match self {
            Weapon::Missile => Weapon::Ray,
            Weapon::Ray => Weapon::Missile,
        }
    }

    /// The name of the weapon, as shown to a person.
    pub fn name(&self) -> (r: String)
        ensures
            r@ == self.spec_name(),
    {
        match self {
            Weapon::Missile => "Missile".to_string(),
            Weapon::Ray => "Ray".to_string(),
        }
    }

    /// Switches to the following weapon.
    pub fn next(&mut self)
        ensures
            *final(self) == old(self).spec_next(),
    {
        let following = match self {
            Weapon::Missile => Weapon::Ray,
            Weapon::Ray => Weapon::Missile,
        };
        *self = following;
    }
}

/// Switching twice comes back to the weapon one started with.
pub proof fn lemma_weapon_cycle(w: Weapon)
    ensures
        w.spec_next().spec_next() == w,
        w.spec_next() != w,
{
}

} // verus!
