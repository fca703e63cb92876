//! Forces: named pushes that add up to an entity's velocity, and the sparse
//! requests that create and change them.

use vstd::prelude::*;
use vstd::std_specs::cmp::PartialEqSpecImpl;
use vstd::std_specs::convert::FromSpecImpl;
use vstd::std_specs::ops::MulSpecImpl;
use crate::vector::Vec2;

verus! {

/// A named force. Two forces are the same force when their names agree.
#[derive(Debug)]
pub struct Force {
    pub id: String,
    pub force: Vec2,
    /// An active force is driven from outside and keeps its strength; an
    /// inactive one is a leftover impulse that damping wears down.
    pub active: bool,
}

/// A request to create or change the force named `id`: a field that is
/// `None` leaves the force as it is.
pub struct PartialForce {
    pub id: String,
    pub force: Option<Vec2>,
    pub active: Option<bool>,
}

/// What a force is: its name as a sequence of characters, its vector and
/// its flag.
pub ghost struct ForceView {
    pub id: Seq<char>,
    pub force: Vec2,
    pub active: bool,
}

impl View for Force {
    type V = ForceView;

    open spec fn view(&self) -> ForceView {
        ForceView { id: self.id@, force: self.force, active: self.active }
    }
}

/// What a request is: its name as a sequence of characters and its two
/// optional fields.
pub ghost struct PartialForceView {
    pub id: Seq<char>,
    pub force: Option<Vec2>,
    pub active: Option<bool>,
}

impl View for PartialForce {
    type V = PartialForceView;

    open spec fn view(&self) -> PartialForceView {
        PartialForceView { id: self.id@, force: self.force, active: self.active }
    }
}

impl ForceView {
    /// This force after the request: each field that the request carries
    /// replaces the force's own, and the name stays.
    pub open spec fn mixed(self, partial: PartialForceView) -> ForceView {
        ForceView {
            id: self.id,
            force: match partial.force {
                Some(v) => v,
                None => self.force,
            },
            active: match partial.active {
                Some(a) => a,
                None => self.active,
            },
        }
    }

    /// The force with its vector multiplied component-wise by `factor`.
    pub open spec fn scaled(self, factor: Vec2) -> ForceView {
        ForceView { id: self.id, force: self.force.times(factor), active: self.active }
    }
}

impl PartialForceView {
    /// The force that the request describes on its own: a missing vector is
    /// zero and a missing flag is inactive.
    pub open spec fn materialized(self) -> ForceView {
        ForceView {
            id: self.id,
            force: match self.force {
                Some(v) => v,
                None => Vec2::origin(),
            },
            active: match self.active {
                Some(a) => a,
                None => false,
            },
        }
    }
}

impl Clone for PartialForce {
    fn clone(&self) -> (r: PartialForce)
        ensures
            r@ == self@,
    {
        PartialForce { id: self.id.clone(), force: self.force, active: self.active }
    }
}

impl Clone for Force {
    fn clone(&self) -> (r: Force)
        ensures
            r@ == self@,
    {
        Force { id: self.id.clone(), force: self.force, active: self.active }
    }
}

impl Force {
    /// Name of the default force.
    pub const DEFAULT_NAME: &'static str = "default_force";

    /// This force after the request.
    pub fn mix(&self, partial: &PartialForce) -> (r: Force)
        ensures
            r@ == self@.mixed(partial@),
    {
        Force {
            id: self.id.clone(),
            force: match partial.force {
                Some(v) => v,
                None => self.force,
            },
            active: match partial.active {
                Some(a) => a,
                None => self.active,
            },
        }
    }
}

impl core::ops::Mul<Vec2> for Force {
    type Output = Force;

    /// The force with its vector multiplied component-wise by `rhs`.
    fn mul(self, rhs: Vec2) -> (r: Force)
        ensures
            r@ == self@.scaled(rhs),
    {
        Force { id: self.id, force: self.force.multiplied(rhs), active: self.active }
    }
}

impl MulSpecImpl<Vec2> for Force {
    open spec fn obeys_mul_spec() -> bool {
        true
    }

    open spec fn mul_req(self, rhs: Vec2) -> bool {
        true
    }

    open spec fn mul_spec(self, rhs: Vec2) -> Force {
        Force { id: self.id, force: self.force.times(rhs), active: self.active }
    }
}

impl Default for Force {
    /// The inactive zero force under the default name.
    fn default() -> (r: Force)
        ensures
            r.id@ == Force::DEFAULT_NAME@,
            r.force == Vec2::origin(),
            !r.active,
    {
        Force { id: Force::DEFAULT_NAME.to_owned(), force: Vec2::zero(), active: false }
    }
}

impl From<PartialForce> for Force {
    /// The force that the request describes on its own.
    fn from(value: PartialForce) -> (r: Force)
        ensures
            r@ == value@.materialized(),
    {
        Force {
            id: value.id,
            force: match value.force {
                Some(v) => v,
                None => Vec2::zero(),
            },
            active: match value.active {
                Some(a) => a,
                None => false,
            },
        }
    }
}

impl FromSpecImpl<PartialForce> for Force {
    open spec fn obeys_from_spec() -> bool {
        true
    }

    open spec fn from_spec(value: PartialForce) -> Force {
        Force {
            id: value.id,
            force: match value.force {
                Some(v) => v,
                None => Vec2::origin(),
            },
            active: match value.active {
                Some(a) => a,
                None => false,
            },
        }
    }
}

impl PartialEq for Force {
    /// Whether the two names agree.
    fn eq(&self, other: &Force) -> (r: bool)
        ensures
            r == (self@.id == other@.id),
    {
        self.id == other.id
    }
}

impl PartialEqSpecImpl for Force {
    open spec fn obeys_eq_spec() -> bool {
        true
    }

    open spec fn eq_spec(&self, other: &Force) -> bool {
        self.id@ == other.id@
    }
}

impl Eq for Force {

}

} // verus!
