//! Mass and inertia of a frame, and their form in the kinematic description.

use crate::pose::Pose;
use crate::scalar::Scalar;
use crate::urdf;
use vstd::prelude::*;

verus! {

#[derive(Clone, Copy, Debug, PartialEq, Eq)]
pub struct Mass(pub Scalar);

impl Default for Mass {
    fn default() -> (r: Mass)
        ensures
            r == Mass(Scalar { bits: 0 }),
    {
        Mass(Scalar::zero())
    }
}

/// The six independent components of a symmetric inertia tensor.
#[derive(Clone, Copy, Debug, PartialEq, Eq)]
pub struct Moment {
    pub ixx: Scalar,
    pub ixy: Scalar,
    pub ixz: Scalar,
    pub iyy: Scalar,
    pub iyz: Scalar,
    pub izz: Scalar,
}

impl Default for Moment {
    fn default() -> (r: Moment)
        ensures
            r == Moment::zero(),
    {
        let z = Scalar::zero();
        Moment { ixx: z, ixy: z, ixz: z, iyy: z, iyz: z, izz: z }
    }
}

impl Moment {
    /// The tensor with all components zero.
    pub open spec fn zero() -> Moment {
        let z = Scalar { bits: 0 };
        Moment { ixx: z, ixy: z, ixz: z, iyy: z, iyz: z, izz: z }
    }

    /// The tensor of a description's inertia, component for component.
    pub open spec fn of_urdf(inertia: urdf::Inertia) -> Moment {
        Moment {
            ixx: inertia.ixx,
            ixy: inertia.ixy,
            ixz: inertia.ixz,
            iyy: inertia.iyy,
            iyz: inertia.iyz,
            izz: inertia.izz,
        }
    }
}

impl From<&urdf::Inertia> for Moment {
    fn from(inertia: &urdf::Inertia) -> (r: Moment) {
        Moment {
            ixx: inertia.ixx,
            ixy: inertia.ixy,
            ixz: inertia.ixz,
            iyy: inertia.iyy,
            iyz: inertia.iyz,
            izz: inertia.izz,
        }
    }
}

impl vstd::std_specs::convert::FromSpecImpl<&urdf::Inertia> for Moment {
    open spec fn obeys_from_spec() -> bool {
        true
    }

    open spec fn from_spec(inertia: &urdf::Inertia) -> Moment {
        Moment::of_urdf(*inertia)
    }
}

/// Centre of mass, mass and inertia tensor of one frame.
#[derive(Clone, Copy, Debug, PartialEq, Eq)]
pub struct Inertia {
    pub center: Pose,
    pub mass: Mass,
    pub moment: Moment,
}

impl Default for Inertia {
    fn default() -> (r: Inertia)
        ensures
            r == (Inertia {
                center: Pose::identity(),
                mass: Mass(Scalar { bits: 0 }),
                moment: Moment::zero(),
            }),
    {
        Inertia { center: Pose::default(), mass: Mass::default(), moment: Moment::default() }
    }
}

impl Inertia {
    /// The record that a link's inertial block stands for.
    pub open spec fn of_urdf(inertial: urdf::Inertial) -> Inertia {
        Inertia {
            center: inertial.origin,
            mass: Mass(inertial.mass.value),
            moment: Moment::of_urdf(inertial.inertia),
        }
    }

    /// The inertial block that this record is written out as.
    pub open spec fn as_urdf(self) -> urdf::Inertial {
        urdf::Inertial {
            origin: self.center,
            mass: urdf::Mass { value: self.mass.0 },
            inertia: urdf::Inertia {
                ixx: self.moment.ixx,
                ixy: self.moment.ixy,
                ixz: self.moment.ixz,
                iyy: self.moment.iyy,
                iyz: self.moment.iyz,
                izz: self.moment.izz,
            },
        }
    }
}

impl From<&urdf::Inertial> for Inertia {
    fn from(inertial: &urdf::Inertial) -> (r: Inertia) {
        Inertia {
            center: inertial.origin,
            mass: Mass(inertial.mass.value),
            moment: Moment::from(&inertial.inertia),
        }
    }
}

impl vstd::std_specs::convert::FromSpecImpl<&urdf::Inertial> for Inertia {
    open spec fn obeys_from_spec() -> bool {
        true
    }

    open spec fn from_spec(inertial: &urdf::Inertial) -> Inertia {
        Inertia::of_urdf(*inertial)
    }
}

impl From<&Inertia> for urdf::Inertial {
    fn from(inertia: &Inertia) -> (r: urdf::Inertial) {
        urdf::Inertial {
            origin: inertia.center,
            mass: urdf::Mass { value: inertia.mass.0 },
            inertia: urdf::Inertia {
                ixx: inertia.moment.ixx,
                ixy: inertia.moment.ixy,
                ixz: inertia.moment.ixz,
                iyy: inertia.moment.iyy,
                iyz: inertia.moment.iyz,
                izz: inertia.moment.izz,
            },
        }
    }
}

impl vstd::std_specs::convert::FromSpecImpl<&Inertia> for urdf::Inertial {
    open spec fn obeys_from_spec() -> bool {
        true
    }

    open spec fn from_spec(inertia: &Inertia) -> urdf::Inertial {
        inertia.as_urdf()
    }
}

/// Reading an inertial block and writing it out again changes nothing, and
/// neither does the way back.
pub proof fn lemma_inertia_round_trip(inertial: urdf::Inertial, inertia: Inertia)
    ensures
        Inertia::of_urdf(inertial).as_urdf() == inertial,
        Inertia::of_urdf(inertia.as_urdf()) == inertia,
{
}

} // verus!
