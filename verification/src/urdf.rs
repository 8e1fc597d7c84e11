//! The kinematic description: rigid links joined by joints.
//!
//! Numbers are held at the document's precision and poses in the document's
//! notation, so that a description and a document can be compared value for
//! value. Materials, joint dynamics, mimicry and safety limits are not part of
//! a workcell and have no place here.

use crate::pose::Pose;
use crate::scalar::Scalar;
use vstd::prelude::*;

verus! {

#[derive(Clone, Copy, Debug, PartialEq, Eq)]
pub struct Mass {
    pub value: Scalar,
}

/// The six independent components of a symmetric inertia tensor.
#[derive(Clone, Copy, Debug, PartialEq, Eq)]
pub struct Inertia {
    pub ixx: Scalar,
    pub ixy: Scalar,
    pub ixz: Scalar,
    pub iyy: Scalar,
    pub iyz: Scalar,
    pub izz: Scalar,
}

#[derive(Clone, Copy, Debug, PartialEq, Eq)]
pub struct Inertial {
    pub origin: Pose,
    pub mass: Mass,
    pub inertia: Inertia,
}

impl Inertial {
    /// No mass, no inertia, at the link's origin.
    pub open spec fn zero() -> Inertial {
        let z = Scalar { bits: 0 };
        Inertial {
            origin: Pose::identity(),
            mass: Mass { value: z },
            inertia: Inertia { ixx: z, ixy: z, ixz: z, iyy: z, iyz: z, izz: z },
        }
    }
}

impl Default for Inertial {
    fn default() -> (r: Inertial)
        ensures
            r == Inertial::zero(),
    {
        let z = Scalar::zero();
        Inertial {
            origin: Pose::default(),
            mass: Mass { value: z },
            inertia: Inertia { ixx: z, ixy: z, ixz: z, iyy: z, iyz: z, izz: z },
        }
    }
}

#[derive(Clone, Debug, PartialEq, Eq)]
pub enum Geometry {
    Box { size: [Scalar; 3] },
    Cylinder { radius: Scalar, length: Scalar },
    Capsule { radius: Scalar, length: Scalar },
    Sphere { radius: Scalar },
    Mesh { filename: String, scale: Option<[Scalar; 3]> },
}

/// Model of a [`Geometry`].
pub enum GeometryView {
    Box { size: [Scalar; 3] },
    Cylinder { radius: Scalar, length: Scalar },
    Capsule { radius: Scalar, length: Scalar },
    Sphere { radius: Scalar },
    Mesh { filename: Seq<char>, scale: Option<[Scalar; 3]> },
}

impl View for Geometry {
    type V = GeometryView;

    open spec fn view(&self) -> GeometryView {
        match *self {
            Geometry::Box { size } => GeometryView::Box { size },
            Geometry::Cylinder { radius, length } => GeometryView::Cylinder { radius, length },
            Geometry::Capsule { radius, length } => GeometryView::Capsule { radius, length },
            Geometry::Sphere { radius } => GeometryView::Sphere { radius },
            Geometry::Mesh { filename, scale } => GeometryView::Mesh { filename: filename@, scale },
        }
    }
}

/// Model of a [`Visual`] or a [`Collision`]: a shape placed on a link.
pub struct ElementView {
    pub name: Option<Seq<char>>,
    pub origin: Pose,
    pub geometry: GeometryView,
}

/// Model of an optional name.
pub open spec fn name_view(name: Option<String>) -> Option<Seq<char>> {
    match name {
        Some(n) => Some(n@),
        None => None,
    }
}

#[derive(Clone, Debug, PartialEq, Eq)]
pub struct Visual {
    pub name: Option<String>,
    pub origin: Pose,
    pub geometry: Geometry,
}

impl View for Visual {
    type V = ElementView;

    open spec fn view(&self) -> ElementView {
        ElementView { name: name_view(self.name), origin: self.origin, geometry: self.geometry@ }
    }
}

#[derive(Clone, Debug, PartialEq, Eq)]
pub struct Collision {
    pub name: Option<String>,
    pub origin: Pose,
    pub geometry: Geometry,
}

impl View for Collision {
    type V = ElementView;

    open spec fn view(&self) -> ElementView {
        ElementView { name: name_view(self.name), origin: self.origin, geometry: self.geometry@ }
    }
}

#[derive(Clone, Debug, PartialEq, Eq)]
pub struct Link {
    pub name: String,
    pub inertial: Inertial,
    pub visual: Vec<Visual>,
    pub collision: Vec<Collision>,
}

/// Model of a [`Link`].
pub struct LinkView {
    pub name: Seq<char>,
    pub inertial: Inertial,
    pub visual: Seq<ElementView>,
    pub collision: Seq<ElementView>,
}

/// Models of a link's visual entries, in their order.
pub open spec fn visuals_view(visuals: Seq<Visual>) -> Seq<ElementView> {
    visuals.map_values(|v: Visual| v@)
}

/// Models of a link's collision entries, in their order.
pub open spec fn collisions_view(collisions: Seq<Collision>) -> Seq<ElementView> {
    collisions.map_values(|c: Collision| c@)
}

impl View for Link {
    type V = LinkView;

    open spec fn view(&self) -> LinkView {
        LinkView {
            name: self.name@,
            inertial: self.inertial,
            visual: visuals_view(self.visual@),
            collision: collisions_view(self.collision@),
        }
    }
}

#[derive(Clone, Copy, Debug, PartialEq, Eq)]
pub struct Axis {
    pub xyz: [Scalar; 3],
}

impl Axis {
    pub open spec fn zero() -> Axis {
        Axis { xyz: [Scalar { bits: 0 }, Scalar { bits: 0 }, Scalar { bits: 0 }] }
    }
}

impl Default for Axis {
    fn default() -> (r: Axis)
        ensures
            r == Axis::zero(),
    {
        Axis { xyz: [Scalar::zero(), Scalar::zero(), Scalar::zero()] }
    }
}

#[derive(Clone, Debug, PartialEq, Eq)]
pub struct LinkName {
    pub link: String,
}

#[derive(Clone, Copy, Debug, PartialEq, Eq, Structural)]
pub enum JointType {
    Revolute,
    Continuous,
    Prismatic,
    Fixed,
    Floating,
    Planar,
    Spherical,
}

/// Position range, and the one bound each on effort and velocity.
#[derive(Clone, Copy, Debug, PartialEq, Eq)]
pub struct JointLimit {
    pub lower: Scalar,
    pub upper: Scalar,
    pub effort: Scalar,
    pub velocity: Scalar,
}

impl JointLimit {
    pub open spec fn zero() -> JointLimit {
        let z = Scalar { bits: 0 };
        JointLimit { lower: z, upper: z, effort: z, velocity: z }
    }
}

impl Default for JointLimit {
    fn default() -> (r: JointLimit)
        ensures
            r == JointLimit::zero(),
    {
        let z = Scalar::zero();
        JointLimit { lower: z, upper: z, effort: z, velocity: z }
    }
}

#[derive(Clone, Debug, PartialEq, Eq)]
pub struct Joint {
    pub name: String,
    pub joint_type: JointType,
    /// Where the joint, and with it the child link, sits in the parent link.
    pub origin: Pose,
    pub parent: LinkName,
    pub child: LinkName,
    pub axis: Axis,
    pub limit: JointLimit,
}

/// Model of a [`Joint`].
pub struct JointView {
    pub name: Seq<char>,
    pub joint_type: JointType,
    pub origin: Pose,
    pub parent: Seq<char>,
    pub child: Seq<char>,
    pub axis: Axis,
    pub limit: JointLimit,
}

impl View for Joint {
    type V = JointView;

    open spec fn view(&self) -> JointView {
        JointView {
            name: self.name@,
            joint_type: self.joint_type,
            origin: self.origin,
            parent: self.parent.link@,
            child: self.child.link@,
            axis: self.axis,
            limit: self.limit,
        }
    }
}

#[derive(Clone, Debug, PartialEq, Eq)]
pub struct Robot {
    pub name: String,
    pub links: Vec<Link>,
    pub joints: Vec<Joint>,
}

/// Model of a [`Robot`].
pub struct RobotView {
    pub name: Seq<char>,
    pub links: Seq<LinkView>,
    pub joints: Seq<JointView>,
}

/// Models of links, in their order.
pub open spec fn links_view(links: Seq<Link>) -> Seq<LinkView> {
    links.map_values(|l: Link| l@)
}

/// Models of joints, in their order.
pub open spec fn joints_view(joints: Seq<Joint>) -> Seq<JointView> {
    joints.map_values(|j: Joint| j@)
}

impl View for Robot {
    type V = RobotView;

    open spec fn view(&self) -> RobotView {
        RobotView {
            name: self.name@,
            links: links_view(self.links@),
            joints: joints_view(self.joints@),
        }
    }
}

} // verus!
