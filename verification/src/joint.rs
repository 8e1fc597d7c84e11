//! Joints of a workcell, and their form in the kinematic description.

use crate::scalar::{Scalar, TEN_BITS, THOUSAND_BITS};
use crate::urdf;
use crate::workcell::NameInWorkcell;
use vstd::prelude::*;
use vstd::string::StringExecFns;

verus! {

/// Direction of a joint's single degree of freedom.
#[derive(Clone, Copy, Debug, PartialEq, Eq)]
pub struct JointAxis(pub [Scalar; 3]);

impl JointAxis {
    pub open spec fn of_urdf(axis: urdf::Axis) -> JointAxis {
        JointAxis(axis.xyz)
    }

    pub open spec fn as_urdf(self) -> urdf::Axis {
        urdf::Axis { xyz: self.0 }
    }
}

impl From<&urdf::Axis> for JointAxis {
    fn from(axis: &urdf::Axis) -> (r: JointAxis) {
        JointAxis(axis.xyz)
    }
}

impl vstd::std_specs::convert::FromSpecImpl<&urdf::Axis> for JointAxis {
    open spec fn obeys_from_spec() -> bool {
        true
    }

    open spec fn from_spec(axis: &urdf::Axis) -> JointAxis {
        JointAxis::of_urdf(*axis)
    }
}

impl From<&JointAxis> for urdf::Axis {
    fn from(axis: &JointAxis) -> (r: urdf::Axis) {
        urdf::Axis { xyz: axis.0 }
    }
}

impl vstd::std_specs::convert::FromSpecImpl<&JointAxis> for urdf::Axis {
    open spec fn obeys_from_spec() -> bool {
        true
    }

    open spec fn from_spec(axis: &JointAxis) -> urdf::Axis {
        axis.as_urdf()
    }
}

/// A bound on one quantity of a joint.
#[derive(Clone, Copy, Debug, PartialEq, Eq)]
pub enum RangeLimits {
    /// Nothing is recorded.
    Unbounded,
    /// One magnitude for both directions.
    Symmetric(Scalar),
    Asymmetric { lower: Option<Scalar>, upper: Option<Scalar> },
}

/// The effort bound that is written out where a joint records none.
pub open spec fn default_effort_limit() -> Scalar {
    Scalar { bits: THOUSAND_BITS }
}

/// The velocity bound that is written out where a joint records none.
pub open spec fn default_velocity_limit() -> Scalar {
    Scalar { bits: TEN_BITS }
}

/// The smaller of the bounds that are present, in the total order of
/// numbers; `default` where neither is.
pub open spec fn spec_min_or_default(
    lower: Option<Scalar>,
    upper: Option<Scalar>,
    default: Scalar,
) -> Scalar {
    match (lower, upper) {
        (Some(l), Some(u)) => l.spec_total_min(u),
        (Some(l), None) => l,
        (None, Some(u)) => u,
        (None, None) => default,
    }
}

#[verifier::when_used_as_spec(spec_min_or_default)]
pub fn min_or_default(lower: Option<Scalar>, upper: Option<Scalar>, default: Scalar) -> (r: Scalar)
    ensures
        r == spec_min_or_default(lower, upper, default),
{
    match (lower, upper) {
        (Some(l), Some(u)) => l.total_min(u),
        (Some(l), None) => l,
        (None, Some(u)) => u,
        (None, None) => default,
    }
}

impl RangeLimits {
    /// The two position bounds that are written out, lower first. A
    /// symmetric bound of magnitude `m` is the range from `-m` to `m`. The
    /// description has no way to say "unbounded": a bound that is not
    /// recorded is written as zero.
    pub open spec fn position_bounds(self) -> (Scalar, Scalar) {
        let zero = Scalar { bits: 0 };
        match self {
            RangeLimits::Unbounded => (zero, zero),
            RangeLimits::Symmetric(l) => (l.spec_negated(), l),
            RangeLimits::Asymmetric { lower, upper } => (
                match lower {
                    Some(v) => v,
                    None => zero,
                },
                match upper {
                    Some(v) => v,
                    None => zero,
                },
            ),
        }
    }

    /// The one bound that is written out for effort or velocity: the
    /// recorded magnitude, or the smaller of two unequal bounds, or `default`
    /// where nothing is recorded.
    pub open spec fn single_bound(self, default: Scalar) -> Scalar {
        match self {
            RangeLimits::Unbounded => default,
            RangeLimits::Symmetric(l) => l,
            RangeLimits::Asymmetric { lower, upper } => spec_min_or_default(lower, upper, default),
        }
    }
}

/// What was put in place of a bound that could not be written out as recorded.
/// Each carries the number that was written.
#[derive(Clone, Copy, Debug, PartialEq, Eq)]
pub enum LimitDiagnostic {
    NoEffortLimit(Scalar),
    AsymmetricEffortLimit(Scalar),
    NoVelocityLimit(Scalar),
    AsymmetricVelocityLimit(Scalar),
}

#[derive(Clone, Copy, Debug, PartialEq, Eq)]
pub struct JointLimits {
    pub position: RangeLimits,
    pub effort: RangeLimits,
    pub velocity: RangeLimits,
}

impl JointLimits {
    /// The limits that a description's limit block stands for.
    pub open spec fn of_urdf(limit: urdf::JointLimit) -> JointLimits {
        JointLimits {
            position: RangeLimits::Asymmetric { lower: Some(limit.lower), upper: Some(limit.upper) },
            effort: RangeLimits::Symmetric(limit.effort),
            velocity: RangeLimits::Symmetric(limit.velocity),
        }
    }

    /// The limit block that these limits are written out as.
    pub open spec fn as_urdf(self) -> urdf::JointLimit {
        urdf::JointLimit {
            lower: self.position.position_bounds().0,
            upper: self.position.position_bounds().1,
            effort: self.effort.single_bound(default_effort_limit()),
            velocity: self.velocity.single_bound(default_velocity_limit()),
        }
    }

    /// The substitutions made by [`JointLimits::as_urdf`], effort first.
    pub open spec fn spec_diagnostics(self) -> Seq<LimitDiagnostic> {
        let effort = self.effort.single_bound(default_effort_limit());
        let velocity = self.velocity.single_bound(default_velocity_limit());
        let first = match self.effort {
            RangeLimits::Unbounded => seq![LimitDiagnostic::NoEffortLimit(effort)],
            RangeLimits::Symmetric(_) => Seq::empty(),
            RangeLimits::Asymmetric { .. } => seq![LimitDiagnostic::AsymmetricEffortLimit(effort)],
        };
        let second = match self.velocity {
            RangeLimits::Unbounded => seq![LimitDiagnostic::NoVelocityLimit(velocity)],
            RangeLimits::Symmetric(_) => Seq::empty(),
            RangeLimits::Asymmetric { .. } => seq![
                LimitDiagnostic::AsymmetricVelocityLimit(velocity),
            ],
        };
        first + second
    }

    /// What a caller should report when it writes these limits out: one entry
    /// for each bound that was replaced by a default or collapsed to one number.
    pub fn diagnostics(&self) -> (r: Vec<LimitDiagnostic>)
        ensures
            r@ == self.spec_diagnostics(),
    {
        let out = urdf::JointLimit::from(self);
        let mut notes: Vec<LimitDiagnostic> = Vec::new();
        match self.effort {
            RangeLimits::Unbounded => notes.push(LimitDiagnostic::NoEffortLimit(out.effort)),
            RangeLimits::Symmetric(_) => {},
            RangeLimits::Asymmetric { .. } => notes.push(
                LimitDiagnostic::AsymmetricEffortLimit(out.effort),
            ),
        }
        match self.velocity {
            RangeLimits::Unbounded => notes.push(LimitDiagnostic::NoVelocityLimit(out.velocity)),
            RangeLimits::Symmetric(_) => {},
            RangeLimits::Asymmetric { .. } => notes.push(
                LimitDiagnostic::AsymmetricVelocityLimit(out.velocity),
            ),
        }
        assert(notes@ =~= self.spec_diagnostics());
        notes
    }
}

impl From<&urdf::JointLimit> for JointLimits {
    fn from(limit: &urdf::JointLimit) -> (r: JointLimits) {
        JointLimits {
            position: RangeLimits::Asymmetric { lower: Some(limit.lower), upper: Some(limit.upper) },
            effort: RangeLimits::Symmetric(limit.effort),
            velocity: RangeLimits::Symmetric(limit.velocity),
        }
    }
}

impl vstd::std_specs::convert::FromSpecImpl<&urdf::JointLimit> for JointLimits {
    open spec fn obeys_from_spec() -> bool {
        true
    }

    open spec fn from_spec(limit: &urdf::JointLimit) -> JointLimits {
        JointLimits::of_urdf(*limit)
    }
}

impl From<&JointLimits> for urdf::JointLimit {
    fn from(limits: &JointLimits) -> (r: urdf::JointLimit) {
        let zero = Scalar::zero();
        let (lower, upper) = match limits.position {
            RangeLimits::Unbounded => (zero, zero),
            RangeLimits::Symmetric(l) => (l.negated(), l),
            RangeLimits::Asymmetric { lower, upper } => (
                match lower {
                    Some(v) => v,
                    None => zero,
                },
                match upper {
                    Some(v) => v,
                    None => zero,
                },
            ),
        };
        let effort = match limits.effort {
            RangeLimits::Unbounded => Scalar::from_bits(THOUSAND_BITS),
            RangeLimits::Symmetric(l) => l,
            RangeLimits::Asymmetric { lower, upper } => min_or_default(
                lower,
                upper,
                Scalar::from_bits(THOUSAND_BITS),
            ),
        };
        let velocity = match limits.velocity {
            RangeLimits::Unbounded => Scalar::from_bits(TEN_BITS),
            RangeLimits::Symmetric(l) => l,
            RangeLimits::Asymmetric { lower, upper } => min_or_default(
                lower,
                upper,
                Scalar::from_bits(TEN_BITS),
            ),
        };
        urdf::JointLimit { lower, upper, effort, velocity }
    }
}

impl vstd::std_specs::convert::FromSpecImpl<&JointLimits> for urdf::JointLimit {
    open spec fn obeys_from_spec() -> bool {
        true
    }

    open spec fn from_spec(limits: &JointLimits) -> urdf::JointLimit {
        limits.as_urdf()
    }
}

/// No bound on effort or velocity is replaced or collapsed without an entry
/// that carries the number written, and a bound that is written as recorded
/// has no entry.
pub proof fn lemma_diagnostics_cover_substitutions(limits: JointLimits)
    ensures
        limits.effort is Unbounded ==> limits.spec_diagnostics().contains(
            LimitDiagnostic::NoEffortLimit(limits.as_urdf().effort),
        ),
        limits.effort is Asymmetric ==> limits.spec_diagnostics().contains(
            LimitDiagnostic::AsymmetricEffortLimit(limits.as_urdf().effort),
        ),
        limits.velocity is Unbounded ==> limits.spec_diagnostics().contains(
            LimitDiagnostic::NoVelocityLimit(limits.as_urdf().velocity),
        ),
        limits.velocity is Asymmetric ==> limits.spec_diagnostics().contains(
            LimitDiagnostic::AsymmetricVelocityLimit(limits.as_urdf().velocity),
        ),
        limits.effort is Symmetric && limits.velocity is Symmetric
            ==> limits.spec_diagnostics().len() == 0,
{
    let notes = limits.spec_diagnostics();
    if !(limits.effort is Symmetric) {
        assert(notes.contains(notes[0]));
    }
    if !(limits.velocity is Symmetric) {
        assert(notes.contains(notes[notes.len() - 1]));
    }
}

#[derive(Clone, Copy, Debug, PartialEq, Eq)]
pub struct SingleDofJoint {
    pub limits: JointLimits,
    pub axis: JointAxis,
}

impl SingleDofJoint {
    pub open spec fn of_urdf(axis: urdf::Axis, limit: urdf::JointLimit) -> SingleDofJoint {
        SingleDofJoint { limits: JointLimits::of_urdf(limit), axis: JointAxis::of_urdf(axis) }
    }
}

#[derive(Clone, Copy, Debug, PartialEq, Eq)]
pub enum JointProperties {
    Fixed,
    Prismatic(SingleDofJoint),
    Revolute(SingleDofJoint),
    Continuous(SingleDofJoint),
}

/// Whether a workcell can hold a joint of this type.
pub open spec fn is_supported(joint_type: urdf::JointType) -> bool {
    joint_type is Fixed || joint_type is Prismatic || joint_type is Revolute
        || joint_type is Continuous
}

impl JointProperties {
    /// The properties that a description's joint stands for; `None` for a
    /// joint type that a workcell cannot hold. A fixed joint keeps neither
    /// axis nor limits.
    pub open spec fn of_urdf(
        joint_type: urdf::JointType,
        axis: urdf::Axis,
        limit: urdf::JointLimit,
    ) -> Option<JointProperties> {
        match joint_type {
            urdf::JointType::Revolute => Some(
                JointProperties::Revolute(SingleDofJoint::of_urdf(axis, limit)),
            ),
            urdf::JointType::Prismatic => Some(
                JointProperties::Prismatic(SingleDofJoint::of_urdf(axis, limit)),
            ),
            urdf::JointType::Continuous => Some(
                JointProperties::Continuous(SingleDofJoint::of_urdf(axis, limit)),
            ),
            urdf::JointType::Fixed => Some(JointProperties::Fixed),
            _ => None,
        }
    }

    /// The type under which the joint is written out.
    pub open spec fn joint_type(self) -> urdf::JointType {
        match self {
            JointProperties::Fixed => urdf::JointType::Fixed,
            JointProperties::Prismatic(_) => urdf::JointType::Prismatic,
            JointProperties::Revolute(_) => urdf::JointType::Revolute,
            JointProperties::Continuous(_) => urdf::JointType::Continuous,
        }
    }

    /// The axis that is written out: all zero for a fixed joint.
    pub open spec fn axis_as_urdf(self) -> urdf::Axis {
        match self {
            JointProperties::Fixed => urdf::Axis::zero(),
            JointProperties::Prismatic(j) => j.axis.as_urdf(),
            JointProperties::Revolute(j) => j.axis.as_urdf(),
            JointProperties::Continuous(j) => j.axis.as_urdf(),
        }
    }

    /// The limit block that is written out: all zero for a fixed joint.
    pub open spec fn limit_as_urdf(self) -> urdf::JointLimit {
        match self {
            JointProperties::Fixed => urdf::JointLimit::zero(),
            JointProperties::Prismatic(j) => j.limits.as_urdf(),
            JointProperties::Revolute(j) => j.limits.as_urdf(),
            JointProperties::Continuous(j) => j.limits.as_urdf(),
        }
    }

    /// The substitutions made when the joint's limits are written out: none
    /// for a fixed joint, which has no limits to write.
    pub open spec fn spec_diagnostics(self) -> Seq<LimitDiagnostic> {
        match self {
            JointProperties::Fixed => Seq::empty(),
            JointProperties::Prismatic(j) => j.limits.spec_diagnostics(),
            JointProperties::Revolute(j) => j.limits.spec_diagnostics(),
            JointProperties::Continuous(j) => j.limits.spec_diagnostics(),
        }
    }

    /// What a caller should report when it writes the joint out.
    pub fn diagnostics(&self) -> (r: Vec<LimitDiagnostic>)
        ensures
            r@ == self.spec_diagnostics(),
    {
        match self {
            JointProperties::Fixed => Vec::new(),
            JointProperties::Prismatic(j) => j.limits.diagnostics(),
            JointProperties::Revolute(j) => j.limits.diagnostics(),
            JointProperties::Continuous(j) => j.limits.diagnostics(),
        }
    }

    /// Name of the variant.
    pub open spec fn spec_label(self) -> Seq<char> {
        match self {
            JointProperties::Fixed => "Fixed"@,
            JointProperties::Revolute(_) => "Revolute"@,
            JointProperties::Prismatic(_) => "Prismatic"@,
            JointProperties::Continuous(_) => "Continuous"@,
        }
    }

    pub fn label(&self) -> (r: String)
        ensures
            r@ == self.spec_label(),
    {
        match self {
            JointProperties::Fixed => String::from_str("Fixed"),
            JointProperties::Revolute(_) => String::from_str("Revolute"),
            JointProperties::Prismatic(_) => String::from_str("Prismatic"),
            JointProperties::Continuous(_) => String::from_str("Continuous"),
        }
    }

    /// Reads type, axis and limits of a description's joint.
    pub fn from_urdf(
        joint_type: urdf::JointType,
        axis: &urdf::Axis,
        limit: &urdf::JointLimit,
    ) -> (r: Option<JointProperties>)
        ensures
            r == JointProperties::of_urdf(joint_type, *axis, *limit),
    {
        match joint_type {
            urdf::JointType::Revolute => Some(
                JointProperties::Revolute(
                    SingleDofJoint { axis: JointAxis::from(axis), limits: JointLimits::from(limit) },
                ),
            ),
            urdf::JointType::Prismatic => Some(
                JointProperties::Prismatic(
                    SingleDofJoint { axis: JointAxis::from(axis), limits: JointLimits::from(limit) },
                ),
            ),
            urdf::JointType::Fixed => Some(JointProperties::Fixed),
            urdf::JointType::Continuous => Some(
                JointProperties::Continuous(
                    SingleDofJoint { axis: JointAxis::from(axis), limits: JointLimits::from(limit) },
                ),
            ),
            _ => None,
        }
    }

    /// Type, axis and limit block under which the joint is written out.
    pub fn to_urdf(&self) -> (r: (urdf::JointType, urdf::Axis, urdf::JointLimit))
        ensures
            r.0 == self.joint_type(),
            r.1 == self.axis_as_urdf(),
            r.2 == self.limit_as_urdf(),
    {
        match self {
            JointProperties::Fixed => (
                urdf::JointType::Fixed,
                urdf::Axis::default(),
                urdf::JointLimit::default(),
            ),
            JointProperties::Revolute(joint) => (
                urdf::JointType::Revolute,
                urdf::Axis::from(&joint.axis),
                urdf::JointLimit::from(&joint.limits),
            ),
            JointProperties::Prismatic(joint) => (
                urdf::JointType::Prismatic,
                urdf::Axis::from(&joint.axis),
                urdf::JointLimit::from(&joint.limits),
            ),
            JointProperties::Continuous(joint) => (
                urdf::JointType::Continuous,
                urdf::Axis::from(&joint.axis),
                urdf::JointLimit::from(&joint.limits),
            ),
        }
    }
}

/// What a supported joint is read as is written out under the same type,
/// with the same axis and limits unless the joint is fixed.
pub proof fn lemma_joint_properties_round_trip(
    joint_type: urdf::JointType,
    axis: urdf::Axis,
    limit: urdf::JointLimit,
)
    requires
        is_supported(joint_type),
    ensures
        JointProperties::of_urdf(joint_type, axis, limit) matches Some(p) && p.joint_type()
            == joint_type && (joint_type is Fixed ==> p.axis_as_urdf() == urdf::Axis::zero()
            && p.limit_as_urdf() == urdf::JointLimit::zero()) && (!(joint_type is Fixed)
            ==> p.axis_as_urdf() == axis && p.limit_as_urdf() == limit),
{
}

/// A named joint.
#[derive(Clone, Debug, PartialEq, Eq)]
pub struct Joint {
    pub name: NameInWorkcell,
    pub properties: JointProperties,
}

/// Model of a [`Joint`].
pub struct JointView {
    pub name: Seq<char>,
    pub properties: JointProperties,
}

impl View for Joint {
    type V = JointView;

    open spec fn view(&self) -> JointView {
        JointView { name: self.name@, properties: self.properties }
    }
}

} // verus!
