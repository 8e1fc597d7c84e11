use std::collections::BTreeMap;

use rmf_workcell_format::geometry::{AssetSource, Geometry, PrimitiveShape, WorkcellModel};
use rmf_workcell_format::inertial::{Inertia, Mass, Moment};
use rmf_workcell_format::joint::{
    Joint, JointAxis, JointLimits, JointProperties, LimitDiagnostic, RangeLimits, SingleDofJoint,
};
use rmf_workcell_format::pose::{Anchor, Angle, CategorizedTranslation, Pose, Rotation};
use rmf_workcell_format::scalar::Scalar;
use rmf_workcell_format::urdf;
use rmf_workcell_format::workcell::{
    Frame, FrameMarker, NameInWorkcell, NameOfWorkcell, Parented, Workcell, WorkcellProperties,
    WorkcellToUrdfError,
};

fn scalar(value: f32) -> Scalar {
    Scalar::from_bits(value.to_bits())
}

fn pose(x: f32, y: f32, z: f32) -> Pose {
    Pose { trans: [scalar(x), scalar(y), scalar(z)], rot: Rotation::Yaw(Angle::Deg(scalar(90.0))) }
}

fn frame(parent: u32, name: &str, at: Pose) -> Parented<u32, Frame> {
    Parented {
        parent,
        bundle: Frame {
            anchor: Anchor::Pose3D(at),
            name: NameInWorkcell(name.to_string()),
            marker: FrameMarker,
        },
    }
}

fn model(parent: u32, name: &str) -> Parented<u32, WorkcellModel> {
    Parented {
        parent,
        bundle: WorkcellModel {
            name: name.to_string(),
            geometry: Geometry::Primitive(PrimitiveShape::Cylinder {
                radius: scalar(0.2),
                length: scalar(0.6),
            }),
            pose: pose(0.0, 0.0, 1.0),
        },
    }
}

fn inertia(parent: u32, mass: f32) -> Parented<u32, Inertia> {
    Parented {
        parent,
        bundle: Inertia {
            center: pose(0.0, 0.0, 0.0),
            mass: Mass(scalar(mass)),
            moment: Moment {
                ixx: scalar(1.0),
                ixy: scalar(0.0),
                ixz: scalar(0.0),
                iyy: scalar(1.0),
                iyz: scalar(0.0),
                izz: scalar(1.0),
            },
        },
    }
}

fn limits() -> JointLimits {
    JointLimits {
        position: RangeLimits::Asymmetric { lower: Some(scalar(-1.0)), upper: Some(scalar(1.0)) },
        effort: RangeLimits::Symmetric(scalar(5.0)),
        velocity: RangeLimits::Symmetric(scalar(6.0)),
    }
}

fn joint(parent: u32, name: &str, properties: JointProperties) -> Parented<u32, Joint> {
    Parented { parent, bundle: Joint { name: NameInWorkcell(name.to_string()), properties } }
}

fn revolute() -> JointProperties {
    JointProperties::Revolute(SingleDofJoint {
        limits: limits(),
        axis: JointAxis([scalar(0.0), scalar(1.0), scalar(0.0)]),
    })
}

fn blank(name: &str) -> Workcell {
    Workcell {
        properties: WorkcellProperties { name: NameOfWorkcell(name.to_string()) },
        id: 0,
        frames: BTreeMap::new(),
        visuals: BTreeMap::new(),
        collisions: BTreeMap::new(),
        inertias: BTreeMap::new(),
        joints: BTreeMap::new(),
    }
}

/// base (10) -- hinge (30) --> tip (20), entered out of order.
fn chain() -> Workcell {
    let mut w = blank("cell");
    w.frames.insert(20, frame(30, "tip", pose(1.0, 2.0, 3.0)));
    w.frames.insert(10, frame(0, "base", pose(0.0, 0.0, 0.0)));
    w.joints.insert(30, joint(10, "hinge", revolute()));
    w
}

#[test]
fn single_root_frame_becomes_the_base_link() {
    let robot = chain().to_urdf().unwrap();
    assert_eq!(robot.name, "cell");
    assert_eq!(robot.links.iter().map(|l| l.name.as_str()).collect::<Vec<&str>>(), ["base", "tip"]);
    assert_eq!(robot.joints.len(), 1);
    let hinge = &robot.joints[0];
    assert_eq!(hinge.name, "hinge");
    assert_eq!(hinge.joint_type, urdf::JointType::Revolute);
    assert_eq!(hinge.parent.link, "base");
    assert_eq!(hinge.child.link, "tip");
    assert_eq!(hinge.origin, pose(1.0, 2.0, 3.0));
    assert_eq!(hinge.axis, urdf::Axis { xyz: [scalar(0.0), scalar(1.0), scalar(0.0)] });
    assert_eq!(
        hinge.limit,
        urdf::JointLimit {
            lower: scalar(-1.0),
            upper: scalar(1.0),
            effort: scalar(5.0),
            velocity: scalar(6.0),
        }
    );
}

#[test]
fn link_without_entries_is_empty() {
    let robot = chain().to_urdf().unwrap();
    assert_eq!(robot.links[0].inertial, urdf::Inertial::default());
    assert_eq!(
        urdf::Inertial::default().mass,
        urdf::Mass { value: scalar(0.0) }
    );
    assert!(robot.links[0].visual.is_empty());
    assert!(robot.links[0].collision.is_empty());
}

#[test]
fn no_root_frame_gets_a_placeholder_link() {
    let mut w = blank("lab");
    w.id = 7;
    let robot = w.to_urdf().unwrap();
    assert_eq!(robot.links.len(), 1);
    assert_eq!(robot.links[0].name, "lab_workcell_link");
    assert!(robot.joints.is_empty());
}

#[test]
fn several_root_frames_get_a_placeholder_link() {
    let mut w = blank("lab");
    w.id = 5;
    w.frames.insert(2, frame(5, "left", pose(0.0, 1.0, 0.0)));
    w.frames.insert(9, frame(5, "right", pose(0.0, -1.0, 0.0)));
    w.visuals.insert(11, model(5, "floor"));
    let robot = w.to_urdf().unwrap();
    assert_eq!(
        robot.links.iter().map(|l| l.name.as_str()).collect::<Vec<&str>>(),
        ["left", "lab_workcell_link", "right"]
    );
    // What hangs on the root goes to the placeholder.
    assert_eq!(robot.links[1].visual.len(), 1);
    assert_eq!(robot.links[1].visual[0].name, Some("floor".to_string()));
}

#[test]
fn placeholder_replaces_a_frame_under_the_root_id() {
    let mut w = blank("lab");
    w.id = 3;
    w.frames.insert(3, frame(8, "squatter", pose(0.0, 0.0, 0.0)));
    let robot = w.to_urdf().unwrap();
    assert_eq!(robot.links.len(), 1);
    assert_eq!(robot.links[0].name, "lab_workcell_link");
}

#[test]
fn shapes_are_grouped_by_frame_in_the_order_of_ids() {
    let mut w = chain();
    w.visuals.insert(44, model(10, "late"));
    w.visuals.insert(41, model(20, "other"));
    w.visuals.insert(40, model(10, "early"));
    w.visuals.insert(43, model(99, "orphan"));
    w.collisions.insert(50, model(20, "bumper"));
    let robot = w.to_urdf().unwrap();
    let names = |link: &urdf::Link| {
        link.visual.iter().map(|v| v.name.clone().unwrap()).collect::<Vec<String>>()
    };
    assert_eq!(names(&robot.links[0]), ["early", "late"]);
    assert_eq!(names(&robot.links[1]), ["other"]);
    assert!(robot.links[0].collision.is_empty());
    assert_eq!(robot.links[1].collision[0].name, Some("bumper".to_string()));
    assert_eq!(robot.links[1].collision[0].origin, pose(0.0, 0.0, 1.0));
    assert_eq!(
        robot.links[1].collision[0].geometry,
        urdf::Geometry::Cylinder { radius: scalar(0.2), length: scalar(0.6) }
    );
}

#[test]
fn last_inertia_on_a_frame_is_written_out() {
    let mut w = chain();
    w.inertias.insert(61, inertia(10, 1.0));
    w.inertias.insert(63, inertia(10, 3.0));
    w.inertias.insert(62, inertia(20, 2.0));
    let robot = w.to_urdf().unwrap();
    assert_eq!(robot.links[0].inertial.mass.value, scalar(3.0));
    assert_eq!(robot.links[1].inertial.mass.value, scalar(2.0));
    assert_eq!(robot.links[1].inertial.inertia.ixx, scalar(1.0));
}

#[test]
fn joints_come_out_in_the_order_of_ids() {
    let mut w = chain();
    w.frames.insert(21, frame(25, "hand", pose(0.0, 0.0, 0.5)));
    w.joints.insert(25, joint(20, "wrist", JointProperties::Fixed));
    let robot = w.to_urdf().unwrap();
    assert_eq!(
        robot.joints.iter().map(|j| j.name.as_str()).collect::<Vec<&str>>(),
        ["wrist", "hinge"]
    );
    assert_eq!(robot.joints[0].joint_type, urdf::JointType::Fixed);
    assert_eq!(robot.joints[0].axis, urdf::Axis::default());
    assert_eq!(robot.joints[0].axis.xyz, [scalar(0.0); 3]);
    assert_eq!(robot.joints[0].limit, urdf::JointLimit::default());
    assert_eq!(robot.joints[0].parent.link, "tip");
    assert_eq!(robot.joints[0].child.link, "hand");
}

#[test]
fn first_frame_behind_a_joint_is_its_child() {
    let mut w = chain();
    w.frames.insert(15, frame(30, "nearer", pose(4.0, 4.0, 4.0)));
    let robot = w.to_urdf().unwrap();
    assert_eq!(robot.joints[0].child.link, "nearer");
    assert_eq!(robot.joints[0].origin, pose(4.0, 4.0, 4.0));
}

#[test]
fn joint_without_parent_frame_is_a_broken_reference() {
    let mut w = chain();
    w.joints.insert(30, joint(77, "hinge", revolute()));
    assert_eq!(w.to_urdf(), Err(WorkcellToUrdfError::BrokenReference(77)));
}

#[test]
fn joint_on_the_root_is_a_broken_reference() {
    // The placeholder for the root is a link, but no frame of the workcell.
    let mut w = blank("lab");
    w.frames.insert(1, frame(2, "arm", pose(0.0, 0.0, 0.0)));
    w.joints.insert(2, joint(0, "mount", JointProperties::Fixed));
    assert_eq!(w.to_urdf(), Err(WorkcellToUrdfError::BrokenReference(0)));
}

#[test]
fn joint_without_child_frame_is_a_broken_reference() {
    let mut w = chain();
    w.frames.insert(20, frame(0, "tip", pose(1.0, 2.0, 3.0)));
    assert_eq!(w.to_urdf(), Err(WorkcellToUrdfError::BrokenReference(30)));
}

#[test]
fn child_frame_must_be_placed_by_a_pose() {
    let mut w = chain();
    let flat = Anchor::Translate2D([scalar(1.0), scalar(2.0)]);
    w.frames.get_mut(&20).unwrap().bundle.anchor = flat.clone();
    assert_eq!(w.to_urdf(), Err(WorkcellToUrdfError::InvalidAnchorType(flat)));
    let sorted = Anchor::CategorizedTranslate2D(vec![
        CategorizedTranslation {
            category: "General".to_string(),
            translation: [scalar(1.0), scalar(2.0)],
        },
        CategorizedTranslation {
            category: "Door".to_string(),
            translation: [scalar(3.0), scalar(4.0)],
        },
    ]);
    w.frames.get_mut(&20).unwrap().bundle.anchor = sorted.clone();
    assert_eq!(w.to_urdf(), Err(WorkcellToUrdfError::InvalidAnchorType(sorted.clone())));
    assert_eq!(sorted.clone(), sorted);
    assert!(!sorted.is_3D());
    assert!(Anchor::Pose3D(Pose::default()).is_3D());
}

#[test]
fn parent_frame_need_not_be_placed_by_a_pose() {
    let mut w = chain();
    w.frames.get_mut(&10).unwrap().bundle.anchor =
        Anchor::Translate2D([scalar(1.0), scalar(2.0)]);
    assert!(w.to_urdf().is_ok());
}

#[test]
fn first_joint_that_cannot_be_written_decides_the_error() {
    let mut w = chain();
    w.joints.insert(29, joint(55, "loose", JointProperties::Fixed));
    w.joints.insert(31, joint(66, "looser", JointProperties::Fixed));
    assert_eq!(w.to_urdf(), Err(WorkcellToUrdfError::BrokenReference(55)));
    // The parent is looked up before the child.
    let mut w = chain();
    w.frames.remove(&20);
    w.joints.insert(30, joint(77, "hinge", revolute()));
    assert_eq!(w.to_urdf(), Err(WorkcellToUrdfError::BrokenReference(77)));
}

#[test]
fn frames_without_a_joint_between_them_stay_two_links() {
    let mut w = blank("stack");
    w.frames.insert(1, frame(0, "lower", pose(0.0, 0.0, 0.0)));
    w.frames.insert(2, frame(1, "upper", pose(0.0, 0.0, 1.0)));
    let robot = w.to_urdf().unwrap();
    assert_eq!(robot.links.len(), 2);
    assert!(robot.joints.is_empty());
}

#[test]
fn mesh_sources_are_written_out() {
    let mut w = chain();
    let mut part = model(10, "part");
    part.bundle.geometry = Geometry::Mesh {
        source: AssetSource::Package("pkg/meshes/part.dae".to_string()),
        scale: Some([scalar(1.0), scalar(2.0), scalar(3.0)]),
    };
    w.visuals.insert(40, part);
    let mut local = model(10, "local");
    local.bundle.geometry =
        Geometry::Mesh { source: AssetSource::Local("meshes/part.dae".to_string()), scale: None };
    w.visuals.insert(41, local);
    let robot = w.to_urdf().unwrap();
    assert_eq!(
        robot.links[0].visual[0].geometry,
        urdf::Geometry::Mesh {
            filename: "package://pkg/meshes/part.dae".to_string(),
            scale: Some([scalar(1.0), scalar(2.0), scalar(3.0)]),
        }
    );
    assert_eq!(
        robot.links[0].visual[1].geometry,
        urdf::Geometry::Mesh { filename: "meshes/part.dae".to_string(), scale: None }
    );
}

#[test]
fn diagnostics_name_the_joint_and_the_number_written() {
    let mut w = chain();
    let loose = JointLimits {
        position: RangeLimits::Unbounded,
        effort: RangeLimits::Unbounded,
        velocity: RangeLimits::Asymmetric { lower: Some(scalar(3.0)), upper: Some(scalar(2.0)) },
    };
    w.joints.insert(
        30,
        joint(
            10,
            "hinge",
            JointProperties::Prismatic(SingleDofJoint {
                limits: loose,
                axis: JointAxis([scalar(1.0), scalar(0.0), scalar(0.0)]),
            }),
        ),
    );
    w.joints.insert(12, joint(10, "weld", JointProperties::Fixed));
    w.joints.insert(40, joint(10, "spin", revolute()));
    assert_eq!(
        w.limit_diagnostics(),
        vec![
            (30, LimitDiagnostic::NoEffortLimit(scalar(1000.0))),
            (30, LimitDiagnostic::AsymmetricVelocityLimit(scalar(2.0))),
        ]
    );
    assert!(chain().limit_diagnostics().is_empty());
}

#[test]
fn symmetric_position_limit_of_a_joint_is_written_with_both_signs() {
    let mut w = chain();
    w.joints.insert(
        30,
        joint(
            10,
            "hinge",
            JointProperties::Revolute(SingleDofJoint {
                limits: JointLimits {
                    position: RangeLimits::Symmetric(scalar(0.75)),
                    effort: RangeLimits::Symmetric(scalar(5.0)),
                    velocity: RangeLimits::Symmetric(scalar(6.0)),
                },
                axis: JointAxis([scalar(0.0), scalar(1.0), scalar(0.0)]),
            }),
        ),
    );
    let robot = w.to_urdf().unwrap();
    assert_eq!(robot.joints[0].limit.lower, scalar(-0.75));
    assert_eq!(robot.joints[0].limit.upper, scalar(0.75));
    assert!(w.limit_diagnostics().is_empty());
}

#[test]
fn export_comes_with_its_diagnostics() {
    let mut w = chain();
    let loose = JointLimits {
        position: RangeLimits::Symmetric(scalar(1.0)),
        effort: RangeLimits::Asymmetric { lower: Some(scalar(4.0)), upper: Some(scalar(9.0)) },
        velocity: RangeLimits::Unbounded,
    };
    w.joints.insert(
        30,
        joint(
            10,
            "hinge",
            JointProperties::Continuous(SingleDofJoint {
                limits: loose,
                axis: JointAxis([scalar(1.0), scalar(0.0), scalar(0.0)]),
            }),
        ),
    );
    let (robot, notes) = w.to_urdf_with_diagnostics().unwrap();
    assert_eq!(robot, w.to_urdf().unwrap());
    assert_eq!(robot.joints[0].limit.effort, scalar(4.0));
    assert_eq!(robot.joints[0].limit.velocity, scalar(10.0));
    assert_eq!(
        notes,
        vec![
            (30, LimitDiagnostic::AsymmetricEffortLimit(scalar(4.0))),
            (30, LimitDiagnostic::NoVelocityLimit(scalar(10.0))),
        ]
    );
    let (_, quiet) = chain().to_urdf_with_diagnostics().unwrap();
    assert!(quiet.is_empty());
}

#[test]
fn failed_export_reports_nothing() {
    let mut w = chain();
    w.joints.insert(30, joint(77, "hinge", revolute()));
    assert_eq!(w.to_urdf_with_diagnostics(), Err(WorkcellToUrdfError::BrokenReference(77)));
}
