use rmf_workcell_format::geometry::{AssetSource, Geometry, PrimitiveShape};
use rmf_workcell_format::import::{find_link, fits_id_space};
use rmf_workcell_format::inertial::{Inertia, Mass, Moment};
use rmf_workcell_format::joint::{
    JointAxis, JointLimits, JointProperties, RangeLimits, SingleDofJoint,
};
use rmf_workcell_format::pose::{Anchor, Angle, Pose, Rotation};
use rmf_workcell_format::scalar::Scalar;
use rmf_workcell_format::urdf::{
    Axis, Collision, Geometry as UrdfGeometry, Inertia as UrdfInertia, Inertial, Joint,
    JointLimit, JointType, Link, LinkName, Mass as UrdfMass, Robot, Visual,
};
use rmf_workcell_format::workcell::{UrdfImportError, Workcell};

fn scalar(value: f32) -> Scalar {
    Scalar::from_bits(value.to_bits())
}

fn pose(x: f32, y: f32, z: f32) -> Pose {
    Pose {
        trans: [scalar(x), scalar(y), scalar(z)],
        rot: Rotation::EulerExtrinsicXYZ([
            Angle::Rad(scalar(0.0)),
            Angle::Rad(scalar(0.5)),
            Angle::Rad(scalar(0.0)),
        ]),
    }
}

fn inertial(mass: f32) -> Inertial {
    Inertial {
        origin: pose(0.0, 0.0, 0.1),
        mass: UrdfMass { value: scalar(mass) },
        inertia: UrdfInertia {
            ixx: scalar(1.0),
            ixy: scalar(2.0),
            ixz: scalar(3.0),
            iyy: scalar(4.0),
            iyz: scalar(5.0),
            izz: scalar(6.0),
        },
    }
}

fn sphere(radius: f32) -> UrdfGeometry {
    UrdfGeometry::Sphere { radius: scalar(radius) }
}

fn visual(name: &str, radius: f32) -> Visual {
    Visual { name: Some(name.to_string()), origin: pose(1.0, 0.0, 0.0), geometry: sphere(radius) }
}

fn collision(name: &str, radius: f32) -> Collision {
    Collision { name: Some(name.to_string()), origin: pose(0.0, 1.0, 0.0), geometry: sphere(radius) }
}

fn link(name: &str, visuals: usize, collisions: usize) -> Link {
    Link {
        name: name.to_string(),
        inertial: inertial(2.5),
        visual: (0..visuals).map(|k| visual(&format!("{name}_v{k}"), 0.5)).collect(),
        collision: (0..collisions).map(|k| collision(&format!("{name}_c{k}"), 0.25)).collect(),
    }
}

fn joint(name: &str, joint_type: JointType, parent: &str, child: &str) -> Joint {
    Joint {
        name: name.to_string(),
        joint_type,
        origin: pose(0.0, -0.22, 0.25),
        parent: LinkName { link: parent.to_string() },
        child: LinkName { link: child.to_string() },
        axis: Axis { xyz: [scalar(0.0), scalar(0.0), scalar(1.0)] },
        limit: JointLimit {
            lower: scalar(-1.0),
            upper: scalar(2.0),
            effort: scalar(30.0),
            velocity: scalar(4.0),
        },
    }
}

fn arm() -> Robot {
    Robot {
        name: "arm".to_string(),
        links: vec![link("base", 2, 1), link("upper", 0, 0), link("lower", 1, 2)],
        joints: vec![
            joint("shoulder", JointType::Revolute, "base", "upper"),
            joint("elbow", JointType::Fixed, "upper", "lower"),
        ],
    }
}

#[test]
fn ids_follow_the_order_of_the_description() {
    let workcell = Workcell::from_urdf(&arm()).unwrap();
    assert_eq!(workcell.id, 0);
    assert_eq!(workcell.properties.name.0, "arm");
    // base: frame 1, inertia 2, visuals 3 and 4, collision 5;
    // upper: frame 6, inertia 7; lower: frame 8, inertia 9, visual 10,
    // collisions 11 and 12; joints 13 and 14.
    assert_eq!(workcell.frames.keys().copied().collect::<Vec<u32>>(), vec![1, 6, 8]);
    assert_eq!(workcell.inertias.keys().copied().collect::<Vec<u32>>(), vec![2, 7, 9]);
    assert_eq!(workcell.visuals.keys().copied().collect::<Vec<u32>>(), vec![3, 4, 10]);
    assert_eq!(workcell.collisions.keys().copied().collect::<Vec<u32>>(), vec![5, 11, 12]);
    assert_eq!(workcell.joints.keys().copied().collect::<Vec<u32>>(), vec![13, 14]);
}

#[test]
fn entries_hang_on_the_frame_of_their_link() {
    let workcell = Workcell::from_urdf(&arm()).unwrap();
    assert_eq!(workcell.inertias[&2].parent, 1);
    assert_eq!(workcell.inertias[&7].parent, 6);
    assert_eq!(workcell.inertias[&9].parent, 8);
    assert_eq!(workcell.visuals[&3].parent, 1);
    assert_eq!(workcell.visuals[&4].parent, 1);
    assert_eq!(workcell.visuals[&10].parent, 8);
    assert_eq!(workcell.collisions[&5].parent, 1);
    assert_eq!(workcell.collisions[&11].parent, 8);
    assert_eq!(workcell.collisions[&12].parent, 8);
    assert_eq!(workcell.visuals[&4].bundle.name, "base_v1");
    assert_eq!(workcell.collisions[&12].bundle.name, "lower_c1");
    assert_eq!(workcell.visuals[&3].bundle.pose, pose(1.0, 0.0, 0.0));
    assert_eq!(
        workcell.visuals[&3].bundle.geometry,
        Geometry::Primitive(PrimitiveShape::Sphere { radius: scalar(0.5) })
    );
    assert_eq!(
        workcell.inertias[&2].bundle,
        Inertia {
            center: pose(0.0, 0.0, 0.1),
            mass: Mass(scalar(2.5)),
            moment: Moment {
                ixx: scalar(1.0),
                ixy: scalar(2.0),
                ixz: scalar(3.0),
                iyy: scalar(4.0),
                iyz: scalar(5.0),
                izz: scalar(6.0),
            },
        }
    );
}

#[test]
fn joint_takes_over_its_child_frame() {
    let workcell = Workcell::from_urdf(&arm()).unwrap();
    // The base link is no joint's child: its frame stays on the root and
    // does not move.
    assert_eq!(workcell.frames[&1].parent, 0);
    assert_eq!(workcell.frames[&1].bundle.anchor, Anchor::Pose3D(Pose::default()));
    assert_eq!(workcell.frames[&1].bundle.name.0, "base");
    // The other frames hang on their joints and sit at the joints' origins.
    assert_eq!(workcell.frames[&6].parent, 13);
    assert_eq!(workcell.frames[&6].bundle.anchor, Anchor::Pose3D(pose(0.0, -0.22, 0.25)));
    assert_eq!(workcell.frames[&6].bundle.name.0, "upper");
    assert_eq!(workcell.frames[&8].parent, 14);
    // The joints hang on the frames of their parent links.
    assert_eq!(workcell.joints[&13].parent, 1);
    assert_eq!(workcell.joints[&14].parent, 6);
    assert_eq!(workcell.joints[&13].bundle.name.0, "shoulder");
    assert_eq!(workcell.joints[&14].bundle.properties, JointProperties::Fixed);
    assert_eq!(
        workcell.joints[&13].bundle.properties,
        JointProperties::Revolute(SingleDofJoint {
            limits: JointLimits {
                position: RangeLimits::Asymmetric {
                    lower: Some(scalar(-1.0)),
                    upper: Some(scalar(2.0)),
                },
                effort: RangeLimits::Symmetric(scalar(30.0)),
                velocity: RangeLimits::Symmetric(scalar(4.0)),
            },
            axis: JointAxis([scalar(0.0), scalar(0.0), scalar(1.0)]),
        })
    );
}

#[test]
fn every_joint_has_a_parent_frame_and_one_child_frame() {
    let workcell = Workcell::from_urdf(&arm()).unwrap();
    for (id, joint) in workcell.joints.iter() {
        assert!(workcell.frames.contains_key(&joint.parent));
        let behind = workcell.frames.values().filter(|f| f.parent == *id).count();
        assert_eq!(behind, 1);
    }
}

#[test]
fn missing_parent_link_is_reported_by_name() {
    let mut robot = arm();
    robot.joints[1].parent.link = "nowhere".to_string();
    assert_eq!(
        Workcell::from_urdf(&robot),
        Err(UrdfImportError::BrokenJointReference("nowhere".to_string()))
    );
}

#[test]
fn missing_child_link_is_reported_by_name() {
    let mut robot = arm();
    robot.joints[0].child.link = "ghost".to_string();
    assert_eq!(
        Workcell::from_urdf(&robot),
        Err(UrdfImportError::BrokenJointReference("ghost".to_string()))
    );
}

#[test]
fn parent_is_looked_up_before_child_and_type() {
    let mut robot = arm();
    robot.joints[0].parent.link = "p".to_string();
    robot.joints[0].child.link = "c".to_string();
    robot.joints[0].joint_type = JointType::Planar;
    assert_eq!(
        Workcell::from_urdf(&robot),
        Err(UrdfImportError::BrokenJointReference("p".to_string()))
    );
    robot.joints[0].parent.link = "base".to_string();
    assert_eq!(
        Workcell::from_urdf(&robot),
        Err(UrdfImportError::BrokenJointReference("c".to_string()))
    );
}

#[test]
fn unsupported_joint_types_are_refused() {
    for joint_type in [JointType::Floating, JointType::Planar, JointType::Spherical] {
        let mut robot = arm();
        robot.joints[1].joint_type = joint_type;
        assert_eq!(Workcell::from_urdf(&robot), Err(UrdfImportError::UnsupportedJointType));
    }
}

#[test]
fn supported_joint_types_are_read() {
    for joint_type in
        [JointType::Fixed, JointType::Revolute, JointType::Prismatic, JointType::Continuous]
    {
        let mut robot = arm();
        robot.joints[0].joint_type = joint_type;
        let workcell = Workcell::from_urdf(&robot).unwrap();
        let label = workcell.joints[&13].bundle.properties.label();
        let expected = match joint_type {
            JointType::Fixed => "Fixed",
            JointType::Revolute => "Revolute",
            JointType::Prismatic => "Prismatic",
            _ => "Continuous",
        };
        assert_eq!(label, expected);
    }
}

#[test]
fn first_unreadable_joint_decides_the_error() {
    let mut robot = arm();
    robot.joints[0].joint_type = JointType::Spherical;
    robot.joints[1].child.link = "ghost".to_string();
    assert_eq!(Workcell::from_urdf(&robot), Err(UrdfImportError::UnsupportedJointType));
}

#[test]
fn failed_import_leaves_the_description_as_it_was() {
    let mut robot = arm();
    robot.joints[1].child.link = "ghost".to_string();
    let before = robot.clone();
    let earlier = Workcell::from_urdf(&arm()).unwrap();
    let kept = earlier.clone();
    assert!(Workcell::from_urdf(&robot).is_err());
    assert_eq!(robot, before);
    assert_eq!(earlier, kept);
}

#[test]
fn error_messages() {
    assert_eq!(
        UrdfImportError::BrokenJointReference("elbow".to_string()).message(),
        "a joint refers to a non existing link [elbow]"
    );
    assert_eq!(UrdfImportError::UnsupportedJointType.message(), "unsupported joint type found");
}

#[test]
fn last_link_of_a_name_is_meant() {
    let robot = Robot {
        name: "twins".to_string(),
        links: vec![link("a", 0, 0), link("b", 0, 0), link("a", 0, 0)],
        joints: vec![joint("j", JointType::Fixed, "b", "a")],
    };
    assert_eq!(find_link(&robot.links, &"a".to_string()), Some(2));
    assert_eq!(find_link(&robot.links, &"b".to_string()), Some(1));
    assert_eq!(find_link(&robot.links, &"c".to_string()), None);
    let workcell = Workcell::from_urdf(&robot).unwrap();
    // Frames 1, 3 and 5; the joint is 7 and takes the second "a".
    assert_eq!(workcell.frames[&1].parent, 0);
    assert_eq!(workcell.frames[&5].parent, 7);
    assert_eq!(workcell.joints[&7].parent, 3);
}

#[test]
fn later_joint_takes_a_shared_child() {
    let robot = Robot {
        name: "tug".to_string(),
        links: vec![link("a", 0, 0), link("b", 0, 0), link("c", 0, 0)],
        joints: vec![
            joint("first", JointType::Fixed, "a", "c"),
            Joint { origin: pose(9.0, 9.0, 9.0), ..joint("second", JointType::Fixed, "b", "c") },
        ],
    };
    let workcell = Workcell::from_urdf(&robot).unwrap();
    assert_eq!(workcell.frames[&5].parent, 8);
    assert_eq!(workcell.frames[&5].bundle.anchor, Anchor::Pose3D(pose(9.0, 9.0, 9.0)));
    assert_eq!(workcell.frames.values().filter(|f| f.parent == 7).count(), 0);
}

#[test]
fn mesh_sources_are_told_apart_on_import() {
    let mut robot = arm();
    robot.links[0].visual[0].geometry = UrdfGeometry::Mesh {
        filename: "package://pkg/meshes/part.dae".to_string(),
        scale: Some([scalar(1.0), scalar(2.0), scalar(3.0)]),
    };
    robot.links[0].visual[1].geometry =
        UrdfGeometry::Mesh { filename: "meshes/part.dae".to_string(), scale: None };
    robot.links[0].visual[1].name = None;
    let workcell = Workcell::from_urdf(&robot).unwrap();
    assert_eq!(
        workcell.visuals[&3].bundle.geometry,
        Geometry::Mesh {
            source: AssetSource::Package("pkg/meshes/part.dae".to_string()),
            scale: Some([scalar(1.0), scalar(2.0), scalar(3.0)]),
        }
    );
    assert_eq!(
        workcell.visuals[&4].bundle.geometry,
        Geometry::Mesh { source: AssetSource::Local("meshes/part.dae".to_string()), scale: None }
    );
    assert_eq!(workcell.visuals[&4].bundle.name, "");
}

#[test]
fn small_descriptions_fit_the_id_space() {
    assert!(fits_id_space(&arm()));
    assert!(fits_id_space(&Robot { name: String::new(), links: vec![], joints: vec![] }));
}

#[test]
fn empty_description_imports_to_blank_workcell() {
    let robot = Robot { name: String::new(), links: vec![], joints: vec![] };
    assert_eq!(Workcell::from_urdf(&robot).unwrap(), Workcell::default());
    let blank = Workcell::default();
    assert_eq!(blank.id, 0);
    assert!(blank.frames.is_empty() && blank.joints.is_empty() && blank.inertias.is_empty());
    assert!(blank.visuals.is_empty() && blank.collisions.is_empty());
}

#[test]
fn no_id_is_used_twice() {
    let workcell = Workcell::from_urdf(&arm()).unwrap();
    let mut ids: Vec<u32> = workcell
        .frames
        .keys()
        .chain(workcell.visuals.keys())
        .chain(workcell.collisions.keys())
        .chain(workcell.inertias.keys())
        .chain(workcell.joints.keys())
        .copied()
        .collect();
    ids.sort();
    assert_eq!(ids, (1..=14).collect::<Vec<u32>>());
    assert!(!ids.contains(&workcell.id));
}

#[test]
fn parents_are_of_the_right_kind() {
    let workcell = Workcell::from_urdf(&arm()).unwrap();
    for frame in workcell.frames.values() {
        assert!(frame.parent == workcell.id || workcell.joints.contains_key(&frame.parent));
    }
    for joint in workcell.joints.values() {
        assert!(workcell.frames.contains_key(&joint.parent));
    }
    for model in workcell.visuals.values().chain(workcell.collisions.values()) {
        assert!(workcell.frames.contains_key(&model.parent));
    }
    for inertia in workcell.inertias.values() {
        assert!(workcell.frames.contains_key(&inertia.parent));
    }
}
