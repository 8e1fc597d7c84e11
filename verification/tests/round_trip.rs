use rmf_workcell_format::pose::{Angle, Pose, Rotation};
use rmf_workcell_format::scalar::Scalar;
use rmf_workcell_format::urdf::{
    Axis, Collision, Geometry, Inertia, Inertial, Joint, JointLimit, JointType, Link, LinkName,
    Mass, Robot, Visual,
};
use rmf_workcell_format::workcell::{Workcell, WorkcellToUrdfError};

fn scalar(value: f32) -> Scalar {
    Scalar::from_bits(value.to_bits())
}

fn pose(x: f32, y: f32, z: f32, yaw: f32) -> Pose {
    Pose {
        trans: [scalar(x), scalar(y), scalar(z)],
        rot: Rotation::EulerExtrinsicXYZ([
            Angle::Rad(scalar(0.0)),
            Angle::Rad(scalar(0.0)),
            Angle::Rad(scalar(yaw)),
        ]),
    }
}

fn link(name: &str, mass: f32, shapes: usize) -> Link {
    Link {
        name: name.to_string(),
        inertial: Inertial {
            origin: pose(0.0, 0.0, mass, 0.0),
            mass: Mass { value: scalar(mass) },
            inertia: Inertia {
                ixx: scalar(mass),
                ixy: scalar(0.1),
                ixz: scalar(0.2),
                iyy: scalar(2.0 * mass),
                iyz: scalar(0.3),
                izz: scalar(3.0 * mass),
            },
        },
        visual: (0..shapes)
            .map(|k| Visual {
                name: Some(format!("{name}_visual_{k}")),
                origin: pose(k as f32, 0.0, 0.0, 0.5),
                geometry: Geometry::Box { size: [scalar(1.0), scalar(2.0), scalar(k as f32)] },
            })
            .collect(),
        collision: (0..shapes)
            .map(|k| Collision {
                name: Some(format!("{name}_collision_{k}")),
                origin: pose(0.0, k as f32, 0.0, 0.25),
                geometry: Geometry::Mesh {
                    filename: format!("package://cell/{name}_{k}.stl"),
                    scale: None,
                },
            })
            .collect(),
    }
}

fn joint(name: &str, joint_type: JointType, parent: &str, child: &str, at: f32) -> Joint {
    Joint {
        name: name.to_string(),
        joint_type,
        origin: pose(at, 2.0 * at, 3.0 * at, 1.0),
        parent: LinkName { link: parent.to_string() },
        child: LinkName { link: child.to_string() },
        axis: Axis { xyz: [scalar(0.0), scalar(1.0), scalar(0.0)] },
        limit: JointLimit {
            lower: scalar(-at),
            upper: scalar(at),
            effort: scalar(100.0),
            velocity: scalar(2.0),
        },
    }
}

fn tree() -> Robot {
    Robot {
        name: "tree".to_string(),
        links: vec![
            link("trunk", 10.0, 2),
            link("branch", 3.0, 1),
            link("twig", 0.5, 0),
            link("leaf", 0.1, 3),
        ],
        joints: vec![
            joint("fork", JointType::Revolute, "trunk", "branch", 1.0),
            joint("stem", JointType::Prismatic, "branch", "leaf", 0.25),
            joint("knot", JointType::Continuous, "branch", "twig", 0.5),
        ],
    }
}

#[test]
fn a_tree_comes_back_unchanged() {
    let robot = tree();
    let back = Workcell::from_urdf(&robot).unwrap().to_urdf().unwrap();
    assert_eq!(back, robot);
}

#[test]
fn counts_are_kept() {
    let robot = tree();
    let back = Workcell::from_urdf(&robot).unwrap().to_urdf().unwrap();
    assert_eq!(back.links.len(), 4);
    assert_eq!(back.joints.len(), 3);
}

#[test]
fn fixed_joints_come_back_without_axis_and_limits() {
    let mut robot = tree();
    robot.joints[1].joint_type = JointType::Fixed;
    let back = Workcell::from_urdf(&robot).unwrap().to_urdf().unwrap();
    assert_eq!(back.joints[1].joint_type, JointType::Fixed);
    assert_eq!(back.joints[1].origin, robot.joints[1].origin);
    assert_eq!(back.joints[1].axis, Axis::default());
    assert_eq!(back.joints[1].limit, JointLimit::default());
    assert_eq!(back.joints[0], robot.joints[0]);
    assert_eq!(back.joints[2], robot.joints[2]);
    assert_eq!(back.links, robot.links);
}

#[test]
fn nameless_entries_come_back_with_the_empty_name() {
    let mut robot = tree();
    robot.links[0].visual[1].name = None;
    let back = Workcell::from_urdf(&robot).unwrap().to_urdf().unwrap();
    assert_eq!(back.links[0].visual[1].name, Some(String::new()));
    assert_eq!(back.links[0].visual[1].geometry, robot.links[0].visual[1].geometry);
    assert_eq!(back.links[0].visual[0], robot.links[0].visual[0]);
}

#[test]
fn two_bases_come_back_behind_a_link_for_the_root() {
    let mut robot = tree();
    robot.joints.remove(0);
    let back = Workcell::from_urdf(&robot).unwrap().to_urdf().unwrap();
    assert_eq!(back.links.len(), 5);
    assert_eq!(back.links[0].name, "tree_workcell_link");
    assert_eq!(back.links[0].inertial, Inertial::default());
    assert!(back.links[0].visual.is_empty() && back.links[0].collision.is_empty());
    assert_eq!(&back.links[1..], &robot.links[..]);
    assert_eq!(back.joints, robot.joints);
}

#[test]
fn no_links_come_back_as_a_link_for_the_root() {
    let robot = Robot { name: "void".to_string(), links: vec![], joints: vec![] };
    let back = Workcell::from_urdf(&robot).unwrap().to_urdf().unwrap();
    assert_eq!(back.links.len(), 1);
    assert_eq!(back.links[0].name, "void_workcell_link");
    assert!(back.joints.is_empty());
}

#[test]
fn a_shared_child_cannot_be_written_out() {
    let mut robot = tree();
    robot.joints[2].child.link = "leaf".to_string();
    let workcell = Workcell::from_urdf(&robot).unwrap();
    // Ids: trunk 1..=6, branch 7..=10, twig 11..=12, leaf 13..=20, joints
    // 21, 22, 23. The second joint lost its child to the third.
    assert_eq!(workcell.to_urdf(), Err(WorkcellToUrdfError::BrokenReference(22)));
}

#[test]
fn a_loop_of_joints_can_be_written_out() {
    // Every link is a joint's child: no frame hangs on the root, and the
    // root stands in as the base link.
    let robot = Robot {
        name: "ring".to_string(),
        links: vec![link("a", 1.0, 0), link("b", 1.0, 0)],
        joints: vec![
            joint("ab", JointType::Fixed, "a", "b", 1.0),
            joint("ba", JointType::Fixed, "b", "a", 1.0),
        ],
    };
    let back = Workcell::from_urdf(&robot).unwrap().to_urdf().unwrap();
    assert_eq!(back.links.len(), 3);
    assert_eq!(back.joints.len(), 2);
    assert_eq!(back.joints[0].parent.link, "a");
    assert_eq!(back.joints[0].child.link, "b");
}
