use std::collections::BTreeMap;

use rmf_workcell_format::export::{
    count_children, group_elements, group_inertials, index_first_children,
};
use rmf_workcell_format::geometry::{Geometry, PrimitiveShape, WorkcellModel};
use rmf_workcell_format::ids::ascending_keys;
use rmf_workcell_format::inertial::{Inertia, Mass, Moment};
use rmf_workcell_format::pose::{Anchor, Pose};
use rmf_workcell_format::scalar::Scalar;
use rmf_workcell_format::urdf;
use rmf_workcell_format::workcell::{Frame, FrameMarker, NameInWorkcell, Parented};

fn scalar(value: f32) -> Scalar {
    Scalar::from_bits(value.to_bits())
}

fn frames(parents: &[(u32, u32)]) -> BTreeMap<u32, Parented<u32, Frame>> {
    parents
        .iter()
        .map(|(id, parent)| {
            let bundle = Frame {
                anchor: Anchor::Pose3D(Pose::default()),
                name: NameInWorkcell(format!("frame_{id}")),
                marker: FrameMarker,
            };
            (*id, Parented { parent: *parent, bundle })
        })
        .collect()
}

fn model(parent: u32, name: &str) -> Parented<u32, WorkcellModel> {
    Parented {
        parent,
        bundle: WorkcellModel {
            name: name.to_string(),
            geometry: Geometry::Primitive(PrimitiveShape::Sphere { radius: scalar(1.0) }),
            pose: Pose::default(),
        },
    }
}

#[test]
fn keys_come_in_ascending_order() {
    let map: BTreeMap<u32, u8> =
        [(7, 0), (0, 0), (u32::MAX, 0), (3, 0), (0x8000_0000, 0)].into_iter().collect();
    assert_eq!(ascending_keys(&map), vec![0, 3, 7, 0x8000_0000, u32::MAX]);
    assert!(ascending_keys(&BTreeMap::<u32, u8>::new()).is_empty());
}

#[test]
fn children_are_counted_and_found() {
    let frames = frames(&[(9, 1), (4, 2), (6, 1), (2, 0), (8, 1)]);
    let ids = ascending_keys(&frames);
    assert_eq!(count_children(&frames, &ids, 1), 3);
    assert_eq!(count_children(&frames, &ids, 2), 1);
    assert_eq!(count_children(&frames, &ids, 5), 0);
    let first = index_first_children(&frames, &ids);
    assert_eq!(first.get(&1), Some(&6));
    assert_eq!(first.get(&0), Some(&2));
    assert_eq!(first.get(&2), Some(&4));
    assert_eq!(first.get(&5), None);
    assert_eq!(first.len(), 3);
}

#[test]
fn shapes_are_grouped_in_the_order_of_their_ids() {
    let mut models = BTreeMap::new();
    models.insert(30, model(1, "c"));
    models.insert(10, model(1, "a"));
    models.insert(20, model(2, "b"));
    let visuals: BTreeMap<u32, Vec<urdf::Visual>> = group_elements(&models);
    let names = |group: &Vec<urdf::Visual>| {
        group.iter().map(|v| v.name.clone().unwrap()).collect::<Vec<String>>()
    };
    assert_eq!(visuals.keys().copied().collect::<Vec<u32>>(), vec![1, 2]);
    assert_eq!(names(&visuals[&1]), ["a", "c"]);
    assert_eq!(names(&visuals[&2]), ["b"]);
    let collisions: BTreeMap<u32, Vec<urdf::Collision>> = group_elements(&models);
    assert_eq!(collisions[&1].len(), 2);
    assert_eq!(collisions[&2][0].geometry, urdf::Geometry::Sphere { radius: scalar(1.0) });
}

#[test]
fn the_last_inertia_of_a_frame_is_kept() {
    let inertia = |parent: u32, mass: f32| Parented {
        parent,
        bundle: Inertia {
            center: Pose::default(),
            mass: Mass(scalar(mass)),
            moment: Moment {
                ixx: scalar(1.0),
                ixy: scalar(0.0),
                ixz: scalar(0.0),
                iyy: scalar(1.0),
                iyz: scalar(0.0),
                izz: scalar(1.0),
            },
        },
    };
    let mut inertias = BTreeMap::new();
    inertias.insert(5, inertia(1, 5.0));
    inertias.insert(3, inertia(1, 3.0));
    inertias.insert(4, inertia(2, 4.0));
    let groups = group_inertials(&inertias);
    assert_eq!(groups[&1].mass.value, scalar(5.0));
    assert_eq!(groups[&2].mass.value, scalar(4.0));
    assert_eq!(groups.len(), 2);
}
