//! What holds of reading a description and writing it out again.

use crate::export::{
    children, element_at, elements_on, export_view, exported_frames, exported_joint,
    exported_joints, exported_link, exported_links, has_parent, lemma_children_unique,
    lemma_exported_joints_all_ok, lemma_exported_joints_error, link_at, root_frames,
};
use crate::geometry::{lemma_element_round_trip, model_of_element};
use crate::ids::{ascending, lemma_ascending, lemma_ascending_unique, lemma_filter_increasing};
use crate::import::{
    collision_id, frame_id, id_count, import_error, import_view, imported_collisions,
    imported_frame, imported_frames, imported_inertias, imported_joint, imported_joints,
    imported_visuals, inertia_id, joint_above, joint_error, joint_id, lemma_first_error,
    lemma_ids_before_monotonic, lemma_joint_above, lemma_last_named, lemma_owner,
    lemma_owner_span, link_named, link_span, owner, visual_id,
};
use crate::inertial::{lemma_inertia_round_trip, Inertia};
use crate::joint::{is_supported, lemma_joint_properties_round_trip};
use crate::pose::AnchorView;
use crate::urdf;
use crate::workcell::{FrameView, Parented, WorkcellToUrdfErrorView, ROOT_ID};
use vstd::prelude::*;

verus! {

/// No link is the child of two joints.
pub open spec fn single_parented(robot: urdf::RobotView) -> bool {
    forall|a: int, b: int|
        #![trigger robot.joints[a], robot.joints[b]]
        0 <= a < b < robot.joints.len() ==> link_named(robot.links, robot.joints[a].child)
            != link_named(robot.links, robot.joints[b].child)
}

/// Ids of the frames of all links, in the order of the links.
pub open spec fn frame_ids(robot: urdf::RobotView) -> Seq<u32> {
    Seq::new(robot.links.len(), |i: int| frame_id(robot.links, i) as u32)
}

/// Ids of all joints, in their order.
pub open spec fn joint_ids(robot: urdf::RobotView) -> Seq<u32> {
    Seq::new(robot.joints.len(), |j: int| joint_id(robot, j) as u32)
}

/// Ids of the visual entries of link `i`, in their order.
pub open spec fn visual_ids(robot: urdf::RobotView, i: int) -> Seq<u32> {
    Seq::new(robot.links[i].visual.len(), |k: int| visual_id(robot.links, i, k) as u32)
}

/// Ids of the collision entries of link `i`, in their order.
pub open spec fn collision_ids(robot: urdf::RobotView, i: int) -> Seq<u32> {
    Seq::new(robot.links[i].collision.len(), |k: int| collision_id(robot.links, i, k) as u32)
}

/// A later link's ids come after all ids of an earlier link.
pub proof fn lemma_frame_ids_spread(links: Seq<urdf::LinkView>, i: int, j: int)
    requires
        0 <= i < j,
    ensures
        frame_id(links, i) + link_span(links[i]) <= frame_id(links, j),
    decreases j - i,
{
    if i + 1 < j {
        lemma_frame_ids_spread(links, i, j - 1);
    }
}

/// Every id that the import hands out is at least 1 and fits the id space.
pub proof fn lemma_id_bounds(robot: urdf::RobotView, i: int)
    requires
        id_count(robot) < u32::MAX,
        0 <= i <= robot.links.len(),
    ensures
        1 <= frame_id(robot.links, i) <= joint_id(robot, 0),
        joint_id(robot, robot.joints.len() as int) <= u32::MAX,
        i < robot.links.len() ==> frame_id(robot.links, i) + link_span(robot.links[i])
            == frame_id(robot.links, i + 1),
        i < robot.links.len() ==> frame_id(robot.links, i + 1) <= joint_id(robot, 0),
{
    lemma_ids_before_monotonic(robot.links, i, robot.links.len() as int);
    if i < robot.links.len() {
        lemma_ids_before_monotonic(robot.links, i + 1, robot.links.len() as int);
    }
}

/// The frame of link `i` stands under the link's frame id.
pub proof fn lemma_imported_frame_at(robot: urdf::RobotView, i: int, count: int)
    requires
        id_count(robot) < u32::MAX,
        0 <= i < robot.links.len(),
    ensures
        imported_frames(robot, count).contains_key(frame_id(robot.links, i) as u32),
        imported_frames(robot, count)[frame_id(robot.links, i) as u32] == imported_frame(
            robot,
            i,
            count,
        ),
{
    lemma_id_bounds(robot, i);
    lemma_owner(robot.links, robot.links.len() as int, i, frame_id(robot.links, i));
}

/// Every frame of the imported workcell is the frame of a link.
pub proof fn lemma_imported_frame_owner(robot: urdf::RobotView, count: int, id: u32)
    requires
        imported_frames(robot, count).contains_key(id),
    ensures
        0 <= owner(robot.links, robot.links.len() as int, id as int) < robot.links.len(),
        id == frame_id(robot.links, owner(robot.links, robot.links.len() as int, id as int)),
{
    lemma_owner_span(robot.links, robot.links.len() as int, id as int);
}

/// The frames of the imported workcell, in the order of their ids, are the
/// frames of the links in the order of the links.
pub proof fn lemma_frame_keys(robot: urdf::RobotView, count: int)
    requires
        id_count(robot) < u32::MAX,
    ensures
        ascending(imported_frames(robot, count).dom()) == frame_ids(robot),
{
    let ids = frame_ids(robot);
    let frames = imported_frames(robot, count);
    assert forall|a: int, b: int| 0 <= a < b < ids.len() implies ids[a] < ids[b] by {
        lemma_frame_ids_spread(robot.links, a, b);
        lemma_id_bounds(robot, a);
        lemma_id_bounds(robot, b);
    }
    assert forall|x: u32| ids.contains(x) <==> frames.dom().contains(x) by {
        if ids.contains(x) {
            let i = choose|i: int| 0 <= i < ids.len() && ids[i] == x;
            lemma_imported_frame_at(robot, i, count);
        }
        if frames.dom().contains(x) {
            lemma_imported_frame_owner(robot, count, x);
            let i = owner(robot.links, robot.links.len() as int, x as int);
            assert(ids[i] == x);
        }
    }
    lemma_ascending_unique(ids, frames.dom());
}

/// The joints of the imported workcell, in the order of their ids, are the
/// joints of the description in their order.
pub proof fn lemma_joint_keys(robot: urdf::RobotView)
    requires
        id_count(robot) < u32::MAX,
    ensures
        ascending(imported_joints(robot).dom()) == joint_ids(robot),
{
    let ids = joint_ids(robot);
    lemma_id_bounds(robot, 0);
    assert forall|x: u32| ids.contains(x) <==> imported_joints(robot).dom().contains(x) by {
        if ids.contains(x) {
            let j = choose|j: int| 0 <= j < ids.len() && ids[j] == x;
        }
        if imported_joints(robot).dom().contains(x) {
            assert(ids[x - joint_id(robot, 0)] == x);
        }
    }
    lemma_ascending_unique(ids, imported_joints(robot).dom());
}

/// The only inertia on the frame of link `i` is the link's own.
pub proof fn lemma_inertia_children(robot: urdf::RobotView, i: int)
    requires
        id_count(robot) < u32::MAX,
        0 <= i < robot.links.len(),
    ensures
        children(imported_inertias(robot), frame_id(robot.links, i) as u32) == seq![
            inertia_id(robot.links, i) as u32,
        ],
        imported_inertias(robot)[inertia_id(robot.links, i) as u32].bundle == Inertia::of_urdf(
            robot.links[i].inertial,
        ),
{
    let links = robot.links;
    let n = links.len() as int;
    let expected = seq![inertia_id(links, i) as u32];
    let inertias = imported_inertias(robot);
    let frame = frame_id(links, i) as u32;
    lemma_id_bounds(robot, i);
    lemma_owner(links, n, i, inertia_id(links, i));
    assert forall|x: u32|
        expected.contains(x) <==> (inertias.contains_key(x) && inertias[x].parent == frame) by {
        if expected.contains(x) {
            let k = choose|k: int| 0 <= k < expected.len() && expected[k] == x;
        }
        if inertias.contains_key(x) && inertias[x].parent == frame {
            lemma_owner_span(links, n, x as int);
            let o = owner(links, n, x as int);
            lemma_id_bounds(robot, o);
            if o < i {
                lemma_frame_ids_spread(links, o, i);
            }
            if i < o {
                lemma_frame_ids_spread(links, i, o);
            }
            assert(expected[0] == x);
        }
    }
    lemma_children_unique(inertias, frame, expected);
}

/// The visual shapes on the frame of link `i` are the link's visual entries,
/// in their order.
pub proof fn lemma_visual_children(robot: urdf::RobotView, i: int)
    requires
        id_count(robot) < u32::MAX,
        0 <= i < robot.links.len(),
    ensures
        children(imported_visuals(robot), frame_id(robot.links, i) as u32) == visual_ids(robot, i),
        forall|k: int|
            0 <= k < robot.links[i].visual.len() ==> (#[trigger] imported_visuals(
                robot,
            )[visual_ids(robot, i)[k]]).bundle == model_of_element(robot.links[i].visual[k]),
{
    let links = robot.links;
    let n = links.len() as int;
    let expected = visual_ids(robot, i);
    let visuals = imported_visuals(robot);
    let frame = frame_id(links, i) as u32;
    lemma_id_bounds(robot, i);
    assert forall|k: int| 0 <= k < links[i].visual.len() implies visuals.contains_key(
        #[trigger] expected[k],
    ) && visuals[expected[k]].parent == frame && visuals[expected[k]].bundle == model_of_element(
        links[i].visual[k],
    ) by {
        lemma_owner(links, n, i, visual_id(links, i, k));
    }
    assert forall|x: u32|
        expected.contains(x) <==> (visuals.contains_key(x) && visuals[x].parent == frame) by {
        if expected.contains(x) {
            let k = choose|k: int| 0 <= k < expected.len() && expected[k] == x;
            assert(visuals.contains_key(expected[k]));
        }
        if visuals.contains_key(x) && visuals[x].parent == frame {
            lemma_owner_span(links, n, x as int);
            let o = owner(links, n, x as int);
            lemma_id_bounds(robot, o);
            if o < i {
                lemma_frame_ids_spread(links, o, i);
            }
            if i < o {
                lemma_frame_ids_spread(links, i, o);
            }
            assert(expected[x - visual_id(links, i, 0)] == x);
        }
    }
    lemma_children_unique(visuals, frame, expected);
}

/// The collision shapes on the frame of link `i` are the link's collision
/// entries, in their order.
pub proof fn lemma_collision_children(robot: urdf::RobotView, i: int)
    requires
        id_count(robot) < u32::MAX,
        0 <= i < robot.links.len(),
    ensures
        children(imported_collisions(robot), frame_id(robot.links, i) as u32) == collision_ids(
            robot,
            i,
        ),
        forall|k: int|
            0 <= k < robot.links[i].collision.len() ==> (#[trigger] imported_collisions(
                robot,
            )[collision_ids(robot, i)[k]]).bundle == model_of_element(
                robot.links[i].collision[k],
            ),
{
    let links = robot.links;
    let n = links.len() as int;
    let expected = collision_ids(robot, i);
    let collisions = imported_collisions(robot);
    let frame = frame_id(links, i) as u32;
    lemma_id_bounds(robot, i);
    assert forall|k: int| 0 <= k < links[i].collision.len() implies collisions.contains_key(
        #[trigger] expected[k],
    ) && collisions[expected[k]].parent == frame && collisions[expected[k]].bundle
        == model_of_element(links[i].collision[k]) by {
        lemma_owner(links, n, i, collision_id(links, i, k));
    }
    assert forall|x: u32|
        expected.contains(x) <==> (collisions.contains_key(x) && collisions[x].parent
            == frame) by {
        if expected.contains(x) {
            let k = choose|k: int| 0 <= k < expected.len() && expected[k] == x;
            assert(collisions.contains_key(expected[k]));
        }
        if collisions.contains_key(x) && collisions[x].parent == frame {
            lemma_owner_span(links, n, x as int);
            let o = owner(links, n, x as int);
            lemma_id_bounds(robot, o);
            if o < i {
                lemma_frame_ids_spread(links, o, i);
            }
            if i < o {
                lemma_frame_ids_spread(links, i, o);
            }
            assert(expected[x - collision_id(links, i, 0)] == x);
        }
    }
    lemma_children_unique(collisions, frame, expected);
}

/// In an imported workcell every parent is of the kind that it has to be:
/// frames hang on the root or on joints, and joints, shapes and inertias
/// hang on frames.
pub proof fn lemma_import_parents_resolve(robot: urdf::RobotView)
    requires
        id_count(robot) < u32::MAX,
        import_error(robot) is None,
    ensures
        import_view(robot).parents_resolve(),
{
    let w = import_view(robot);
    let links = robot.links;
    let n = links.len() as int;
    let m = robot.joints.len() as int;
    lemma_id_bounds(robot, 0);
    assert forall|id: u32| #[trigger] w.frames.contains_key(id) implies w.frames[id].parent
        == w.id || w.joints.contains_key(w.frames[id].parent) by {
        lemma_imported_frame_owner(robot, m, id);
        lemma_joint_above(robot, owner(links, n, id as int), m);
    }
    assert forall|id: u32| #[trigger] w.joints.contains_key(id) implies w.frames.contains_key(
        w.joints[id].parent,
    ) by {
        lemma_joint_parent_is_frame(robot, id - joint_id(robot, 0));
    }
    assert forall|id: u32| #[trigger] w.visuals.contains_key(id) implies w.frames.contains_key(
        w.visuals[id].parent,
    ) by {
        lemma_owner_span(links, n, id as int);
        lemma_imported_frame_at(robot, owner(links, n, id as int), m);
    }
    assert forall|id: u32| #[trigger]
        w.collisions.contains_key(id) implies w.frames.contains_key(w.collisions[id].parent) by {
        lemma_owner_span(links, n, id as int);
        lemma_imported_frame_at(robot, owner(links, n, id as int), m);
    }
    assert forall|id: u32| #[trigger] w.inertias.contains_key(id) implies w.frames.contains_key(
        w.inertias[id].parent,
    ) by {
        lemma_owner_span(links, n, id as int);
        lemma_imported_frame_at(robot, owner(links, n, id as int), m);
    }
}

/// In an imported workcell an id means one thing only: no id is used for two
/// entries, and none of them is the id of the root.
pub proof fn lemma_import_ids_are_distinct(robot: urdf::RobotView)
    requires
        id_count(robot) < u32::MAX,
    ensures
        import_view(robot).ids_are_distinct(),
{
    let w = import_view(robot);
    let links = robot.links;
    let n = links.len() as int;
    assert forall|id: u32| #[trigger] w.uses_of(id) <= 1 && (id == w.id ==> w.uses_of(id) == 0) by {
        lemma_owner_span(links, n, id as int);
        lemma_id_bounds(robot, 0);
        let o = owner(links, n, id as int);
        if o >= 0 {
            lemma_id_bounds(robot, o);
        }
    }
}

/// The link that joint `j` names as its child.
pub open spec fn child_link(robot: urdf::RobotView, j: int) -> int {
    link_named(robot.links, robot.joints[j].child).unwrap()
}

/// The link that joint `j` names as its parent.
pub open spec fn parent_link(robot: urdf::RobotView, j: int) -> int {
    link_named(robot.links, robot.joints[j].parent).unwrap()
}

/// Reference integrity, first half: in an imported workcell the parent of
/// every joint is a frame, namely the frame of the link that the joint names
/// as its parent.
pub proof fn lemma_joint_parent_is_frame(robot: urdf::RobotView, j: int)
    requires
        id_count(robot) < u32::MAX,
        import_error(robot) is None,
        0 <= j < robot.joints.len(),
    ensures
        import_view(robot).joints.contains_key(joint_id(robot, j) as u32),
        import_view(robot).joints[joint_id(robot, j) as u32] == imported_joint(robot, j),
        0 <= parent_link(robot, j) < robot.links.len(),
        robot.links[parent_link(robot, j)].name == robot.joints[j].parent,
        import_view(robot).joints[joint_id(robot, j) as u32].parent == frame_id(
            robot.links,
            parent_link(robot, j),
        ),
        import_view(robot).frames.contains_key(
            import_view(robot).joints[joint_id(robot, j) as u32].parent,
        ),
{
    let m = robot.joints.len() as int;
    lemma_first_error(robot, m);
    assert(joint_error(robot, j) is None);
    lemma_last_named(robot.links, robot.links.len() as int, robot.joints[j].parent);
    lemma_id_bounds(robot, 0);
    lemma_id_bounds(robot, parent_link(robot, j));
    lemma_imported_frame_at(robot, parent_link(robot, j), m);
}

/// Reference integrity, second half: in a workcell imported from a
/// description in which no link is the child of two joints, exactly one frame
/// has a given joint as its parent. It is the frame of the link that the
/// joint names as its child, and it sits at the joint's origin.
pub proof fn lemma_joint_child_is_frame(robot: urdf::RobotView, j: int)
    requires
        id_count(robot) < u32::MAX,
        import_error(robot) is None,
        single_parented(robot),
        0 <= j < robot.joints.len(),
    ensures
        0 <= child_link(robot, j) < robot.links.len(),
        robot.links[child_link(robot, j)].name == robot.joints[j].child,
        children(import_view(robot).frames, joint_id(robot, j) as u32) == seq![
            frame_id(robot.links, child_link(robot, j)) as u32,
        ],
        import_view(robot).frames[frame_id(robot.links, child_link(robot, j)) as u32]
            == (Parented {
            parent: joint_id(robot, j) as u32,
            bundle: FrameView {
                anchor: AnchorView::Pose3D(robot.joints[j].origin),
                name: robot.joints[j].child,
            },
        }),
{
    let links = robot.links;
    let n = links.len() as int;
    let m = robot.joints.len() as int;
    let frames = import_view(robot).frames;
    let jid = joint_id(robot, j) as u32;
    lemma_first_error(robot, m);
    assert(joint_error(robot, j) is None);
    let c = child_link(robot, j);
    lemma_last_named(links, n, robot.joints[j].child);
    lemma_id_bounds(robot, 0);
    lemma_id_bounds(robot, c);
    lemma_imported_frame_at(robot, c, m);
    lemma_joint_above(robot, c, m);
    assert(joint_above(robot, c, m) == Some(j)) by {
        match joint_above(robot, c, m) {
            Some(other) => {
                if other < j {
                    assert(robot.joints[other].child == robot.joints[other].child
                        && robot.joints[j].child == robot.joints[j].child);
                }
                if j < other {
                    assert(robot.joints[j].child == robot.joints[j].child
                        && robot.joints[other].child == robot.joints[other].child);
                }
            },
            None => {
                assert(link_named(links, robot.joints[j].child) != Some(c));
            },
        }
    }
    let expected = seq![frame_id(links, c) as u32];
    assert forall|x: u32|
        expected.contains(x) <==> (frames.contains_key(x) && frames[x].parent == jid) by {
        if expected.contains(x) {
            let k = choose|k: int| 0 <= k < expected.len() && expected[k] == x;
        }
        if frames.contains_key(x) && frames[x].parent == jid {
            lemma_imported_frame_owner(robot, m, x);
            let o = owner(links, n, x as int);
            lemma_joint_above(robot, o, m);
            match joint_above(robot, o, m) {
                Some(other) => {
                    assert(joint_id(robot, other) == joint_id(robot, j));
                },
                None => {},
            }
            assert(expected[0] == x);
        }
    }
    lemma_children_unique(frames, jid, expected);
}

/// Where two joints name the same link as their child, the earlier joint is
/// left without a frame behind it, and the imported workcell cannot be
/// written out.
pub proof fn lemma_shared_child_breaks_export(robot: urdf::RobotView, a: int, b: int)
    requires
        id_count(robot) < u32::MAX,
        import_error(robot) is None,
        0 <= a < b < robot.joints.len(),
        link_named(robot.links, robot.joints[a].child) == link_named(
            robot.links,
            robot.joints[b].child,
        ),
    ensures
        children(import_view(robot).frames, joint_id(robot, a) as u32).len() == 0,
        export_view(import_view(robot)) is Err,
{
    let links = robot.links;
    let n = links.len() as int;
    let m = robot.joints.len() as int;
    let w = import_view(robot);
    let jid = joint_id(robot, a) as u32;
    lemma_first_error(robot, m);
    assert(joint_error(robot, a) is None);
    lemma_id_bounds(robot, 0);
    let nothing = Seq::<u32>::empty();
    assert forall|x: u32|
        nothing.contains(x) <==> (w.frames.contains_key(x) && w.frames[x].parent == jid) by {
        if w.frames.contains_key(x) && w.frames[x].parent == jid {
            lemma_imported_frame_owner(robot, m, x);
            let o = owner(links, n, x as int);
            lemma_joint_above(robot, o, m);
            match joint_above(robot, o, m) {
                Some(other) => {
                    assert(joint_id(robot, other) == joint_id(robot, a));
                    assert(link_named(links, robot.joints[b].child) != Some(o));
                },
                None => {},
            }
        }
    }
    lemma_children_unique(w.frames, jid, nothing);
    lemma_joint_parent_is_frame(robot, a);
    assert(exported_joint(w, jid) is Err);
    lemma_joint_keys(robot);
    lemma_exported_joints_error(w, joint_ids(robot));
    if let Ok(joints) = exported_joints(w, joint_ids(robot)) {
        assert(exported_joint(w, joint_ids(robot)[a]) is Ok);
    }
}

/// A joint as it comes back after it was read and written out: unchanged,
/// but that a fixed joint has lost its axis and its limits.
pub open spec fn joint_round_trip(joint: urdf::JointView) -> urdf::JointView {
    if joint.joint_type is Fixed {
        urdf::JointView { axis: urdf::Axis::zero(), limit: urdf::JointLimit::zero(), ..joint }
    } else {
        joint
    }
}

/// A visual or collision entry as it comes back: unchanged, but that an entry
/// without a name now has the empty name.
pub open spec fn element_round_trip(element: urdf::ElementView) -> urdf::ElementView {
    urdf::ElementView {
        name: Some(
            match element.name {
                Some(name) => name,
                None => Seq::empty(),
            },
        ),
        ..element
    }
}

/// A link as it comes back: unchanged but for the names of its entries.
pub open spec fn link_round_trip(link: urdf::LinkView) -> urdf::LinkView {
    urdf::LinkView {
        name: link.name,
        inertial: link.inertial,
        visual: Seq::new(link.visual.len(), |k: int| element_round_trip(link.visual[k])),
        collision: Seq::new(link.collision.len(), |k: int| element_round_trip(link.collision[k])),
    }
}

/// The link that stands for the root where the root has to become a link.
pub open spec fn base_link(robot: urdf::RobotView) -> urdf::LinkView {
    urdf::LinkView {
        name: robot.name + "_workcell_link"@,
        inertial: urdf::Inertial::zero(),
        visual: Seq::empty(),
        collision: Seq::empty(),
    }
}

/// Whether the import of the description leaves exactly one frame on the
/// root, so that this frame's link is the base link when the workcell is
/// written out.
pub open spec fn has_single_base(robot: urdf::RobotView) -> bool {
    root_frames(import_view(robot)).len() == 1
}

/// The links after import and export: the links of the description, behind a
/// link for the root unless exactly one frame hangs on the root.
pub open spec fn links_round_trip(robot: urdf::RobotView) -> Seq<urdf::LinkView> {
    let own = Seq::new(robot.links.len(), |i: int| link_round_trip(robot.links[i]));
    if has_single_base(robot) {
        own
    } else {
        seq![base_link(robot)] + own
    }
}

/// The description after import and export.
pub open spec fn round_trip(robot: urdf::RobotView) -> urdf::RobotView {
    urdf::RobotView {
        name: robot.name,
        links: links_round_trip(robot),
        joints: Seq::new(robot.joints.len(), |j: int| joint_round_trip(robot.joints[j])),
    }
}

/// Joint `j` of an imported workcell is written out as it was read.
pub proof fn lemma_joint_round_trip(robot: urdf::RobotView, j: int)
    requires
        id_count(robot) < u32::MAX,
        import_error(robot) is None,
        single_parented(robot),
        0 <= j < robot.joints.len(),
    ensures
        exported_joint(import_view(robot), joint_id(robot, j) as u32) == Ok::<
            urdf::JointView,
            WorkcellToUrdfErrorView,
        >(joint_round_trip(robot.joints[j])),
{
    let joint = robot.joints[j];
    lemma_joint_parent_is_frame(robot, j);
    lemma_joint_child_is_frame(robot, j);
    lemma_imported_frame_at(robot, parent_link(robot, j), robot.joints.len() as int);
    lemma_id_bounds(robot, parent_link(robot, j));
    lemma_first_error(robot, robot.joints.len() as int);
    assert(joint_error(robot, j) is None);
    assert(is_supported(joint.joint_type));
    lemma_joint_properties_round_trip(joint.joint_type, joint.axis, joint.limit);
}

/// Link `i` of an imported workcell is written out as it was read.
pub proof fn lemma_link_round_trip(robot: urdf::RobotView, i: int)
    requires
        id_count(robot) < u32::MAX,
        0 <= i < robot.links.len(),
    ensures
        exported_link(import_view(robot), frame_id(robot.links, i) as u32) == link_round_trip(
            robot.links[i],
        ),
{
    let w = import_view(robot);
    let link = robot.links[i];
    let frame = frame_id(robot.links, i) as u32;
    lemma_id_bounds(robot, i);
    lemma_imported_frame_at(robot, i, robot.joints.len() as int);
    lemma_inertia_children(robot, i);
    lemma_inertia_round_trip(link.inertial, Inertia::of_urdf(link.inertial));
    lemma_visual_children(robot, i);
    lemma_collision_children(robot, i);
    assert(elements_on(w.visuals, frame) =~= link_round_trip(link).visual) by {
        assert forall|k: int| 0 <= k < link.visual.len() implies element_at(w.visuals)(
            visual_ids(robot, i)[k],
        ) == element_round_trip(link.visual[k]) by {
            lemma_element_round_trip(link.visual[k]);
            assert(w.visuals[visual_ids(robot, i)[k]].bundle == model_of_element(link.visual[k]));
        }
    }
    assert(elements_on(w.collisions, frame) =~= link_round_trip(link).collision) by {
        assert forall|k: int| 0 <= k < link.collision.len() implies element_at(w.collisions)(
            collision_ids(robot, i)[k],
        ) == element_round_trip(link.collision[k]) by {
            lemma_element_round_trip(link.collision[k]);
            assert(w.collisions[collision_ids(robot, i)[k]].bundle == model_of_element(
                link.collision[k],
            ));
        }
    }
    assert(exported_frames(w)[frame].bundle.name == link.name);
}

/// The frames on the root of an imported workcell are the frames of the
/// links that no joint names as its child.
pub proof fn lemma_root_frames(robot: urdf::RobotView, i: int)
    requires
        id_count(robot) < u32::MAX,
        0 <= i < robot.links.len(),
    ensures
        root_frames(import_view(robot)).contains(frame_id(robot.links, i) as u32) <==> (forall|
            j: int,
        |
            0 <= j < robot.joints.len() ==> link_named(
                robot.links,
                (#[trigger] robot.joints[j]).child,
            ) != Some(i)),
{
    let w = import_view(robot);
    let m = robot.joints.len() as int;
    let id = frame_id(robot.links, i) as u32;
    lemma_ascending(w.frames.dom());
    lemma_filter_increasing(ascending(w.frames.dom()), has_parent(w.frames, ROOT_ID));
    lemma_imported_frame_at(robot, i, m);
    lemma_joint_above(robot, i, m);
    lemma_id_bounds(robot, 0);
}

/// Reading a description as a workcell and writing the workcell out gives
/// the description back, where every joint can be read and no link is the
/// child of two joints: links and joints come back in their order, each
/// joint with its name, type, origin, parent and child, each link with its
/// name, its inertial block and its shapes. Three things differ. A fixed joint
/// comes back without axis and limits. An entry without a name comes back
/// with the empty name. And unless exactly one frame hangs on the root, a
/// link for the root comes first.
pub proof fn lemma_import_export_round_trip(robot: urdf::RobotView)
    requires
        id_count(robot) < u32::MAX,
        import_error(robot) is None,
        single_parented(robot),
    ensures
        export_view(import_view(robot)) == Ok::<urdf::RobotView, WorkcellToUrdfErrorView>(
            round_trip(robot),
        ),
{
    let w = import_view(robot);
    let n = robot.links.len() as int;
    let m = robot.joints.len() as int;
    let joints = round_trip(robot).joints;
    lemma_joint_keys(robot);
    assert forall|j: int| 0 <= j < m implies exported_joint(w, #[trigger] joint_ids(robot)[j])
        == Ok::<urdf::JointView, WorkcellToUrdfErrorView>(joints[j]) by {
        lemma_joint_round_trip(robot, j);
    }
    lemma_exported_joints_all_ok(w, joint_ids(robot), joints);
    lemma_frame_keys(robot, m);
    assert forall|i: int| 0 <= i < n implies link_at(w)(#[trigger] frame_ids(robot)[i])
        == link_round_trip(robot.links[i]) by {
        lemma_link_round_trip(robot, i);
    }
    if has_single_base(robot) {
        assert(exported_links(w) =~= links_round_trip(robot));
    } else {
        let ids = seq![ROOT_ID] + frame_ids(robot);
        let frames = exported_frames(w);
        assert forall|a: int, b: int| 0 <= a < b < ids.len() implies ids[a] < ids[b] by {
            lemma_id_bounds(robot, b - 1);
            if a > 0 {
                lemma_frame_ids_spread(robot.links, a - 1, b - 1);
                lemma_id_bounds(robot, a - 1);
            }
        }
        assert forall|x: u32| ids.contains(x) <==> frames.dom().contains(x) by {
            if ids.contains(x) {
                let k = choose|k: int| 0 <= k < ids.len() && ids[k] == x;
                if k > 0 {
                    lemma_imported_frame_at(robot, k - 1, m);
                }
            }
            if frames.dom().contains(x) && x != ROOT_ID {
                lemma_imported_frame_owner(robot, m, x);
                let o = owner(robot.links, n, x as int);
                assert(ids[o + 1] == x);
            }
            if x == ROOT_ID {
                assert(ids[0] == x);
            }
        }
        lemma_ascending_unique(ids, frames.dom());
        lemma_root_link(robot);
        assert forall|i: int| 0 <= i < n implies frame_ids(robot)[i] != ROOT_ID by {
            lemma_id_bounds(robot, i);
        }
        assert(exported_links(w) =~= links_round_trip(robot));
    }
}

/// Nothing hangs on the root of an imported workcell but frames, so the link
/// that stands for the root is empty.
pub proof fn lemma_root_link(robot: urdf::RobotView)
    requires
        id_count(robot) < u32::MAX,
        !has_single_base(robot),
    ensures
        exported_link(import_view(robot), ROOT_ID) == base_link(robot),
{
    let w = import_view(robot);
    let links = robot.links;
    let n = links.len() as int;
    let nothing = Seq::<u32>::empty();
    assert forall|x: u32|
        nothing.contains(x) <==> (w.inertias.contains_key(x) && w.inertias[x].parent
            == ROOT_ID) by {
        if w.inertias.contains_key(x) {
            lemma_owner_span(links, n, x as int);
            lemma_id_bounds(robot, owner(links, n, x as int));
        }
    }
    lemma_children_unique(w.inertias, ROOT_ID, nothing);
    assert forall|x: u32|
        nothing.contains(x) <==> (w.visuals.contains_key(x) && w.visuals[x].parent
            == ROOT_ID) by {
        if w.visuals.contains_key(x) {
            lemma_owner_span(links, n, x as int);
            lemma_id_bounds(robot, owner(links, n, x as int));
        }
    }
    lemma_children_unique(w.visuals, ROOT_ID, nothing);
    assert forall|x: u32|
        nothing.contains(x) <==> (w.collisions.contains_key(x) && w.collisions[x].parent
            == ROOT_ID) by {
        if w.collisions.contains_key(x) {
            lemma_owner_span(links, n, x as int);
            lemma_id_bounds(robot, owner(links, n, x as int));
        }
    }
    lemma_children_unique(w.collisions, ROOT_ID, nothing);
    assert(elements_on(w.visuals, ROOT_ID) =~= Seq::empty());
    assert(elements_on(w.collisions, ROOT_ID) =~= Seq::empty());
}

/// Whether import and export have nothing to tidy up in a description: every
/// visual and collision entry has a name, and fixed joints have neither axis
/// nor limits.
pub open spec fn is_tidy(robot: urdf::RobotView) -> bool {
    &&& forall|i: int, k: int|
        0 <= i < robot.links.len() && 0 <= k < robot.links[i].visual.len()
            ==> (#[trigger] robot.links[i].visual[k]).name is Some
    &&& forall|i: int, k: int|
        0 <= i < robot.links.len() && 0 <= k < robot.links[i].collision.len()
            ==> (#[trigger] robot.links[i].collision[k]).name is Some
    &&& forall|j: int|
        0 <= j < robot.joints.len() && (#[trigger] robot.joints[j]).joint_type is Fixed
            ==> robot.joints[j].axis == urdf::Axis::zero() && robot.joints[j].limit
            == urdf::JointLimit::zero()
}

/// A tidy description with a single base comes back from import and export
/// exactly as it was.
pub proof fn lemma_round_trip_identity(robot: urdf::RobotView)
    requires
        id_count(robot) < u32::MAX,
        import_error(robot) is None,
        single_parented(robot),
        has_single_base(robot),
        is_tidy(robot),
    ensures
        export_view(import_view(robot)) == Ok::<urdf::RobotView, WorkcellToUrdfErrorView>(robot),
{
    lemma_import_export_round_trip(robot);
    let back = round_trip(robot);
    assert forall|i: int| 0 <= i < robot.links.len() implies back.links[i] == robot.links[i] by {
        let link = robot.links[i];
        assert forall|k: int| 0 <= k < link.visual.len() implies element_round_trip(
            link.visual[k],
        ) == link.visual[k] by {
            assert(robot.links[i].visual[k].name is Some);
        }
        assert forall|k: int| 0 <= k < link.collision.len() implies element_round_trip(
            link.collision[k],
        ) == link.collision[k] by {
            assert(robot.links[i].collision[k].name is Some);
        }
        assert(link_round_trip(link).visual =~= link.visual);
        assert(link_round_trip(link).collision =~= link.collision);
    }
    assert(back.links =~= robot.links);
    assert(back.joints =~= robot.joints);
}

/// Counts: where every joint can be read, no link is the child of two joints
/// and exactly one frame is left on the root, a description comes back from
/// import and export with as many links and as many joints as it had.
pub proof fn lemma_round_trip_counts(robot: urdf::RobotView)
    requires
        id_count(robot) < u32::MAX,
        import_error(robot) is None,
        single_parented(robot),
        has_single_base(robot),
    ensures
        export_view(import_view(robot)) matches Ok(out) && out.links.len() == robot.links.len()
            && out.joints.len() == robot.joints.len(),
{
    lemma_import_export_round_trip(robot);
}

/// Poses and types: every joint comes back from import and export with the
/// origin, the type, the parent and the child that it had, and unless it is
/// fixed also with its axis and its limits.
pub proof fn lemma_round_trip_joint(robot: urdf::RobotView, j: int)
    requires
        id_count(robot) < u32::MAX,
        import_error(robot) is None,
        single_parented(robot),
        0 <= j < robot.joints.len(),
    ensures
        export_view(import_view(robot)) matches Ok(out) && out.joints[j].name
            == robot.joints[j].name && out.joints[j].origin == robot.joints[j].origin
            && out.joints[j].joint_type == robot.joints[j].joint_type && out.joints[j].parent
            == robot.joints[j].parent && out.joints[j].child == robot.joints[j].child && (
        !(robot.joints[j].joint_type is Fixed) ==> out.joints[j].axis == robot.joints[j].axis
            && out.joints[j].limit == robot.joints[j].limit),
{
    lemma_import_export_round_trip(robot);
}

/// Inertia: every link comes back from import and export with the name, the
/// mass, the centre of mass and the inertia tensor that it had, and with as
/// many visual and collision entries.
pub proof fn lemma_round_trip_link(robot: urdf::RobotView, i: int)
    requires
        id_count(robot) < u32::MAX,
        import_error(robot) is None,
        single_parented(robot),
        0 <= i < robot.links.len(),
    ensures
        export_view(import_view(robot)) matches Ok(out) && ({
            let at = if has_single_base(robot) {
                i
            } else {
                i + 1
            };
            &&& out.links[at].name == robot.links[i].name
            &&& out.links[at].inertial == robot.links[i].inertial
            &&& out.links[at].visual.len() == robot.links[i].visual.len()
            &&& out.links[at].collision.len() == robot.links[i].collision.len()
        }),
{
    lemma_import_export_round_trip(robot);
}

} // verus!
