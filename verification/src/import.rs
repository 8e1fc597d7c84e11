//! Reading a kinematic description as a workcell.
//!
//! Ids are handed out in the order of the description: for each link its
//! frame, its inertia, its visual entries and its collision entries; then
//! the joints. A joint becomes the parent of its child link's frame, and the
//! joint's origin becomes that frame's pose.

use crate::geometry::{model_of_element, WorkcellModel, WorkcellModelView};
use crate::inertial::Inertia;
use crate::joint::{Joint, JointProperties, JointView};
use crate::pose::{Anchor, AnchorView, Pose};
use crate::urdf::{Link, LinkView, Robot, RobotView};
use crate::workcell::{
    frames_view, joints_view, lemma_frames_view_insert, lemma_joints_view_insert,
    lemma_models_view_insert, models_view, Frame, FrameMarker, FrameView, NameInWorkcell,
    NameOfWorkcell, Parented, UrdfImportError, UrdfImportErrorView, Workcell, WorkcellProperties,
    WorkcellView, ROOT_ID,
};
use std::collections::BTreeMap;
use vstd::prelude::*;

verus! {

/// Number of ids that one link takes: its frame, its inertia, and one for
/// each visual and each collision entry.
pub open spec fn link_span(link: LinkView) -> nat {
    2 + link.visual.len() + link.collision.len()
}

/// Number of ids that the first `count` links take.
pub open spec fn ids_before(links: Seq<LinkView>, count: int) -> nat
    decreases count,
{
    if count <= 0 {
        0
    } else {
        ids_before(links, count - 1) + link_span(links[count - 1])
    }
}

/// Number of ids that the import of a description hands out.
pub open spec fn id_count(robot: RobotView) -> nat {
    ids_before(robot.links, robot.links.len() as int) + robot.joints.len()
}

/// Id of the frame of link `i`.
pub open spec fn frame_id(links: Seq<LinkView>, i: int) -> int {
    1 + ids_before(links, i) as int
}

/// Id of the inertia of link `i`.
pub open spec fn inertia_id(links: Seq<LinkView>, i: int) -> int {
    frame_id(links, i) + 1
}

/// Id of visual entry `k` of link `i`.
pub open spec fn visual_id(links: Seq<LinkView>, i: int, k: int) -> int {
    frame_id(links, i) + 2 + k
}

/// Id of collision entry `k` of link `i`.
pub open spec fn collision_id(links: Seq<LinkView>, i: int, k: int) -> int {
    frame_id(links, i) + 2 + links[i].visual.len() + k
}

/// Id of joint `j`.
pub open spec fn joint_id(robot: RobotView, j: int) -> int {
    frame_id(robot.links, robot.links.len() as int) + j
}

/// Index of the link to which `id` went: the last of the first `count` links
/// whose frame id is not above `id`; -1 where there is none.
pub open spec fn owner(links: Seq<LinkView>, count: int, id: int) -> int
    decreases count,
{
    if count <= 0 {
        -1
    } else if frame_id(links, count - 1) <= id {
        count - 1
    } else {
        owner(links, count - 1, id)
    }
}

/// Index of the last of the first `count` links that is called `name`.
pub open spec fn last_named(links: Seq<LinkView>, count: int, name: Seq<char>) -> Option<int>
    decreases count,
{
    if count <= 0 {
        None
    } else if links[count - 1].name == name {
        Some(count - 1)
    } else {
        last_named(links, count - 1, name)
    }
}

/// Index of the link that a joint means by `name`: where several links share
/// the name, the last of them.
pub open spec fn link_named(links: Seq<LinkView>, name: Seq<char>) -> Option<int> {
    last_named(links, links.len() as int, name)
}

/// Why joint `j` cannot be read, if it cannot: its parent link is missing,
/// else its child link is missing, else its type is not supported.
pub open spec fn joint_error(robot: RobotView, j: int) -> Option<UrdfImportErrorView> {
    let joint = robot.joints[j];
    if link_named(robot.links, joint.parent) is None {
        Some(UrdfImportErrorView::BrokenJointReference(joint.parent))
    } else if link_named(robot.links, joint.child) is None {
        Some(UrdfImportErrorView::BrokenJointReference(joint.child))
    } else if JointProperties::of_urdf(joint.joint_type, joint.axis, joint.limit) is None {
        Some(UrdfImportErrorView::UnsupportedJointType)
    } else {
        None
    }
}

/// The error of the first of the first `count` joints that cannot be read.
pub open spec fn first_error(robot: RobotView, count: int) -> Option<UrdfImportErrorView>
    decreases count,
{
    if count <= 0 {
        None
    } else {
        match first_error(robot, count - 1) {
            Some(e) => Some(e),
            None => joint_error(robot, count - 1),
        }
    }
}

/// The error with which the import of a description ends, if it fails.
pub open spec fn import_error(robot: RobotView) -> Option<UrdfImportErrorView> {
    first_error(robot, robot.joints.len() as int)
}

/// The last of the first `count` joints whose child is link `i`.
pub open spec fn joint_above(robot: RobotView, i: int, count: int) -> Option<int>
    decreases count,
{
    if count <= 0 {
        None
    } else if link_named(robot.links, robot.joints[count - 1].child) == Some(i) {
        Some(count - 1)
    } else {
        joint_above(robot, i, count - 1)
    }
}

/// The frame of link `i` once the first `count` joints are read: it hangs on
/// the last joint that names the link as its child and sits at that joint's
/// origin; without such a joint it hangs on the root and does not move.
pub open spec fn imported_frame(robot: RobotView, i: int, count: int) -> Parented<u32, FrameView> {
    match joint_above(robot, i, count) {
        Some(j) => Parented {
            parent: joint_id(robot, j) as u32,
            bundle: FrameView {
                anchor: AnchorView::Pose3D(robot.joints[j].origin),
                name: robot.links[i].name,
            },
        },
        None => Parented {
            parent: ROOT_ID,
            bundle: FrameView {
                anchor: AnchorView::Pose3D(Pose::identity()),
                name: robot.links[i].name,
            },
        },
    }
}

/// The frames once the first `count` joints are read: one for each link.
pub open spec fn imported_frames(robot: RobotView, count: int) -> Map<
    u32,
    Parented<u32, FrameView>,
> {
    let links = robot.links;
    let n = links.len() as int;
    Map::new(
        |id: u32|
            owner(links, n, id as int) >= 0 && id == frame_id(links, owner(links, n, id as int)),
        |id: u32| imported_frame(robot, owner(links, n, id as int), count),
    )
}

/// The inertias: one for each link, on the link's frame.
pub open spec fn imported_inertias(robot: RobotView) -> Map<u32, Parented<u32, Inertia>> {
    let links = robot.links;
    let n = links.len() as int;
    Map::new(
        |id: u32|
            owner(links, n, id as int) >= 0 && id == inertia_id(links, owner(links, n, id as int)),
        |id: u32|
            {
                let i = owner(links, n, id as int);
                Parented {
                    parent: frame_id(links, i) as u32,
                    bundle: Inertia::of_urdf(links[i].inertial),
                }
            },
    )
}

/// The visual shapes: one for each visual entry, on its link's frame.
pub open spec fn imported_visuals(robot: RobotView) -> Map<u32, Parented<u32, WorkcellModelView>> {
    let links = robot.links;
    let n = links.len() as int;
    Map::new(
        |id: u32|
            {
                let i = owner(links, n, id as int);
                i >= 0 && visual_id(links, i, 0) <= id < visual_id(
                    links,
                    i,
                    links[i].visual.len() as int,
                )
            },
        |id: u32|
            {
                let i = owner(links, n, id as int);
                Parented {
                    parent: frame_id(links, i) as u32,
                    bundle: model_of_element(links[i].visual[id - visual_id(links, i, 0)]),
                }
            },
    )
}

/// The collision shapes: one for each collision entry, on its link's frame.
pub open spec fn imported_collisions(robot: RobotView) -> Map<
    u32,
    Parented<u32, WorkcellModelView>,
> {
    let links = robot.links;
    let n = links.len() as int;
    Map::new(
        |id: u32|
            {
                let i = owner(links, n, id as int);
                i >= 0 && collision_id(links, i, 0) <= id < collision_id(
                    links,
                    i,
                    links[i].collision.len() as int,
                )
            },
        |id: u32|
            {
                let i = owner(links, n, id as int);
                Parented {
                    parent: frame_id(links, i) as u32,
                    bundle: model_of_element(links[i].collision[id - collision_id(links, i, 0)]),
                }
            },
    )
}

/// Joint `j` as the workcell holds it: on the frame of its parent link.
pub open spec fn imported_joint(robot: RobotView, j: int) -> Parented<u32, JointView> {
    let joint = robot.joints[j];
    Parented {
        parent: frame_id(robot.links, link_named(robot.links, joint.parent).unwrap()) as u32,
        bundle: JointView {
            name: joint.name,
            properties: JointProperties::of_urdf(
                joint.joint_type,
                joint.axis,
                joint.limit,
            ).unwrap(),
        },
    }
}

/// The joints: one for each joint of the description.
pub open spec fn imported_joints(robot: RobotView) -> Map<u32, Parented<u32, JointView>> {
    Map::new(
        |id: u32| joint_id(robot, 0) <= id < joint_id(robot, robot.joints.len() as int),
        |id: u32| imported_joint(robot, id - joint_id(robot, 0)),
    )
}

/// The workcell that a description is read as, where every joint can be read.
pub open spec fn import_view(robot: RobotView) -> WorkcellView {
    WorkcellView {
        name: robot.name,
        id: ROOT_ID,
        frames: imported_frames(robot, robot.joints.len() as int),
        visuals: imported_visuals(robot),
        collisions: imported_collisions(robot),
        inertias: imported_inertias(robot),
        joints: imported_joints(robot),
    }
}

/// The entries of `m` whose id lies below `limit`.
pub open spec fn below<V>(m: Map<u32, V>, limit: int) -> Map<u32, V> {
    m.restrict(Set::new(|id: u32| id < limit))
}

/// More links take no fewer ids.
pub proof fn lemma_ids_before_monotonic(links: Seq<LinkView>, i: int, j: int)
    requires
        i <= j,
    ensures
        ids_before(links, i) <= ids_before(links, j),
    decreases j - i,
{
    if i < j {
        lemma_ids_before_monotonic(links, i, j - 1);
    }
}

/// An id from the span of link `k` went to link `k`.
pub proof fn lemma_owner(links: Seq<LinkView>, count: int, k: int, id: int)
    requires
        0 <= k < count,
        frame_id(links, k) <= id < frame_id(links, k + 1),
    ensures
        owner(links, count, id) == k,
    decreases count,
{
    if frame_id(links, count - 1) <= id {
        if k < count - 1 {
            lemma_ids_before_monotonic(links, k + 1, count - 1);
        }
    } else {
        lemma_owner(links, count - 1, k, id);
    }
}

/// The link to which an id went is one of the links, and the id lies in its
/// span; ids below the first frame's went to none.
pub proof fn lemma_owner_span(links: Seq<LinkView>, count: int, id: int)
    requires
        0 <= count,
    ensures
        -1 <= owner(links, count, id) < count,
        owner(links, count, id) >= 0 ==> frame_id(links, owner(links, count, id)) <= id,
        owner(links, count, id) >= 0 && id < frame_id(links, count) ==> id < frame_id(
            links,
            owner(links, count, id) + 1,
        ),
        owner(links, count, id) == -1 ==> (count == 0 || id < frame_id(links, 0)),
    decreases count,
{
    if count > 0 {
        if frame_id(links, count - 1) <= id {
        } else {
            lemma_owner_span(links, count - 1, id);
            lemma_ids_before_monotonic(links, 0, count - 1);
        }
    }
}

/// What a name resolves to is the index of a link of that name.
pub proof fn lemma_last_named(links: Seq<LinkView>, count: int, name: Seq<char>)
    requires
        count <= links.len(),
    ensures
        last_named(links, count, name) matches Some(i) ==> 0 <= i < count && links[i].name == name,
        last_named(links, count, name) is None ==> forall|i: int|
            0 <= i < count ==> links[i].name != name,
    decreases count,
{
    if count > 0 {
        lemma_last_named(links, count - 1, name);
    }
}

/// Index of the link that a joint means by `name`.
pub fn find_link(links: &Vec<Link>, name: &String) -> (r: Option<usize>)
    ensures
        match r {
            Some(i) => i < links.len() && link_named(crate::urdf::links_view(links@), name@)
                == Some(i as int),
            None => link_named(crate::urdf::links_view(links@), name@) is None,
        },
{
    let ghost view = crate::urdf::links_view(links@);
    let mut i = links.len();
    while i > 0
        invariant
            i <= links.len(),
            view == crate::urdf::links_view(links@),
            link_named(view, name@) == last_named(view, i as int, name@),
        decreases i,
    {
        i -= 1;
        if links[i].name == *name {
            return Some(i);
        }
    }
    None
}

/// Whether the ids that the import of `urdf` hands out fit the id space.
pub fn fits_id_space(urdf: &Robot) -> (r: bool)
    ensures
        r == (id_count(urdf@) < u32::MAX),
{
    let limit: u64 = 0xFFFF_FFFF;
    let mut total: u64 = 0;
    let mut k: usize = 0;
    while k < urdf.links.len()
        invariant
            k <= urdf.links.len(),
            limit == 0xFFFF_FFFF,
            total == ids_before(urdf@.links, k as int),
            total < limit,
        decreases urdf.links.len() - k,
    {
        let link = &urdf.links[k];
        assert(urdf@.links[k as int] == link@);
        proof {
            lemma_ids_before_monotonic(urdf@.links, k + 1, urdf@.links.len() as int);
        }
        let visuals = link.visual.len();
        let collisions = link.collision.len();
        if visuals >= 0xFFFF_FFFF || collisions >= 0xFFFF_FFFF {
            return false;
        }
        total = total + 2 + visuals as u64 + collisions as u64;
        if total >= limit {
            return false;
        }
        k += 1;
    }
    let joints = urdf.joints.len();
    if joints >= 0xFFFF_FFFF {
        return false;
    }
    total + (joints as u64) < limit
}

/// What the import holds at a moment in between: the entries whose ids lie
/// below `limit`, with the frames as the first `joints` joints leave them.
pub open spec fn import_stage(robot: RobotView, limit: int, joints: int) -> WorkcellView {
    WorkcellView {
        name: robot.name,
        id: ROOT_ID,
        frames: below(imported_frames(robot, joints), limit),
        visuals: below(imported_visuals(robot), limit),
        collisions: below(imported_collisions(robot), limit),
        inertias: below(imported_inertias(robot), limit),
        joints: below(imported_joints(robot), limit),
    }
}

/// The workcell that the five maps make up under the description's name.
pub open spec fn assembled(
    robot: RobotView,
    frames: Map<u32, Parented<u32, Frame>>,
    visuals: Map<u32, Parented<u32, WorkcellModel>>,
    collisions: Map<u32, Parented<u32, WorkcellModel>>,
    inertias: Map<u32, Parented<u32, Inertia>>,
    joints: Map<u32, Parented<u32, Joint>>,
) -> WorkcellView {
    WorkcellView {
        name: robot.name,
        id: ROOT_ID,
        frames: frames_view(frames),
        visuals: models_view(visuals),
        collisions: models_view(collisions),
        inertias,
        joints: joints_view(joints),
    }
}

/// Before the first id is handed out the import holds nothing.
pub proof fn lemma_stage_start(robot: RobotView)
    ensures
        import_stage(robot, 1, 0) == assembled(
            robot,
            Map::empty(),
            Map::empty(),
            Map::empty(),
            Map::empty(),
            Map::empty(),
        ),
{
    let links = robot.links;
    let n = links.len() as int;
    let stage = import_stage(robot, 1, 0);
    assert forall|id: u32| id < 1 implies owner(links, n, id as int) == -1 by {
        lemma_owner_span(links, n, id as int);
    }
    assert(stage.frames =~= frames_view(Map::empty()));
    assert(stage.visuals =~= models_view(Map::empty()));
    assert(stage.collisions =~= models_view(Map::empty()));
    assert(stage.inertias =~= Map::empty());
    assert(stage.joints =~= joints_view(Map::empty()));
}

/// Handing out the frame id of link `k` adds the link's frame and nothing
/// else.
pub proof fn lemma_stage_frame(robot: RobotView, k: int)
    requires
        id_count(robot) < u32::MAX,
        0 <= k < robot.links.len(),
    ensures
        import_stage(robot, frame_id(robot.links, k) + 1, 0) == (WorkcellView {
            frames: import_stage(robot, frame_id(robot.links, k), 0).frames.insert(
                frame_id(robot.links, k) as u32,
                imported_frame(robot, k, 0),
            ),
            ..import_stage(robot, frame_id(robot.links, k), 0)
        }),
{
    let links = robot.links;
    let id = frame_id(links, k);
    let before = import_stage(robot, id, 0);
    let after = import_stage(robot, id + 1, 0);
    lemma_ids_before_monotonic(links, k + 1, links.len() as int);
    lemma_owner(links, links.len() as int, k, id);
    assert(after.frames =~= before.frames.insert(id as u32, imported_frame(robot, k, 0)));
    assert(after.visuals =~= before.visuals);
    assert(after.collisions =~= before.collisions);
    assert(after.inertias =~= before.inertias);
    assert(after.joints =~= before.joints);
}

/// Handing out the inertia id of link `k` adds the link's inertia and nothing
/// else.
pub proof fn lemma_stage_inertia(robot: RobotView, k: int)
    requires
        id_count(robot) < u32::MAX,
        0 <= k < robot.links.len(),
    ensures
        import_stage(robot, inertia_id(robot.links, k) + 1, 0) == (WorkcellView {
            inertias: import_stage(robot, inertia_id(robot.links, k), 0).inertias.insert(
                inertia_id(robot.links, k) as u32,
                Parented {
                    parent: frame_id(robot.links, k) as u32,
                    bundle: Inertia::of_urdf(robot.links[k].inertial),
                },
            ),
            ..import_stage(robot, inertia_id(robot.links, k), 0)
        }),
{
    let links = robot.links;
    let id = inertia_id(links, k);
    let before = import_stage(robot, id, 0);
    let after = import_stage(robot, id + 1, 0);
    lemma_ids_before_monotonic(links, k + 1, links.len() as int);
    lemma_owner(links, links.len() as int, k, id);
    assert(after.inertias =~= before.inertias.insert(
        id as u32,
        Parented {
            parent: frame_id(links, k) as u32,
            bundle: Inertia::of_urdf(links[k].inertial),
        },
    ));
    assert(after.frames =~= before.frames);
    assert(after.visuals =~= before.visuals);
    assert(after.collisions =~= before.collisions);
    assert(after.joints =~= before.joints);
}

/// Handing out the id of visual entry `v` of link `k` adds that shape and
/// nothing else.
pub proof fn lemma_stage_visual(robot: RobotView, k: int, v: int)
    requires
        id_count(robot) < u32::MAX,
        0 <= k < robot.links.len(),
        0 <= v < robot.links[k].visual.len(),
    ensures
        import_stage(robot, visual_id(robot.links, k, v) + 1, 0) == (WorkcellView {
            visuals: import_stage(robot, visual_id(robot.links, k, v), 0).visuals.insert(
                visual_id(robot.links, k, v) as u32,
                Parented {
                    parent: frame_id(robot.links, k) as u32,
                    bundle: model_of_element(robot.links[k].visual[v]),
                },
            ),
            ..import_stage(robot, visual_id(robot.links, k, v), 0)
        }),
{
    let links = robot.links;
    let id = visual_id(links, k, v);
    let before = import_stage(robot, id, 0);
    let after = import_stage(robot, id + 1, 0);
    lemma_ids_before_monotonic(links, k + 1, links.len() as int);
    lemma_owner(links, links.len() as int, k, id);
    assert(after.visuals =~= before.visuals.insert(
        id as u32,
        Parented {
            parent: frame_id(links, k) as u32,
            bundle: model_of_element(links[k].visual[v]),
        },
    ));
    assert(after.frames =~= before.frames);
    assert(after.collisions =~= before.collisions);
    assert(after.inertias =~= before.inertias);
    assert(after.joints =~= before.joints);
}

/// Handing out the id of collision entry `c` of link `k` adds that shape and
/// nothing else.
pub proof fn lemma_stage_collision(robot: RobotView, k: int, c: int)
    requires
        id_count(robot) < u32::MAX,
        0 <= k < robot.links.len(),
        0 <= c < robot.links[k].collision.len(),
    ensures
        import_stage(robot, collision_id(robot.links, k, c) + 1, 0) == (WorkcellView {
            collisions: import_stage(robot, collision_id(robot.links, k, c), 0).collisions.insert(
                collision_id(robot.links, k, c) as u32,
                Parented {
                    parent: frame_id(robot.links, k) as u32,
                    bundle: model_of_element(robot.links[k].collision[c]),
                },
            ),
            ..import_stage(robot, collision_id(robot.links, k, c), 0)
        }),
{
    let links = robot.links;
    let id = collision_id(links, k, c);
    let before = import_stage(robot, id, 0);
    let after = import_stage(robot, id + 1, 0);
    lemma_ids_before_monotonic(links, k + 1, links.len() as int);
    lemma_owner(links, links.len() as int, k, id);
    assert(after.collisions =~= before.collisions.insert(
        id as u32,
        Parented {
            parent: frame_id(links, k) as u32,
            bundle: model_of_element(links[k].collision[c]),
        },
    ));
    assert(after.frames =~= before.frames);
    assert(after.visuals =~= before.visuals);
    assert(after.inertias =~= before.inertias);
    assert(after.joints =~= before.joints);
}

/// Reading joint `j` adds the joint and moves the frame of its child link
/// under it; nothing else changes.
pub proof fn lemma_stage_joint(robot: RobotView, j: int)
    requires
        id_count(robot) < u32::MAX,
        0 <= j < robot.joints.len(),
        joint_error(robot, j) is None,
    ensures
        ({
            let child = link_named(robot.links, robot.joints[j].child).unwrap();
            let before = import_stage(robot, joint_id(robot, j), j);
            &&& 0 <= child < robot.links.len()
            &&& import_stage(robot, joint_id(robot, j) + 1, j + 1) == (WorkcellView {
                frames: before.frames.insert(
                    frame_id(robot.links, child) as u32,
                    imported_frame(robot, child, j + 1),
                ),
                joints: before.joints.insert(
                    joint_id(robot, j) as u32,
                    imported_joint(robot, j),
                ),
                ..before
            })
        }),
{
    let links = robot.links;
    let n = links.len() as int;
    let id = joint_id(robot, j);
    let child = link_named(links, robot.joints[j].child).unwrap();
    let before = import_stage(robot, id, j);
    let after = import_stage(robot, id + 1, j + 1);
    lemma_last_named(links, n, robot.joints[j].child);
    lemma_ids_before_monotonic(links, child + 1, n);
    lemma_owner(links, n, child, frame_id(links, child));
    lemma_link_ids_below_joints(robot);
    assert forall|x: u32| imported_frames(robot, j).contains_key(x) implies x < joint_id(
        robot,
        0,
    ) by {
        assert(below(imported_frames(robot, j), joint_id(robot, 0)).contains_key(x));
    }
    assert(after.frames =~= before.frames.insert(
        frame_id(links, child) as u32,
        imported_frame(robot, child, j + 1),
    )) by {
        assert forall|x: u32| imported_frames(robot, j).contains_key(x) && x != frame_id(
            links,
            child,
        ) implies imported_frames(robot, j + 1)[x] == imported_frames(robot, j)[x] by {
            lemma_owner_span(links, n, x as int);
        }
    }
    assert(after.joints =~= before.joints.insert(id as u32, imported_joint(robot, j)));
    assert(after.visuals =~= before.visuals);
    assert(after.collisions =~= before.collisions);
    assert(after.inertias =~= before.inertias);
}

/// Once all ids are handed out and all joints are read, the import holds
/// the whole workcell.
pub proof fn lemma_stage_end(robot: RobotView)
    ensures
        import_stage(robot, joint_id(robot, robot.joints.len() as int), robot.joints.len() as int)
            == import_view(robot),
{
    let m = robot.joints.len() as int;
    let stage = import_stage(robot, joint_id(robot, m), m);
    let whole = import_view(robot);
    lemma_link_ids_below_joints(robot);
    assert forall|x: u32| imported_frames(robot, m).contains_key(x) implies x < joint_id(
        robot,
        0,
    ) by {
        assert(below(imported_frames(robot, m), joint_id(robot, 0)).contains_key(x));
    }
    assert forall|x: u32| imported_visuals(robot).contains_key(x) implies x < joint_id(
        robot,
        0,
    ) by {
        assert(below(imported_visuals(robot), joint_id(robot, 0)).contains_key(x));
    }
    assert forall|x: u32| imported_collisions(robot).contains_key(x) implies x < joint_id(
        robot,
        0,
    ) by {
        assert(below(imported_collisions(robot), joint_id(robot, 0)).contains_key(x));
    }
    assert forall|x: u32| imported_inertias(robot).contains_key(x) implies x < joint_id(
        robot,
        0,
    ) by {
        assert(below(imported_inertias(robot), joint_id(robot, 0)).contains_key(x));
    }
    assert(stage.frames =~= whole.frames);
    assert(stage.visuals =~= whole.visuals);
    assert(stage.collisions =~= whole.collisions);
    assert(stage.inertias =~= whole.inertias);
    assert(stage.joints =~= whole.joints);
}

impl Workcell {
    /// Reads a kinematic description as a workcell.
    ///
    /// Fails with the error of the first joint that cannot be read: one that
    /// names a link which the description does not hold, or one of a type
    /// that a workcell cannot hold. The ids that are handed out must fit the
    /// id space, which [`fits_id_space`] tells.
    pub fn from_urdf(urdf: &Robot) -> (r: Result<Workcell, UrdfImportError>)
        requires
            id_count(urdf@) < u32::MAX,
        ensures
            match r {
                Ok(w) => import_error(urdf@) is None && w@ == import_view(urdf@),
                Err(e) => import_error(urdf@) == Some(e@),
            },
    {
        let ghost robot = urdf@;
        let ghost links = robot.links;
        let ghost n = links.len() as int;
        let mut frame_ids: Vec<u32> = Vec::new();
        let mut cur: u32 = 1;
        let mut frames: BTreeMap<u32, Parented<u32, Frame>> = BTreeMap::new();
        let mut visuals: BTreeMap<u32, Parented<u32, WorkcellModel>> = BTreeMap::new();
        let mut collisions: BTreeMap<u32, Parented<u32, WorkcellModel>> = BTreeMap::new();
        let mut inertias: BTreeMap<u32, Parented<u32, Inertia>> = BTreeMap::new();
        let mut joints: BTreeMap<u32, Parented<u32, Joint>> = BTreeMap::new();
        proof {
            lemma_stage_start(robot);
        }
        let mut k: usize = 0;
        while k < urdf.links.len()
            invariant
                robot == urdf@,
                links == robot.links,
                n == links.len(),
                id_count(robot) < u32::MAX,
                k <= urdf.links.len(),
                cur == frame_id(links, k as int),
                frame_ids@.len() == k,
                forall|i: int| 0 <= i < k ==> frame_ids@[i] == frame_id(links, i),
                assembled(robot, frames@, visuals@, collisions@, inertias@, joints@)
                    == import_stage(robot, cur as int, 0),
            decreases urdf.links.len() - k,
        {
            let link = &urdf.links[k];
            let ghost kk = k as int;
            proof {
                assert(links[kk] == link@);
                lemma_ids_before_monotonic(links, kk + 1, n);
                assert(frame_id(links, kk + 1) == frame_id(links, kk) + 2 + link.visual@.len()
                    + link.collision@.len());
                lemma_stage_frame(robot, kk);
                lemma_stage_inertia(robot, kk);
                lemma_frames_view_insert(
                    frames@,
                    cur,
                    Parented {
                        parent: ROOT_ID,
                        bundle: Frame {
                            anchor: Anchor::Pose3D(Pose::identity()),
                            name: NameInWorkcell(link.name),
                            marker: FrameMarker,
                        },
                    },
                );
            }
            let fid = cur;
            cur = cur + 1;
            let iid = cur;
            cur = cur + 1;
            frame_ids.push(fid);
            frames.insert(
                fid,
                Parented {
                    parent: ROOT_ID,
                    bundle: Frame {
                        anchor: Anchor::Pose3D(Pose::default()),
                        name: NameInWorkcell(link.name.clone()),
                        marker: FrameMarker,
                    },
                },
            );
            inertias.insert(
                iid,
                Parented { parent: fid, bundle: Inertia::from(&link.inertial) },
            );
            let mut v: usize = 0;
            while v < link.visual.len()
                invariant
                    robot == urdf@,
                    links == robot.links,
                    n == links.len(),
                    id_count(robot) < u32::MAX,
                    0 <= kk < n,
                    links[kk] == link@,
                    fid == frame_id(links, kk),
                    frame_id(links, kk + 1) <= frame_id(links, n),
                    frame_id(links, kk + 1) == frame_id(links, kk) + 2 + link.visual@.len()
                        + link.collision@.len(),
                    v <= link.visual.len(),
                    cur == visual_id(links, kk, v as int),
                    assembled(robot, frames@, visuals@, collisions@, inertias@, joints@)
                        == import_stage(robot, cur as int, 0),
                decreases link.visual.len() - v,
            {
                let model = WorkcellModel::from_visual(&link.visual[v]);
                proof {
                    assert(links[kk].visual[v as int] == link.visual@[v as int]@);
                    lemma_stage_visual(robot, kk, v as int);
                    lemma_models_view_insert(
                        visuals@,
                        cur,
                        Parented { parent: fid, bundle: model },
                    );
                }
                visuals.insert(cur, Parented { parent: fid, bundle: model });
                cur = cur + 1;
                v += 1;
            }
            let mut c: usize = 0;
            while c < link.collision.len()
                invariant
                    robot == urdf@,
                    links == robot.links,
                    n == links.len(),
                    id_count(robot) < u32::MAX,
                    0 <= kk < n,
                    links[kk] == link@,
                    fid == frame_id(links, kk),
                    frame_id(links, kk + 1) <= frame_id(links, n),
                    frame_id(links, kk + 1) == frame_id(links, kk) + 2 + link.visual@.len()
                        + link.collision@.len(),
                    c <= link.collision.len(),
                    cur == collision_id(links, kk, c as int),
                    assembled(robot, frames@, visuals@, collisions@, inertias@, joints@)
                        == import_stage(robot, cur as int, 0),
                decreases link.collision.len() - c,
            {
                let model = WorkcellModel::from_collision(&link.collision[c]);
                proof {
                    assert(links[kk].collision[c as int] == link.collision@[c as int]@);
                    lemma_stage_collision(robot, kk, c as int);
                    lemma_models_view_insert(
                        collisions@,
                        cur,
                        Parented { parent: fid, bundle: model },
                    );
                }
                collisions.insert(cur, Parented { parent: fid, bundle: model });
                cur = cur + 1;
                c += 1;
            }
            k += 1;
        }
        let mut j: usize = 0;
        while j < urdf.joints.len()
            invariant
                robot == urdf@,
                links == robot.links,
                n == links.len(),
                id_count(robot) < u32::MAX,
                j <= urdf.joints.len(),
                cur == joint_id(robot, j as int),
                first_error(robot, j as int) is None,
                frame_ids@.len() == n,
                forall|i: int| 0 <= i < n ==> frame_ids@[i] == frame_id(links, i),
                assembled(robot, frames@, visuals@, collisions@, inertias@, joints@)
                    == import_stage(robot, cur as int, j as int),
            decreases urdf.joints.len() - j,
        {
            let joint = &urdf.joints[j];
            let ghost jj = j as int;
            proof {
                assert(robot.joints[jj] == joint@);
                lemma_first_error_stable(robot, jj + 1, robot.joints.len() as int);
            }
            let parent = match find_link(&urdf.links, &joint.parent.link) {
                Some(p) => p,
                None => {
                    return Err(UrdfImportError::BrokenJointReference(joint.parent.link.clone()));
                },
            };
            let child = match find_link(&urdf.links, &joint.child.link) {
                Some(c) => c,
                None => {
                    return Err(UrdfImportError::BrokenJointReference(joint.child.link.clone()));
                },
            };
            let properties = match JointProperties::from_urdf(
                joint.joint_type,
                &joint.axis,
                &joint.limit,
            ) {
                Some(p) => p,
                None => {
                    return Err(UrdfImportError::UnsupportedJointType);
                },
            };
            let jid = cur;
            cur = cur + 1;
            let moved = Parented {
                parent: jid,
                bundle: Frame {
                    anchor: Anchor::Pose3D(joint.origin),
                    name: NameInWorkcell(urdf.links[child].name.clone()),
                    marker: FrameMarker,
                },
            };
            let added = Parented {
                parent: frame_ids[parent],
                bundle: Joint { name: NameInWorkcell(joint.name.clone()), properties },
            };
            proof {
                assert(links[child as int] == urdf.links@[child as int]@);
                lemma_stage_joint(robot, jj);
                lemma_frames_view_insert(frames@, frame_ids@[child as int], moved);
                lemma_joints_view_insert(joints@, jid, added);
                assert(moved@ == imported_frame(robot, child as int, jj + 1));
                assert(added@ == imported_joint(robot, jj));
            }
            frames.insert(frame_ids[child], moved);
            joints.insert(jid, added);
            j += 1;
        }
        proof {
            lemma_stage_end(robot);
        }
        Ok(
            Workcell {
                properties: WorkcellProperties { name: NameOfWorkcell(urdf.name.clone()) },
                id: ROOT_ID,
                frames,
                visuals,
                collisions,
                inertias,
                joints,
            },
        )
    }
}

/// Once a joint could not be read, the error stays the same however many
/// more joints are looked at.
pub proof fn lemma_first_error_stable(robot: RobotView, a: int, b: int)
    requires
        a <= b,
    ensures
        first_error(robot, a) is Some ==> first_error(robot, b) == first_error(robot, a),
    decreases b - a,
{
    if a < b {
        lemma_first_error_stable(robot, a, b - 1);
    }
}

/// The import fails exactly where a joint cannot be read, and then with the
/// error of the first such joint.
pub proof fn lemma_first_error(robot: RobotView, count: int)
    requires
        0 <= count,
    ensures
        match first_error(robot, count) {
            None => forall|j: int| 0 <= j < count ==> (#[trigger] joint_error(robot, j)) is None,
            Some(e) => exists|j: int|
                0 <= j < count && #[trigger] joint_error(robot, j) == Some(e) && forall|k: int|
                    0 <= k < j ==> (#[trigger] joint_error(robot, k)) is None,
        },
    decreases count,
{
    if count > 0 {
        lemma_first_error(robot, count - 1);
        match first_error(robot, count - 1) {
            Some(e) => {},
            None => {
                if let Some(e) = joint_error(robot, count - 1) {
                    let j = count - 1;
                    assert(joint_error(robot, j) == Some(e) && forall|k: int|
                        0 <= k < j ==> (#[trigger] joint_error(robot, k)) is None);
                }
            },
        }
    }
}

/// The last joint that names a link as its child is a joint that does, and
/// no later joint does.
pub proof fn lemma_joint_above(robot: RobotView, i: int, count: int)
    requires
        0 <= count,
    ensures
        match joint_above(robot, i, count) {
            Some(j) => 0 <= j < count && link_named(robot.links, robot.joints[j].child) == Some(i)
                && forall|k: int|
                j < k < count ==> link_named(robot.links, (#[trigger] robot.joints[k]).child)
                    != Some(i),
            None => forall|k: int|
                0 <= k < count ==> link_named(robot.links, (#[trigger] robot.joints[k]).child)
                    != Some(i),
        },
    decreases count,
{
    if count > 0 {
        lemma_joint_above(robot, i, count - 1);
    }
}

/// Every id that went to a link lies below the id of the first joint.
pub proof fn lemma_link_ids_below_joints(robot: RobotView)
    ensures
        forall|count: int|
            below(#[trigger] imported_frames(robot, count), joint_id(robot, 0)) == imported_frames(
                robot,
                count,
            ),
        below(imported_inertias(robot), joint_id(robot, 0)) == imported_inertias(robot),
        below(imported_visuals(robot), joint_id(robot, 0)) == imported_visuals(robot),
        below(imported_collisions(robot), joint_id(robot, 0)) == imported_collisions(robot),
{
    let links = robot.links;
    let n = links.len() as int;
    let limit = joint_id(robot, 0);
    assert forall|id: u32| owner(links, n, id as int) >= 0 && id < frame_id(
        links,
        owner(links, n, id as int) + 1,
    ) implies id < limit by {
        lemma_owner_span(links, n, id as int);
        lemma_ids_before_monotonic(links, owner(links, n, id as int) + 1, n);
    }
    assert forall|count: int|
        below(#[trigger] imported_frames(robot, count), limit) == imported_frames(
            robot,
            count,
        ) by {
        assert(below(imported_frames(robot, count), limit) =~= imported_frames(robot, count));
    }
    assert(below(imported_inertias(robot), limit) =~= imported_inertias(robot));
    assert(below(imported_visuals(robot), limit) =~= imported_visuals(robot));
    assert(below(imported_collisions(robot), limit) =~= imported_collisions(robot));
}

} // verus!
