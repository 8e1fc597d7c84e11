//! Writing a workcell out as a kinematic description.
//!
//! Every frame becomes a link and every joint a joint, both in the order of
//! their ids. A link gets the shapes and the inertia that hang on its frame.
//! A joint connects the link of its parent frame with the link of the first
//! frame that has the joint as its parent, and takes its origin from that
//! frame's pose. Frames that hang on each other without a joint between them
//! are not merged: each still becomes a link of its own.

use crate::geometry::{element_of_model, WorkcellModel, WorkcellModelView};
use crate::ids::{
    ascending, ascending_keys, lemma_ascending, lemma_filter_increasing, lemma_increasing_unique,
    strictly_increasing,
};
use crate::inertial::Inertia;
use crate::joint::{JointView, LimitDiagnostic};
use crate::pose::{Anchor, AnchorView, Pose};
use crate::urdf;
use crate::workcell::{
    frames_view, joints_view, models_view, Frame, FrameMarker, FrameView, NameInWorkcell, Parented,
    Workcell, WorkcellToUrdfError, WorkcellToUrdfErrorView, WorkcellView, NO_PARENT,
};
use vstd::string::StringExecFns;
use std::collections::BTreeMap;
use vstd::prelude::*;

verus! {

/// Tells of an id whether the entry under it has `parent` as its parent.
pub open spec fn has_parent<T>(entries: Map<u32, Parented<u32, T>>, parent: u32) -> spec_fn(
    u32,
) -> bool {
    |id: u32| entries[id].parent == parent
}

/// Among `ids`, those of the entries that have `parent` as their parent.
pub open spec fn children_among<T>(
    entries: Map<u32, Parented<u32, T>>,
    ids: Seq<u32>,
    parent: u32,
) -> Seq<u32> {
    ids.filter(has_parent(entries, parent))
}

/// Ids of the entries that have `parent` as their parent, smallest first.
pub open spec fn children<T>(entries: Map<u32, Parented<u32, T>>, parent: u32) -> Seq<u32> {
    children_among(entries, ascending(entries.dom()), parent)
}

/// A strictly increasing sequence that holds exactly the ids of the entries
/// with parent `parent` is `children(entries, parent)`.
pub proof fn lemma_children_unique<T>(
    entries: Map<u32, Parented<u32, T>>,
    parent: u32,
    expected: Seq<u32>,
)
    requires
        strictly_increasing(expected),
        forall|x: u32|
            #![trigger expected.contains(x)]
            #![trigger entries.contains_key(x)]
            expected.contains(x) <==> (entries.contains_key(x) && entries[x].parent == parent),
    ensures
        children(entries, parent) == expected,
{
    let all = ascending(entries.dom());
    lemma_ascending(entries.dom());
    lemma_filter_increasing(all, has_parent(entries, parent));
    lemma_increasing_unique(children(entries, parent), expected);
}

/// Gives for an id the visual or collision entry that the shape under it is
/// written out as.
pub open spec fn element_at(models: Map<u32, Parented<u32, WorkcellModelView>>) -> spec_fn(
    u32,
) -> urdf::ElementView {
    |id: u32| element_of_model(models[id].bundle)
}

/// The entries written out for those shapes among `ids` that hang on `frame`.
pub open spec fn elements_among(
    models: Map<u32, Parented<u32, WorkcellModelView>>,
    ids: Seq<u32>,
    frame: u32,
) -> Seq<urdf::ElementView> {
    children_among(models, ids, frame).map_values(element_at(models))
}

/// The entries written out for the shapes that hang on `frame`, in the order
/// of the shapes' ids.
pub open spec fn elements_on(
    models: Map<u32, Parented<u32, WorkcellModelView>>,
    frame: u32,
) -> Seq<urdf::ElementView> {
    elements_among(models, ascending(models.dom()), frame)
}

/// The inertial block written out for `frame`, given the inertias under
/// `ids`: that of the last inertia that hangs on the frame, or an empty block.
pub open spec fn inertial_among(
    inertias: Map<u32, Parented<u32, Inertia>>,
    ids: Seq<u32>,
    frame: u32,
) -> urdf::Inertial {
    let on_frame = children_among(inertias, ids, frame);
    if on_frame.len() == 0 {
        urdf::Inertial::zero()
    } else {
        inertias[on_frame.last()].bundle.as_urdf()
    }
}

/// The inertial block written out for `frame`: where several inertias hang
/// on the frame, that of the one with the greatest id.
pub open spec fn inertial_on(
    inertias: Map<u32, Parented<u32, Inertia>>,
    frame: u32,
) -> urdf::Inertial {
    inertial_among(inertias, ascending(inertias.dom()), frame)
}

/// Ids of the frames that hang on the root, smallest first.
pub open spec fn root_frames(w: WorkcellView) -> Seq<u32> {
    children(w.frames, w.id)
}

/// Name of the base link that stands for the root where the root itself has
/// to become a link.
pub open spec fn base_link_name(w: WorkcellView) -> Seq<char> {
    w.name + "_workcell_link"@
}

/// The frame that stands for the root where the root itself has to become a
/// link: it has no parent and does not move.
pub open spec fn placeholder_frame(w: WorkcellView) -> Parented<u32, FrameView> {
    Parented {
        parent: NO_PARENT,
        bundle: FrameView { anchor: AnchorView::Pose3D(Pose::identity()), name: base_link_name(w) },
    }
}

/// The frames that become links. Where exactly one frame hangs on the root,
/// that frame is the base link and the root is left out. Else the root gets a
/// placeholder frame under its own id, which replaces a frame of that id.
pub open spec fn exported_frames(w: WorkcellView) -> Map<u32, Parented<u32, FrameView>> {
    if root_frames(w).len() == 1 {
        w.frames
    } else {
        w.frames.insert(w.id, placeholder_frame(w))
    }
}

/// The link that the frame under `frame` is written out as.
pub open spec fn exported_link(w: WorkcellView, frame: u32) -> urdf::LinkView {
    urdf::LinkView {
        name: exported_frames(w)[frame].bundle.name,
        inertial: inertial_on(w.inertias, frame),
        visual: elements_on(w.visuals, frame),
        collision: elements_on(w.collisions, frame),
    }
}

/// Gives for a frame id the link that the frame is written out as.
pub open spec fn link_at(w: WorkcellView) -> spec_fn(u32) -> urdf::LinkView {
    |frame: u32| exported_link(w, frame)
}

/// The links: one for each frame that becomes a link, in the order of the
/// frames' ids.
pub open spec fn exported_links(w: WorkcellView) -> Seq<urdf::LinkView> {
    ascending(exported_frames(w).dom()).map_values(link_at(w))
}

/// The joint that the joint under `id` is written out as, or why it cannot
/// be: no frame is under the id of its parent; else no frame has the joint
/// as its parent; else the first such frame is not placed by a full pose.
pub open spec fn exported_joint(w: WorkcellView, id: u32) -> Result<
    urdf::JointView,
    WorkcellToUrdfErrorView,
> {
    let joint = w.joints[id];
    let behind = children(w.frames, id);
    if !w.frames.contains_key(joint.parent) {
        Err(WorkcellToUrdfErrorView::BrokenReference(joint.parent))
    } else if behind.len() == 0 {
        Err(WorkcellToUrdfErrorView::BrokenReference(id))
    } else {
        let child = w.frames[behind[0]];
        match child.bundle.anchor {
            AnchorView::Pose3D(pose) => Ok(
                urdf::JointView {
                    name: joint.bundle.name,
                    joint_type: joint.bundle.properties.joint_type(),
                    origin: pose,
                    parent: w.frames[joint.parent].bundle.name,
                    child: child.bundle.name,
                    axis: joint.bundle.properties.axis_as_urdf(),
                    limit: joint.bundle.properties.limit_as_urdf(),
                },
            ),
            other => Err(WorkcellToUrdfErrorView::InvalidAnchorType(other)),
        }
    }
}

/// The joints under `ids` written out in that order, or the error of the
/// first of them that cannot be written out.
pub open spec fn exported_joints(w: WorkcellView, ids: Seq<u32>) -> Result<
    Seq<urdf::JointView>,
    WorkcellToUrdfErrorView,
>
    decreases ids.len(),
{
    if ids.len() == 0 {
        Ok(Seq::empty())
    } else {
        match exported_joints(w, ids.drop_last()) {
            Err(e) => Err(e),
            Ok(joints) => match exported_joint(w, ids.last()) {
                Err(e) => Err(e),
                Ok(joint) => Ok(joints.push(joint)),
            },
        }
    }
}

/// The description that a workcell is written out as, or the error of its
/// first joint, in the order of ids, that cannot be written out.
pub open spec fn export_view(w: WorkcellView) -> Result<urdf::RobotView, WorkcellToUrdfErrorView> {
    match exported_joints(w, ascending(w.joints.dom())) {
        Err(e) => Err(e),
        Ok(joints) => Ok(urdf::RobotView { name: w.name, links: exported_links(w), joints }),
    }
}

/// Once a joint could not be written out, the error stays the same however
/// many more joints are looked at.
pub proof fn lemma_export_error_stable(w: WorkcellView, ids: Seq<u32>, a: int, b: int)
    requires
        0 <= a <= b <= ids.len(),
    ensures
        exported_joints(w, ids.take(a)) is Err ==> exported_joints(w, ids.take(b))
            == exported_joints(w, ids.take(a)),
    decreases b - a,
{
    if a < b {
        lemma_export_error_stable(w, ids, a, b - 1);
        assert(ids.take(b).drop_last() =~= ids.take(b - 1));
    }
}

/// Where each joint under `ids` can be written out, so can all of them, in
/// that order.
pub proof fn lemma_exported_joints_all_ok(
    w: WorkcellView,
    ids: Seq<u32>,
    expected: Seq<urdf::JointView>,
)
    requires
        ids.len() == expected.len(),
        forall|k: int|
            0 <= k < ids.len() ==> exported_joint(w, #[trigger] ids[k]) == Ok::<
                urdf::JointView,
                WorkcellToUrdfErrorView,
            >(expected[k]),
    ensures
        exported_joints(w, ids) == Ok::<Seq<urdf::JointView>, WorkcellToUrdfErrorView>(expected),
    decreases ids.len(),
{
    if ids.len() > 0 {
        let head = ids.drop_last();
        assert forall|k: int| 0 <= k < head.len() implies exported_joint(w, #[trigger] head[k])
            == Ok::<urdf::JointView, WorkcellToUrdfErrorView>(expected.drop_last()[k]) by {
            assert(head[k] == ids[k]);
        }
        lemma_exported_joints_all_ok(w, head, expected.drop_last());
        assert(exported_joint(w, ids[ids.len() - 1]) == Ok::<
            urdf::JointView,
            WorkcellToUrdfErrorView,
        >(expected[ids.len() - 1]));
        assert(expected =~= expected.drop_last().push(expected.last()));
    } else {
        assert(expected =~= Seq::empty());
    }
}

/// Writing joints out fails exactly where one of them cannot be written out,
/// and then with the error of the first such joint.
pub proof fn lemma_exported_joints_error(w: WorkcellView, ids: Seq<u32>)
    ensures
        match exported_joints(w, ids) {
            Ok(joints) => joints.len() == ids.len() && forall|k: int|
                0 <= k < ids.len() ==> exported_joint(w, #[trigger] ids[k]) == Ok::<
                    urdf::JointView,
                    WorkcellToUrdfErrorView,
                >(joints[k]),
            Err(e) => exists|k: int|
                0 <= k < ids.len() && exported_joint(w, #[trigger] ids[k]) == Err::<
                    urdf::JointView,
                    WorkcellToUrdfErrorView,
                >(e) && forall|b: int| 0 <= b < k ==> exported_joint(w, #[trigger] ids[b]) is Ok,
        },
    decreases ids.len(),
{
    if ids.len() > 0 {
        let head = ids.drop_last();
        lemma_exported_joints_error(w, head);
        match exported_joints(w, head) {
            Ok(joints) => {
                assert forall|k: int| 0 <= k < head.len() implies exported_joint(
                    w,
                    #[trigger] ids[k],
                ) == Ok::<urdf::JointView, WorkcellToUrdfErrorView>(joints[k]) by {
                    assert(head[k] == ids[k]);
                }
                match exported_joint(w, ids.last()) {
                    Ok(joint) => {},
                    Err(e) => {
                        let k = ids.len() - 1;
                        assert(exported_joint(w, ids[k]) == Err::<
                            urdf::JointView,
                            WorkcellToUrdfErrorView,
                        >(e));
                        assert forall|b: int| 0 <= b < k implies exported_joint(
                            w,
                            #[trigger] ids[b],
                        ) is Ok by {
                            assert(head[b] == ids[b]);
                        }
                    },
                }
            },
            Err(e) => {
                let k = choose|k: int|
                    0 <= k < head.len() && exported_joint(w, #[trigger] head[k]) == Err::<
                        urdf::JointView,
                        WorkcellToUrdfErrorView,
                    >(e) && forall|b: int|
                        0 <= b < k ==> exported_joint(w, #[trigger] head[b]) is Ok;
                assert(head[k] == ids[k]);
                assert forall|b: int| 0 <= b < k implies exported_joint(
                    w,
                    #[trigger] ids[b],
                ) is Ok by {
                    assert(head[b] == ids[b]);
                }
            },
        }
    }
}

/// What a visual or collision entry of a link is built from.
pub trait Element: Sized + View<V = urdf::ElementView> {
    /// The entry that `model` is written out as.
    fn of_model(model: &WorkcellModel) -> (r: Self)
        ensures
            r@ == element_of_model(model@),
    ;
}

impl Element for urdf::Visual {
    fn of_model(model: &WorkcellModel) -> (r: Self) {
        model.to_visual()
    }
}

impl Element for urdf::Collision {
    fn of_model(model: &WorkcellModel) -> (r: Self) {
        model.to_collision()
    }
}

/// Models of the entries in a group.
pub open spec fn element_views<E: Element>(elements: Seq<E>) -> Seq<urdf::ElementView> {
    elements.map_values(|e: E| e@)
}

/// Models of the entries grouped under `frame`; none where there is no group.
pub open spec fn group_view<E: Element>(groups: Map<u32, Vec<E>>, frame: u32) -> Seq<
    urdf::ElementView,
> {
    if groups.contains_key(frame) {
        element_views(groups[frame]@)
    } else {
        Seq::empty()
    }
}

/// Writes every shape out and groups the entries by the frame that the shape
/// hangs on, each group in the order of the shapes' ids.
pub fn group_elements<E: Element>(models: &BTreeMap<u32, Parented<u32, WorkcellModel>>) -> (groups:
    BTreeMap<u32, Vec<E>>)
    ensures
        forall|frame: u32| #[trigger]
            group_view(groups@, frame) == elements_on(models_view(models@), frame),
{
    broadcast use vstd::std_specs::btree::group_btree_axioms;

    let ghost mv = models_view(models@);
    let ids = ascending_keys(models);
    let mut groups: BTreeMap<u32, Vec<E>> = BTreeMap::new();
    proof {
        assert(mv.dom() =~= models@.dom());
        lemma_ascending(models@.dom());
        assert(ids@.take(0) =~= Seq::empty());
        reveal(Seq::filter);
        assert forall|frame: u32| #[trigger]
            group_view(groups@, frame) == elements_among(mv, ids@.take(0), frame) by {
            assert(elements_among(mv, Seq::empty(), frame) =~= Seq::empty());
        }
    }
    let mut i: usize = 0;
    while i < ids.len()
        invariant
            i <= ids.len(),
            mv == models_view(models@),
            ids@ == ascending(models@.dom()),
            forall|x: u32|
                #![trigger ids@.contains(x)]
                #![trigger models@.dom().contains(x)]
                ids@.contains(x) <==> models@.dom().contains(x),
            forall|frame: u32| #[trigger]
                group_view(groups@, frame) == elements_among(mv, ids@.take(i as int), frame),
        decreases ids.len() - i,
    {
        let id = ids[i];
        assert(ids@.contains(id));
        assert(models@.contains_key(id));
        let entry = models.get(&id).unwrap();
        let parent = entry.parent;
        let element = E::of_model(&entry.bundle);
        let ghost before = groups@;
        let mut group = match groups.remove(&parent) {
            Some(group) => group,
            None => Vec::new(),
        };
        assert(element_views(group@) == group_view(before, parent));
        let ghost old_group = group@;
        group.push(element);
        groups.insert(parent, group);
        proof {
            let done = ids@.take(i as int);
            assert(ids@.take(i + 1) =~= done.push(id));
            assert(mv[id] == entry@);
            assert forall|frame: u32| #[trigger]
                group_view(groups@, frame) == elements_among(mv, ids@.take(i + 1), frame) by {
                done.lemma_filter_push(id, has_parent(mv, frame));
                if frame == parent {
                    assert(element_views(old_group.push(element)) =~= element_views(
                        old_group,
                    ).push(element@));
                    assert(children_among(mv, done, frame).push(id).map_values(element_at(mv))
                        =~= children_among(mv, done, frame).map_values(element_at(mv)).push(
                        element@,
                    ));
                } else {
                    assert(group_view(groups@, frame) == group_view(before, frame));
                }
            }
        }
        i += 1;
    }
    assert(ids@.take(i as int) =~= ids@);
    assert(mv.dom() =~= models@.dom());
    groups
}

/// The inertial block grouped under `frame`; an empty block where there is
/// none.
pub open spec fn grouped_inertial(groups: Map<u32, urdf::Inertial>, frame: u32) -> urdf::Inertial {
    if groups.contains_key(frame) {
        groups[frame]
    } else {
        urdf::Inertial::zero()
    }
}

/// Writes every inertia out and keeps, for each frame, the block of the last
/// inertia that hangs on it.
pub fn group_inertials(inertias: &BTreeMap<u32, Parented<u32, Inertia>>) -> (groups: BTreeMap<
    u32,
    urdf::Inertial,
>)
    ensures
        forall|frame: u32| #[trigger]
            grouped_inertial(groups@, frame) == inertial_on(inertias@, frame),
{
    broadcast use vstd::std_specs::btree::group_btree_axioms;

    let ids = ascending_keys(inertias);
    let mut groups: BTreeMap<u32, urdf::Inertial> = BTreeMap::new();
    proof {
        lemma_ascending(inertias@.dom());
        assert(ids@.take(0) =~= Seq::empty());
        reveal(Seq::filter);
        assert forall|frame: u32| #[trigger]
            grouped_inertial(groups@, frame) == inertial_among(inertias@, ids@.take(0), frame) by {
            assert(children_among(inertias@, Seq::empty(), frame) =~= Seq::empty());
        }
    }
    let mut i: usize = 0;
    while i < ids.len()
        invariant
            i <= ids.len(),
            ids@ == ascending(inertias@.dom()),
            forall|x: u32|
                #![trigger ids@.contains(x)]
                #![trigger inertias@.dom().contains(x)]
                ids@.contains(x) <==> inertias@.dom().contains(x),
            forall|frame: u32| #[trigger]
                grouped_inertial(groups@, frame) == inertial_among(
                    inertias@,
                    ids@.take(i as int),
                    frame,
                ),
        decreases ids.len() - i,
    {
        let id = ids[i];
        assert(ids@.contains(id));
        assert(inertias@.contains_key(id));
        let entry = inertias.get(&id).unwrap();
        let ghost before = groups@;
        groups.insert(entry.parent, urdf::Inertial::from(&entry.bundle));
        proof {
            let done = ids@.take(i as int);
            assert(ids@.take(i + 1) =~= done.push(id));
            assert forall|frame: u32| #[trigger]
                grouped_inertial(groups@, frame) == inertial_among(
                    inertias@,
                    ids@.take(i + 1),
                    frame,
                ) by {
                done.lemma_filter_push(id, has_parent(inertias@, frame));
                if frame != entry.parent {
                    assert(grouped_inertial(groups@, frame) == grouped_inertial(before, frame));
                }
            }
        }
        i += 1;
    }
    assert(ids@.take(i as int) =~= ids@);
    groups
}

/// Number of frames that have `parent` as their parent.
pub fn count_children(
    frames: &BTreeMap<u32, Parented<u32, Frame>>,
    ids: &Vec<u32>,
    parent: u32,
) -> (count: usize)
    requires
        ids@ == ascending(frames@.dom()),
    ensures
        count == children(frames_view(frames@), parent).len(),
{
    broadcast use vstd::std_specs::btree::group_btree_axioms;

    let ghost fv = frames_view(frames@);
    proof {
        assert(fv.dom() =~= frames@.dom());
        lemma_ascending(frames@.dom());
        assert(ids@.take(0) =~= Seq::empty());
        reveal(Seq::filter);
        assert(children_among(fv, Seq::empty(), parent) =~= Seq::empty());
    }
    let mut count: usize = 0;
    let mut i: usize = 0;
    while i < ids.len()
        invariant
            i <= ids.len(),
            fv == frames_view(frames@),
            ids@ == ascending(frames@.dom()),
            forall|x: u32|
                #![trigger ids@.contains(x)]
                #![trigger frames@.dom().contains(x)]
                ids@.contains(x) <==> frames@.dom().contains(x),
            count <= i,
            count == children_among(fv, ids@.take(i as int), parent).len(),
        decreases ids.len() - i,
    {
        let id = ids[i];
        assert(ids@.contains(id));
        assert(frames@.contains_key(id));
        let entry = frames.get(&id).unwrap();
        proof {
            let done = ids@.take(i as int);
            assert(ids@.take(i + 1) =~= done.push(id));
            done.lemma_filter_push(id, has_parent(fv, parent));
            assert(fv[id] == entry@);
        }
        if entry.parent == parent {
            count += 1;
        }
        i += 1;
    }
    assert(ids@.take(i as int) =~= ids@);
    count
}

/// The first of the ids in `found`: the entry's first child.
pub open spec fn first_of(found: Seq<u32>) -> Option<u32> {
    if found.len() == 0 {
        None
    } else {
        Some(found[0])
    }
}

/// What an index of first children says of `parent`.
pub open spec fn indexed_child(index: Map<u32, u32>, parent: u32) -> Option<u32> {
    if index.contains_key(parent) {
        Some(index[parent])
    } else {
        None
    }
}

/// For every id that is some frame's parent, the id of the first frame that
/// has it as its parent.
pub fn index_first_children(frames: &BTreeMap<u32, Parented<u32, Frame>>, ids: &Vec<u32>) -> (index:
    BTreeMap<u32, u32>)
    requires
        ids@ == ascending(frames@.dom()),
    ensures
        forall|parent: u32| #[trigger]
            indexed_child(index@, parent) == first_of(children(frames_view(frames@), parent)),
        forall|parent: u32| #[trigger]
            index@.contains_key(parent) ==> frames@.contains_key(index@[parent]),
{
    broadcast use vstd::std_specs::btree::group_btree_axioms;

    let ghost fv = frames_view(frames@);
    let mut index: BTreeMap<u32, u32> = BTreeMap::new();
    proof {
        assert(fv.dom() =~= frames@.dom());
        lemma_ascending(frames@.dom());
        assert(ids@.take(0) =~= Seq::empty());
        reveal(Seq::filter);
        assert forall|parent: u32| #[trigger]
            indexed_child(index@, parent) == first_of(
                children_among(fv, ids@.take(0), parent),
            ) by {
            assert(children_among(fv, Seq::empty(), parent) =~= Seq::empty());
        }
    }
    let mut i: usize = 0;
    while i < ids.len()
        invariant
            i <= ids.len(),
            fv == frames_view(frames@),
            ids@ == ascending(frames@.dom()),
            forall|x: u32|
                #![trigger ids@.contains(x)]
                #![trigger frames@.dom().contains(x)]
                ids@.contains(x) <==> frames@.dom().contains(x),
            forall|parent: u32| #[trigger]
                indexed_child(index@, parent) == first_of(
                    children_among(fv, ids@.take(i as int), parent),
                ),
            forall|parent: u32| #[trigger]
                index@.contains_key(parent) ==> frames@.contains_key(index@[parent]),
        decreases ids.len() - i,
    {
        let id = ids[i];
        assert(ids@.contains(id));
        assert(frames@.contains_key(id));
        let entry = frames.get(&id).unwrap();
        let ghost before = index@;
        if !index.contains_key(&entry.parent) {
            index.insert(entry.parent, id);
        }
        proof {
            let done = ids@.take(i as int);
            assert(ids@.take(i + 1) =~= done.push(id));
            assert(fv[id] == entry@);
            assert forall|parent: u32| #[trigger]
                indexed_child(index@, parent) == first_of(
                    children_among(fv, ids@.take(i + 1), parent),
                ) by {
                done.lemma_filter_push(id, has_parent(fv, parent));
                assert(indexed_child(before, parent) == first_of(
                    children_among(fv, done, parent),
                ));
            }
        }
        i += 1;
    }
    assert(ids@.take(i as int) =~= ids@);
    index
}

/// The substitutions made when the limits of the joints under `ids` are
/// written out, joint by joint in that order, each with the joint's id.
pub open spec fn diagnostics_among(
    joints: Map<u32, Parented<u32, JointView>>,
    ids: Seq<u32>,
) -> Seq<(u32, LimitDiagnostic)>
    decreases ids.len(),
{
    if ids.len() == 0 {
        Seq::empty()
    } else {
        let id = ids.last();
        let notes = joints[id].bundle.properties.spec_diagnostics();
        diagnostics_among(joints, ids.drop_last()) + notes.map_values(|d: LimitDiagnostic| (id, d))
    }
}

/// The substitutions made when the limits of a workcell's joints are written
/// out, in the order of the joints' ids.
pub open spec fn limit_diagnostics(w: WorkcellView) -> Seq<(u32, LimitDiagnostic)> {
    diagnostics_among(w.joints, ascending(w.joints.dom()))
}

impl Workcell {
    /// What a caller should report when it writes the workcell out: for each
    /// joint, in the order of ids, the bounds on effort and velocity that
    /// cannot be written as recorded, with the number written in their place.
    pub fn limit_diagnostics(&self) -> (r: Vec<(u32, LimitDiagnostic)>)
        ensures
            r@ == limit_diagnostics(self@),
    {
        broadcast use vstd::std_specs::btree::group_btree_axioms;

        let ghost w = self@;
        let ids = ascending_keys(&self.joints);
        let mut out: Vec<(u32, LimitDiagnostic)> = Vec::new();
        proof {
            assert(w.joints.dom() =~= self.joints@.dom());
            lemma_ascending(self.joints@.dom());
            assert(ids@.take(0) =~= Seq::empty());
        }
        let mut i: usize = 0;
        while i < ids.len()
            invariant
                i <= ids.len(),
                w == self@,
                w.joints.dom() == self.joints@.dom(),
                ids@ == ascending(self.joints@.dom()),
                forall|x: u32|
                    #![trigger ids@.contains(x)]
                    #![trigger self.joints@.dom().contains(x)]
                    ids@.contains(x) <==> self.joints@.dom().contains(x),
                out@ == diagnostics_among(w.joints, ids@.take(i as int)),
            decreases ids.len() - i,
        {
            let id = ids[i];
            assert(ids@.contains(id));
            assert(self.joints@.contains_key(id));
            let entry = self.joints.get(&id).unwrap();
            let notes = entry.bundle.properties.diagnostics();
            let ghost before = out@;
            proof {
                assert(ids@.take(i + 1).drop_last() =~= ids@.take(i as int));
                assert(ids@.take(i + 1).last() == id);
                assert(w.joints[id] == entry@);
            }
            let mut k: usize = 0;
            while k < notes.len()
                invariant
                    k <= notes.len(),
                    out@ == before + notes@.take(k as int).map_values(
                        |d: LimitDiagnostic| (id, d),
                    ),
                decreases notes.len() - k,
            {
                out.push((id, notes[k]));
                proof {
                    assert(notes@.take(k + 1).map_values(|d: LimitDiagnostic| (id, d))
                        =~= notes@.take(k as int).map_values(|d: LimitDiagnostic| (id, d)).push(
                        (id, notes@[k as int]),
                    ));
                }
                k += 1;
            }
            assert(notes@.take(k as int) =~= notes@);
            i += 1;
        }
        assert(ids@.take(i as int) =~= ids@);
        out
    }

    /// The frames that become links: the workcell's own, and where the root
    /// has to become a link, a placeholder for it.
    fn frames_for_export(&self, frame_ids: &Vec<u32>) -> (frames: BTreeMap<
        u32,
        Parented<u32, Frame>,
    >)
        requires
            frame_ids@ == ascending(self.frames@.dom()),
        ensures
            frames_view(frames@) == exported_frames(self@),
    {
        let roots = count_children(&self.frames, frame_ids, self.id);
        let mut frames = self.frames.clone();
        if roots != 1 {
            let placeholder = Parented {
                parent: NO_PARENT,
                bundle: Frame {
                    anchor: Anchor::Pose3D(Pose::default()),
                    name: NameInWorkcell(self.properties.name.0.clone().concat("_workcell_link")),
                    marker: FrameMarker,
                },
            };
            proof {
                crate::workcell::lemma_frames_view_insert(frames@, self.id, placeholder);
            }
            frames.insert(self.id, placeholder);
        }
        frames
    }

    /// One link for each frame that becomes a link, in the order of ids.
    fn links_for_export(&self, frame_ids: &Vec<u32>) -> (links: Vec<urdf::Link>)
        requires
            frame_ids@ == ascending(self.frames@.dom()),
        ensures
            urdf::links_view(links@) == exported_links(self@),
    {
        broadcast use vstd::std_specs::btree::group_btree_axioms;

        let ghost w = self@;
        let mut visuals: BTreeMap<u32, Vec<urdf::Visual>> = group_elements(&self.visuals);
        let mut collisions: BTreeMap<u32, Vec<urdf::Collision>> = group_elements(&self.collisions);
        let mut inertials = group_inertials(&self.inertias);
        let frames = self.frames_for_export(frame_ids);
        let ids = ascending_keys(&frames);
        let mut links: Vec<urdf::Link> = Vec::new();
        proof {
            assert(frames_view(frames@).dom() =~= frames@.dom());
            lemma_ascending(frames@.dom());
        }
        let mut i: usize = 0;
        while i < ids.len()
            invariant
                i <= ids.len(),
                w == self@,
                frames_view(frames@) == exported_frames(w),
                ids@ == ascending(frames@.dom()),
                crate::ids::strictly_increasing(ids@),
                forall|x: u32|
                    #![trigger ids@.contains(x)]
                    #![trigger frames@.dom().contains(x)]
                    ids@.contains(x) <==> frames@.dom().contains(x),
                links@.len() == i,
                forall|k: int| 0 <= k < i ==> (#[trigger] links@[k])@ == exported_link(w, ids@[k]),
                forall|frame: u32|
                    (i == 0 || ids@[i - 1] < frame) ==> #[trigger] group_view(visuals@, frame)
                        == elements_on(w.visuals, frame),
                forall|frame: u32|
                    (i == 0 || ids@[i - 1] < frame) ==> #[trigger] group_view(collisions@, frame)
                        == elements_on(w.collisions, frame),
                forall|frame: u32|
                    (i == 0 || ids@[i - 1] < frame) ==> #[trigger] grouped_inertial(
                        inertials@,
                        frame,
                    ) == inertial_on(w.inertias, frame),
            decreases ids.len() - i,
        {
            let id = ids[i];
            assert(ids@.contains(id));
            assert(frames@.contains_key(id));
            let frame = frames.get(&id).unwrap();
            let ghost visuals_before = visuals@;
            let ghost collisions_before = collisions@;
            let ghost inertials_before = inertials@;
            let name = frame.bundle.name.0.clone();
            let inertial = match inertials.remove(&id) {
                Some(inertial) => inertial,
                None => urdf::Inertial::default(),
            };
            let collision = match collisions.remove(&id) {
                Some(group) => group,
                None => Vec::new(),
            };
            let visual = match visuals.remove(&id) {
                Some(group) => group,
                None => Vec::new(),
            };
            proof {
                assert(inertial == grouped_inertial(inertials_before, id));
                assert(element_views(visual@) == group_view(visuals_before, id));
                assert(element_views(collision@) == group_view(collisions_before, id));
                assert(urdf::visuals_view(visual@) =~= element_views(visual@));
                assert(urdf::collisions_view(collision@) =~= element_views(collision@));
                assert(frames_view(frames@)[id] == frame@);
                assert forall|other: u32| id < other implies #[trigger] group_view(
                    visuals@,
                    other,
                ) == group_view(visuals_before, other) by {}
                assert forall|other: u32| id < other implies #[trigger] group_view(
                    collisions@,
                    other,
                ) == group_view(collisions_before, other) by {}
                assert forall|other: u32| id < other implies #[trigger] grouped_inertial(
                    inertials@,
                    other,
                ) == grouped_inertial(inertials_before, other) by {}
            }
            links.push(urdf::Link { name, inertial, collision, visual });
            i += 1;
        }
        assert(urdf::links_view(links@) =~= exported_links(w));
        links
    }

    /// One joint for each joint, in the order of ids, or the first error.
    fn joints_for_export(&self, frame_ids: &Vec<u32>) -> (r: Result<
        Vec<urdf::Joint>,
        WorkcellToUrdfError,
    >)
        requires
            frame_ids@ == ascending(self.frames@.dom()),
        ensures
            match r {
                Ok(joints) => exported_joints(self@, ascending(self@.joints.dom())) == Ok::<
                    Seq<urdf::JointView>,
                    WorkcellToUrdfErrorView,
                >(urdf::joints_view(joints@)),
                Err(e) => exported_joints(self@, ascending(self@.joints.dom())) == Err::<
                    Seq<urdf::JointView>,
                    WorkcellToUrdfErrorView,
                >(e@),
            },
    {
        broadcast use vstd::std_specs::btree::group_btree_axioms;

        let ghost w = self@;
        let first_children = index_first_children(&self.frames, frame_ids);
        let ids = ascending_keys(&self.joints);
        let mut joints: Vec<urdf::Joint> = Vec::new();
        proof {
            assert(w.joints.dom() =~= self.joints@.dom());
            assert(w.frames.dom() =~= self.frames@.dom());
            lemma_ascending(self.joints@.dom());
            assert(ids@.take(0) =~= Seq::empty());
            assert(urdf::joints_view(joints@) =~= Seq::empty());
        }
        let mut i: usize = 0;
        while i < ids.len()
            invariant
                i <= ids.len(),
                w == self@,
                w.frames.dom() == self.frames@.dom(),
                w.joints.dom() == self.joints@.dom(),
                forall|parent: u32| #[trigger]
                    indexed_child(first_children@, parent) == first_of(
                        children(w.frames, parent),
                    ),
                forall|parent: u32| #[trigger]
                    first_children@.contains_key(parent) ==> self.frames@.contains_key(
                        first_children@[parent],
                    ),
                ids@ == ascending(self.joints@.dom()),
                joints@.len() == i,
                forall|x: u32|
                    #![trigger ids@.contains(x)]
                    #![trigger self.joints@.dom().contains(x)]
                    ids@.contains(x) <==> self.joints@.dom().contains(x),
                exported_joints(w, ids@.take(i as int)) == Ok::<
                    Seq<urdf::JointView>,
                    WorkcellToUrdfErrorView,
                >(urdf::joints_view(joints@)),
            decreases ids.len() - i,
        {
            let id = ids[i];
            assert(ids@.contains(id));
            assert(self.joints@.contains_key(id));
            let entry = self.joints.get(&id).unwrap();
            proof {
                assert(ids@.take(i + 1).drop_last() =~= ids@.take(i as int));
                assert(ids@.take(i + 1).last() == id);
                assert(w.joints[id] == entry@);
                lemma_export_error_stable(w, ids@, i + 1, ids@.len() as int);
                assert(ids@.take(ids@.len() as int) =~= ids@);
            }
            let joint_parent = entry.parent;
            let joint = &entry.bundle;
            let parent_frame = match self.frames.get(&joint_parent) {
                Some(frame) => frame,
                None => {
                    return Err(WorkcellToUrdfError::BrokenReference(joint_parent));
                },
            };
            let child_id = match first_children.get(&id) {
                Some(child_id) => *child_id,
                None => {
                    return Err(WorkcellToUrdfError::BrokenReference(id));
                },
            };
            assert(indexed_child(first_children@, id) == Some(child_id));
            let child_frame = self.frames.get(&child_id).unwrap();
            proof {
                assert(w.frames[joint_parent] == parent_frame@);
                assert(w.frames[child_id] == child_frame@);
            }
            let pose = match &child_frame.bundle.anchor {
                Anchor::Pose3D(pose) => *pose,
                other => {
                    return Err(WorkcellToUrdfError::InvalidAnchorType(other.clone()));
                },
            };
            let (joint_type, axis, limit) = joint.properties.to_urdf();
            let ghost before = joints@;
            joints.push(
                urdf::Joint {
                    name: joint.name.0.clone(),
                    joint_type,
                    origin: pose,
                    parent: urdf::LinkName { link: parent_frame.bundle.name.0.clone() },
                    child: urdf::LinkName { link: child_frame.bundle.name.0.clone() },
                    axis,
                    limit,
                },
            );
            proof {
                assert(urdf::joints_view(joints@) =~= urdf::joints_view(before).push(
                    joints@[i as int]@,
                ));
            }
            i += 1;
        }
        assert(ids@.take(i as int) =~= ids@);
        assert(w.joints.dom() =~= self.joints@.dom());
        Ok(joints)
    }

    /// Writes the workcell out as a kinematic description.
    ///
    /// Fails with the error of the first joint, in the order of ids, that
    /// cannot be written out: one whose parent or child frame is not found,
    /// or one whose child frame is not placed by a full pose.
    pub fn to_urdf(&self) -> (r: Result<urdf::Robot, WorkcellToUrdfError>)
        ensures
            match r {
                Ok(robot) => export_view(self@) == Ok::<urdf::RobotView, WorkcellToUrdfErrorView>(
                    robot@,
                ),
                Err(e) => export_view(self@) == Err::<urdf::RobotView, WorkcellToUrdfErrorView>(
                    e@,
                ),
            },
    {
        let frame_ids = ascending_keys(&self.frames);
        let links = self.links_for_export(&frame_ids);
        let joints = match self.joints_for_export(&frame_ids) {
            Ok(joints) => joints,
            Err(e) => {
                return Err(e);
            },
        };
        Ok(urdf::Robot { name: self.properties.name.0.clone(), links, joints })
    }

    /// Writes the workcell out as a kinematic description and says what was
    /// put in place of the joint limits that could not be written as
    /// recorded: no bound is replaced by a default, and no range is collapsed
    /// to one number, without an entry that names the joint and the number
    /// written.
    ///
    /// Fails as [`Workcell::to_urdf`] does; nothing is written then, and
    /// nothing is reported.
    pub fn to_urdf_with_diagnostics(&self) -> (r: Result<
        (urdf::Robot, Vec<(u32, LimitDiagnostic)>),
        WorkcellToUrdfError,
    >)
        ensures
            match r {
                Ok((robot, notes)) => export_view(self@) == Ok::<
                    urdf::RobotView,
                    WorkcellToUrdfErrorView,
                >(robot@) && notes@ == limit_diagnostics(self@),
                Err(e) => export_view(self@) == Err::<urdf::RobotView, WorkcellToUrdfErrorView>(
                    e@,
                ),
            },
    {
        match self.to_urdf() {
            Ok(robot) => {
                let notes = self.limit_diagnostics();
                Ok((robot, notes))
            },
            Err(e) => Err(e),
        }
    }
}

} // verus!
