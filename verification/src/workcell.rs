//! The workcell document: frames, shapes, inertias and joints in one id
//! space, each entry stored under its own id together with its parent's id.

use crate::geometry::{WorkcellModel, WorkcellModelView};
use crate::inertial::Inertia;
use crate::joint::{Joint, JointView};
use crate::pose::{Anchor, AnchorView};
use std::collections::BTreeMap;
use vstd::prelude::*;
use vstd::string::StringExecFns;

verus! {

/// The id of the document root after an import.
pub const ROOT_ID: u32 = 0;

/// The parent id that marks an entry without a parent.
pub const NO_PARENT: u32 = 0xFFFF_FFFF;

/// An entity together with the id of its parent.
#[derive(Clone, Debug, PartialEq, Eq)]
pub struct Parented<P, T> {
    pub parent: P,
    pub bundle: T,
}

impl<P, T: View> View for Parented<P, T> {
    type V = Parented<P, T::V>;

    open spec fn view(&self) -> Parented<P, T::V> {
        Parented { parent: self.parent, bundle: self.bundle@ }
    }
}

#[derive(Clone, Copy, Debug, Default, PartialEq, Eq)]
pub struct FrameMarker;

/// Name of an entity inside a workcell.
#[derive(Clone, Debug, Default, PartialEq, Eq)]
pub struct NameInWorkcell(pub String);

impl View for NameInWorkcell {
    type V = Seq<char>;

    open spec fn view(&self) -> Seq<char> {
        self.0@
    }
}

/// Name of a workcell.
#[derive(Clone, Debug, Default, PartialEq, Eq)]
pub struct NameOfWorkcell(pub String);

impl View for NameOfWorkcell {
    type V = Seq<char>;

    open spec fn view(&self) -> Seq<char> {
        self.0@
    }
}

#[derive(Clone, Debug, Default, PartialEq, Eq)]
pub struct WorkcellProperties {
    pub name: NameOfWorkcell,
}

/// A named coordinate frame. Its parent is the root or a joint.
#[derive(Clone, Debug, PartialEq, Eq)]
pub struct Frame {
    pub anchor: Anchor,
    pub name: NameInWorkcell,
    pub marker: FrameMarker,
}

/// Model of a [`Frame`].
pub struct FrameView {
    pub anchor: AnchorView,
    pub name: Seq<char>,
}

impl View for Frame {
    type V = FrameView;

    open spec fn view(&self) -> FrameView {
        FrameView { anchor: self.anchor@, name: self.name@ }
    }
}

/// A workcell. Nothing here checks that the parents form a tree: the import
/// builds one, and the export reports what it cannot follow.
#[derive(Clone, Debug, PartialEq, Eq)]
pub struct Workcell {
    pub properties: WorkcellProperties,
    /// Id of the root: the parent of the frames that hang on nothing else.
    pub id: u32,
    pub frames: BTreeMap<u32, Parented<u32, Frame>>,
    pub visuals: BTreeMap<u32, Parented<u32, WorkcellModel>>,
    pub collisions: BTreeMap<u32, Parented<u32, WorkcellModel>>,
    pub inertias: BTreeMap<u32, Parented<u32, Inertia>>,
    /// A joint has a frame as its parent and a frame as its child.
    pub joints: BTreeMap<u32, Parented<u32, Joint>>,
}

/// Model of a [`Workcell`].
pub struct WorkcellView {
    pub name: Seq<char>,
    pub id: u32,
    pub frames: Map<u32, Parented<u32, FrameView>>,
    pub visuals: Map<u32, Parented<u32, WorkcellModelView>>,
    pub collisions: Map<u32, Parented<u32, WorkcellModelView>>,
    pub inertias: Map<u32, Parented<u32, Inertia>>,
    pub joints: Map<u32, Parented<u32, JointView>>,
}

/// Models of frames, id by id.
pub open spec fn frames_view(frames: Map<u32, Parented<u32, Frame>>) -> Map<
    u32,
    Parented<u32, FrameView>,
> {
    frames.map_values(|f: Parented<u32, Frame>| f@)
}

/// Models of shapes, id by id.
pub open spec fn models_view(models: Map<u32, Parented<u32, WorkcellModel>>) -> Map<
    u32,
    Parented<u32, WorkcellModelView>,
> {
    models.map_values(|m: Parented<u32, WorkcellModel>| m@)
}

/// Models of joints, id by id.
pub open spec fn joints_view(joints: Map<u32, Parented<u32, Joint>>) -> Map<
    u32,
    Parented<u32, JointView>,
> {
    joints.map_values(|j: Parented<u32, Joint>| j@)
}

/// Putting an entry under an id puts its model under that id.
pub proof fn lemma_frames_view_insert(
    frames: Map<u32, Parented<u32, Frame>>,
    id: u32,
    frame: Parented<u32, Frame>,
)
    ensures
        frames_view(frames.insert(id, frame)) == frames_view(frames).insert(id, frame@),
{
    assert(frames_view(frames.insert(id, frame)) =~= frames_view(frames).insert(id, frame@));
}

/// Putting an entry under an id puts its model under that id.
pub proof fn lemma_models_view_insert(
    models: Map<u32, Parented<u32, WorkcellModel>>,
    id: u32,
    model: Parented<u32, WorkcellModel>,
)
    ensures
        models_view(models.insert(id, model)) == models_view(models).insert(id, model@),
{
    assert(models_view(models.insert(id, model)) =~= models_view(models).insert(id, model@));
}

/// Putting an entry under an id puts its model under that id.
pub proof fn lemma_joints_view_insert(
    joints: Map<u32, Parented<u32, Joint>>,
    id: u32,
    joint: Parented<u32, Joint>,
)
    ensures
        joints_view(joints.insert(id, joint)) == joints_view(joints).insert(id, joint@),
{
    assert(joints_view(joints.insert(id, joint)) =~= joints_view(joints).insert(id, joint@));
}

impl View for Workcell {
    type V = WorkcellView;

    open spec fn view(&self) -> WorkcellView {
        WorkcellView {
            name: self.properties.name@,
            id: self.id,
            frames: frames_view(self.frames@),
            visuals: models_view(self.visuals@),
            collisions: models_view(self.collisions@),
            inertias: self.inertias@,
            joints: joints_view(self.joints@),
        }
    }
}

impl WorkcellView {
    /// Whether every parent is of the kind that it has to be: a frame hangs
    /// on the root or on a joint, and a joint, a shape and an inertia each
    /// hang on a frame. This does not rule out that frames and joints hang on
    /// each other in a circle.
    pub open spec fn parents_resolve(self) -> bool {
        &&& forall|id: u32| #[trigger]
            self.frames.contains_key(id) ==> self.frames[id].parent == self.id
                || self.joints.contains_key(self.frames[id].parent)
        &&& forall|id: u32| #[trigger]
            self.joints.contains_key(id) ==> self.frames.contains_key(self.joints[id].parent)
        &&& forall|id: u32| #[trigger]
            self.visuals.contains_key(id) ==> self.frames.contains_key(self.visuals[id].parent)
        &&& forall|id: u32| #[trigger]
            self.collisions.contains_key(id) ==> self.frames.contains_key(
                self.collisions[id].parent,
            )
        &&& forall|id: u32| #[trigger]
            self.inertias.contains_key(id) ==> self.frames.contains_key(self.inertias[id].parent)
    }

    /// How many of the five maps hold an entry under `id`.
    pub open spec fn uses_of(self, id: u32) -> nat {
        let one = |held: bool| if held { 1nat } else { 0nat };
        one(self.frames.contains_key(id)) + one(self.visuals.contains_key(id)) + one(
            self.collisions.contains_key(id),
        ) + one(self.inertias.contains_key(id)) + one(self.joints.contains_key(id))
    }

    /// Whether an id means one thing only: no id is used in two maps, and
    /// none is the id of the root.
    pub open spec fn ids_are_distinct(self) -> bool {
        forall|id: u32| #[trigger] self.uses_of(id) <= 1 && (id == self.id ==> self.uses_of(id) == 0)
    }

    /// The workcell without a name and without entries, its root at `ROOT_ID`.
    pub open spec fn blank() -> WorkcellView {
        WorkcellView {
            name: Seq::empty(),
            id: ROOT_ID,
            frames: Map::empty(),
            visuals: Map::empty(),
            collisions: Map::empty(),
            inertias: Map::empty(),
            joints: Map::empty(),
        }
    }
}

impl Default for Workcell {
    fn default() -> (r: Workcell)
        ensures
            r@ == WorkcellView::blank(),
    {
        let r = Workcell {
            properties: WorkcellProperties { name: NameOfWorkcell(String::new()) },
            id: ROOT_ID,
            frames: BTreeMap::new(),
            visuals: BTreeMap::new(),
            collisions: BTreeMap::new(),
            inertias: BTreeMap::new(),
            joints: BTreeMap::new(),
        };
        assert(r@.frames =~= Map::empty());
        assert(r@.visuals =~= Map::empty());
        assert(r@.collisions =~= Map::empty());
        assert(r@.joints =~= Map::empty());
        r
    }
}

/// Why a kinematic description could not be read as a workcell.
#[derive(Clone, Debug, PartialEq, Eq)]
pub enum UrdfImportError {
    /// A joint names a link that the description does not hold.
    BrokenJointReference(String),
    /// A joint is of a type that a workcell cannot hold.
    UnsupportedJointType,
}

/// Model of a [`UrdfImportError`].
pub enum UrdfImportErrorView {
    BrokenJointReference(Seq<char>),
    UnsupportedJointType,
}

impl View for UrdfImportError {
    type V = UrdfImportErrorView;

    open spec fn view(&self) -> UrdfImportErrorView {
        match *self {
            UrdfImportError::BrokenJointReference(name) => {
                UrdfImportErrorView::BrokenJointReference(name@)
            },
            UrdfImportError::UnsupportedJointType => UrdfImportErrorView::UnsupportedJointType,
        }
    }
}

impl UrdfImportErrorView {
    /// The error in words.
    pub open spec fn message(self) -> Seq<char> {
        match self {
            UrdfImportErrorView::BrokenJointReference(name) => {
                "a joint refers to a non existing link ["@ + name + "]"@
            },
            UrdfImportErrorView::UnsupportedJointType => "unsupported joint type found"@,
        }
    }
}

impl UrdfImportError {
    /// The error in words.
    pub fn message(&self) -> (r: String)
        ensures
            r@ == self@.message(),
    {
        match self {
            UrdfImportError::BrokenJointReference(name) => String::from_str(
                "a joint refers to a non existing link [",
            ).concat(name.as_str()).concat("]"),
            UrdfImportError::UnsupportedJointType => String::from_str(
                "unsupported joint type found",
            ),
        }
    }
}

/// Why a workcell could not be written out as a kinematic description.
#[derive(Clone, Debug, PartialEq, Eq)]
pub enum WorkcellToUrdfError {
    /// The frame behind a joint is not placed by a full pose.
    InvalidAnchorType(Anchor),
    /// No frame has this id, or no frame has the joint of this id as its parent.
    BrokenReference(u32),
}

/// Model of a [`WorkcellToUrdfError`].
pub enum WorkcellToUrdfErrorView {
    InvalidAnchorType(AnchorView),
    BrokenReference(u32),
}

impl View for WorkcellToUrdfError {
    type V = WorkcellToUrdfErrorView;

    open spec fn view(&self) -> WorkcellToUrdfErrorView {
        match *self {
            WorkcellToUrdfError::InvalidAnchorType(anchor) => {
                WorkcellToUrdfErrorView::InvalidAnchorType(anchor@)
            },
            WorkcellToUrdfError::BrokenReference(id) => WorkcellToUrdfErrorView::BrokenReference(
                id,
            ),
        }
    }
}

} // verus!
