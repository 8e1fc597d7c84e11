//! Workcells: frames, shapes, inertias and joints of a robot's surroundings,
//! and their exchange with kinematic descriptions of links and joints.

use vstd::prelude::*;

pub mod export;
pub mod geometry;
pub mod ids;
pub mod import;
pub mod inertial;
pub mod joint;
pub mod laws;
pub mod pose;
pub mod scalar;
pub mod urdf;
pub mod workcell;
pub mod workspace;

pub use geometry::{AssetSource, Geometry, PrimitiveShape, WorkcellModel};
pub use inertial::{Inertia, Mass, Moment};
pub use joint::{
    Joint, JointAxis, JointLimits, JointProperties, LimitDiagnostic, RangeLimits, SingleDofJoint,
};
pub use pose::{Anchor, Angle, CategorizedTranslation, Pose, Rotation};
pub use scalar::Scalar;
pub use workcell::{
    Frame, FrameMarker, NameInWorkcell, NameOfWorkcell, Parented, UrdfImportError, Workcell,
    WorkcellProperties, WorkcellToUrdfError,
};
pub use workspace::{ExportFormat, WorkspaceData};

verus! {

/// Major version of the document schema.
pub const CURRENT_MAJOR_VERSION: u32 = 0;

/// Minor version of the document schema.
pub const CURRENT_MINOR_VERSION: u32 = 1;

} // verus!
