//! Poses and the anchors that place a frame.

use crate::scalar::Scalar;
use vstd::prelude::*;

verus! {

/// An angle with its unit.
#[derive(Clone, Copy, Debug, PartialEq, Eq)]
pub enum Angle {
    Deg(Scalar),
    Rad(Scalar),
}

/// A rotation in one of three notations.
#[derive(Clone, Copy, Debug, PartialEq, Eq)]
pub enum Rotation {
    Yaw(Angle),
    /// Roll, pitch, yaw about the fixed axes x, y, z.
    EulerExtrinsicXYZ([Angle; 3]),
    /// x, y, z, w
    Quat([Scalar; 4]),
}

impl Default for Rotation {
    fn default() -> (r: Rotation)
        ensures
            r == Rotation::identity(),
    {
        Rotation::Yaw(Angle::Deg(Scalar::zero()))
    }
}

impl Rotation {
    /// No rotation: a yaw of zero degrees.
    pub open spec fn identity() -> Rotation {
        Rotation::Yaw(Angle::Deg(Scalar { bits: 0 }))
    }
}

/// A translation and a rotation.
#[derive(Clone, Copy, Debug, PartialEq, Eq)]
pub struct Pose {
    pub trans: [Scalar; 3],
    pub rot: Rotation,
}

impl Pose {
    /// The pose that moves nothing.
    pub open spec fn identity() -> Pose {
        Pose {
            trans: [Scalar { bits: 0 }, Scalar { bits: 0 }, Scalar { bits: 0 }],
            rot: Rotation::identity(),
        }
    }
}

impl Default for Pose {
    fn default() -> (r: Pose)
        ensures
            r == Pose::identity(),
    {
        Pose { trans: [Scalar::zero(), Scalar::zero(), Scalar::zero()], rot: Rotation::default() }
    }
}

/// A planar translation that holds for one category of element.
#[derive(Debug, PartialEq, Eq)]
pub struct CategorizedTranslation {
    pub category: String,
    pub translation: [Scalar; 2],
}

/// Model of a [`CategorizedTranslation`].
pub struct CategorizedTranslationView {
    pub category: Seq<char>,
    pub translation: [Scalar; 2],
}

impl View for CategorizedTranslation {
    type V = CategorizedTranslationView;

    open spec fn view(&self) -> CategorizedTranslationView {
        CategorizedTranslationView { category: self.category@, translation: self.translation }
    }
}

impl Clone for CategorizedTranslation {
    fn clone(&self) -> (r: Self)
        ensures
            r@ == self@,
    {
        CategorizedTranslation { category: self.category.clone(), translation: self.translation }
    }
}

/// Where a frame sits. Only a full pose can stand between two joints.
#[derive(Debug, PartialEq, Eq)]
pub enum Anchor {
    Translate2D([Scalar; 2]),
    CategorizedTranslate2D(Vec<CategorizedTranslation>),
    Pose3D(Pose),
}

/// Model of an [`Anchor`].
pub enum AnchorView {
    Translate2D([Scalar; 2]),
    CategorizedTranslate2D(Seq<CategorizedTranslationView>),
    Pose3D(Pose),
}

impl View for Anchor {
    type V = AnchorView;

    open spec fn view(&self) -> AnchorView {
        match *self {
            Anchor::Translate2D(t) => AnchorView::Translate2D(t),
            Anchor::CategorizedTranslate2D(ts) => AnchorView::CategorizedTranslate2D(
                ts@.map_values(|t: CategorizedTranslation| t@),
            ),
            Anchor::Pose3D(p) => AnchorView::Pose3D(p),
        }
    }
}

impl Clone for Anchor {
    fn clone(&self) -> (r: Self)
        ensures
            r@ == self@,
    {
        match self {
            Anchor::Translate2D(t) => Anchor::Translate2D(*t),
            Anchor::CategorizedTranslate2D(ts) => {
                let mut out: Vec<CategorizedTranslation> = Vec::new();
                let mut i: usize = 0;
                while i < ts.len()
                    invariant
                        i <= ts.len(),
                        out.len() == i,
                        forall|k: int| 0 <= k < i ==> out@[k]@ == ts@[k]@,
                    decreases ts.len() - i,
                {
                    out.push(ts[i].clone());
                    i += 1;
                }
                assert(out@.map_values(|t: CategorizedTranslation| t@) =~= ts@.map_values(
                    |t: CategorizedTranslation| t@,
                ));
                Anchor::CategorizedTranslate2D(out)
            },
            Anchor::Pose3D(p) => Anchor::Pose3D(*p),
        }
    }
}

impl Anchor {
    /// Whether the anchor is a full pose.
    #[allow(non_snake_case)]
    pub fn is_3D(&self) -> (r: bool)
        ensures
            r == (self@ is Pose3D),
    {
        match self {
            Anchor::Pose3D(_) => true,
            _ => false,
        }
    }
}

} // verus!
