//! Shapes and meshes of a workcell, and their form in the kinematic
//! description.

use crate::pose::Pose;
use crate::scalar::Scalar;
use crate::urdf;
use vstd::prelude::*;
use vstd::string::StringExecFns;

verus! {

/// Where the file of a mesh is found.
#[derive(Clone, Debug, PartialEq, Eq)]
pub enum AssetSource {
    /// A path on this machine, kept as it was written.
    Local(String),
    Remote(String),
    Search(String),
    /// A path below a package.
    Package(String),
    Memory(String),
}

/// Model of an [`AssetSource`].
pub enum AssetSourceView {
    Local(Seq<char>),
    Remote(Seq<char>),
    Search(Seq<char>),
    Package(Seq<char>),
    Memory(Seq<char>),
}

impl View for AssetSource {
    type V = AssetSourceView;

    open spec fn view(&self) -> AssetSourceView {
        match *self {
            AssetSource::Local(s) => AssetSourceView::Local(s@),
            AssetSource::Remote(s) => AssetSourceView::Remote(s@),
            AssetSource::Search(s) => AssetSourceView::Search(s@),
            AssetSource::Package(s) => AssetSourceView::Package(s@),
            AssetSource::Memory(s) => AssetSourceView::Memory(s@),
        }
    }
}

/// What a mesh file name starts with when it names a path below a package.
pub open spec fn package_scheme() -> Seq<char> {
    "package://"@
}

/// The mesh file name that a source is written out as: a package path behind
/// its scheme, a local path as it stands.
pub open spec fn asset_path(source: AssetSourceView) -> Seq<char> {
    match source {
        AssetSourceView::Local(path) => path,
        AssetSourceView::Remote(uri) => "rmf-server://"@ + uri,
        AssetSourceView::Search(name) => "search://"@ + name,
        AssetSourceView::Package(path) => package_scheme() + path,
        AssetSourceView::Memory(path) => "memory://"@ + path,
    }
}

/// The source that a mesh file name stands for: a package path where the name
/// starts with the package scheme, else a local path.
pub open spec fn asset_of_path(path: Seq<char>) -> AssetSourceView {
    if package_scheme().is_prefix_of(path) {
        AssetSourceView::Package(path.skip(package_scheme().len() as int))
    } else {
        AssetSourceView::Local(path)
    }
}

/// `str::strip_prefix` with a string as the pattern: where `s` starts with
/// `prefix` it gives what follows the prefix, else nothing.
#[verifier::external_body]
fn strip_prefix<'a>(s: &'a str, prefix: &str) -> (r: Option<&'a str>)
    ensures
        match r {
            Some(rest) => s@ == prefix@ + rest@,
            None => !prefix@.is_prefix_of(s@),
        },
{
    s.strip_prefix(prefix)
}

impl AssetSource {
    /// The mesh file name that stands for this source. Nothing checks that
    /// the name is one that a loader accepts.
    pub fn as_asset_path(&self) -> (r: String)
        ensures
            r@ == asset_path(self@),
    {
        match self {
            AssetSource::Local(path) => path.clone(),
            AssetSource::Remote(uri) => String::from_str("rmf-server://").concat(uri.as_str()),
            AssetSource::Search(name) => String::from_str("search://").concat(name.as_str()),
            AssetSource::Package(path) => String::from_str("package://").concat(path.as_str()),
            AssetSource::Memory(path) => String::from_str("memory://").concat(path.as_str()),
        }
    }

    /// The source that a mesh file name stands for.
    pub fn from_asset_path(path: &str) -> (r: AssetSource)
        ensures
            r@ == asset_of_path(path@),
    {
        match strip_prefix(path, "package://") {
            Some(rest) => {
                assert(package_scheme().is_prefix_of(path@)) by {
                    assert((package_scheme() + rest@).subrange(0, package_scheme().len() as int)
                        =~= package_scheme());
                }
                assert(rest@ =~= path@.skip(package_scheme().len() as int));
                AssetSource::Package(String::from_str(rest))
            },
            None => AssetSource::Local(String::from_str(path)),
        }
    }
}

/// A file name read as a source is written out as the same file name.
pub proof fn lemma_asset_path_round_trip(path: Seq<char>)
    ensures
        asset_path(asset_of_path(path)) == path,
{
    if package_scheme().is_prefix_of(path) {
        assert(package_scheme() + path.skip(package_scheme().len() as int) =~= path);
    }
}

/// A package path, and a local path that does not start with the package
/// scheme, are read back as they were written out.
pub proof fn lemma_asset_source_round_trip(source: AssetSourceView)
    requires
        source is Package || (source matches AssetSourceView::Local(path)
            && !package_scheme().is_prefix_of(path)),
    ensures
        asset_of_path(asset_path(source)) == source,
{
    if let AssetSourceView::Package(path) = source {
        let whole = package_scheme() + path;
        assert(whole.subrange(0, package_scheme().len() as int) =~= package_scheme());
        assert(whole.skip(package_scheme().len() as int) =~= path);
    }
}

/// One of the shapes that are given by a few numbers.
#[derive(Clone, Copy, Debug, PartialEq, Eq)]
pub enum PrimitiveShape {
    Box { size: [Scalar; 3] },
    Cylinder { radius: Scalar, length: Scalar },
    Capsule { radius: Scalar, length: Scalar },
    Sphere { radius: Scalar },
}

#[derive(Clone, Debug, PartialEq, Eq)]
pub enum Geometry {
    Primitive(PrimitiveShape),
    Mesh { source: AssetSource, scale: Option<[Scalar; 3]> },
}

/// Model of a [`Geometry`].
pub enum GeometryView {
    Primitive(PrimitiveShape),
    Mesh { source: AssetSourceView, scale: Option<[Scalar; 3]> },
}

impl View for Geometry {
    type V = GeometryView;

    open spec fn view(&self) -> GeometryView {
        match *self {
            Geometry::Primitive(shape) => GeometryView::Primitive(shape),
            Geometry::Mesh { source, scale } => GeometryView::Mesh { source: source@, scale },
        }
    }
}

/// A box without extent.
pub open spec fn empty_box() -> GeometryView {
    GeometryView::Primitive(
        PrimitiveShape::Box { size: [Scalar { bits: 0 }, Scalar { bits: 0 }, Scalar { bits: 0 }] },
    )
}

impl Default for Geometry {
    fn default() -> (r: Geometry)
        ensures
            r@ == empty_box(),
    {
        Geometry::Primitive(
            PrimitiveShape::Box { size: [Scalar::zero(), Scalar::zero(), Scalar::zero()] },
        )
    }
}

/// The geometry that a workcell's geometry is written out as.
pub open spec fn geometry_as_urdf(geometry: GeometryView) -> urdf::GeometryView {
    match geometry {
        GeometryView::Mesh { source, scale } => urdf::GeometryView::Mesh {
            filename: asset_path(source),
            scale,
        },
        GeometryView::Primitive(PrimitiveShape::Box { size }) => urdf::GeometryView::Box { size },
        GeometryView::Primitive(PrimitiveShape::Cylinder { radius, length }) => {
            urdf::GeometryView::Cylinder { radius, length }
        },
        GeometryView::Primitive(PrimitiveShape::Capsule { radius, length }) => {
            urdf::GeometryView::Capsule { radius, length }
        },
        GeometryView::Primitive(PrimitiveShape::Sphere { radius }) => urdf::GeometryView::Sphere {
            radius,
        },
    }
}

/// The geometry that a description's geometry stands for.
pub open spec fn geometry_of_urdf(geometry: urdf::GeometryView) -> GeometryView {
    match geometry {
        urdf::GeometryView::Box { size } => GeometryView::Primitive(PrimitiveShape::Box { size }),
        urdf::GeometryView::Cylinder { radius, length } => GeometryView::Primitive(
            PrimitiveShape::Cylinder { radius, length },
        ),
        urdf::GeometryView::Capsule { radius, length } => GeometryView::Primitive(
            PrimitiveShape::Capsule { radius, length },
        ),
        urdf::GeometryView::Sphere { radius } => GeometryView::Primitive(
            PrimitiveShape::Sphere { radius },
        ),
        urdf::GeometryView::Mesh { filename, scale } => GeometryView::Mesh {
            source: asset_of_path(filename),
            scale,
        },
    }
}

/// A description's geometry, read and written out again, is unchanged.
pub proof fn lemma_geometry_round_trip(geometry: urdf::GeometryView)
    ensures
        geometry_as_urdf(geometry_of_urdf(geometry)) == geometry,
{
    if let urdf::GeometryView::Mesh { filename, scale } = geometry {
        lemma_asset_path_round_trip(filename);
    }
}

impl Geometry {
    /// Reads a description's geometry.
    pub fn from_urdf(geometry: &urdf::Geometry) -> (r: Geometry)
        ensures
            r@ == geometry_of_urdf(geometry@),
    {
        match geometry {
            urdf::Geometry::Box { size } => Geometry::Primitive(PrimitiveShape::Box { size: *size }),
            urdf::Geometry::Cylinder { radius, length } => Geometry::Primitive(
                PrimitiveShape::Cylinder { radius: *radius, length: *length },
            ),
            urdf::Geometry::Capsule { radius, length } => Geometry::Primitive(
                PrimitiveShape::Capsule { radius: *radius, length: *length },
            ),
            urdf::Geometry::Sphere { radius } => Geometry::Primitive(
                PrimitiveShape::Sphere { radius: *radius },
            ),
            urdf::Geometry::Mesh { filename, scale } => Geometry::Mesh {
                source: AssetSource::from_asset_path(filename.as_str()),
                scale: *scale,
            },
        }
    }

    /// Writes the geometry out for a description.
    pub fn to_urdf(&self) -> (r: urdf::Geometry)
        ensures
            r@ == geometry_as_urdf(self@),
    {
        match self {
            Geometry::Mesh { source, scale } => urdf::Geometry::Mesh {
                filename: source.as_asset_path(),
                scale: *scale,
            },
            Geometry::Primitive(PrimitiveShape::Box { size }) => urdf::Geometry::Box { size: *size },
            Geometry::Primitive(PrimitiveShape::Cylinder { radius, length }) => {
                urdf::Geometry::Cylinder { radius: *radius, length: *length }
            },
            Geometry::Primitive(PrimitiveShape::Capsule { radius, length }) => {
                urdf::Geometry::Capsule { radius: *radius, length: *length }
            },
            Geometry::Primitive(PrimitiveShape::Sphere { radius }) => urdf::Geometry::Sphere {
                radius: *radius,
            },
        }
    }
}

/// A named shape with its pose in the frame that carries it.
#[derive(Clone, Debug, PartialEq, Eq)]
pub struct WorkcellModel {
    pub name: String,
    pub geometry: Geometry,
    pub pose: Pose,
}

/// Model of a [`WorkcellModel`].
pub struct WorkcellModelView {
    pub name: Seq<char>,
    pub geometry: GeometryView,
    pub pose: Pose,
}

impl View for WorkcellModel {
    type V = WorkcellModelView;

    open spec fn view(&self) -> WorkcellModelView {
        WorkcellModelView { name: self.name@, geometry: self.geometry@, pose: self.pose }
    }
}

impl Default for WorkcellModel {
    fn default() -> (r: WorkcellModel)
        ensures
            r@ == (WorkcellModelView {
                name: Seq::empty(),
                geometry: empty_box(),
                pose: Pose::identity(),
            }),
    {
        WorkcellModel { name: String::new(), geometry: Geometry::default(), pose: Pose::default() }
    }
}

/// The model that a link's visual or collision entry stands for. An entry
/// without a name gives a model with the empty name.
pub open spec fn model_of_element(element: urdf::ElementView) -> WorkcellModelView {
    WorkcellModelView {
        name: match element.name {
            Some(name) => name,
            None => Seq::empty(),
        },
        geometry: geometry_of_urdf(element.geometry),
        pose: element.origin,
    }
}

/// The visual or collision entry that a model is written out as.
pub open spec fn element_of_model(model: WorkcellModelView) -> urdf::ElementView {
    urdf::ElementView {
        name: Some(model.name),
        origin: model.pose,
        geometry: geometry_as_urdf(model.geometry),
    }
}

impl WorkcellModel {
    /// Builds a model from the parts of a visual or collision entry.
    pub fn from_urdf_data(
        pose: &Pose,
        name: &Option<String>,
        geometry: &urdf::Geometry,
    ) -> (r: WorkcellModel)
        ensures
            r@ == model_of_element(
                urdf::ElementView {
                    name: urdf::name_view(*name),
                    origin: *pose,
                    geometry: geometry@,
                },
            ),
    {
        WorkcellModel {
            name: match name {
                Some(n) => n.clone(),
                None => String::new(),
            },
            geometry: Geometry::from_urdf(geometry),
            pose: *pose,
        }
    }

    pub fn from_visual(visual: &urdf::Visual) -> (r: WorkcellModel)
        ensures
            r@ == model_of_element(visual@),
    {
        WorkcellModel::from_urdf_data(&visual.origin, &visual.name, &visual.geometry)
    }

    pub fn from_collision(collision: &urdf::Collision) -> (r: WorkcellModel)
        ensures
            r@ == model_of_element(collision@),
    {
        WorkcellModel::from_urdf_data(&collision.origin, &collision.name, &collision.geometry)
    }

    pub fn to_visual(&self) -> (r: urdf::Visual)
        ensures
            r@ == element_of_model(self@),
    {
        urdf::Visual {
            name: Some(self.name.clone()),
            origin: self.pose,
            geometry: self.geometry.to_urdf(),
        }
    }

    pub fn to_collision(&self) -> (r: urdf::Collision)
        ensures
            r@ == element_of_model(self@),
    {
        urdf::Collision {
            name: Some(self.name.clone()),
            origin: self.pose,
            geometry: self.geometry.to_urdf(),
        }
    }
}

/// A named entry, read as a model and written out again, is unchanged; an
/// entry without a name comes back with the empty name.
pub proof fn lemma_element_round_trip(element: urdf::ElementView)
    ensures
        element_of_model(model_of_element(element)) == (urdf::ElementView {
            name: Some(model_of_element(element).name),
            ..element
        }),
{
    lemma_geometry_round_trip(element.geometry);
}

} // verus!
