use crate::buffer::all_finite;
use crate::buffer::integers_equal;
use crate::buffer::none_nan;
use crate::buffer::numbers_equal;
use crate::buffer::numbers_finite;
use crate::buffer::same_numbers;
use crate::double::Double;
use crate::error::EncodeError;
use crate::error::SchemaError;
use crate::json::collect;
use crate::json::distinct_members;
use crate::json::integer_field;
use crate::json::integer_json;
use crate::json::integers_field;
use crate::json::integers_json;
use crate::json::item_views;
use crate::json::lemma_collect_error_stays;
use crate::json::lemma_collect_inverts;
use crate::json::lemma_integers_invert;
use crate::json::lemma_lookup_finds;
use crate::json::lemma_numbers_invert;
use crate::json::member_views;
use crate::json::numbers_field;
use crate::json::numbers_json;
use crate::json::Json;
use crate::json::JsonView;
use crate::json::Members;
use vstd::prelude::*;

verus! {

/// A geometry buffer: vertex positions and the triangles over them.
///
/// `coordinates` holds three numbers for each vertex, `indices` three vertex
/// numbers for each triangle. Neither is checked when a mesh is built; see
/// [`crate::validate`].
#[derive(Clone, Debug)]
pub struct Mesh {
    /// The key by which elements of the same file refer to this mesh.
    pub mesh_id: i32,
    pub coordinates: Vec<Double>,
    pub indices: Vec<i32>,
}

/// A mesh as a mathematical value.
pub struct MeshView {
    pub mesh_id: i32,
    pub coordinates: Seq<Double>,
    pub indices: Seq<i32>,
}

impl MeshView {
    /// Equal key, coordinates equal as numbers, and equal indices.
    pub open spec fn same(self, other: MeshView) -> bool {
        &&& self.mesh_id == other.mesh_id
        &&& same_numbers(self.coordinates, other.coordinates)
        &&& self.indices == other.indices
    }

    /// No coordinate is NaN.
    pub open spec fn nan_free(self) -> bool {
        none_nan(self.coordinates)
    }

    /// Every coordinate is finite.
    pub open spec fn finite(self) -> bool {
        all_finite(self.coordinates)
    }

    /// A mesh equals itself exactly when none of its coordinates is NaN.
    pub proof fn lemma_same_reflexive(self)
        ensures
            self.same(self) <==> self.nan_free(),
    {
        if self.same(self) {
            assert forall|i: int| 0 <= i < self.coordinates.len() implies !(
            #[trigger] self.coordinates[i]).nan() by {
                assert(self.coordinates[i].same_number(self.coordinates[i]));
            }
        }
    }

    /// Equality of meshes does not depend on which side is asked.
    pub proof fn lemma_same_symmetric(self, other: MeshView)
        ensures
            self.same(other) == other.same(self),
    {
        if self.same(other) {
            assert forall|i: int| 0 <= i < other.coordinates.len() implies (
            #[trigger] other.coordinates[i]).same_number(self.coordinates[i]) by {
                assert(self.coordinates[i].same_number(other.coordinates[i]));
            }
        }
        if other.same(self) {
            assert forall|i: int| 0 <= i < self.coordinates.len() implies (
            #[trigger] self.coordinates[i]).same_number(other.coordinates[i]) by {
                assert(other.coordinates[i].same_number(self.coordinates[i]));
            }
        }
    }

    /// The entries of the object that a document shows for the mesh.
    pub open spec fn members(self) -> Members {
        seq![
            ("mesh_id"@, integer_json(self.mesh_id)),
            ("coordinates"@, numbers_json(self.coordinates)),
            ("indices"@, integers_json(self.indices)),
        ]
    }

    /// The tree that a document shows for the mesh: an object with the keys
    /// `mesh_id`, `coordinates` and `indices`, in this order.
    pub open spec fn json(self) -> JsonView {
        JsonView::Object(self.members())
    }

    /// The mesh that a tree stands for: `mesh_id` holds a 32-bit integer,
    /// `coordinates` an array of numbers and `indices` an array of 32-bit
    /// integers, and all three are required. The error is that of the
    /// first key, in this order, that is not so. Other keys are passed over.
    pub open spec fn of_json(json: JsonView) -> Result<MeshView, SchemaError> {
        let mesh_id = integer_field(json, "mesh_id"@);
        let coordinates = numbers_field(json, "coordinates"@);
        let indices = integers_field(json, "indices"@);
        if mesh_id is Err {
            Err(mesh_id->Err_0)
        } else if coordinates is Err {
            Err(coordinates->Err_0)
        } else if indices is Err {
            Err(indices->Err_0)
        } else {
            Ok(
                MeshView {
                    mesh_id: mesh_id->Ok_0,
                    coordinates: coordinates->Ok_0,
                    indices: indices->Ok_0,
                },
            )
        }
    }

    /// The keys of the object are distinct.
    pub proof fn lemma_distinct_members(self)
        ensures
            distinct_members(self.members()),
    {
        reveal_strlit("mesh_id");
        reveal_strlit("coordinates");
        reveal_strlit("indices");
        let m = self.members();
        assert(m[0].0[0] == 'm' && m[1].0[0] == 'c' && m[2].0[0] == 'i');
    }

    /// Reading the tree of a mesh gives the mesh, bit for bit.
    pub proof fn lemma_json_inverts(self)
        ensures
            MeshView::of_json(self.json()) == Ok::<MeshView, SchemaError>(self),
    {
        self.lemma_distinct_members();
        lemma_lookup_finds(self.members(), 0);
        lemma_lookup_finds(self.members(), 1);
        lemma_lookup_finds(self.members(), 2);
        lemma_numbers_invert(self.coordinates);
        lemma_integers_invert(self.indices);
    }

    /// The number of vertices that the coordinates describe in full.
    pub open spec fn vertex_count(self) -> nat {
        self.coordinates.len() / 3
    }

    /// The number of triangles that the indices describe in full.
    pub open spec fn triangle_count(self) -> nat {
        self.indices.len() / 3
    }
}

impl View for Mesh {
    type V = MeshView;

    open spec fn view(&self) -> MeshView {
        MeshView {
            mesh_id: self.mesh_id,
            coordinates: self.coordinates@,
            indices: self.indices@,
        }
    }
}

impl Mesh {
    /// Builds a mesh from its key and its two buffers, as given.
    pub fn new(mesh_id: i32, coordinates: Vec<Double>, indices: Vec<i32>) -> (mesh: Mesh)
        ensures
            mesh == (Mesh { mesh_id, coordinates, indices }),
    {
        Mesh { mesh_id, coordinates, indices }
    }

    /// Tells whether every coordinate is finite.
    pub fn is_finite(&self) -> (r: bool)
        ensures
            r == self@.finite(),
    {
        numbers_finite(&self.coordinates)
    }
}

impl Mesh {
    /// Builds the tree that a document shows for the mesh. There is one
    /// exactly when every coordinate is finite.
    pub fn to_json(&self) -> (r: Result<Json, EncodeError>)
        ensures
            match r {
                Ok(json) => self@.finite() && json@ == self@.json(),
                Err(_) => !self@.finite(),
            },
    {
        if !self.is_finite() {
            return Err(EncodeError::NonFinite);
        }
        let mut entries: Vec<(String, Json)> = Vec::new();
        entries.push((String::from_str("mesh_id"), Json::integer(self.mesh_id)));
        entries.push((String::from_str("coordinates"), Json::numbers(&self.coordinates)));
        entries.push((String::from_str("indices"), Json::integers(&self.indices)));
        let json = Json::Object(entries);
        proof {
            json.lemma_view();
            assert(member_views(entries@) =~= self@.members());
        }
        Ok(json)
    }

    /// Reads a mesh from a tree.
    pub fn from_json(json: &Json) -> (r: Result<Mesh, SchemaError>)
        ensures
            match r {
                Ok(mesh) => MeshView::of_json(json@) == Ok::<MeshView, SchemaError>(mesh@),
                Err(e) => MeshView::of_json(json@) == Err::<MeshView, SchemaError>(e),
            },
    {
        let mesh_id = match json.integer_field("mesh_id") {
            Ok(value) => value,
            Err(e) => {
                return Err(e);
            },
        };
        let coordinates = match json.numbers_field("coordinates") {
            Ok(value) => value,
            Err(e) => {
                return Err(e);
            },
        };
        let indices = match json.integers_field("indices") {
            Ok(value) => value,
            Err(e) => {
                return Err(e);
            },
        };
        Ok(Mesh { mesh_id, coordinates, indices })
    }
}

/// The meshes of a list as mathematical values.
pub open spec fn mesh_views(meshes: Seq<Mesh>) -> Seq<MeshView> {
    meshes.map_values(|m: Mesh| m@)
}

/// Every coordinate of every mesh is finite.
pub open spec fn meshes_finite(meshes: Seq<MeshView>) -> bool {
    forall|i: int| 0 <= i < meshes.len() ==> (#[trigger] meshes[i]).finite()
}

/// The array that a document shows for a list of meshes.
pub open spec fn meshes_json(meshes: Seq<MeshView>) -> JsonView {
    JsonView::Array(meshes.map_values(|m: MeshView| m.json()))
}

/// The meshes that a tree stands for: an array of meshes. The error is
/// that of the first item that is no mesh.
pub open spec fn meshes_of_json(json: JsonView) -> Result<Seq<MeshView>, SchemaError> {
    match json {
        JsonView::Array(items) => collect(items, |j: JsonView| MeshView::of_json(j)),
        _ => Err(SchemaError::Mistyped),
    }
}

/// Reading the array of some meshes gives the meshes.
pub proof fn lemma_meshes_json_inverts(meshes: Seq<MeshView>)
    ensures
        meshes_of_json(meshes_json(meshes)) == Ok::<Seq<MeshView>, SchemaError>(meshes),
{
    assert forall|i: int| 0 <= i < meshes.len() implies MeshView::of_json(
        (#[trigger] meshes[i]).json(),
    ) == Ok::<MeshView, SchemaError>(meshes[i]) by {
        meshes[i].lemma_json_inverts();
    }
    lemma_collect_inverts(
        meshes,
        |m: MeshView| m.json(),
        |j: JsonView| MeshView::of_json(j),
    );
}

/// Builds the array that a document shows for a list of meshes. There is
/// one exactly when every coordinate is finite.
pub fn meshes_to_json(meshes: &Vec<Mesh>) -> (r: Result<Json, EncodeError>)
    ensures
        match r {
            Ok(json) => meshes_finite(mesh_views(meshes@)) && json@ == meshes_json(
                mesh_views(meshes@),
            ),
            Err(_) => !meshes_finite(mesh_views(meshes@)),
        },
{
    let mut items: Vec<Json> = Vec::new();
    let mut i: usize = 0;
    while i < meshes.len()
        invariant
            i <= meshes.len(),
            items.len() == i,
            forall|k: int| 0 <= k < i ==> (#[trigger] meshes@[k])@.finite(),
            forall|k: int| 0 <= k < i ==> (#[trigger] items@[k])@ == meshes@[k]@.json(),
        decreases meshes.len() - i,
    {
        match meshes[i].to_json() {
            Ok(json) => {
                items.push(json);
            },
            Err(e) => {
                assert(!mesh_views(meshes@)[i as int].finite());
                return Err(e);
            },
        }
        i += 1;
    }
    let json = Json::Array(items);
    proof {
        json.lemma_view();
        assert(item_views(items@) =~= mesh_views(meshes@).map_values(|m: MeshView| m.json()));
        assert forall|k: int| 0 <= k < mesh_views(meshes@).len() implies (#[trigger] mesh_views(
            meshes@,
        )[k]).finite() by {
            assert(meshes@[k]@.finite());
        }
    }
    Ok(json)
}

/// Reads a list of meshes from a tree.
pub fn meshes_from_json(json: &Json) -> (r: Result<Vec<Mesh>, SchemaError>)
    ensures
        match r {
            Ok(meshes) => meshes_of_json(json@) == Ok::<Seq<MeshView>, SchemaError>(
                mesh_views(meshes@),
            ),
            Err(e) => meshes_of_json(json@) == Err::<Seq<MeshView>, SchemaError>(e),
        },
{
    let items = match json.as_items() {
        Ok(items) => items,
        Err(e) => {
            return Err(e);
        },
    };
    let ghost views = item_views(items@);
    let ghost read = |j: JsonView| MeshView::of_json(j);
    let mut meshes: Vec<Mesh> = Vec::new();
    let mut i: usize = 0;
    assert(mesh_views(meshes@) =~= Seq::empty());
    while i < items.len()
        invariant
            i <= items.len(),
            views == item_views(items@),
            json@ == JsonView::Array(views),
            read == |j: JsonView| MeshView::of_json(j),
            collect(views.take(i as int), read) == Ok::<Seq<MeshView>, SchemaError>(
                mesh_views(meshes@),
            ),
        decreases items.len() - i,
    {
        assert(views.take(i + 1).drop_last() =~= views.take(i as int));
        match Mesh::from_json(&items[i]) {
            Ok(mesh) => {
                let ghost before = mesh_views(meshes@);
                meshes.push(mesh);
                assert(mesh_views(meshes@) =~= before.push(mesh@));
            },
            Err(e) => {
                proof {
                    assert(collect(views.take(i + 1), read) == Err::<Seq<MeshView>, SchemaError>(
                        e,
                    ));
                    lemma_collect_error_stays(views, read, i + 1);
                }
                return Err(e);
            },
        }
        i += 1;
    }
    assert(views.take(i as int) =~= views);
    Ok(meshes)
}

/// Equality of meshes; see [`MeshView::same`].
impl PartialEq for Mesh {
    fn eq(&self, other: &Self) -> (same: bool) {
        if self.mesh_id != other.mesh_id {
            return false;
        }
        if !numbers_equal(&self.coordinates, &other.coordinates) {
            return false;
        }
        integers_equal(&self.indices, &other.indices)
    }
}

impl vstd::std_specs::cmp::PartialEqSpecImpl for Mesh {
    open spec fn obeys_eq_spec() -> bool {
        true
    }

    open spec fn eq_spec(&self, other: &Self) -> bool {
        self@.same(other@)
    }
}

} // verus!
