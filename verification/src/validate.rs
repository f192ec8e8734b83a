use crate::file::File;
use crate::file::FileView;
use crate::mesh::MeshView;
use std::collections::HashMap;
use vstd::prelude::*;

verus! {

broadcast use vstd::std_specs::hash::group_hash_axioms;

/// What makes a file inconsistent, with the position of the mesh or of the
/// element that shows it.
#[derive(Copy, Clone, Debug, PartialEq, Eq, Structural)]
pub enum ValidationError {
    /// The coordinates of a mesh are not three for each vertex.
    CoordinateCount { mesh: usize },
    /// The indices of a mesh are not three for each triangle.
    IndexCount { mesh: usize },
    /// An index of a mesh is negative or names no vertex of the mesh.
    IndexOutOfRange { mesh: usize },
    /// A mesh has the key of a mesh before it.
    RepeatedMeshId { mesh: usize },
    /// An element refers to a mesh that the file does not hold.
    UnknownMesh { element: usize },
    /// The face colors of an element are not four for each color.
    FaceColorLength { element: usize },
    /// The face colors of an element are not as many as the triangles of
    /// its mesh.
    FaceColorCount { element: usize },
}

impl MeshView {
    /// Every index names a vertex of the mesh.
    pub open spec fn indices_in_range(self) -> bool {
        forall|k: int|
            0 <= k < self.indices.len() ==> 0 <= (#[trigger] self.indices[k]) < self.vertex_count()
    }

    /// The buffers are whole: three coordinates for each vertex, three
    /// indices for each triangle, and each index names a vertex.
    pub open spec fn valid(self) -> bool {
        &&& self.coordinates.len() % 3 == 0
        &&& self.indices.len() % 3 == 0
        &&& self.indices_in_range()
    }
}

/// Some mesh has the key `id`.
pub open spec fn has_mesh(meshes: Seq<MeshView>, id: i32) -> bool {
    exists|j: int| 0 <= j < meshes.len() && (#[trigger] meshes[j]).mesh_id == id
}

/// The position of a mesh with the key `id`; meaningful when there is one.
pub open spec fn position_of_mesh(meshes: Seq<MeshView>, id: i32) -> int {
    choose|j: int| 0 <= j < meshes.len() && (#[trigger] meshes[j]).mesh_id == id
}

/// No two meshes have the same key.
pub open spec fn distinct_mesh_ids(meshes: Seq<MeshView>) -> bool {
    forall|i: int, j: int|
        0 <= i < j < meshes.len() ==> (#[trigger] meshes[i]).mesh_id != (
        #[trigger] meshes[j]).mesh_id
}

/// The key of the mesh at position `i` is that of a mesh before it.
pub open spec fn repeats_mesh_id(meshes: Seq<MeshView>, i: int) -> bool {
    exists|j: int| 0 <= j < i && (#[trigger] meshes[j]).mesh_id == meshes[i].mesh_id
}

/// What is wrong with the mesh at position `i`, if anything: the first of
/// coordinate count, index count, index range and repeated key.
pub open spec fn mesh_defect(meshes: Seq<MeshView>, i: int) -> Option<ValidationError> {
    let mesh = meshes[i];
    if mesh.coordinates.len() % 3 != 0 {
        Some(ValidationError::CoordinateCount { mesh: i as usize })
    } else if mesh.indices.len() % 3 != 0 {
        Some(ValidationError::IndexCount { mesh: i as usize })
    } else if !mesh.indices_in_range() {
        Some(ValidationError::IndexOutOfRange { mesh: i as usize })
    } else if repeats_mesh_id(meshes, i) {
        Some(ValidationError::RepeatedMeshId { mesh: i as usize })
    } else {
        None
    }
}

/// What is wrong with the element at position `i`, if anything: the first
/// of unknown mesh, face color length and face color count.
pub open spec fn element_defect(file: FileView, i: int) -> Option<ValidationError> {
    let element = file.elements[i];
    if !has_mesh(file.meshes, element.mesh_id) {
        Some(ValidationError::UnknownMesh { element: i as usize })
    } else {
        match element.face_colors {
            None => None,
            Some(colors) => {
                let mesh = file.meshes[position_of_mesh(file.meshes, element.mesh_id)];
                if colors.len() % 4 != 0 {
                    Some(ValidationError::FaceColorLength { element: i as usize })
                } else if colors.len() / 4 != mesh.triangle_count() {
                    Some(ValidationError::FaceColorCount { element: i as usize })
                } else {
                    None
                }
            },
        }
    }
}

/// The defect at the first of the positions `0..n` that has one.
pub open spec fn first_defect(
    n: int,
    defect: spec_fn(int) -> Option<ValidationError>,
) -> Option<ValidationError>
    decreases n,
{
    if n <= 0 {
        None
    } else {
        match first_defect(n - 1, defect) {
            Some(e) => Some(e),
            None => defect(n - 1),
        }
    }
}

/// The first defect of a file: that of its first defective mesh, or else
/// that of its first defective element.
pub open spec fn validation(file: FileView) -> Result<(), ValidationError> {
    match first_defect(file.meshes.len() as int, |i: int| mesh_defect(file.meshes, i)) {
        Some(e) => Err(e),
        None => match first_defect(file.elements.len() as int, |i: int| element_defect(file, i)) {
            Some(e) => Err(e),
            None => Ok(()),
        },
    }
}

/// A file is consistent: every mesh is whole, no two meshes share a key,
/// every element refers to a mesh of the file, and face colors, where
/// there are any, are four numbers for each triangle of that mesh.
pub open spec fn valid(file: FileView) -> bool {
    &&& forall|i: int| 0 <= i < file.meshes.len() ==> (#[trigger] file.meshes[i]).valid()
    &&& distinct_mesh_ids(file.meshes)
    &&& forall|i: int|
        0 <= i < file.elements.len() ==> has_mesh(
            file.meshes,
            (#[trigger] file.elements[i]).mesh_id,
        )
    &&& forall|i: int|
        0 <= i < file.elements.len() ==> ((#[trigger] file.elements[i]).face_colors matches Some(
            colors,
        ) ==> colors.len() % 4 == 0 && colors.len() / 4 == file.meshes[position_of_mesh(
            file.meshes,
            file.elements[i].mesh_id,
        )].triangle_count())
}

/// There is no defect among the first positions exactly when none of them
/// has one.
pub proof fn lemma_first_defect_none(n: int, defect: spec_fn(int) -> Option<ValidationError>)
    ensures
        first_defect(n, defect) is None <==> forall|i: int|
            0 <= i < n ==> (#[trigger] defect(i)) is None,
    decreases n,
{
    if n > 0 {
        lemma_first_defect_none(n - 1, defect);
        if first_defect(n, defect) is None {
            assert forall|i: int| 0 <= i < n implies (#[trigger] defect(i)) is None by {
                if i == n - 1 {
                } else {
                    assert(0 <= i < n - 1);
                }
            }
        }
        if forall|i: int| 0 <= i < n ==> (#[trigger] defect(i)) is None {
            assert(defect(n - 1) is None);
        }
    }
}

/// A defect found among the first positions is the first defect of all.
pub proof fn lemma_first_defect_stays(
    n: int,
    defect: spec_fn(int) -> Option<ValidationError>,
    m: int,
)
    requires
        0 <= m <= n,
        first_defect(m, defect) is Some,
    ensures
        first_defect(n, defect) == first_defect(m, defect),
    decreases n - m,
{
    if m < n {
        lemma_first_defect_stays(n, defect, m + 1);
    }
}

/// Validation finds nothing exactly in the consistent files.
pub proof fn lemma_validation_ok_is_valid(file: FileView)
    ensures
        validation(file) is Ok <==> valid(file),
{
    let of_mesh = |i: int| mesh_defect(file.meshes, i);
    let of_element = |i: int| element_defect(file, i);
    lemma_first_defect_none(file.meshes.len() as int, of_mesh);
    lemma_first_defect_none(file.elements.len() as int, of_element);
    if validation(file) is Ok {
        assert forall|i: int| 0 <= i < file.meshes.len() implies (
        #[trigger] file.meshes[i]).valid() by {
            assert(of_mesh(i) is None);
        }
        assert forall|i: int, j: int| 0 <= i < j < file.meshes.len() implies (
        #[trigger] file.meshes[i]).mesh_id != (#[trigger] file.meshes[j]).mesh_id by {
            assert(of_mesh(j) is None);
        }
        assert forall|i: int| 0 <= i < file.elements.len() implies has_mesh(
            file.meshes,
            (#[trigger] file.elements[i]).mesh_id,
        ) by {
            assert(of_element(i) is None);
        }
        assert forall|i: int| 0 <= i < file.elements.len() implies ((
        #[trigger] file.elements[i]).face_colors matches Some(colors) ==> colors.len() % 4 == 0
            && colors.len() / 4 == file.meshes[position_of_mesh(
            file.meshes,
            file.elements[i].mesh_id,
        )].triangle_count()) by {
            assert(of_element(i) is None);
        }
    }
    if valid(file) {
        assert forall|i: int| 0 <= i < file.meshes.len() implies (#[trigger] of_mesh(i)) is None by {
            if repeats_mesh_id(file.meshes, i) {
                let j = choose|j: int|
                    0 <= j < i && (#[trigger] file.meshes[j]).mesh_id == file.meshes[i].mesh_id;
                assert(file.meshes[j].mesh_id != file.meshes[i].mesh_id);
            }
        }
        assert forall|i: int| 0 <= i < file.elements.len() implies (#[trigger] of_element(i))
            is None by {
            assert(has_mesh(file.meshes, file.elements[i].mesh_id));
        }
    }
}

/// Tells whether every index names one of `vertices` vertices.
fn indices_in_range(indices: &Vec<i32>, vertices: usize) -> (r: bool)
    ensures
        r == forall|k: int| 0 <= k < indices.len() ==> 0 <= (#[trigger] indices@[k]) < vertices,
{
    let mut k: usize = 0;
    while k < indices.len()
        invariant
            k <= indices.len(),
            forall|j: int| 0 <= j < k ==> 0 <= (#[trigger] indices@[j]) < vertices,
        decreases indices.len() - k,
    {
        let index: i32 = indices[k];
        if index < 0 || index as usize >= vertices {
            return false;
        }
        k += 1;
    }
    true
}

impl File {
    /// Looks for what makes the file inconsistent and reports the first
    /// defect: meshes first, each for its coordinate count, index count,
    /// index range and key, then elements, each for its mesh and its face
    /// colors.
    ///
    /// Building and reading a file check none of this.
    pub fn validate(&self) -> (r: Result<(), ValidationError>)
        ensures
            r == validation(self@),
    {
        let ghost file = self@;
        let ghost of_mesh = |i: int| mesh_defect(file.meshes, i);
        let ghost of_element = |i: int| element_defect(file, i);
        let mut positions: HashMap<i32, usize> = HashMap::new();
        let mut i: usize = 0;
        while i < self.meshes.len()
            invariant
                i <= self.meshes.len(),
                file == self@,
                of_mesh == |i: int| mesh_defect(file.meshes, i),
                first_defect(i as int, of_mesh) is None,
                forall|id: i32| #[trigger]
                    positions@.contains_key(id) <==> exists|j: int|
                        0 <= j < i && (#[trigger] file.meshes[j]).mesh_id == id,
                forall|id: i32| #[trigger]
                    positions@.contains_key(id) ==> positions@[id] < i && file.meshes[positions@[id] as int].mesh_id
                        == id,
            decreases self.meshes.len() - i,
        {
            let mesh = &self.meshes[i];
            let found = if mesh.coordinates.len() % 3 != 0 {
                Some(ValidationError::CoordinateCount { mesh: i })
            } else if mesh.indices.len() % 3 != 0 {
                Some(ValidationError::IndexCount { mesh: i })
            } else if !indices_in_range(&mesh.indices, mesh.coordinates.len() / 3) {
                Some(ValidationError::IndexOutOfRange { mesh: i })
            } else if positions.contains_key(&mesh.mesh_id) {
                Some(ValidationError::RepeatedMeshId { mesh: i })
            } else {
                None
            };
            match found {
                Some(e) => {
                    proof {
                        lemma_first_defect_stays(self.meshes.len() as int, of_mesh, i + 1);
                    }
                    return Err(e);
                },
                None => {},
            }
            positions.insert(mesh.mesh_id, i);
            i += 1;
        }
        proof {
            lemma_first_defect_none(file.meshes.len() as int, of_mesh);
            assert forall|a: int, b: int| 0 <= a < b < file.meshes.len() implies (
            #[trigger] file.meshes[a]).mesh_id != (#[trigger] file.meshes[b]).mesh_id by {
                assert(of_mesh(b) is None);
            }
        }
        let mut k: usize = 0;
        while k < self.elements.len()
            invariant
                k <= self.elements.len(),
                file == self@,
                of_mesh == |i: int| mesh_defect(file.meshes, i),
                of_element == |i: int| element_defect(file, i),
                first_defect(file.meshes.len() as int, of_mesh) is None,
                first_defect(k as int, of_element) is None,
                distinct_mesh_ids(file.meshes),
                forall|id: i32| #[trigger]
                    positions@.contains_key(id) <==> has_mesh(file.meshes, id),
                forall|id: i32| #[trigger]
                    positions@.contains_key(id) ==> positions@[id] < self.meshes.len()
                        && file.meshes[positions@[id] as int].mesh_id == id,
            decreases self.elements.len() - k,
        {
            let element = &self.elements[k];
            let found = match positions.get(&element.mesh_id) {
                None => Some(ValidationError::UnknownMesh { element: k }),
                Some(position) => {
                    let mesh = &self.meshes[*position];
                    proof {
                        let p = position_of_mesh(file.meshes, element.mesh_id);
                        if p < *position {
                            assert(file.meshes[p].mesh_id != file.meshes[*position as int].mesh_id);
                        } else if *position < p {
                            assert(file.meshes[*position as int].mesh_id != file.meshes[p].mesh_id);
                        }
                    }
                    match &element.face_colors {
                        None => None,
                        Some(colors) => {
                            if colors.len() % 4 != 0 {
                                Some(ValidationError::FaceColorLength { element: k })
                            } else if colors.len() / 4 != mesh.indices.len() / 3 {
                                Some(ValidationError::FaceColorCount { element: k })
                            } else {
                                None
                            }
                        },
                    }
                },
            };
            match found {
                Some(e) => {
                    proof {
                        lemma_first_defect_stays(self.elements.len() as int, of_element, k + 1);
                    }
                    return Err(e);
                },
                None => {},
            }
            k += 1;
        }
        Ok(())
    }
}

} // verus!
