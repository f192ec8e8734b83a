use crate::element::element_views;
use crate::element::elements_finite;
use crate::element::elements_from_json;
use crate::element::elements_json;
use crate::element::elements_of_json;
use crate::element::elements_to_json;
use crate::element::lemma_elements_json_inverts;
use crate::element::lemma_elements_of_json_well_formed;
use crate::element::Element;
use crate::element::ElementView;
use crate::error::DecodeError;
use crate::error::EncodeError;
use crate::error::SchemaError;
use crate::info::info_json;
use crate::info::info_of_json;
use crate::info::lemma_info_json_inverts;
use crate::info::lemma_info_of_json_distinct;
use crate::json::distinct_members;
use crate::json::lemma_lookup_finds;
use crate::json::lemma_lookup_passes_over;
use crate::json::member_views;
use crate::json::parsed_json;
use crate::json::text_field;
use crate::json::Json;
use crate::json::JsonView;
use crate::json::Members;
use crate::mesh::lemma_meshes_json_inverts;
use crate::mesh::mesh_views;
use crate::mesh::meshes_finite;
use crate::mesh::meshes_from_json;
use crate::mesh::meshes_json;
use crate::mesh::meshes_of_json;
use crate::mesh::meshes_to_json;
use crate::info::distinct_keys;
use crate::info::lemma_same_mapping_reflexive;
use crate::info::lemma_same_mapping_symmetric;
use crate::info::same_mapping;
use crate::info::Entries;
use crate::info::Info;
use crate::mesh::Mesh;
use crate::mesh::MeshView;
use vstd::prelude::*;

verus! {

/// A whole document: the meshes, the elements that place them, and
/// metadata.
#[derive(Clone, Debug)]
pub struct File {
    pub schema_version: String,
    /// The meshes, in the order of the document.
    pub meshes: Vec<Mesh>,
    /// The elements, in the order of the document.
    pub elements: Vec<Element>,
    pub info: Info,
}

/// A file as a mathematical value.
pub struct FileView {
    pub schema_version: Seq<char>,
    pub meshes: Seq<MeshView>,
    pub elements: Seq<ElementView>,
    pub info: Entries,
}

impl FileView {
    /// The meshes are as many on both sides and equal position by position.
    pub open spec fn same_meshes(self, other: FileView) -> bool {
        &&& self.meshes.len() == other.meshes.len()
        &&& forall|i: int|
            0 <= i < self.meshes.len() ==> (#[trigger] self.meshes[i]).same(other.meshes[i])
    }

    /// The elements are as many on both sides and equal position by
    /// position.
    pub open spec fn same_elements(self, other: FileView) -> bool {
        &&& self.elements.len() == other.elements.len()
        &&& forall|i: int|
            0 <= i < self.elements.len() ==> (#[trigger] self.elements[i]).same(other.elements[i])
    }

    /// Equality of files: equal version, meshes and elements equal
    /// position by position, and `info` equal as a mapping.
    pub open spec fn same(self, other: FileView) -> bool {
        &&& self.schema_version == other.schema_version
        &&& self.same_meshes(other)
        &&& self.same_elements(other)
        &&& same_mapping(self.info, other.info)
    }

    /// No key occurs twice in `info`, nor in the `info` of an element.
    pub open spec fn well_formed(self) -> bool {
        &&& distinct_keys(self.info)
        &&& forall|i: int|
            0 <= i < self.elements.len() ==> (#[trigger] self.elements[i]).well_formed()
    }

    /// No number in the file is NaN.
    pub open spec fn nan_free(self) -> bool {
        &&& forall|i: int| 0 <= i < self.meshes.len() ==> (#[trigger] self.meshes[i]).nan_free()
        &&& forall|i: int|
            0 <= i < self.elements.len() ==> (#[trigger] self.elements[i]).nan_free()
    }

    /// Every number in the file is finite.
    pub open spec fn finite(self) -> bool {
        meshes_finite(self.meshes) && elements_finite(self.elements)
    }

    /// The entries of the object that a document shows for the file.
    pub open spec fn members(self) -> Members {
        seq![
            ("schema_version"@, JsonView::String(self.schema_version)),
            ("meshes"@, meshes_json(self.meshes)),
            ("elements"@, elements_json(self.elements)),
            ("info"@, info_json(self.info)),
        ]
    }

    /// The tree that a document shows for the file: an object with the keys
    /// `schema_version`, `meshes`, `elements` and `info`, in this order and
    /// all four always there.
    pub open spec fn json(self) -> JsonView {
        JsonView::Object(self.members())
    }

    /// The meshes of a tree: what its key `meshes` stands for.
    pub open spec fn meshes_of(json: JsonView) -> Result<Seq<MeshView>, SchemaError> {
        match json.field("meshes"@) {
            Ok(value) => meshes_of_json(value),
            Err(e) => Err(e),
        }
    }

    /// The elements of a tree: what its key `elements` stands for.
    pub open spec fn elements_of(json: JsonView) -> Result<Seq<ElementView>, SchemaError> {
        match json.field("elements"@) {
            Ok(value) => elements_of_json(value),
            Err(e) => Err(e),
        }
    }

    /// The metadata of a tree: what its key `info` stands for.
    pub open spec fn info_of(json: JsonView) -> Result<Entries, SchemaError> {
        match json.field("info"@) {
            Ok(value) => info_of_json(value),
            Err(e) => Err(e),
        }
    }

    /// The file that a tree stands for. All four keys are required. The
    /// error is that of the first key, in the order of
    /// [`FileView::members`], whose value is missing or of another shape.
    /// Other keys are passed over.
    pub open spec fn of_json(json: JsonView) -> Result<FileView, SchemaError> {
        let schema_version = text_field(json, "schema_version"@);
        let meshes = FileView::meshes_of(json);
        let elements = FileView::elements_of(json);
        let info = FileView::info_of(json);
        if schema_version is Err {
            Err(schema_version->Err_0)
        } else if meshes is Err {
            Err(meshes->Err_0)
        } else if elements is Err {
            Err(elements->Err_0)
        } else if info is Err {
            Err(info->Err_0)
        } else {
            Ok(
                FileView {
                    schema_version: schema_version->Ok_0,
                    meshes: meshes->Ok_0,
                    elements: elements->Ok_0,
                    info: info->Ok_0,
                },
            )
        }
    }

    /// What the text of a document stands for: nothing where the text is
    /// not JSON, otherwise what its tree stands for.
    pub open spec fn of_text(text: Seq<char>) -> Option<Result<FileView, SchemaError>> {
        match parsed_json(text) {
            Some(json) => Some(FileView::of_json(json)),
            None => None,
        }
    }

    /// A text that is read as the tree of a file stands for the file.
    pub proof fn lemma_document_of_file(self, text: Seq<char>)
        requires
            self.well_formed(),
            parsed_json(text) == Some(self.json()),
        ensures
            FileView::of_text(text) == Some(Ok::<FileView, SchemaError>(self)),
    {
        self.lemma_json_inverts();
    }

    /// The keys of the object are distinct.
    pub proof fn lemma_distinct_members(self)
        ensures
            distinct_members(self.members()),
    {
        reveal_strlit("schema_version");
        reveal_strlit("meshes");
        reveal_strlit("elements");
        reveal_strlit("info");
        let m = self.members();
        assert(m[0].0[0] == 's' && m[1].0[0] == 'm' && m[2].0[0] == 'e' && m[3].0[0] == 'i');
    }

    /// A key that is none of the four, put into the object at any place,
    /// changes nothing of what is read.
    pub proof fn lemma_other_keys_are_passed_over(
        members: Members,
        at: int,
        extra: (Seq<char>, JsonView),
    )
        requires
            0 <= at <= members.len(),
            extra.0 != "schema_version"@,
            extra.0 != "meshes"@,
            extra.0 != "elements"@,
            extra.0 != "info"@,
        ensures
            FileView::of_json(JsonView::Object(members.insert(at, extra))) == FileView::of_json(
                JsonView::Object(members),
            ),
    {
        lemma_lookup_passes_over(members, at, extra, "schema_version"@);
        lemma_lookup_passes_over(members, at, extra, "meshes"@);
        lemma_lookup_passes_over(members, at, extra, "elements"@);
        lemma_lookup_passes_over(members, at, extra, "info"@);
    }

    /// The file that is read from a tree repeats no key in its `info`, nor
    /// in that of an element.
    pub proof fn lemma_of_json_well_formed(json: JsonView)
        ensures
            FileView::of_json(json) matches Ok(file) ==> file.well_formed(),
    {
        if let Ok(value) = json.field("info"@) {
            lemma_info_of_json_distinct(value);
        }
        if let Ok(value) = json.field("elements"@) {
            lemma_elements_of_json_well_formed(value);
        }
    }

    /// Reading the tree of a file gives the file, bit for bit.
    pub proof fn lemma_json_inverts(self)
        requires
            self.well_formed(),
        ensures
            FileView::of_json(self.json()) == Ok::<FileView, SchemaError>(self),
    {
        self.lemma_distinct_members();
        lemma_lookup_finds(self.members(), 0);
        lemma_lookup_finds(self.members(), 1);
        lemma_lookup_finds(self.members(), 2);
        lemma_lookup_finds(self.members(), 3);
        lemma_meshes_json_inverts(self.meshes);
        lemma_elements_json_inverts(self.elements);
        lemma_info_json_inverts(self.info);
    }

    /// A file that has a tree is equal to the file that is read back from
    /// the tree.
    pub proof fn lemma_round_trip(self)
        requires
            self.well_formed(),
            self.finite(),
        ensures
            FileView::of_json(self.json()) matches Ok(back) && back.same(self) && self.same(back),
    {
        self.lemma_json_inverts();
        self.lemma_finite_is_nan_free();
        self.lemma_same_reflexive();
    }

    /// A file whose numbers are finite holds no NaN.
    pub proof fn lemma_finite_is_nan_free(self)
        requires
            self.finite(),
        ensures
            self.nan_free(),
    {
        assert forall|i: int| 0 <= i < self.meshes.len() implies (
        #[trigger] self.meshes[i]).nan_free() by {
            assert(self.meshes[i].finite());
        }
        assert forall|i: int| 0 <= i < self.elements.len() implies (
        #[trigger] self.elements[i]).nan_free() by {
            assert(self.elements[i].finite());
        }
    }
}

impl FileView {
    /// A file equals itself exactly when none of its numbers is NaN.
    pub proof fn lemma_same_reflexive(self)
        ensures
            self.same(self) <==> self.nan_free(),
    {
        lemma_same_mapping_reflexive(self.info);
        assert forall|i: int| 0 <= i < self.meshes.len() implies ((#[trigger] self.meshes[i]).same(
            self.meshes[i],
        ) <==> self.meshes[i].nan_free()) by {
            self.meshes[i].lemma_same_reflexive();
        }
        assert forall|i: int| 0 <= i < self.elements.len() implies ((
        #[trigger] self.elements[i]).same(self.elements[i]) <==> self.elements[i].nan_free()) by {
            self.elements[i].lemma_same_reflexive();
        }
    }

    /// Equality of files does not depend on which side is asked.
    pub proof fn lemma_same_symmetric(self, other: FileView)
        requires
            self.well_formed(),
            other.well_formed(),
        ensures
            self.same(other) == other.same(self),
    {
        lemma_same_mapping_symmetric(self.info, other.info);
        if self.meshes.len() == other.meshes.len() {
            assert forall|i: int| 0 <= i < self.meshes.len() implies (#[trigger] self.meshes[i]).same(
                other.meshes[i],
            ) == (#[trigger] other.meshes[i]).same(self.meshes[i]) by {
                self.meshes[i].lemma_same_symmetric(other.meshes[i]);
            }
        }
        if self.elements.len() == other.elements.len() {
            assert forall|i: int| 0 <= i < self.elements.len() implies (
            #[trigger] self.elements[i]).same(other.elements[i]) == (
            #[trigger] other.elements[i]).same(self.elements[i]) by {
                self.elements[i].lemma_same_symmetric(other.elements[i]);
            }
        }
    }

    /// The order of the meshes counts: a file whose meshes at two
    /// positions differ is not equal to the file that has those two meshes
    /// exchanged.
    pub proof fn lemma_mesh_order_matters(self, i: int, j: int)
        requires
            0 <= i < self.meshes.len(),
            0 <= j < self.meshes.len(),
            !self.meshes[i].same(self.meshes[j]),
        ensures
            !self.same(
                FileView {
                    meshes: self.meshes.update(i, self.meshes[j]).update(j, self.meshes[i]),
                    ..self
                },
            ),
    {
        let exchanged = self.meshes.update(i, self.meshes[j]).update(j, self.meshes[i]);
        assert(exchanged[i] == self.meshes[j]);
    }

    /// The order of the entries of `info` does not count: a file that is
    /// equal to itself is equal to the file that has the same entries in
    /// another order.
    pub proof fn lemma_info_order_is_irrelevant(self, reordered: Entries)
        requires
            self.nan_free(),
            reordered.to_multiset() == self.info.to_multiset(),
        ensures
            self.same(FileView { info: reordered, ..self }),
            (FileView { info: reordered, ..self }).same(self),
    {
        self.lemma_same_reflexive();
        vstd::seq_lib::to_multiset_len(self.info);
        vstd::seq_lib::to_multiset_len(reordered);
        assert forall|i: int| 0 <= i < self.info.len() implies reordered.contains(
            #[trigger] self.info[i],
        ) by {
            vstd::seq_lib::to_multiset_contains(self.info, self.info[i]);
            vstd::seq_lib::to_multiset_contains(reordered, self.info[i]);
        }
        assert forall|i: int| 0 <= i < reordered.len() implies self.info.contains(
            #[trigger] reordered[i],
        ) by {
            vstd::seq_lib::to_multiset_contains(self.info, reordered[i]);
            vstd::seq_lib::to_multiset_contains(reordered, reordered[i]);
        }
    }
}

impl View for File {
    type V = FileView;

    open spec fn view(&self) -> FileView {
        FileView {
            schema_version: self.schema_version@,
            meshes: mesh_views(self.meshes@),
            elements: element_views(self.elements@),
            info: self.info@,
        }
    }
}

impl File {
    /// Builds a file from its fields, as given.
    pub fn new(schema_version: String, meshes: Vec<Mesh>, elements: Vec<Element>, info: Info) -> (file:
        File)
        ensures
            file == (File { schema_version, meshes, elements, info }),
    {
        File { schema_version, meshes, elements, info }
    }

    /// Tells whether every number in the file is finite.
    pub fn is_finite(&self) -> (r: bool)
        ensures
            r == self@.finite(),
    {
        let mut i: usize = 0;
        while i < self.meshes.len()
            invariant
                i <= self.meshes.len(),
                forall|j: int| 0 <= j < i ==> (#[trigger] self@.meshes[j]).finite(),
            decreases self.meshes.len() - i,
        {
            if !self.meshes[i].is_finite() {
                assert(!self@.meshes[i as int].finite());
                return false;
            }
            i += 1;
        }
        let mut k: usize = 0;
        while k < self.elements.len()
            invariant
                k <= self.elements.len(),
                meshes_finite(self@.meshes),
                forall|j: int| 0 <= j < k ==> (#[trigger] self@.elements[j]).finite(),
            decreases self.elements.len() - k,
        {
            if !self.elements[k].is_finite() {
                assert(!self@.elements[k as int].finite());
                return false;
            }
            k += 1;
        }
        true
    }

    /// Builds the tree that a document shows for the file. There is one
    /// exactly when every number in the file is finite.
    pub fn to_json(&self) -> (r: Result<Json, EncodeError>)
        ensures
            match r {
                Ok(json) => self@.finite() && json@ == self@.json(),
                Err(_) => !self@.finite(),
            },
    {
        let meshes = match meshes_to_json(&self.meshes) {
            Ok(json) => json,
            Err(e) => {
                return Err(e);
            },
        };
        let elements = match elements_to_json(&self.elements) {
            Ok(json) => json,
            Err(e) => {
                return Err(e);
            },
        };
        let mut entries: Vec<(String, Json)> = Vec::new();
        entries.push((String::from_str("schema_version"), Json::text(&self.schema_version)));
        entries.push((String::from_str("meshes"), meshes));
        entries.push((String::from_str("elements"), elements));
        entries.push((String::from_str("info"), self.info.to_json()));
        let json = Json::Object(entries);
        proof {
            json.lemma_view();
            assert(member_views(entries@) =~= self@.members());
        }
        Ok(json)
    }

    /// Reads a file from a tree.
    pub fn from_json(json: &Json) -> (r: Result<File, SchemaError>)
        ensures
            match r {
                Ok(file) => FileView::of_json(json@) == Ok::<FileView, SchemaError>(file@),
                Err(e) => FileView::of_json(json@) == Err::<FileView, SchemaError>(e),
            },
    {
        let schema_version = match json.text_field("schema_version") {
            Ok(value) => value,
            Err(e) => {
                return Err(e);
            },
        };
        let meshes = match json.field("meshes") {
            Ok(value) => match meshes_from_json(value) {
                Ok(meshes) => meshes,
                Err(e) => {
                    return Err(e);
                },
            },
            Err(e) => {
                return Err(e);
            },
        };
        let elements = match json.field("elements") {
            Ok(value) => match elements_from_json(value) {
                Ok(elements) => elements,
                Err(e) => {
                    return Err(e);
                },
            },
            Err(e) => {
                return Err(e);
            },
        };
        let info = match json.field("info") {
            Ok(value) => match Info::from_json(value) {
                Ok(info) => info,
                Err(e) => {
                    return Err(e);
                },
            },
            Err(e) => {
                return Err(e);
            },
        };
        Ok(File { schema_version, meshes, elements, info })
    }

    /// Reads a file from the text of a document.
    ///
    /// A text that is not JSON gives [`DecodeError::Syntax`]. A text that is
    /// JSON is read as [`File::from_json`] reads its tree, and what that
    /// refuses gives [`DecodeError::Schema`].
    pub fn decode(text: &str) -> (r: Result<File, DecodeError>)
        ensures
            match r {
                Ok(file) => FileView::of_text(text@) == Some(Ok::<FileView, SchemaError>(file@)),
                Err(DecodeError::Syntax(_)) => FileView::of_text(text@) is None,
                Err(DecodeError::Schema(e)) => FileView::of_text(text@) == Some(
                    Err::<FileView, SchemaError>(e),
                ),
            },
    {
        let json = match Json::parse(text) {
            Ok(json) => json,
            Err(e) => {
                return Err(e);
            },
        };
        match File::from_json(&json) {
            Ok(file) => Ok(file),
            Err(e) => Err(DecodeError::Schema(e)),
        }
    }
}

/// Equality of files; see [`FileView::same`]. Meshes and elements are
/// compared position by position, not by their keys.
impl PartialEq for File {
    fn eq(&self, other: &Self) -> (same: bool) {
        if self.schema_version != other.schema_version {
            return false;
        }
        if self.meshes.len() != other.meshes.len() {
            return false;
        }
        let mut i: usize = 0;
        while i < self.meshes.len()
            invariant
                i <= self.meshes.len(),
                self.meshes.len() == other.meshes.len(),
                forall|j: int| 0 <= j < i ==> (#[trigger] self@.meshes[j]).same(other@.meshes[j]),
            decreases self.meshes.len() - i,
        {
            if self.meshes[i] != other.meshes[i] {
                assert(!self@.meshes[i as int].same(other@.meshes[i as int]));
                return false;
            }
            i += 1;
        }
        if self.elements.len() != other.elements.len() {
            return false;
        }
        let mut k: usize = 0;
        while k < self.elements.len()
            invariant
                k <= self.elements.len(),
                self.elements.len() == other.elements.len(),
                forall|j: int|
                    0 <= j < k ==> (#[trigger] self@.elements[j]).same(other@.elements[j]),
            decreases self.elements.len() - k,
        {
            if self.elements[k] != other.elements[k] {
                assert(!self@.elements[k as int].same(other@.elements[k as int]));
                return false;
            }
            k += 1;
        }
        if self.info != other.info {
            return false;
        }
        true
    }
}

impl vstd::std_specs::cmp::PartialEqSpecImpl for File {
    open spec fn obeys_eq_spec() -> bool {
        true
    }

    open spec fn eq_spec(&self, other: &Self) -> bool {
        self@.same(other@)
    }
}

} // verus!
