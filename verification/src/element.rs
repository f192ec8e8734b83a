use crate::buffer::integers_equal;
use crate::color::Color;
use crate::error::EncodeError;
use crate::error::SchemaError;
use crate::info::info_json;
use crate::info::info_of_json;
use crate::info::lemma_info_json_inverts;
use crate::info::lemma_info_of_json_distinct;
use crate::json::lemma_collect_ok;
use crate::json::collect;
use crate::json::distinct_members;
use crate::json::integer_field;
use crate::json::integer_json;
use crate::json::integers_json;
use crate::json::item_views;
use crate::json::lemma_collect_error_stays;
use crate::json::lemma_collect_inverts;
use crate::json::lemma_integers_invert;
use crate::json::lemma_lookup_finds;
use crate::json::lemma_lookup_misses;
use crate::json::lemma_lookup_passes_over;
use crate::json::lookup;
use crate::json::member_views;
use crate::json::text_field;
use crate::json::Json;
use crate::json::JsonView;
use crate::json::Members;
use crate::info::distinct_keys;
use crate::info::lemma_same_mapping_reflexive;
use crate::info::lemma_same_mapping_symmetric;
use crate::info::same_mapping;
use crate::info::Entries;
use crate::info::Info;
use crate::rotation::Rotation;
use crate::vector::Vector;
use vstd::prelude::*;

verus! {

/// A placed instance of a mesh.
#[derive(Clone, Debug)]
pub struct Element {
    /// The key of the mesh that this element shows. It is matched against
    /// [`crate::Mesh::mesh_id`], not against a position in the file.
    pub mesh_id: i32,
    pub vector: Vector,
    pub rotation: Rotation,
    /// An identifier, by convention a UUID. It is not checked.
    pub guid: String,
    /// The kind of element. In a document its key is `type`.
    pub element_type: String,
    pub color: Color,
    /// Colors that override `color` triangle by triangle: four channels
    /// (red, green, blue, alpha) for each triangle of the mesh, in the
    /// order of its triangles.
    pub face_colors: Option<Vec<i32>>,
    pub info: Info,
}

/// An element as a mathematical value.
pub struct ElementView {
    pub mesh_id: i32,
    pub vector: Vector,
    pub rotation: Rotation,
    pub guid: Seq<char>,
    pub element_type: Seq<char>,
    pub color: Color,
    pub face_colors: Option<Seq<i32>>,
    pub info: Entries,
}

impl ElementView {
    /// Equality of elements: every field equal, numbers as numbers, the
    /// face colors absent on both sides or present and equal on both, and
    /// `info` as a mapping.
    pub open spec fn same(self, other: ElementView) -> bool {
        &&& self.mesh_id == other.mesh_id
        &&& self.vector.same(other.vector)
        &&& self.rotation.same(other.rotation)
        &&& self.guid == other.guid
        &&& self.element_type == other.element_type
        &&& self.color == other.color
        &&& self.face_colors == other.face_colors
        &&& same_mapping(self.info, other.info)
    }

    /// An element equals itself exactly when none of its numbers is NaN.
    pub proof fn lemma_same_reflexive(self)
        ensures
            self.same(self) <==> self.nan_free(),
    {
        lemma_same_mapping_reflexive(self.info);
    }

    /// Equality of elements does not depend on which side is asked.
    pub proof fn lemma_same_symmetric(self, other: ElementView)
        requires
            self.well_formed(),
            other.well_formed(),
        ensures
            self.same(other) == other.same(self),
    {
        lemma_same_mapping_symmetric(self.info, other.info);
    }

    /// An element without face colors differs from the element that has
    /// the same fields and an empty list of face colors, whichever of the
    /// two is asked.
    pub proof fn lemma_absent_is_not_empty(self)
        requires
            self.face_colors is None,
        ensures
            !self.same(ElementView { face_colors: Some(Seq::empty()), ..self }),
            !(ElementView { face_colors: Some(Seq::empty()), ..self }).same(self),
    {
    }

    /// The entries that a document always shows before the face colors.
    pub open spec fn leading_members(self) -> Members {
        seq![
            ("mesh_id"@, integer_json(self.mesh_id)),
            ("vector"@, self.vector.json()),
            ("rotation"@, self.rotation.json()),
            ("guid"@, JsonView::String(self.guid)),
            ("type"@, JsonView::String(self.element_type)),
            ("color"@, self.color.json()),
        ]
    }

    /// The entries of the object that a document shows for the element:
    /// `mesh_id`, `vector`, `rotation`, `guid`, `type`, `color`, then
    /// `face_colors` where there are face colors, then `info`.
    pub open spec fn members(self) -> Members {
        match self.face_colors {
            Some(colors) => self.leading_members().push(
                ("face_colors"@, integers_json(colors)),
            ).push(("info"@, info_json(self.info))),
            None => self.leading_members().push(("info"@, info_json(self.info))),
        }
    }

    /// The tree that a document shows for the element.
    pub open spec fn json(self) -> JsonView {
        JsonView::Object(self.members())
    }

    /// The placement of a tree: what its key `vector` stands for.
    pub open spec fn vector_of(json: JsonView) -> Result<Vector, SchemaError> {
        match json.field("vector"@) {
            Ok(value) => Vector::of_json(value),
            Err(e) => Err(e),
        }
    }

    /// The rotation of a tree: what its key `rotation` stands for.
    pub open spec fn rotation_of(json: JsonView) -> Result<Rotation, SchemaError> {
        match json.field("rotation"@) {
            Ok(value) => Rotation::of_json(value),
            Err(e) => Err(e),
        }
    }

    /// The color of a tree: what its key `color` stands for.
    pub open spec fn color_of(json: JsonView) -> Result<Color, SchemaError> {
        match json.field("color"@) {
            Ok(value) => Color::of_json(value),
            Err(e) => Err(e),
        }
    }

    /// The face colors of a tree: none where the key `face_colors` is left
    /// out or holds `null`, otherwise the integers of the array under it.
    pub open spec fn face_colors_of(json: JsonView) -> Result<Option<Seq<i32>>, SchemaError> {
        match json.optional_field("face_colors"@) {
            Ok(Some(value)) => match value.integers() {
                Ok(colors) => Ok(Some(colors)),
                Err(e) => Err(e),
            },
            Ok(None) => Ok(None),
            Err(e) => Err(e),
        }
    }

    /// The metadata of a tree: what its key `info` stands for.
    pub open spec fn info_of(json: JsonView) -> Result<Entries, SchemaError> {
        match json.field("info"@) {
            Ok(value) => info_of_json(value),
            Err(e) => Err(e),
        }
    }

    /// The element that a tree stands for. Every key but `face_colors` is
    /// required. The error is that of the first key, in the order of
    /// [`ElementView::members`], whose value is missing or of another
    /// shape. Other keys are passed over.
    pub open spec fn of_json(json: JsonView) -> Result<ElementView, SchemaError> {
        let mesh_id = integer_field(json, "mesh_id"@);
        let vector = ElementView::vector_of(json);
        let rotation = ElementView::rotation_of(json);
        let guid = text_field(json, "guid"@);
        let element_type = text_field(json, "type"@);
        let color = ElementView::color_of(json);
        let face_colors = ElementView::face_colors_of(json);
        let info = ElementView::info_of(json);
        if mesh_id is Err {
            Err(mesh_id->Err_0)
        } else if vector is Err {
            Err(vector->Err_0)
        } else if rotation is Err {
            Err(rotation->Err_0)
        } else if guid is Err {
            Err(guid->Err_0)
        } else if element_type is Err {
            Err(element_type->Err_0)
        } else if color is Err {
            Err(color->Err_0)
        } else if face_colors is Err {
            Err(face_colors->Err_0)
        } else if info is Err {
            Err(info->Err_0)
        } else {
            Ok(
                ElementView {
                    mesh_id: mesh_id->Ok_0,
                    vector: vector->Ok_0,
                    rotation: rotation->Ok_0,
                    guid: guid->Ok_0,
                    element_type: element_type->Ok_0,
                    color: color->Ok_0,
                    face_colors: face_colors->Ok_0,
                    info: info->Ok_0,
                },
            )
        }
    }

    /// The keys of the object are distinct, and `face_colors` and
    /// `element_type` are not among those that are always there.
    pub proof fn lemma_distinct_members(self)
        ensures
            distinct_members(self.members()),
            forall|i: int|
                0 <= i < self.leading_members().len() ==> {
                    &&& (#[trigger] self.leading_members()[i]).0 != "face_colors"@
                    &&& self.leading_members()[i].0 != "element_type"@
                },
            "info"@ != "face_colors"@,
            "info"@ != "element_type"@,
            "face_colors"@ != "element_type"@,
    {
        reveal_strlit("mesh_id");
        reveal_strlit("vector");
        reveal_strlit("rotation");
        reveal_strlit("guid");
        reveal_strlit("type");
        reveal_strlit("color");
        reveal_strlit("face_colors");
        reveal_strlit("info");
        reveal_strlit("element_type");
        let h = self.leading_members();
        assert(h[0].0[0] == 'm' && h[1].0[0] == 'v' && h[2].0[0] == 'r' && h[3].0[0] == 'g'
            && h[4].0[0] == 't' && h[5].0[0] == 'c');
        assert("face_colors"@[0] == 'f' && "info"@[0] == 'i' && "element_type"@[0] == 'e');
        let m = self.members();
        assert forall|i: int, j: int| 0 <= i < j < m.len() implies (#[trigger] m[i]).0 != (
        #[trigger] m[j]).0 by {
            if i < 6 {
                assert(m[i] == h[i]);
            }
            if j < 6 {
                assert(m[j] == h[j]);
            }
        }
    }

    /// Where there are no face colors the object has no key `face_colors`
    /// at all; where there are, the key holds exactly their array.
    pub proof fn lemma_face_colors_key(self)
        ensures
            lookup(self.members(), "face_colors"@) == match self.face_colors {
                Some(colors) => Some(integers_json(colors)),
                None => None,
            },
            self.face_colors is None ==> forall|i: int|
                0 <= i < self.members().len() ==> (#[trigger] self.members()[i]).0
                    != "face_colors"@,
    {
        self.lemma_distinct_members();
        let m = self.members();
        let h = self.leading_members();
        match self.face_colors {
            Some(colors) => {
                lemma_lookup_finds(m, 6);
            },
            None => {
                assert forall|i: int| 0 <= i < m.len() implies (#[trigger] m[i]).0
                    != "face_colors"@ by {
                    if i < 6 {
                        assert(m[i] == h[i]);
                    }
                }
                lemma_lookup_misses(m, "face_colors"@);
            },
        }
    }

    /// The kind of the element stands under the key `type`, and the object
    /// has no key `element_type`.
    pub proof fn lemma_type_key(self)
        ensures
            lookup(self.members(), "type"@) == Some(JsonView::String(self.element_type)),
            lookup(self.members(), "element_type"@) is None,
    {
        self.lemma_distinct_members();
        let m = self.members();
        let h = self.leading_members();
        lemma_lookup_finds(m, 4);
        assert forall|i: int| 0 <= i < m.len() implies (#[trigger] m[i]).0 != "element_type"@ by {
            if i < 6 {
                assert(m[i] == h[i]);
            }
        }
        lemma_lookup_misses(m, "element_type"@);
    }

    /// A key that the format does not know, put into the object at any
    /// place, changes nothing of what is read.
    pub proof fn lemma_other_keys_are_passed_over(
        members: Members,
        at: int,
        extra: (Seq<char>, JsonView),
    )
        requires
            0 <= at <= members.len(),
            extra.0 != "mesh_id"@,
            extra.0 != "vector"@,
            extra.0 != "rotation"@,
            extra.0 != "guid"@,
            extra.0 != "type"@,
            extra.0 != "color"@,
            extra.0 != "face_colors"@,
            extra.0 != "info"@,
        ensures
            ElementView::of_json(JsonView::Object(members.insert(at, extra)))
                == ElementView::of_json(JsonView::Object(members)),
    {
        lemma_lookup_passes_over(members, at, extra, "mesh_id"@);
        lemma_lookup_passes_over(members, at, extra, "vector"@);
        lemma_lookup_passes_over(members, at, extra, "rotation"@);
        lemma_lookup_passes_over(members, at, extra, "guid"@);
        lemma_lookup_passes_over(members, at, extra, "type"@);
        lemma_lookup_passes_over(members, at, extra, "color"@);
        lemma_lookup_passes_over(members, at, extra, "face_colors"@);
        lemma_lookup_passes_over(members, at, extra, "info"@);
    }

    /// The element that is read from a tree repeats no key in its `info`.
    pub proof fn lemma_of_json_well_formed(json: JsonView)
        ensures
            ElementView::of_json(json) matches Ok(element) ==> element.well_formed(),
    {
        if let Ok(value) = json.field("info"@) {
            lemma_info_of_json_distinct(value);
        }
    }

    /// Reading the tree of an element gives the element, bit for bit.
    pub proof fn lemma_json_inverts(self)
        requires
            self.well_formed(),
        ensures
            ElementView::of_json(self.json()) == Ok::<ElementView, SchemaError>(self),
    {
        self.lemma_distinct_members();
        self.lemma_face_colors_key();
        let m = self.members();
        let h = self.leading_members();
        assert(m[0] == h[0] && m[1] == h[1] && m[2] == h[2] && m[3] == h[3] && m[4] == h[4] && m[5]
            == h[5]);
        lemma_lookup_finds(m, 0);
        lemma_lookup_finds(m, 1);
        lemma_lookup_finds(m, 2);
        lemma_lookup_finds(m, 3);
        lemma_lookup_finds(m, 4);
        lemma_lookup_finds(m, 5);
        lemma_lookup_finds(m, m.len() - 1);
        self.vector.lemma_json_inverts();
        self.rotation.lemma_json_inverts();
        self.color.lemma_json_inverts();
        lemma_info_json_inverts(self.info);
        if let Some(colors) = self.face_colors {
            lemma_integers_invert(colors);
        }
    }

    /// No key of `info` occurs twice.
    pub open spec fn well_formed(self) -> bool {
        distinct_keys(self.info)
    }

    /// No number of the placement is NaN.
    pub open spec fn nan_free(self) -> bool {
        self.vector.nan_free() && self.rotation.nan_free()
    }

    /// Every number of the placement is finite.
    pub open spec fn finite(self) -> bool {
        self.vector.finite() && self.rotation.finite()
    }
}

impl View for Element {
    type V = ElementView;

    open spec fn view(&self) -> ElementView {
        ElementView {
            mesh_id: self.mesh_id,
            vector: self.vector,
            rotation: self.rotation,
            guid: self.guid@,
            element_type: self.element_type@,
            color: self.color,
            face_colors: match self.face_colors {
                Some(colors) => Some(colors@),
                None => None,
            },
            info: self.info@,
        }
    }
}

impl Element {
    /// Builds an element from its fields, as given.
    pub fn new(
        mesh_id: i32,
        vector: Vector,
        rotation: Rotation,
        guid: String,
        element_type: String,
        color: Color,
        face_colors: Option<Vec<i32>>,
        info: Info,
    ) -> (element: Element)
        ensures
            element == (Element {
                mesh_id,
                vector,
                rotation,
                guid,
                element_type,
                color,
                face_colors,
                info,
            }),
    {
        Element { mesh_id, vector, rotation, guid, element_type, color, face_colors, info }
    }

    /// Tells whether every number of the placement is finite.
    pub fn is_finite(&self) -> (r: bool)
        ensures
            r == self@.finite(),
    {
        self.vector.is_finite() && self.rotation.is_finite()
    }
}

impl Element {
    /// Builds the tree that a document shows for the element. There is one
    /// exactly when every number of the placement is finite.
    pub fn to_json(&self) -> (r: Result<Json, EncodeError>)
        ensures
            match r {
                Ok(json) => self@.finite() && json@ == self@.json(),
                Err(_) => !self@.finite(),
            },
    {
        let vector = match self.vector.to_json() {
            Ok(json) => json,
            Err(e) => {
                return Err(e);
            },
        };
        let rotation = match self.rotation.to_json() {
            Ok(json) => json,
            Err(e) => {
                return Err(e);
            },
        };
        let mut entries: Vec<(String, Json)> = Vec::new();
        entries.push((String::from_str("mesh_id"), Json::integer(self.mesh_id)));
        entries.push((String::from_str("vector"), vector));
        entries.push((String::from_str("rotation"), rotation));
        entries.push((String::from_str("guid"), Json::text(&self.guid)));
        entries.push((String::from_str("type"), Json::text(&self.element_type)));
        entries.push((String::from_str("color"), self.color.to_json()));
        match &self.face_colors {
            Some(colors) => {
                entries.push((String::from_str("face_colors"), Json::integers(colors)));
            },
            None => {},
        }
        entries.push((String::from_str("info"), self.info.to_json()));
        let json = Json::Object(entries);
        proof {
            json.lemma_view();
            assert(member_views(entries@) =~= self@.members());
        }
        Ok(json)
    }

    /// Reads an element from a tree.
    pub fn from_json(json: &Json) -> (r: Result<Element, SchemaError>)
        ensures
            match r {
                Ok(element) => ElementView::of_json(json@) == Ok::<ElementView, SchemaError>(
                    element@,
                ),
                Err(e) => ElementView::of_json(json@) == Err::<ElementView, SchemaError>(e),
            },
    {
        let mesh_id = match json.integer_field("mesh_id") {
            Ok(value) => value,
            Err(e) => {
                return Err(e);
            },
        };
        let vector = match json.field("vector") {
            Ok(value) => match Vector::from_json(value) {
                Ok(vector) => vector,
                Err(e) => {
                    return Err(e);
                },
            },
            Err(e) => {
                return Err(e);
            },
        };
        let rotation = match json.field("rotation") {
            Ok(value) => match Rotation::from_json(value) {
                Ok(rotation) => rotation,
                Err(e) => {
                    return Err(e);
                },
            },
            Err(e) => {
                return Err(e);
            },
        };
        let guid = match json.text_field("guid") {
            Ok(value) => value,
            Err(e) => {
                return Err(e);
            },
        };
        let element_type = match json.text_field("type") {
            Ok(value) => value,
            Err(e) => {
                return Err(e);
            },
        };
        let color = match json.field("color") {
            Ok(value) => match Color::from_json(value) {
                Ok(color) => color,
                Err(e) => {
                    return Err(e);
                },
            },
            Err(e) => {
                return Err(e);
            },
        };
        let face_colors = match json.optional_field("face_colors") {
            Ok(Some(value)) => match value.as_integers() {
                Ok(colors) => Some(colors),
                Err(e) => {
                    return Err(e);
                },
            },
            Ok(None) => None,
            Err(e) => {
                return Err(e);
            },
        };
        let info = match json.field("info") {
            Ok(value) => match Info::from_json(value) {
                Ok(info) => info,
                Err(e) => {
                    return Err(e);
                },
            },
            Err(e) => {
                return Err(e);
            },
        };
        Ok(Element { mesh_id, vector, rotation, guid, element_type, color, face_colors, info })
    }
}

/// The elements of a list as mathematical values.
pub open spec fn element_views(elements: Seq<Element>) -> Seq<ElementView> {
    elements.map_values(|e: Element| e@)
}

/// Every number of every placement is finite.
pub open spec fn elements_finite(elements: Seq<ElementView>) -> bool {
    forall|i: int| 0 <= i < elements.len() ==> (#[trigger] elements[i]).finite()
}

/// The array that a document shows for a list of elements.
pub open spec fn elements_json(elements: Seq<ElementView>) -> JsonView {
    JsonView::Array(elements.map_values(|e: ElementView| e.json()))
}

/// The elements that a tree stands for: an array of elements. The error is
/// that of the first item that is no element.
pub open spec fn elements_of_json(json: JsonView) -> Result<Seq<ElementView>, SchemaError> {
    match json {
        JsonView::Array(items) => collect(items, |j: JsonView| ElementView::of_json(j)),
        _ => Err(SchemaError::Mistyped),
    }
}

/// The elements that are read from a tree repeat no key in their `info`.
pub proof fn lemma_elements_of_json_well_formed(json: JsonView)
    ensures
        elements_of_json(json) matches Ok(elements) ==> forall|i: int|
            0 <= i < elements.len() ==> (#[trigger] elements[i]).well_formed(),
{
    if let JsonView::Array(items) = json {
        let read = |j: JsonView| ElementView::of_json(j);
        lemma_collect_ok(items, read);
        if let Ok(elements) = elements_of_json(json) {
            assert forall|i: int| 0 <= i < elements.len() implies (
            #[trigger] elements[i]).well_formed() by {
                ElementView::lemma_of_json_well_formed(items[i]);
            }
        }
    }
}

/// Reading the array of some elements gives the elements.
pub proof fn lemma_elements_json_inverts(elements: Seq<ElementView>)
    requires
        forall|i: int| 0 <= i < elements.len() ==> (#[trigger] elements[i]).well_formed(),
    ensures
        elements_of_json(elements_json(elements)) == Ok::<Seq<ElementView>, SchemaError>(elements),
{
    assert forall|i: int| 0 <= i < elements.len() implies ElementView::of_json(
        (#[trigger] elements[i]).json(),
    ) == Ok::<ElementView, SchemaError>(elements[i]) by {
        elements[i].lemma_json_inverts();
    }
    lemma_collect_inverts(
        elements,
        |e: ElementView| e.json(),
        |j: JsonView| ElementView::of_json(j),
    );
}

/// Builds the array that a document shows for a list of elements. There is
/// one exactly when every number of every placement is finite.
pub fn elements_to_json(elements: &Vec<Element>) -> (r: Result<Json, EncodeError>)
    ensures
        match r {
            Ok(json) => elements_finite(element_views(elements@)) && json@ == elements_json(
                element_views(elements@),
            ),
            Err(_) => !elements_finite(element_views(elements@)),
        },
{
    let mut items: Vec<Json> = Vec::new();
    let mut i: usize = 0;
    while i < elements.len()
        invariant
            i <= elements.len(),
            items.len() == i,
            forall|k: int| 0 <= k < i ==> (#[trigger] elements@[k])@.finite(),
            forall|k: int| 0 <= k < i ==> (#[trigger] items@[k])@ == elements@[k]@.json(),
        decreases elements.len() - i,
    {
        match elements[i].to_json() {
            Ok(json) => {
                items.push(json);
            },
            Err(e) => {
                assert(!element_views(elements@)[i as int].finite());
                return Err(e);
            },
        }
        i += 1;
    }
    let json = Json::Array(items);
    proof {
        json.lemma_view();
        assert(item_views(items@) =~= element_views(elements@).map_values(
            |e: ElementView| e.json(),
        ));
        assert forall|k: int| 0 <= k < element_views(elements@).len() implies (
        #[trigger] element_views(elements@)[k]).finite() by {
            assert(elements@[k]@.finite());
        }
    }
    Ok(json)
}

/// Reads a list of elements from a tree.
pub fn elements_from_json(json: &Json) -> (r: Result<Vec<Element>, SchemaError>)
    ensures
        match r {
            Ok(elements) => elements_of_json(json@) == Ok::<Seq<ElementView>, SchemaError>(
                element_views(elements@),
            ),
            Err(e) => elements_of_json(json@) == Err::<Seq<ElementView>, SchemaError>(e),
        },
{
    let items = match json.as_items() {
        Ok(items) => items,
        Err(e) => {
            return Err(e);
        },
    };
    let ghost views = item_views(items@);
    let ghost read = |j: JsonView| ElementView::of_json(j);
    let mut elements: Vec<Element> = Vec::new();
    let mut i: usize = 0;
    assert(element_views(elements@) =~= Seq::empty());
    while i < items.len()
        invariant
            i <= items.len(),
            views == item_views(items@),
            json@ == JsonView::Array(views),
            read == |j: JsonView| ElementView::of_json(j),
            collect(views.take(i as int), read) == Ok::<Seq<ElementView>, SchemaError>(
                element_views(elements@),
            ),
        decreases items.len() - i,
    {
        assert(views.take(i + 1).drop_last() =~= views.take(i as int));
        match Element::from_json(&items[i]) {
            Ok(element) => {
                let ghost before = element_views(elements@);
                elements.push(element);
                assert(element_views(elements@) =~= before.push(element@));
            },
            Err(e) => {
                proof {
                    assert(collect(views.take(i + 1), read) == Err::<
                        Seq<ElementView>,
                        SchemaError,
                    >(e));
                    lemma_collect_error_stays(views, read, i + 1);
                }
                return Err(e);
            },
        }
        i += 1;
    }
    assert(views.take(i as int) =~= views);
    Ok(elements)
}

/// Equality of elements; see [`ElementView::same`]. The fields are
/// compared in their order, and the first that differs ends the comparison.
impl PartialEq for Element {
    fn eq(&self, other: &Self) -> (same: bool) {
        if self.mesh_id != other.mesh_id {
            return false;
        }
        if self.vector != other.vector {
            return false;
        }
        if self.rotation != other.rotation {
            return false;
        }
        if self.guid != other.guid {
            return false;
        }
        if self.element_type != other.element_type {
            return false;
        }
        if self.color != other.color {
            return false;
        }
        match (&self.face_colors, &other.face_colors) {
            (None, None) => {},
            (Some(mine), Some(theirs)) => {
                if !integers_equal(mine, theirs) {
                    return false;
                }
            },
            _ => {
                return false;
            },
        }
        if self.info != other.info {
            return false;
        }
        true
    }
}

impl vstd::std_specs::cmp::PartialEqSpecImpl for Element {
    open spec fn obeys_eq_spec() -> bool {
        true
    }

    open spec fn eq_spec(&self, other: &Self) -> bool {
        self@.same(other@)
    }
}

} // verus!
