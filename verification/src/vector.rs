use crate::double::Double;
use crate::error::EncodeError;
use crate::error::SchemaError;
use crate::json::distinct_members;
use crate::json::lemma_lookup_finds;
use crate::json::member_views;
use crate::json::number_field;
use crate::json::number_json;
use crate::json::Json;
use crate::json::JsonView;
use crate::json::Members;
use vstd::prelude::*;

verus! {

/// A position in three-dimensional space.
#[derive(Copy, Clone, Debug)]
pub struct Vector {
    pub x: Double,
    pub y: Double,
    pub z: Double,
}

impl Vector {
    /// Builds a position from its three coordinates, as given.
    pub fn new(x: Double, y: Double, z: Double) -> (v: Vector)
        ensures
            v == (Vector { x, y, z }),
    {
        Vector { x, y, z }
    }

    /// Every coordinate is equal, as numbers, to the other's.
    pub open spec fn same(self, other: Vector) -> bool {
        &&& self.x.same_number(other.x)
        &&& self.y.same_number(other.y)
        &&& self.z.same_number(other.z)
    }

    /// No coordinate is NaN.
    pub open spec fn nan_free(self) -> bool {
        !self.x.nan() && !self.y.nan() && !self.z.nan()
    }

    /// Every coordinate is finite.
    pub open spec fn finite(self) -> bool {
        self.x.finite() && self.y.finite() && self.z.finite()
    }

    /// Tells whether every coordinate is finite.
    pub fn is_finite(&self) -> (r: bool)
        ensures
            r == self.finite(),
    {
        self.x.is_finite() && self.y.is_finite() && self.z.is_finite()
    }
}

impl Vector {
    /// The entries of the object that a document shows for the vector.
    pub open spec fn members(self) -> Members {
        seq![
            ("x"@, number_json(self.x)),
            ("y"@, number_json(self.y)),
            ("z"@, number_json(self.z)),
        ]
    }

    /// The tree that a document shows for the vector: an object with the
    /// keys `x`, `y` and `z`, in this order.
    pub open spec fn json(self) -> JsonView {
        JsonView::Object(self.members())
    }

    /// The vector that a tree stands for: each of the keys is required and
    /// holds a number. The error is that of the first key, in the order of
    /// the keys, that is not so. Other keys are passed over.
    pub open spec fn of_json(json: JsonView) -> Result<Vector, SchemaError> {
        let x = number_field(json, "x"@);
        let y = number_field(json, "y"@);
        let z = number_field(json, "z"@);
        if x is Err {
            Err(x->Err_0)
        } else if y is Err {
            Err(y->Err_0)
        } else if z is Err {
            Err(z->Err_0)
        } else {
            Ok(Vector { x: x->Ok_0, y: y->Ok_0, z: z->Ok_0 })
        }
    }

    /// The keys of the object are distinct.
    pub proof fn lemma_distinct_members(self)
        ensures
            distinct_members(self.members()),
    {
        reveal_strlit("x");
        reveal_strlit("y");
        reveal_strlit("z");
        let m = self.members();
        assert(m[0].0[0] == 'x' && m[1].0[0] == 'y' && m[2].0[0] == 'z');
    }

    /// Reading the tree of a vector gives the vector, bit for bit.
    pub proof fn lemma_json_inverts(self)
        ensures
            Vector::of_json(self.json()) == Ok::<Vector, SchemaError>(self),
    {
        self.lemma_distinct_members();
        lemma_lookup_finds(self.members(), 0);
        lemma_lookup_finds(self.members(), 1);
        lemma_lookup_finds(self.members(), 2);
    }

    /// Builds the tree that a document shows for the vector. There is one
    /// exactly when every number is finite.
    pub fn to_json(&self) -> (r: Result<Json, EncodeError>)
        ensures
            match r {
                Ok(json) => self.finite() && json@ == self.json(),
                Err(_) => !self.finite(),
            },
    {
        if !self.is_finite() {
            return Err(EncodeError::NonFinite);
        }
        let mut entries: Vec<(String, Json)> = Vec::new();
        entries.push((String::from_str("x"), Json::number(self.x)));
        entries.push((String::from_str("y"), Json::number(self.y)));
        entries.push((String::from_str("z"), Json::number(self.z)));
        let json = Json::Object(entries);
        proof {
            json.lemma_view();
            assert(member_views(entries@) =~= self.members());
        }
        Ok(json)
    }

    /// Reads a vector from a tree.
    pub fn from_json(json: &Json) -> (r: Result<Vector, SchemaError>)
        ensures
            r == Vector::of_json(json@),
    {
        let x = match json.number_field("x") {
            Ok(value) => value,
            Err(e) => {
                return Err(e);
            },
        };
        let y = match json.number_field("y") {
            Ok(value) => value,
            Err(e) => {
                return Err(e);
            },
        };
        let z = match json.number_field("z") {
            Ok(value) => value,
            Err(e) => {
                return Err(e);
            },
        };
        Ok(Vector { x, y, z })
    }
}

/// Equality coordinate by coordinate; see [`Vector::same`].
impl PartialEq for Vector {
    fn eq(&self, other: &Self) -> (same: bool) {
        self.x == other.x && self.y == other.y && self.z == other.z
    }
}

impl vstd::std_specs::cmp::PartialEqSpecImpl for Vector {
    open spec fn obeys_eq_spec() -> bool {
        true
    }

    open spec fn eq_spec(&self, other: &Self) -> bool {
        self.same(*other)
    }
}

} // verus!
