use crate::double::Double;
use crate::error::EncodeError;
use crate::error::SchemaError;
use crate::json::distinct_members;
use crate::json::lemma_lookup_finds;
use crate::json::member_views;
use crate::json::number_field;
use crate::json::number_json;
use crate::json::Json;
use crate::json::JsonView;
use crate::json::Members;
use vstd::prelude::*;

verus! {

/// A rotation given as a quaternion. It need not be normalized.
#[derive(Copy, Clone, Debug)]
pub struct Rotation {
    pub qx: Double,
    pub qy: Double,
    pub qz: Double,
    pub qw: Double,
}

impl Rotation {
    /// Builds a rotation from its four components, as given.
    pub fn new(qx: Double, qy: Double, qz: Double, qw: Double) -> (r: Rotation)
        ensures
            r == (Rotation { qx, qy, qz, qw }),
    {
        Rotation { qx, qy, qz, qw }
    }

    /// Every component is equal, as numbers, to the other's.
    pub open spec fn same(self, other: Rotation) -> bool {
        &&& self.qx.same_number(other.qx)
        &&& self.qy.same_number(other.qy)
        &&& self.qz.same_number(other.qz)
        &&& self.qw.same_number(other.qw)
    }

    /// No component is NaN.
    pub open spec fn nan_free(self) -> bool {
        !self.qx.nan() && !self.qy.nan() && !self.qz.nan() && !self.qw.nan()
    }

    /// Every component is finite.
    pub open spec fn finite(self) -> bool {
        self.qx.finite() && self.qy.finite() && self.qz.finite() && self.qw.finite()
    }

    /// Tells whether every component is finite.
    pub fn is_finite(&self) -> (r: bool)
        ensures
            r == self.finite(),
    {
        self.qx.is_finite() && self.qy.is_finite() && self.qz.is_finite() && self.qw.is_finite()
    }
}

impl Rotation {
    /// The entries of the object that a document shows for the rotation.
    pub open spec fn members(self) -> Members {
        seq![
            ("qx"@, number_json(self.qx)),
            ("qy"@, number_json(self.qy)),
            ("qz"@, number_json(self.qz)),
            ("qw"@, number_json(self.qw)),
        ]
    }

    /// The tree that a document shows for the rotation: an object with the
    /// keys `qx`, `qy`, `qz` and `qw`, in this order.
    pub open spec fn json(self) -> JsonView {
        JsonView::Object(self.members())
    }

    /// The rotation that a tree stands for: each of the keys is required and
    /// holds a number. The error is that of the first key, in the order of
    /// the keys, that is not so. Other keys are passed over.
    pub open spec fn of_json(json: JsonView) -> Result<Rotation, SchemaError> {
        let qx = number_field(json, "qx"@);
        let qy = number_field(json, "qy"@);
        let qz = number_field(json, "qz"@);
        let qw = number_field(json, "qw"@);
        if qx is Err {
            Err(qx->Err_0)
        } else if qy is Err {
            Err(qy->Err_0)
        } else if qz is Err {
            Err(qz->Err_0)
        } else if qw is Err {
            Err(qw->Err_0)
        } else {
            Ok(Rotation { qx: qx->Ok_0, qy: qy->Ok_0, qz: qz->Ok_0, qw: qw->Ok_0 })
        }
    }

    /// The keys of the object are distinct.
    pub proof fn lemma_distinct_members(self)
        ensures
            distinct_members(self.members()),
    {
        reveal_strlit("qx");
        reveal_strlit("qy");
        reveal_strlit("qz");
        reveal_strlit("qw");
        let m = self.members();
        assert(m[0].0[1] == 'x' && m[1].0[1] == 'y' && m[2].0[1] == 'z' && m[3].0[1] == 'w');
    }

    /// Reading the tree of a rotation gives the rotation, bit for bit.
    pub proof fn lemma_json_inverts(self)
        ensures
            Rotation::of_json(self.json()) == Ok::<Rotation, SchemaError>(self),
    {
        self.lemma_distinct_members();
        lemma_lookup_finds(self.members(), 0);
        lemma_lookup_finds(self.members(), 1);
        lemma_lookup_finds(self.members(), 2);
        lemma_lookup_finds(self.members(), 3);
    }

    /// Builds the tree that a document shows for the rotation. There is one
    /// exactly when every number is finite.
    pub fn to_json(&self) -> (r: Result<Json, EncodeError>)
        ensures
            match r {
                Ok(json) => self.finite() && json@ == self.json(),
                Err(_) => !self.finite(),
            },
    {
        if !self.is_finite() {
            return Err(EncodeError::NonFinite);
        }
        let mut entries: Vec<(String, Json)> = Vec::new();
        entries.push((String::from_str("qx"), Json::number(self.qx)));
        entries.push((String::from_str("qy"), Json::number(self.qy)));
        entries.push((String::from_str("qz"), Json::number(self.qz)));
        entries.push((String::from_str("qw"), Json::number(self.qw)));
        let json = Json::Object(entries);
        proof {
            json.lemma_view();
            assert(member_views(entries@) =~= self.members());
        }
        Ok(json)
    }

    /// Reads a rotation from a tree.
    pub fn from_json(json: &Json) -> (r: Result<Rotation, SchemaError>)
        ensures
            r == Rotation::of_json(json@),
    {
        let qx = match json.number_field("qx") {
            Ok(value) => value,
            Err(e) => {
                return Err(e);
            },
        };
        let qy = match json.number_field("qy") {
            Ok(value) => value,
            Err(e) => {
                return Err(e);
            },
        };
        let qz = match json.number_field("qz") {
            Ok(value) => value,
            Err(e) => {
                return Err(e);
            },
        };
        let qw = match json.number_field("qw") {
            Ok(value) => value,
            Err(e) => {
                return Err(e);
            },
        };
        Ok(Rotation { qx, qy, qz, qw })
    }
}

/// Equality component by component; see [`Rotation::same`].
impl PartialEq for Rotation {
    fn eq(&self, other: &Self) -> (same: bool) {
        self.qx == other.qx && self.qy == other.qy && self.qz == other.qz && self.qw == other.qw
    }
}

impl vstd::std_specs::cmp::PartialEqSpecImpl for Rotation {
    open spec fn obeys_eq_spec() -> bool {
        true
    }

    open spec fn eq_spec(&self, other: &Self) -> bool {
        self.same(*other)
    }
}

} // verus!
