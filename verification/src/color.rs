use crate::error::SchemaError;
use crate::json::distinct_members;
use crate::json::integer_field;
use crate::json::integer_json;
use crate::json::lemma_lookup_finds;
use crate::json::member_views;
use crate::json::Json;
use crate::json::JsonView;
use crate::json::Members;
use vstd::prelude::*;

verus! {

/// A color given by red, green, blue and alpha channels.
///
/// Channels are usually in `0..=255`, but no range is enforced.
#[derive(Copy, Clone, Debug)]
pub struct Color {
    pub r: i32,
    pub g: i32,
    pub b: i32,
    pub a: i32,
}

impl Color {
    /// Builds a color from its four channels, as given.
    pub fn new(r: i32, g: i32, b: i32, a: i32) -> (c: Color)
        ensures
            c == (Color { r, g, b, a }),
    {
        Color { r, g, b, a }
    }
}

impl Color {
    /// The entries of the object that a document shows for the color.
    pub open spec fn members(self) -> Members {
        seq![
            ("r"@, integer_json(self.r)),
            ("g"@, integer_json(self.g)),
            ("b"@, integer_json(self.b)),
            ("a"@, integer_json(self.a)),
        ]
    }

    /// The tree that a document shows for the color: an object with the
    /// keys `r`, `g`, `b` and `a`, in this order.
    pub open spec fn json(self) -> JsonView {
        JsonView::Object(self.members())
    }

    /// The color that a tree stands for: each of the four keys is required
    /// and holds a 32-bit integer. The error is that of the first key, in
    /// the order `r`, `g`, `b`, `a`, that is not so. Other keys are passed
    /// over.
    pub open spec fn of_json(json: JsonView) -> Result<Color, SchemaError> {
        let r = integer_field(json, "r"@);
        let g = integer_field(json, "g"@);
        let b = integer_field(json, "b"@);
        let a = integer_field(json, "a"@);
        if r is Err {
            Err(r->Err_0)
        } else if g is Err {
            Err(g->Err_0)
        } else if b is Err {
            Err(b->Err_0)
        } else if a is Err {
            Err(a->Err_0)
        } else {
            Ok(Color { r: r->Ok_0, g: g->Ok_0, b: b->Ok_0, a: a->Ok_0 })
        }
    }

    /// The keys of the object are distinct.
    pub proof fn lemma_distinct_members(self)
        ensures
            distinct_members(self.members()),
    {
        reveal_strlit("r");
        reveal_strlit("g");
        reveal_strlit("b");
        reveal_strlit("a");
        let m = self.members();
        assert(m[0].0[0] == 'r' && m[1].0[0] == 'g' && m[2].0[0] == 'b' && m[3].0[0] == 'a');
    }

    /// Reading the tree of a color gives the color.
    pub proof fn lemma_json_inverts(self)
        ensures
            Color::of_json(self.json()) == Ok::<Color, SchemaError>(self),
    {
        self.lemma_distinct_members();
        lemma_lookup_finds(self.members(), 0);
        lemma_lookup_finds(self.members(), 1);
        lemma_lookup_finds(self.members(), 2);
        lemma_lookup_finds(self.members(), 3);
    }

    /// Builds the tree that a document shows for the color.
    pub fn to_json(&self) -> (json: Json)
        ensures
            json@ == self.json(),
    {
        let mut entries: Vec<(String, Json)> = Vec::new();
        entries.push((String::from_str("r"), Json::integer(self.r)));
        entries.push((String::from_str("g"), Json::integer(self.g)));
        entries.push((String::from_str("b"), Json::integer(self.b)));
        entries.push((String::from_str("a"), Json::integer(self.a)));
        let json = Json::Object(entries);
        proof {
            json.lemma_view();
            assert(member_views(entries@) =~= self.members());
        }
        json
    }

    /// Reads a color from a tree.
    pub fn from_json(json: &Json) -> (r: Result<Color, SchemaError>)
        ensures
            r == Color::of_json(json@),
    {
        let r = match json.integer_field("r") {
            Ok(value) => value,
            Err(e) => {
                return Err(e);
            },
        };
        let g = match json.integer_field("g") {
            Ok(value) => value,
            Err(e) => {
                return Err(e);
            },
        };
        let b = match json.integer_field("b") {
            Ok(value) => value,
            Err(e) => {
                return Err(e);
            },
        };
        let a = match json.integer_field("a") {
            Ok(value) => value,
            Err(e) => {
                return Err(e);
            },
        };
        Ok(Color { r, g, b, a })
    }
}

/// Equality channel by channel.
impl PartialEq for Color {
    fn eq(&self, other: &Self) -> (same: bool) {
        self.r == other.r && self.g == other.g && self.b == other.b && self.a == other.a
    }
}

impl vstd::std_specs::cmp::PartialEqSpecImpl for Color {
    open spec fn obeys_eq_spec() -> bool {
        true
    }

    open spec fn eq_spec(&self, other: &Self) -> bool {
        self.r == other.r && self.g == other.g && self.b == other.b && self.a == other.a
    }
}

} // verus!
