use crate::double::Double;
use crate::error::DecodeError;
use crate::error::SchemaError;
use vstd::prelude::*;

verus! {

/// A JSON number, in one of the three forms in which a parser hands it out.
#[derive(Copy, Clone, Debug)]
pub enum JsonNumber {
    /// An integer literal that is not negative.
    PosInt(u64),
    /// An integer literal with a minus sign.
    NegInt(i64),
    /// A literal with a fraction or an exponent, or an integer literal
    /// beyond the 64-bit integers.
    Float(Double),
}

/// A JSON document as a tree.
///
/// The entries of an object are kept in the order of the document.
#[derive(Debug)]
pub enum Json {
    Null,
    Bool(bool),
    Number(JsonNumber),
    String(String),
    Array(Vec<Json>),
    Object(Vec<(String, Json)>),
}

/// The entries of a JSON object as mathematical values.
pub type Members = Seq<(Seq<char>, JsonView)>;

/// A JSON tree as a mathematical value.
#[verifier::ext_equal]
pub enum JsonView {
    Null,
    Bool(bool),
    Number(JsonNumber),
    String(Seq<char>),
    Array(Seq<JsonView>),
    Object(Members),
}

/// The mathematical value of a tree.
pub open spec fn view_of(json: Json) -> JsonView
    decreases json,
{
    match json {
        Json::Null => JsonView::Null,
        Json::Bool(b) => JsonView::Bool(b),
        Json::Number(n) => JsonView::Number(n),
        Json::String(s) => JsonView::String(s@),
        Json::Array(items) => JsonView::Array(
            Seq::new(
                items@.len(),
                |i: int|
                    if 0 <= i < items@.len() {
                        view_of(items@[i])
                    } else {
                        JsonView::Null
                    },
            ),
        ),
        Json::Object(entries) => JsonView::Object(
            Seq::new(
                entries@.len(),
                |i: int|
                    if 0 <= i < entries@.len() {
                        (entries@[i].0@, view_of(entries@[i].1))
                    } else {
                        (Seq::empty(), JsonView::Null)
                    },
            ),
        ),
    }
}

impl View for Json {
    type V = JsonView;

    open spec fn view(&self) -> JsonView {
        view_of(*self)
    }
}

/// The binary64 number that stands for an integer where a JSON integer is
/// read as a number with a fraction: what `serde_json::Number::as_f64`
/// returns for the integer, as a bit pattern.
pub uninterp spec fn float_bits_of_integer(i: int) -> u64;

/// The tree that `serde_json` reads from a text, or `None` where it
/// refuses the text.
pub uninterp spec fn parsed_json(text: Seq<char>) -> Option<JsonView>;

/// The value that an object holds under a key: that of the last entry with
/// the key.
pub open spec fn lookup(entries: Members, key: Seq<char>) -> Option<JsonView>
    decreases entries.len(),
{
    if entries.len() == 0 {
        None
    } else if entries.last().0 == key {
        Some(entries.last().1)
    } else {
        lookup(entries.drop_last(), key)
    }
}

/// No key occurs in two entries.
pub open spec fn distinct_members(entries: Members) -> bool {
    forall|i: int, j: int|
        0 <= i < j < entries.len() ==> (#[trigger] entries[i]).0 != (#[trigger] entries[j]).0
}

/// In an object without repeated keys, each entry is what `lookup` finds
/// under its key.
pub proof fn lemma_lookup_finds(entries: Members, i: int)
    requires
        distinct_members(entries),
        0 <= i < entries.len(),
    ensures
        lookup(entries, entries[i].0) == Some(entries[i].1),
    decreases entries.len(),
{
    if i < entries.len() - 1 {
        let shorter = entries.drop_last();
        lemma_lookup_finds(shorter, i);
    }
}

/// `lookup` finds nothing under a key that no entry has.
pub proof fn lemma_lookup_misses(entries: Members, key: Seq<char>)
    requires
        forall|i: int| 0 <= i < entries.len() ==> (#[trigger] entries[i]).0 != key,
    ensures
        lookup(entries, key) is None,
    decreases entries.len(),
{
    if entries.len() > 0 {
        let shorter = entries.drop_last();
        assert forall|i: int| 0 <= i < shorter.len() implies (#[trigger] shorter[i]).0 != key by {
            assert(shorter[i] == entries[i]);
        }
        lemma_lookup_misses(shorter, key);
    }
}

/// An entry that is put into an object, at any place, changes nothing
/// under the other keys.
pub proof fn lemma_lookup_passes_over(
    entries: Members,
    at: int,
    extra: (Seq<char>, JsonView),
    key: Seq<char>,
)
    requires
        0 <= at <= entries.len(),
        extra.0 != key,
    ensures
        lookup(entries.insert(at, extra), key) == lookup(entries, key),
    decreases entries.len(),
{
    let longer = entries.insert(at, extra);
    if at == entries.len() {
        assert(longer.drop_last() =~= entries);
    } else {
        assert(longer.drop_last() =~= entries.drop_last().insert(at, extra));
        lemma_lookup_passes_over(entries.drop_last(), at, extra, key);
    }
}

/// The tree of an integer.
pub open spec fn integer_json(i: i32) -> JsonView {
    if i >= 0 {
        JsonView::Number(JsonNumber::PosInt(i as u64))
    } else {
        JsonView::Number(JsonNumber::NegInt(i as i64))
    }
}

/// The tree of a number with a fraction.
pub open spec fn number_json(d: Double) -> JsonView {
    JsonView::Number(JsonNumber::Float(d))
}

/// The array of the trees of some integers.
pub open spec fn integers_json(s: Seq<i32>) -> JsonView {
    JsonView::Array(s.map_values(|i: i32| integer_json(i)))
}

/// The array of the trees of some numbers.
pub open spec fn numbers_json(s: Seq<Double>) -> JsonView {
    JsonView::Array(s.map_values(|d: Double| number_json(d)))
}

/// Reads each item of an array in turn. The result is the first error met,
/// or else what was read, in order.
pub open spec fn collect<T>(
    items: Seq<JsonView>,
    read: spec_fn(JsonView) -> Result<T, SchemaError>,
) -> Result<Seq<T>, SchemaError>
    decreases items.len(),
{
    if items.len() == 0 {
        Ok(Seq::empty())
    } else {
        match collect(items.drop_last(), read) {
            Err(e) => Err(e),
            Ok(before) => match read(items.last()) {
                Err(e) => Err(e),
                Ok(value) => Ok(before.push(value)),
            },
        }
    }
}

/// An error met in the first items of an array is the error of the whole
/// array.
pub proof fn lemma_collect_error_stays<T>(
    items: Seq<JsonView>,
    read: spec_fn(JsonView) -> Result<T, SchemaError>,
    n: int,
)
    requires
        0 <= n <= items.len(),
        collect(items.take(n), read) is Err,
    ensures
        collect(items, read) == collect(items.take(n), read),
    decreases items.len() - n,
{
    if n < items.len() {
        assert(items.take(n + 1).drop_last() =~= items.take(n));
        lemma_collect_error_stays(items, read, n + 1);
    } else {
        assert(items.take(n) =~= items);
    }
}

/// Reading an array succeeds exactly when reading each item does, and then
/// gives what each item gives, in order.
pub proof fn lemma_collect_ok<T>(
    items: Seq<JsonView>,
    read: spec_fn(JsonView) -> Result<T, SchemaError>,
)
    ensures
        collect(items, read) is Ok <==> forall|i: int|
            0 <= i < items.len() ==> (#[trigger] read(items[i])) is Ok,
        collect(items, read) matches Ok(values) ==> {
            &&& values.len() == items.len()
            &&& forall|i: int|
                0 <= i < items.len() ==> read(items[i]) == Ok::<T, SchemaError>(
                    #[trigger] values[i],
                )
        },
    decreases items.len(),
{
    if items.len() > 0 {
        let shorter = items.drop_last();
        lemma_collect_ok(shorter, read);
        assert forall|i: int| 0 <= i < shorter.len() implies shorter[i] == items[i] by {}
        if collect(items, read) is Ok {
            assert forall|i: int| 0 <= i < items.len() implies (#[trigger] read(items[i])) is Ok by {
                if i < shorter.len() {
                    assert(read(shorter[i]) is Ok);
                }
            }
        }
        if forall|i: int| 0 <= i < items.len() ==> (#[trigger] read(items[i])) is Ok {
            assert forall|i: int| 0 <= i < shorter.len() implies (#[trigger] read(shorter[i])) is Ok by {
                assert(read(items[i]) is Ok);
            }
        }
    }
}

/// Reading back an array that was written item by item gives the items,
/// where reading back each written item does.
pub proof fn lemma_collect_inverts<T>(
    values: Seq<T>,
    write: spec_fn(T) -> JsonView,
    read: spec_fn(JsonView) -> Result<T, SchemaError>,
)
    requires
        forall|i: int|
            0 <= i < values.len() ==> read(write(#[trigger] values[i])) == Ok::<T, SchemaError>(
                values[i],
            ),
    ensures
        collect(values.map_values(write), read) == Ok::<Seq<T>, SchemaError>(values),
    decreases values.len(),
{
    let items = values.map_values(write);
    if values.len() > 0 {
        let shorter = values.drop_last();
        assert(items.drop_last() =~= shorter.map_values(write));
        assert forall|i: int| 0 <= i < shorter.len() implies read(write(#[trigger] shorter[i]))
            == Ok::<T, SchemaError>(shorter[i]) by {
            assert(shorter[i] == values[i]);
        }
        lemma_collect_inverts(shorter, write, read);
        assert(shorter.push(values.last()) =~= values);
    } else {
        assert(Seq::<T>::empty() =~= values);
    }
}

impl JsonView {
    /// The value of a required key of an object.
    pub open spec fn field(self, key: Seq<char>) -> Result<JsonView, SchemaError> {
        match self {
            JsonView::Object(entries) => match lookup(entries, key) {
                Some(value) => Ok(value),
                None => Err(SchemaError::Missing),
            },
            _ => Err(SchemaError::Mistyped),
        }
    }

    /// The value of a key that an object may leave out, or give as `null`.
    pub open spec fn optional_field(self, key: Seq<char>) -> Result<Option<JsonView>, SchemaError> {
        match self {
            JsonView::Object(entries) => match lookup(entries, key) {
                Some(JsonView::Null) => Ok(None),
                Some(value) => Ok(Some(value)),
                None => Ok(None),
            },
            _ => Err(SchemaError::Mistyped),
        }
    }

    /// The 32-bit integer that a tree stands for.
    pub open spec fn integer(self) -> Result<i32, SchemaError> {
        match self {
            JsonView::Number(JsonNumber::PosInt(u)) => if u <= i32::MAX {
                Ok(u as i32)
            } else {
                Err(SchemaError::OutOfRange)
            },
            JsonView::Number(JsonNumber::NegInt(i)) => if i32::MIN <= i <= i32::MAX {
                Ok(i as i32)
            } else {
                Err(SchemaError::OutOfRange)
            },
            _ => Err(SchemaError::Mistyped),
        }
    }

    /// The binary64 number that a tree stands for.
    pub open spec fn number(self) -> Result<Double, SchemaError> {
        match self {
            JsonView::Number(JsonNumber::Float(d)) => Ok(d),
            JsonView::Number(JsonNumber::PosInt(u)) => Ok(
                Double { bits: float_bits_of_integer(u as int) },
            ),
            JsonView::Number(JsonNumber::NegInt(i)) => Ok(
                Double { bits: float_bits_of_integer(i as int) },
            ),
            _ => Err(SchemaError::Mistyped),
        }
    }

    /// The text that a tree stands for.
    pub open spec fn text(self) -> Result<Seq<char>, SchemaError> {
        match self {
            JsonView::String(s) => Ok(s),
            _ => Err(SchemaError::Mistyped),
        }
    }

    /// The items of an array.
    pub open spec fn items(self) -> Result<Seq<JsonView>, SchemaError> {
        match self {
            JsonView::Array(items) => Ok(items),
            _ => Err(SchemaError::Mistyped),
        }
    }

    /// The entries of an object.
    pub open spec fn members(self) -> Result<Members, SchemaError> {
        match self {
            JsonView::Object(entries) => Ok(entries),
            _ => Err(SchemaError::Mistyped),
        }
    }

    /// The integers of an array of integers.
    pub open spec fn integers(self) -> Result<Seq<i32>, SchemaError> {
        match self {
            JsonView::Array(items) => collect(items, |j: JsonView| j.integer()),
            _ => Err(SchemaError::Mistyped),
        }
    }

    /// The numbers of an array of numbers.
    pub open spec fn numbers(self) -> Result<Seq<Double>, SchemaError> {
        match self {
            JsonView::Array(items) => collect(items, |j: JsonView| j.number()),
            _ => Err(SchemaError::Mistyped),
        }
    }
}

/// The integer under a required key of an object.
pub open spec fn integer_field(json: JsonView, key: Seq<char>) -> Result<i32, SchemaError> {
    match json.field(key) {
        Ok(value) => value.integer(),
        Err(e) => Err(e),
    }
}

/// The number under a required key of an object.
pub open spec fn number_field(json: JsonView, key: Seq<char>) -> Result<Double, SchemaError> {
    match json.field(key) {
        Ok(value) => value.number(),
        Err(e) => Err(e),
    }
}

/// The text under a required key of an object.
pub open spec fn text_field(json: JsonView, key: Seq<char>) -> Result<Seq<char>, SchemaError> {
    match json.field(key) {
        Ok(value) => value.text(),
        Err(e) => Err(e),
    }
}

/// The integers of the array under a required key of an object.
pub open spec fn integers_field(json: JsonView, key: Seq<char>) -> Result<Seq<i32>, SchemaError> {
    match json.field(key) {
        Ok(value) => value.integers(),
        Err(e) => Err(e),
    }
}

/// The numbers of the array under a required key of an object.
pub open spec fn numbers_field(json: JsonView, key: Seq<char>) -> Result<Seq<Double>, SchemaError> {
    match json.field(key) {
        Ok(value) => value.numbers(),
        Err(e) => Err(e),
    }
}

/// An integer is read back from its tree.
pub proof fn lemma_integer_inverts(i: i32)
    ensures
        integer_json(i).integer() == Ok::<i32, SchemaError>(i),
{
}

/// Integers are read back from their array.
pub proof fn lemma_integers_invert(s: Seq<i32>)
    ensures
        integers_json(s).integers() == Ok::<Seq<i32>, SchemaError>(s),
{
    lemma_collect_inverts(s, |i: i32| integer_json(i), |j: JsonView| j.integer());
}

/// Numbers are read back from their array, bit for bit.
pub proof fn lemma_numbers_invert(s: Seq<Double>)
    ensures
        numbers_json(s).numbers() == Ok::<Seq<Double>, SchemaError>(s),
{
    lemma_collect_inverts(s, |d: Double| number_json(d), |j: JsonView| j.number());
}

/// The views of the items of an array.
pub open spec fn item_views(items: Seq<Json>) -> Seq<JsonView> {
    items.map_values(|j: Json| j@)
}

/// The views of the entries of an object.
pub open spec fn member_views(entries: Seq<(String, Json)>) -> Members {
    entries.map_values(|e: (String, Json)| (e.0@, e.1@))
}

/// `serde_json::Value`, the tree that `serde_json` parses into.
#[verifier::external_type_specification]
#[verifier::external_body]
pub struct ExValue(serde_json::Value);

/// `serde_json::Number`, the number inside a `serde_json::Value`.
#[verifier::external_type_specification]
#[verifier::external_body]
pub struct ExNumber(serde_json::Number);

/// `serde_json::Error`, the account that `serde_json` gives of a refusal.
#[verifier::external_type_specification]
#[verifier::external_body]
pub struct ExError(serde_json::Error);

/// `serde_json::from_str`, asked for a `serde_json::Value`.
///
/// Claimed: whether it accepts a text, and the tree that it then returns,
/// depend on the text alone.
#[verifier::external_body]
fn parse_text(text: &str) -> (r: Result<Json, serde_json::Error>)
    ensures
        match r {
            Ok(json) => parsed_json(text@) == Some(json@),
            Err(_) => parsed_json(text@) is None,
        },
{
    match serde_json::from_str::<serde_json::Value>(text) {
        Ok(value) => Ok(json_of_value(&value)),
        Err(e) => Err(e),
    }
}

/// Copies a `serde_json::Value` into a `Json` of the same shape, variant for
/// variant. Nothing is claimed of it.
#[verifier::external_body]
fn json_of_value(value: &serde_json::Value) -> Json {
    match value {
        serde_json::Value::Null => Json::Null,
        serde_json::Value::Bool(b) => Json::Bool(*b),
        serde_json::Value::Number(n) => Json::Number(number_of(n)),
        serde_json::Value::String(s) => Json::String(s.clone()),
        serde_json::Value::Array(items) => Json::Array(items.iter().map(json_of_value).collect()),
        serde_json::Value::Object(entries) => Json::Object(
            entries.iter().map(|(k, v)| (k.clone(), json_of_value(v))).collect(),
        ),
    }
}

/// Tells the three forms of a `serde_json::Number` apart by `as_u64` and
/// `as_i64`, and copies what it holds; the third form is read by `as_f64`,
/// which returns a number for every `serde_json::Number`. Nothing is
/// claimed of it.
#[verifier::external_body]
fn number_of(n: &serde_json::Number) -> JsonNumber {
    if let Some(u) = n.as_u64() {
        JsonNumber::PosInt(u)
    } else if let Some(i) = n.as_i64() {
        JsonNumber::NegInt(i)
    } else {
        JsonNumber::Float(Double { bits: n.as_f64().unwrap().to_bits() })
    }
}

/// `serde_json::Number::as_f64` on the number that `serde_json::Number::from`
/// makes of a `u64`: the integer converted to binary64.
///
/// Claimed: the result depends on the integer alone.
#[verifier::external_body]
fn float_of_unsigned(u: u64) -> (d: Double)
    ensures
        d.bits == float_bits_of_integer(u as int),
{
    Double { bits: serde_json::Number::from(u).as_f64().unwrap().to_bits() }
}

/// `serde_json::Number::as_f64` on the number that `serde_json::Number::from`
/// makes of an `i64`: the integer converted to binary64.
///
/// Claimed: the result depends on the integer alone, and is what
/// [`float_of_unsigned`] gives for the same integer.
#[verifier::external_body]
fn float_of_signed(i: i64) -> (d: Double)
    ensures
        d.bits == float_bits_of_integer(i as int),
{
    Double { bits: serde_json::Number::from(i).as_f64().unwrap().to_bits() }
}

impl Json {
    /// The view of an array is the array of the views of its items, and
    /// likewise for an object.
    pub proof fn lemma_view(self)
        ensures
            self matches Json::Array(items) ==> self@ == JsonView::Array(item_views(items@)),
            self matches Json::Object(entries) ==> self@ == JsonView::Object(
                member_views(entries@),
            ),
    {
        match self {
            Json::Array(items) => {
                reveal_with_fuel(view_of, 2);
                assert(self@->Array_0 =~= item_views(items@));
            },
            Json::Object(entries) => {
                reveal_with_fuel(view_of, 2);
                assert(self@->Object_0 =~= member_views(entries@));
            },
            _ => {},
        }
    }

    /// Reads a text as JSON.
    pub fn parse(text: &str) -> (r: Result<Json, DecodeError>)
        ensures
            match r {
                Ok(json) => parsed_json(text@) == Some(json@),
                Err(e) => parsed_json(text@) is None && e is Syntax,
            },
    {
        match parse_text(text) {
            Ok(json) => Ok(json),
            Err(e) => Err(DecodeError::Syntax(e)),
        }
    }

    /// The tree of an integer.
    pub fn integer(i: i32) -> (json: Json)
        ensures
            json@ == integer_json(i),
    {
        if i >= 0 {
            Json::Number(JsonNumber::PosInt(i as u64))
        } else {
            Json::Number(JsonNumber::NegInt(i as i64))
        }
    }

    /// The tree of a number with a fraction.
    pub fn number(d: Double) -> (json: Json)
        ensures
            json@ == number_json(d),
    {
        Json::Number(JsonNumber::Float(d))
    }

    /// The tree of a text.
    pub fn text(s: &String) -> (json: Json)
        ensures
            json@ == JsonView::String(s@),
    {
        Json::String(s.clone())
    }

    /// The array of the trees of some integers.
    pub fn integers(values: &Vec<i32>) -> (json: Json)
        ensures
            json@ == integers_json(values@),
    {
        let mut items: Vec<Json> = Vec::new();
        let mut i: usize = 0;
        while i < values.len()
            invariant
                i <= values.len(),
                items.len() == i,
                forall|k: int| 0 <= k < i ==> (#[trigger] items@[k])@ == integer_json(values@[k]),
            decreases values.len() - i,
        {
            items.push(Json::integer(values[i]));
            i += 1;
        }
        let json = Json::Array(items);
        proof {
            json.lemma_view();
            assert(item_views(items@) =~= values@.map_values(|i: i32| integer_json(i)));
        }
        json
    }

    /// The array of the trees of some numbers.
    pub fn numbers(values: &Vec<Double>) -> (json: Json)
        ensures
            json@ == numbers_json(values@),
    {
        let mut items: Vec<Json> = Vec::new();
        let mut i: usize = 0;
        while i < values.len()
            invariant
                i <= values.len(),
                items.len() == i,
                forall|k: int| 0 <= k < i ==> (#[trigger] items@[k])@ == number_json(values@[k]),
            decreases values.len() - i,
        {
            items.push(Json::number(values[i]));
            i += 1;
        }
        let json = Json::Array(items);
        proof {
            json.lemma_view();
            assert(item_views(items@) =~= values@.map_values(|d: Double| number_json(d)));
        }
        json
    }

    /// The entries of an object.
    pub fn as_members(&self) -> (r: Result<&Vec<(String, Json)>, SchemaError>)
        ensures
            match r {
                Ok(entries) => self@.members() == Ok::<Members, SchemaError>(
                    member_views(entries@),
                ),
                Err(e) => self@.members() == Err::<Members, SchemaError>(e),
            },
    {
        proof {
            self.lemma_view();
        }
        match self {
            Json::Object(entries) => Ok(entries),
            _ => Err(SchemaError::Mistyped),
        }
    }

    /// The items of an array.
    pub fn as_items(&self) -> (r: Result<&Vec<Json>, SchemaError>)
        ensures
            match r {
                Ok(items) => self@.items() == Ok::<Seq<JsonView>, SchemaError>(item_views(items@)),
                Err(e) => self@.items() == Err::<Seq<JsonView>, SchemaError>(e),
            },
    {
        proof {
            self.lemma_view();
        }
        match self {
            Json::Array(items) => Ok(items),
            _ => Err(SchemaError::Mistyped),
        }
    }

    /// The text that the tree stands for.
    pub fn as_text(&self) -> (r: Result<&String, SchemaError>)
        ensures
            match r {
                Ok(s) => self@.text() == Ok::<Seq<char>, SchemaError>(s@),
                Err(e) => self@.text() == Err::<Seq<char>, SchemaError>(e),
            },
    {
        match self {
            Json::String(s) => Ok(s),
            _ => Err(SchemaError::Mistyped),
        }
    }

    /// The 32-bit integer that the tree stands for.
    pub fn as_integer(&self) -> (r: Result<i32, SchemaError>)
        ensures
            r == self@.integer(),
    {
        match self {
            Json::Number(JsonNumber::PosInt(u)) => {
                if *u <= 0x7fff_ffff {
                    Ok(*u as i32)
                } else {
                    Err(SchemaError::OutOfRange)
                }
            },
            Json::Number(JsonNumber::NegInt(i)) => {
                if -0x8000_0000 <= *i && *i <= 0x7fff_ffff {
                    Ok(*i as i32)
                } else {
                    Err(SchemaError::OutOfRange)
                }
            },
            _ => Err(SchemaError::Mistyped),
        }
    }

    /// The binary64 number that the tree stands for. An integer is taken
    /// for the number that `serde_json` takes it for.
    pub fn as_number(&self) -> (r: Result<Double, SchemaError>)
        ensures
            r == self@.number(),
    {
        match self {
            Json::Number(JsonNumber::Float(d)) => Ok(*d),
            Json::Number(JsonNumber::PosInt(u)) => Ok(float_of_unsigned(*u)),
            Json::Number(JsonNumber::NegInt(i)) => Ok(float_of_signed(*i)),
            _ => Err(SchemaError::Mistyped),
        }
    }

    /// The value of a required key of an object.
    pub fn field(&self, key: &str) -> (r: Result<&Json, SchemaError>)
        ensures
            match r {
                Ok(value) => self@.field(key@) == Ok::<JsonView, SchemaError>(value@),
                Err(e) => self@.field(key@) == Err::<JsonView, SchemaError>(e),
            },
    {
        let entries = match self.as_members() {
            Ok(entries) => entries,
            Err(e) => {
                return Err(e);
            },
        };
        match find(entries, key) {
            Some(value) => Ok(value),
            None => Err(SchemaError::Missing),
        }
    }

    /// The value of a key that an object may leave out, or give as `null`.
    pub fn optional_field(&self, key: &str) -> (r: Result<Option<&Json>, SchemaError>)
        ensures
            match r {
                Ok(Some(value)) => self@.optional_field(key@) == Ok::<
                    Option<JsonView>,
                    SchemaError,
                >(Some(value@)),
                Ok(None) => self@.optional_field(key@) == Ok::<Option<JsonView>, SchemaError>(None),
                Err(e) => self@.optional_field(key@) == Err::<Option<JsonView>, SchemaError>(e),
            },
    {
        let entries = match self.as_members() {
            Ok(entries) => entries,
            Err(e) => {
                return Err(e);
            },
        };
        match find(entries, key) {
            Some(Json::Null) => Ok(None),
            Some(value) => Ok(Some(value)),
            None => Ok(None),
        }
    }

    /// The integer under a required key of an object.
    pub fn integer_field(&self, key: &str) -> (r: Result<i32, SchemaError>)
        ensures
            r == integer_field(self@, key@),
    {
        match self.field(key) {
            Ok(value) => value.as_integer(),
            Err(e) => Err(e),
        }
    }

    /// The number under a required key of an object.
    pub fn number_field(&self, key: &str) -> (r: Result<Double, SchemaError>)
        ensures
            r == number_field(self@, key@),
    {
        match self.field(key) {
            Ok(value) => value.as_number(),
            Err(e) => Err(e),
        }
    }

    /// The text under a required key of an object.
    pub fn text_field(&self, key: &str) -> (r: Result<String, SchemaError>)
        ensures
            match r {
                Ok(s) => text_field(self@, key@) == Ok::<Seq<char>, SchemaError>(s@),
                Err(e) => text_field(self@, key@) == Err::<Seq<char>, SchemaError>(e),
            },
    {
        match self.field(key) {
            Ok(value) => match value.as_text() {
                Ok(s) => Ok(s.clone()),
                Err(e) => Err(e),
            },
            Err(e) => Err(e),
        }
    }

    /// The integers of the array under a required key of an object.
    pub fn integers_field(&self, key: &str) -> (r: Result<Vec<i32>, SchemaError>)
        ensures
            match r {
                Ok(values) => integers_field(self@, key@) == Ok::<Seq<i32>, SchemaError>(values@),
                Err(e) => integers_field(self@, key@) == Err::<Seq<i32>, SchemaError>(e),
            },
    {
        match self.field(key) {
            Ok(value) => value.as_integers(),
            Err(e) => Err(e),
        }
    }

    /// The numbers of the array under a required key of an object.
    pub fn numbers_field(&self, key: &str) -> (r: Result<Vec<Double>, SchemaError>)
        ensures
            match r {
                Ok(values) => numbers_field(self@, key@) == Ok::<Seq<Double>, SchemaError>(
                    values@,
                ),
                Err(e) => numbers_field(self@, key@) == Err::<Seq<Double>, SchemaError>(e),
            },
    {
        match self.field(key) {
            Ok(value) => value.as_numbers(),
            Err(e) => Err(e),
        }
    }

    /// The integers of an array of integers.
    pub fn as_integers(&self) -> (r: Result<Vec<i32>, SchemaError>)
        ensures
            match r {
                Ok(values) => self@.integers() == Ok::<Seq<i32>, SchemaError>(values@),
                Err(e) => self@.integers() == Err::<Seq<i32>, SchemaError>(e),
            },
    {
        let items = match self.as_items() {
            Ok(items) => items,
            Err(e) => {
                return Err(e);
            },
        };
        let ghost views = item_views(items@);
        let ghost read = |j: JsonView| j.integer();
        let mut values: Vec<i32> = Vec::new();
        let mut i: usize = 0;
        while i < items.len()
            invariant
                i <= items.len(),
                views == item_views(items@),
                self@ == JsonView::Array(views),
                read == |j: JsonView| j.integer(),
                collect(views.take(i as int), read) == Ok::<Seq<i32>, SchemaError>(values@),
            decreases items.len() - i,
        {
            assert(views.take(i + 1).drop_last() =~= views.take(i as int));
            match items[i].as_integer() {
                Ok(value) => {
                    values.push(value);
                },
                Err(e) => {
                    proof {
                        lemma_collect_error_stays(views, read, i + 1);
                    }
                    return Err(e);
                },
            }
            i += 1;
        }
        assert(views.take(i as int) =~= views);
        Ok(values)
    }

    /// The numbers of an array of numbers.
    pub fn as_numbers(&self) -> (r: Result<Vec<Double>, SchemaError>)
        ensures
            match r {
                Ok(values) => self@.numbers() == Ok::<Seq<Double>, SchemaError>(values@),
                Err(e) => self@.numbers() == Err::<Seq<Double>, SchemaError>(e),
            },
    {
        let items = match self.as_items() {
            Ok(items) => items,
            Err(e) => {
                return Err(e);
            },
        };
        let ghost views = item_views(items@);
        let ghost read = |j: JsonView| j.number();
        let mut values: Vec<Double> = Vec::new();
        let mut i: usize = 0;
        while i < items.len()
            invariant
                i <= items.len(),
                views == item_views(items@),
                self@ == JsonView::Array(views),
                read == |j: JsonView| j.number(),
                collect(views.take(i as int), read) == Ok::<Seq<Double>, SchemaError>(values@),
            decreases items.len() - i,
        {
            assert(views.take(i + 1).drop_last() =~= views.take(i as int));
            match items[i].as_number() {
                Ok(value) => {
                    values.push(value);
                },
                Err(e) => {
                    proof {
                        assert(collect(views.take(i + 1), read) == Err::<Seq<Double>, SchemaError>(
                            e,
                        ));
                        lemma_collect_error_stays(views, read, i + 1);
                    }
                    return Err(e);
                },
            }
            i += 1;
        }
        assert(views.take(i as int) =~= views);
        Ok(values)
    }
}

/// Finds the value that an object holds under a key.
fn find<'a>(entries: &'a Vec<(String, Json)>, key: &str) -> (r: Option<&'a Json>)
    ensures
        match r {
            Some(value) => lookup(member_views(entries@), key@) == Some(value@),
            None => lookup(member_views(entries@), key@) is None,
        },
{
    let wanted = String::from_str(key);
    let ghost members = member_views(entries@);
    let mut i: usize = entries.len();
    assert(members.take(i as int) =~= members);
    while i > 0
        invariant
            i <= entries.len(),
            wanted@ == key@,
            members == member_views(entries@),
            lookup(members, key@) == lookup(members.take(i as int), key@),
        decreases i,
    {
        i -= 1;
        assert(members.take(i + 1).drop_last() =~= members.take(i as int));
        if entries[i].0 == wanted {
            return Some(&entries[i].1);
        }
    }
    None
}

} // verus!
