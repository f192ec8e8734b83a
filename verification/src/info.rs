use crate::error::SchemaError;
use crate::json::member_views;
use crate::json::Json;
use crate::json::JsonView;
use crate::json::Members;
use vstd::prelude::*;

verus! {

/// The entries of a mapping as mathematical values, in the order in which
/// their keys first came in.
pub type Entries = Seq<(Seq<char>, Seq<char>)>;

/// Some entry of `s` has the key `k`.
pub open spec fn has_key(s: Entries, k: Seq<char>) -> bool {
    exists|i: int| 0 <= i < s.len() && (#[trigger] s[i]).0 == k
}

/// The position of an entry with key `k`; meaningful when there is one.
pub open spec fn position_of(s: Entries, k: Seq<char>) -> int {
    choose|i: int| 0 <= i < s.len() && (#[trigger] s[i]).0 == k
}

/// No key occurs in two entries.
pub open spec fn distinct_keys(s: Entries) -> bool {
    forall|i: int, j: int| 0 <= i < j < s.len() ==> (#[trigger] s[i]).0 != (#[trigger] s[j]).0
}

/// The mapping that the entries stand for.
pub open spec fn as_map(s: Entries) -> Map<Seq<char>, Seq<char>> {
    Map::new(|k: Seq<char>| has_key(s, k), |k: Seq<char>| s[position_of(s, k)].1)
}

/// The entries after `k` has been given the value `v`: an entry that had the
/// key keeps its place and takes the value, otherwise a new entry goes last.
pub open spec fn put(s: Entries, k: Seq<char>, v: Seq<char>) -> Entries {
    if has_key(s, k) {
        s.update(position_of(s, k), (k, v))
    } else {
        s.push((k, v))
    }
}

/// Both hold as many entries, and each entry of `a` is an entry of `b`.
/// Where neither repeats a key this is equality of the two mappings,
/// whatever the order of their entries.
pub open spec fn same_mapping(a: Entries, b: Entries) -> bool {
    &&& a.len() == b.len()
    &&& forall|i: int| 0 <= i < a.len() ==> b.contains(#[trigger] a[i])
}

/// Entries with distinct keys are distinct.
pub proof fn lemma_distinct_keys_no_duplicates(s: Entries)
    requires
        distinct_keys(s),
    ensures
        s.no_duplicates(),
{
    assert forall|i: int, j: int| 0 <= i < s.len() && 0 <= j < s.len() && i != j implies s[i]
        != s[j] by {
        if i < j {
            assert(s[i].0 != s[j].0);
        } else {
            assert(s[j].0 != s[i].0);
        }
    }
}

/// Where keys are distinct, the entry with a given key is found at one
/// position only.
pub proof fn lemma_position_unique(s: Entries, i: int)
    requires
        distinct_keys(s),
        0 <= i < s.len(),
    ensures
        has_key(s, s[i].0),
        position_of(s, s[i].0) == i,
{
    let p = position_of(s, s[i].0);
    if p < i {
        assert(s[p].0 != s[i].0);
    } else if i < p {
        assert(s[i].0 != s[p].0);
    }
}

/// Each mapping is equal to itself.
pub proof fn lemma_same_mapping_reflexive(a: Entries)
    ensures
        same_mapping(a, a),
{
}

/// Equality of mappings does not depend on which side is asked.
pub proof fn lemma_same_mapping_symmetric(a: Entries, b: Entries)
    requires
        distinct_keys(a),
        distinct_keys(b),
    ensures
        same_mapping(a, b) == same_mapping(b, a),
{
    if same_mapping(a, b) {
        lemma_same_mapping_converse(a, b);
    }
    if same_mapping(b, a) {
        lemma_same_mapping_converse(b, a);
    }
}

/// Where each entry of `a` is one of `b` and both are as long, each entry
/// of `b` is one of `a`.
proof fn lemma_same_mapping_converse(a: Entries, b: Entries)
    requires
        distinct_keys(a),
        same_mapping(a, b),
    ensures
        same_mapping(b, a),
{
    lemma_distinct_keys_no_duplicates(a);
    a.unique_seq_to_set();
    b.lemma_cardinality_of_set();
    assert(a.to_set().subset_of(b.to_set())) by {
        assert forall|e: (Seq<char>, Seq<char>)| a.to_set().contains(e) implies b.to_set().contains(
            e,
        ) by {
            let i = choose|i: int| 0 <= i < a.len() && a[i] == e;
            assert(b.contains(a[i]));
        }
    }
    vstd::set_lib::lemma_len_subset(a.to_set(), b.to_set());
    vstd::set_lib::lemma_subset_equality(a.to_set(), b.to_set());
    assert forall|j: int| 0 <= j < b.len() implies a.contains(#[trigger] b[j]) by {
        assert(b.to_set().contains(b[j]));
    }
}

/// Where neither side repeats a key, two sets of entries are the same
/// mapping exactly when they stand for equal maps.
pub proof fn lemma_same_mapping_is_map_equality(a: Entries, b: Entries)
    requires
        distinct_keys(a),
        distinct_keys(b),
    ensures
        same_mapping(a, b) <==> as_map(a) == as_map(b),
{
    if same_mapping(a, b) {
        lemma_same_mapping_converse(a, b);
        lemma_same_mapping_gives_submap(a, b);
        lemma_same_mapping_gives_submap(b, a);
        assert(as_map(a) =~= as_map(b));
    }
    if as_map(a) == as_map(b) {
        lemma_equal_maps_give_containment(a, b);
        lemma_equal_maps_give_containment(b, a);
        lemma_distinct_keys_no_duplicates(a);
        lemma_distinct_keys_no_duplicates(b);
        a.unique_seq_to_set();
        b.unique_seq_to_set();
        assert(a.to_set() =~= b.to_set()) by {
            assert forall|e: (Seq<char>, Seq<char>)| a.to_set().contains(e) implies b.to_set().contains(
                e,
            ) by {
                let i = choose|i: int| 0 <= i < a.len() && a[i] == e;
                assert(b.contains(a[i]));
            }
            assert forall|e: (Seq<char>, Seq<char>)| b.to_set().contains(e) implies a.to_set().contains(
                e,
            ) by {
                let i = choose|i: int| 0 <= i < b.len() && b[i] == e;
                assert(a.contains(b[i]));
            }
        }
    }
}

/// What `a` maps a key to, `b` maps it to.
proof fn lemma_same_mapping_gives_submap(a: Entries, b: Entries)
    requires
        distinct_keys(b),
        same_mapping(a, b),
    ensures
        forall|k: Seq<char>| #[trigger]
            has_key(a, k) ==> has_key(b, k) && as_map(b)[k] == as_map(a)[k],
{
    assert forall|k: Seq<char>| #[trigger] has_key(a, k) implies has_key(b, k) && as_map(b)[k]
        == as_map(a)[k] by {
        let i = position_of(a, k);
        assert(b.contains(a[i]));
        let j = choose|j: int| 0 <= j < b.len() && b[j] == a[i];
        lemma_position_unique(b, j);
    }
}

/// Where the maps are equal, each entry of `a` is one of `b`.
proof fn lemma_equal_maps_give_containment(a: Entries, b: Entries)
    requires
        distinct_keys(a),
        distinct_keys(b),
        as_map(a) == as_map(b),
    ensures
        forall|i: int| 0 <= i < a.len() ==> b.contains(#[trigger] a[i]),
{
    assert forall|i: int| 0 <= i < a.len() implies b.contains(#[trigger] a[i]) by {
        let k = a[i].0;
        lemma_position_unique(a, i);
        assert(as_map(a).dom().contains(k));
        let j = position_of(b, k);
        assert(as_map(b)[k] == b[j].1);
        assert(b[j] == a[i]);
    }
}

/// Giving a key a value keeps the keys distinct, and is giving the key the
/// value in the map.
pub proof fn lemma_put_keeps_distinct_keys(s: Entries, k: Seq<char>, v: Seq<char>)
    requires
        distinct_keys(s),
    ensures
        distinct_keys(put(s, k, v)),
        as_map(put(s, k, v)) == as_map(s).insert(k, v),
{
    let t = put(s, k, v);
    let at = if has_key(s, k) {
        position_of(s, k)
    } else {
        s.len() as int
    };
    assert(t[at] == (k, v));
    assert forall|i: int| 0 <= i < t.len() && i != at implies t[i] == s[i] && s[i].0 != k by {
        if has_key(s, k) {
            lemma_position_unique(s, i);
        }
    }
    assert forall|i: int, j: int| 0 <= i < j < t.len() implies (#[trigger] t[i]).0 != (
    #[trigger] t[j]).0 by {
        if i != at && j != at {
            assert(s[i].0 != s[j].0);
        }
    }
    assert forall|q: Seq<char>| has_key(t, q) == (q == k || has_key(s, q)) by {
        if has_key(t, q) && q != k {
            assert(s[position_of(t, q)].0 == q);
        }
        if has_key(s, q) && q != k {
            assert(t[position_of(s, q)].0 == q);
        }
    }
    assert forall|q: Seq<char>| has_key(t, q) implies #[trigger] as_map(t)[q] == as_map(s).insert(
        k,
        v,
    )[q] by {
        if q == k {
            lemma_position_unique(t, at);
        } else {
            let j = position_of(s, q);
            assert(t[j].0 == q);
            lemma_position_unique(t, j);
        }
    }
    assert(as_map(t) =~= as_map(s).insert(k, v));
}

/// The entries of the object that a document shows for a mapping: each
/// entry with its text, in order.
pub open spec fn info_members(entries: Entries) -> Members {
    entries.map_values(|e: (Seq<char>, Seq<char>)| (e.0, JsonView::String(e.1)))
}

/// The tree that a document shows for a mapping.
pub open spec fn info_json(entries: Entries) -> JsonView {
    JsonView::Object(info_members(entries))
}

/// Takes the entries of an object in turn and gives each key its text. A
/// value that is no text is an error, and the first such error is the
/// result.
pub open spec fn gather(members: Members) -> Result<Entries, SchemaError>
    decreases members.len(),
{
    if members.len() == 0 {
        Ok(Seq::empty())
    } else {
        match gather(members.drop_last()) {
            Err(e) => Err(e),
            Ok(before) => match members.last().1.text() {
                Err(e) => Err(e),
                Ok(value) => Ok(put(before, members.last().0, value)),
            },
        }
    }
}

/// The mapping that a tree stands for: an object whose values are texts.
pub open spec fn info_of_json(json: JsonView) -> Result<Entries, SchemaError> {
    match json {
        JsonView::Object(members) => gather(members),
        _ => Err(SchemaError::Mistyped),
    }
}

/// An error met in the first entries of an object is the error of the
/// whole object.
pub proof fn lemma_gather_error_stays(members: Members, n: int)
    requires
        0 <= n <= members.len(),
        gather(members.take(n)) is Err,
    ensures
        gather(members) == gather(members.take(n)),
    decreases members.len() - n,
{
    if n < members.len() {
        assert(members.take(n + 1).drop_last() =~= members.take(n));
        lemma_gather_error_stays(members, n + 1);
    } else {
        assert(members.take(n) =~= members);
    }
}

/// What is gathered from an object has distinct keys, and only keys of the
/// object.
pub proof fn lemma_gather_distinct(members: Members)
    ensures
        gather(members) matches Ok(entries) ==> {
            &&& distinct_keys(entries)
            &&& forall|k: Seq<char>| #[trigger]
                has_key(entries, k) ==> exists|i: int|
                    0 <= i < members.len() && (#[trigger] members[i]).0 == k
        },
    decreases members.len(),
{
    if members.len() > 0 {
        let shorter = members.drop_last();
        lemma_gather_distinct(shorter);
        if let Ok(entries) = gather(members) {
            let before = gather(shorter)->Ok_0;
            let k = members.last().0;
            let v = members.last().1.text()->Ok_0;
            lemma_put_keeps_distinct_keys(before, k, v);
            assert forall|q: Seq<char>| #[trigger] has_key(entries, q) implies exists|i: int|
                0 <= i < members.len() && (#[trigger] members[i]).0 == q by {
                if q == k {
                    assert(members[members.len() - 1].0 == q);
                } else {
                    assert(as_map(entries).dom().contains(q));
                    assert(has_key(before, q));
                    let i = choose|i: int| 0 <= i < shorter.len() && (#[trigger] shorter[i]).0 == q;
                    assert(members[i].0 == q);
                }
            }
        }
    }
}

/// The mapping that is read from a tree repeats no key.
pub proof fn lemma_info_of_json_distinct(json: JsonView)
    ensures
        info_of_json(json) matches Ok(entries) ==> distinct_keys(entries),
{
    if let JsonView::Object(members) = json {
        lemma_gather_distinct(members);
    }
}

/// Reading the tree of a mapping gives the mapping, entry for entry.
pub proof fn lemma_info_json_inverts(entries: Entries)
    requires
        distinct_keys(entries),
    ensures
        info_of_json(info_json(entries)) == Ok::<Entries, SchemaError>(entries),
    decreases entries.len(),
{
    let members = info_members(entries);
    if entries.len() > 0 {
        let shorter = entries.drop_last();
        assert(members.drop_last() =~= info_members(shorter));
        assert(distinct_keys(shorter)) by {
            assert forall|i: int, j: int| 0 <= i < j < shorter.len() implies (
            #[trigger] shorter[i]).0 != (#[trigger] shorter[j]).0 by {
                assert(entries[i].0 != entries[j].0);
            }
        }
        lemma_info_json_inverts(shorter);
        let last = entries.last();
        assert(!has_key(shorter, last.0)) by {
            if has_key(shorter, last.0) {
                let p = position_of(shorter, last.0);
                assert(entries[p].0 != entries[entries.len() - 1].0);
            }
        }
        assert(shorter.push(last) =~= entries);
    } else {
        assert(entries =~= Seq::empty());
    }
}

/// Free-form metadata: a mapping from text to text.
///
/// The entries are kept in the order in which their keys were first
/// inserted. That order is what a document shows; it plays no part in
/// equality.
#[derive(Debug)]
pub struct Info {
    entries: Vec<(String, String)>,
}

impl View for Info {
    type V = Entries;

    closed spec fn view(&self) -> Entries {
        self.entries.deep_view()
    }
}

impl Info {
    /// What every `Info` value satisfies: no key occurs twice.
    #[verifier::type_invariant]
    pub open spec fn distinct(self) -> bool {
        distinct_keys(self@)
    }

    /// The mapping without entries.
    pub fn new() -> (info: Info)
        ensures
            info@ == Entries::empty(),
    {
        let info = Info { entries: Vec::new() };
        info
    }

    /// The number of entries.
    pub fn len(&self) -> (n: usize)
        ensures
            n == self@.len(),
    {
        self.entries.len()
    }

    /// Whether there is no entry.
    pub fn is_empty(&self) -> (r: bool)
        ensures
            r == (self@.len() == 0),
    {
        self.entries.len() == 0
    }

    /// The entries, in order.
    pub fn entries(&self) -> (entries: &Vec<(String, String)>)
        ensures
            entries.deep_view() == self@,
            distinct_keys(self@),
    {
        proof {
            use_type_invariant(self);
        }
        &self.entries
    }

    /// Builds the tree that a document shows for the mapping: an object
    /// with the entries in order.
    pub fn to_json(&self) -> (json: Json)
        ensures
            json@ == info_json(self@),
    {
        let mut members: Vec<(String, Json)> = Vec::new();
        let mut i: usize = 0;
        while i < self.entries.len()
            invariant
                i <= self.entries.len(),
                member_views(members@) == info_members(self@.take(i as int)),
            decreases self.entries.len() - i,
        {
            let key = self.entries[i].0.clone();
            let value = Json::String(self.entries[i].1.clone());
            let ghost before = member_views(members@);
            members.push((key, value));
            assert(member_views(members@) =~= before.push(
                (self@[i as int].0, JsonView::String(self@[i as int].1)),
            ));
            i += 1;
        }
        assert(self@.take(i as int) =~= self@);
        let json = Json::Object(members);
        proof {
            json.lemma_view();
        }
        json
    }

    /// Reads a mapping from a tree: an object whose values are texts. Where
    /// the object repeats a key, the key keeps its first place and takes
    /// its last value.
    pub fn from_json(json: &Json) -> (r: Result<Info, SchemaError>)
        ensures
            match r {
                Ok(info) => info_of_json(json@) == Ok::<Entries, SchemaError>(info@),
                Err(e) => info_of_json(json@) == Err::<Entries, SchemaError>(e),
            },
    {
        let members = match json.as_members() {
            Ok(members) => members,
            Err(e) => {
                return Err(e);
            },
        };
        let ghost views = member_views(members@);
        let mut info = Info::new();
        let mut i: usize = 0;
        while i < members.len()
            invariant
                i <= members.len(),
                views == member_views(members@),
                json@ == JsonView::Object(views),
                gather(views.take(i as int)) == Ok::<Entries, SchemaError>(info@),
            decreases members.len() - i,
        {
            assert(views.take(i + 1).drop_last() =~= views.take(i as int));
            match members[i].1.as_text() {
                Ok(value) => {
                    info.insert(members[i].0.clone(), value.clone());
                },
                Err(e) => {
                    proof {
                        lemma_gather_error_stays(views, i + 1);
                    }
                    return Err(e);
                },
            }
            i += 1;
        }
        assert(views.take(i as int) =~= views);
        Ok(info)
    }

    /// The value stored under `key`, if there is one.
    pub fn get(&self, key: &str) -> (value: Option<&String>)
        ensures
            distinct_keys(self@),
            match value {
                Some(v) => has_key(self@, key@) && v@ == self@[position_of(self@, key@)].1,
                None => !has_key(self@, key@),
            },
    {
        proof {
            use_type_invariant(self);
        }
        let wanted = String::from_str(key);
        let mut i: usize = 0;
        while i < self.entries.len()
            invariant
                i <= self.entries.len(),
                wanted@ == key@,
                distinct_keys(self@),
                forall|j: int| 0 <= j < i ==> (#[trigger] self@[j]).0 != key@,
            decreases self.entries.len() - i,
        {
            if self.entries[i].0 == wanted {
                proof {
                    lemma_position_unique(self@, i as int);
                }
                return Some(&self.entries[i].1);
            }
            i += 1;
        }
        None
    }

    /// Stores `value` under `key` and returns the value that was there
    /// before, if any. A key that was present keeps its place among the
    /// entries; a new key goes last.
    pub fn insert(&mut self, key: String, value: String) -> (previous: Option<String>)
        ensures
            final(self)@ == put(old(self)@, key@, value@),
            match previous {
                Some(p) => has_key(old(self)@, key@) && p@ == old(self)@[position_of(
                    old(self)@,
                    key@,
                )].1,
                None => !has_key(old(self)@, key@),
            },
    {
        proof {
            use_type_invariant(&*self);
            lemma_put_keeps_distinct_keys(self@, key@, value@);
        }
        let ghost before = self@;
        let mut entries: Vec<(String, String)> = Vec::new();
        std::mem::swap(&mut entries, &mut self.entries);
        let mut i: usize = 0;
        while i < entries.len()
            invariant
                i <= entries.len(),
                entries.deep_view() == before,
                before == old(self)@,
                distinct_keys(before),
                forall|j: int| 0 <= j < i ==> (#[trigger] before[j]).0 != key@,
            decreases entries.len() - i,
        {
            if entries[i].0 == key {
                proof {
                    lemma_position_unique(before, i as int);
                }
                entries.push((key, value));
                let replaced = entries.swap_remove(i);
                assert(entries.deep_view() =~= put(before, key@, value@));
                self.entries = entries;
                return Some(replaced.1);
            }
            i += 1;
        }
        entries.push((key, value));
        assert(entries.deep_view() =~= put(before, key@, value@));
        self.entries = entries;
        None
    }
}

/// A copy has the same entries in the same order.
impl Clone for Info {
    fn clone(&self) -> (copy: Info)
        ensures
            copy@ == self@,
    {
        proof {
            use_type_invariant(self);
        }
        let mut entries: Vec<(String, String)> = Vec::new();
        let mut i: usize = 0;
        while i < self.entries.len()
            invariant
                i <= self.entries.len(),
                entries.deep_view() == self@.take(i as int),
            decreases self.entries.len() - i,
        {
            let key = self.entries[i].0.clone();
            let value = self.entries[i].1.clone();
            let ghost before = entries.deep_view();
            entries.push((key, value));
            assert(entries.deep_view() =~= before.push(self@[i as int]));
            i += 1;
        }
        Info { entries }
    }
}

/// Equality as mappings; see [`same_mapping`].
impl PartialEq for Info {
    fn eq(&self, other: &Self) -> (same: bool) {
        proof {
            use_type_invariant(self);
            use_type_invariant(other);
        }
        if self.entries.len() != other.entries.len() {
            return false;
        }
        let mut i: usize = 0;
        while i < self.entries.len()
            invariant
                i <= self.entries.len(),
                self@.len() == other@.len(),
                distinct_keys(other@),
                forall|j: int| 0 <= j < i ==> other@.contains(#[trigger] self@[j]),
            decreases self.entries.len() - i,
        {
            assert(self@[i as int] == self.entries[i as int].deep_view());
            match other.get(self.entries[i].0.as_str()) {
                Some(v) => {
                    if !(*v == self.entries[i].1) {
                        proof {
                            assert forall|j: int| 0 <= j < other@.len() implies other@[j]
                                != self@[i as int] by {
                                if other@[j].0 == self@[i as int].0 {
                                    lemma_position_unique(other@, j);
                                }
                            }
                        }
                        return false;
                    }
                    proof {
                        let p = position_of(other@, self@[i as int].0);
                        assert(other@[p] == self@[i as int]);
                    }
                },
                None => {
                    return false;
                },
            }
            i += 1;
        }
        true
    }
}

impl vstd::std_specs::cmp::PartialEqSpecImpl for Info {
    open spec fn obeys_eq_spec() -> bool {
        true
    }

    open spec fn eq_spec(&self, other: &Self) -> bool {
        same_mapping(self@, other@)
    }
}

} // verus!
