//! JSON values.

use crate::text;
use vstd::prelude::*;

verus! {

/// A JSON value.
#[derive(Debug)]
pub enum Json {
    Null,
    Bool(bool),
    /// A whole number that is not negative.
    Unsigned(u64),
    /// A negative whole number.
    Negative(i64),
    /// Any other number: it is not looked at here.
    Real,
    Text(String),
    Array(Vec<Json>),
    /// Names and values. Where a name stands twice, the last value counts.
    Object(Vec<(String, Json)>),
}

/// The contents of a [`Json`].
pub enum JsonView {
    Null,
    Bool(bool),
    Unsigned(u64),
    Negative(i64),
    Real,
    Text(Seq<char>),
    Array(Seq<JsonView>),
    Object(Map<Seq<char>, JsonView>),
}

/// Where a name stands last in a list of members; -1 where it does not.
pub open spec fn place_of(members: Seq<(String, Json)>, name: Seq<char>) -> int
    decreases members.len(),
{
    if members.len() == 0 {
        -1
    } else if members.last().0@ == name {
        members.len() - 1
    } else {
        place_of(members.drop_last(), name)
    }
}

/// What a value holds.
pub open spec fn contents(j: Json) -> JsonView
    decreases j,
{
    match j {
        Json::Null => JsonView::Null,
        Json::Bool(b) => JsonView::Bool(b),
        Json::Unsigned(n) => JsonView::Unsigned(n),
        Json::Negative(n) => JsonView::Negative(n),
        Json::Real => JsonView::Real,
        Json::Text(s) => JsonView::Text(s@),
        Json::Array(v) => JsonView::Array(
            Seq::new(
                v@.len(),
                |i: int|
                    if 0 <= i < v@.len() {
                        contents(v@[i])
                    } else {
                        JsonView::Null
                    },
            ),
        ),
        Json::Object(v) => JsonView::Object(
            Map::new(
                |name: Seq<char>| 0 <= place_of(v@, name) < v@.len(),
                |name: Seq<char>|
                    if 0 <= place_of(v@, name) < v@.len() {
                        contents(v@[place_of(v@, name)].1)
                    } else {
                        JsonView::Null
                    },
            ),
        ),
    }
}

impl View for Json {
    type V = JsonView;

    open spec fn view(&self) -> JsonView {
        contents(*self)
    }
}

/// Whether all numbers in a value are whole, and each is held as what it is, negative
/// or not.
pub open spec fn is_whole(j: Json) -> bool
    decreases j,
{
    match j {
        Json::Real => false,
        Json::Negative(n) => n < 0,
        Json::Array(v) => forall|i: int| 0 <= i < v@.len() ==> is_whole(#[trigger] v@[i]),
        Json::Object(v) => forall|i: int| 0 <= i < v@.len() ==> is_whole((#[trigger] v@[i]).1),
        _ => true,
    }
}

/// Whether a value is nested no deeper than so many levels, members that do not count
/// among them.
pub open spec fn nests(j: Json, levels: nat) -> bool
    decreases levels,
{
    match j {
        Json::Array(v) => levels > 0 && forall|i: int|
            0 <= i < v@.len() ==> nests(#[trigger] v@[i], (levels - 1) as nat),
        Json::Object(v) => levels > 0 && forall|i: int|
            0 <= i < v@.len() ==> nests((#[trigger] v@[i]).1, (levels - 1) as nat),
        _ => true,
    }
}

/// How deep the values are nested that are written.
pub const MAX_LEVELS: usize = 100;

/// Whether a value can be written: its numbers are whole, and it is not nested too
/// deep.
pub open spec fn can_be_written(j: Json) -> bool {
    is_whole(j) && nests(j, MAX_LEVELS as nat)
}

/// Whether what a value holds is nested no deeper than so many levels.
pub open spec fn is_shallow(v: JsonView, levels: nat) -> bool
    decreases levels,
{
    match v {
        JsonView::Array(a) => levels > 0 && forall|i: int|
            0 <= i < a.len() ==> is_shallow(#[trigger] a[i], (levels - 1) as nat),
        JsonView::Object(m) => levels > 0 && forall|name: Seq<char>| #[trigger]
            m.contains_key(name) ==> is_shallow(m[name], (levels - 1) as nat),
        _ => true,
    }
}

/// Whether what a value holds is nested no deeper than so many levels, and has no
/// other numbers than whole ones.
pub open spec fn is_plain(v: JsonView, levels: nat) -> bool
    decreases levels,
{
    match v {
        JsonView::Real => false,
        JsonView::Array(a) => levels > 0 && forall|i: int|
            0 <= i < a.len() ==> is_plain(#[trigger] a[i], (levels - 1) as nat),
        JsonView::Object(m) => levels > 0 && forall|name: Seq<char>| #[trigger]
            m.contains_key(name) ==> is_plain(m[name], (levels - 1) as nat),
        _ => true,
    }
}

/// A value that can be written holds whole numbers only, and is not nested too deep.
proof fn lemma_plain(j: Json, levels: nat)
    requires
        is_whole(j),
        nests(j, levels),
    ensures
        is_plain(j@, levels),
    decreases levels,
{
    match j {
        Json::Array(v) => {
            let a = j@->Array_0;
            assert forall|i: int| 0 <= i < a.len() implies is_plain(
                #[trigger] a[i],
                (levels - 1) as nat,
            ) by {
                assert(is_whole(v@[i]) && nests(v@[i], (levels - 1) as nat));
                lemma_plain(v@[i], (levels - 1) as nat);
            }
        },
        Json::Object(v) => {
            let m = j@->Object_0;
            assert forall|name: Seq<char>| #[trigger] m.contains_key(name) implies is_plain(
                m[name],
                (levels - 1) as nat,
            ) by {
                let i = place_of(v@, name);
                assert(is_whole(v@[i].1) && nests(v@[i].1, (levels - 1) as nat));
                lemma_plain(v@[i].1, (levels - 1) as nat);
            }
        },
        _ => {},
    }
}

/// A JSON value of the crate `serde_json`.
#[verifier::external_type_specification]
#[verifier::external_body]
pub struct ExValue(serde_json::Value);

/// What a value of the crate `serde_json` holds.
pub uninterp spec fn tree_of(v: serde_json::Value) -> JsonView;

/// What [`serde_json::from_str`] reads in a text, or the error in words.
pub uninterp spec fn json_in(s: Seq<char>) -> Result<JsonView, Seq<char>>;

/// What [`serde_json::to_string`] writes of a value, or the error in words.
pub uninterp spec fn json_text(v: JsonView) -> Result<Seq<char>, Seq<char>>;

/// [`serde_json::from_str`]: what it reads depends on the text alone and goes by the
/// name [`json_in`]. It fails on values that are nested 128 levels deep or deeper.
#[verifier::external_body]
fn parse_value(s: &str) -> (r: Result<serde_json::Value, String>)
    ensures
        match r {
            Ok(v) => json_in(s@) == Ok::<JsonView, Seq<char>>(tree_of(v)) && is_shallow(
                tree_of(v),
                127,
            ),
            Err(e) => json_in(s@) == Err::<JsonView, Seq<char>>(e@),
        },
{
    match serde_json::from_str::<serde_json::Value>(s) {
        Ok(v) => Ok(v),
        Err(e) => Err(e.to_string()),
    }
}

/// [`serde_json::to_string`] on a value whose numbers are whole: what it writes depends
/// on the value alone and goes by the name [`json_text`]; and it is read as that value,
/// since it is not nested deeper than [`serde_json::from_str`] follows.
#[verifier::external_body]
fn value_text(v: &serde_json::Value) -> (r: Result<String, String>)
    requires
        is_plain(tree_of(*v), MAX_LEVELS as nat),
    ensures
        match r {
            Ok(s) => {
                &&& json_text(tree_of(*v)) == Ok::<Seq<char>, Seq<char>>(s@)
                &&& json_in(s@) == Ok::<JsonView, Seq<char>>(tree_of(*v))
            },
            Err(e) => json_text(tree_of(*v)) == Err::<Seq<char>, Seq<char>>(e@),
        },
{
    match serde_json::to_string(v) {
        Ok(s) => Ok(s),
        Err(e) => Err(e.to_string()),
    }
}

/// A [`serde_json::Value`] taken over, variant by variant. Of numbers that
/// [`serde_json::Number::as_u64`] and [`serde_json::Number::as_i64`] do not give, the
/// value is not kept. The bound on nesting is one on the recursion.
#[verifier::external_body]
fn from_value(v: serde_json::Value) -> (j: Json)
    requires
        is_shallow(tree_of(v), 127),
    ensures
        j@ == tree_of(v),
{
    match v {
        serde_json::Value::Null => Json::Null,
        serde_json::Value::Bool(b) => Json::Bool(b),
        serde_json::Value::Number(n) => match (n.as_u64(), n.as_i64()) {
            (Some(u), _) => Json::Unsigned(u),
            (None, Some(i)) => Json::Negative(i),
            (None, None) => Json::Real,
        },
        serde_json::Value::String(s) => Json::Text(s),
        serde_json::Value::Array(a) => Json::Array(a.into_iter().map(from_value).collect()),
        serde_json::Value::Object(o) => {
            Json::Object(o.into_iter().map(|(k, v)| (k, from_value(v))).collect())
        }
    }
}

/// A [`serde_json::Value`] made, variant by variant, of a value whose numbers are
/// whole. A negative number is one below 0: [`serde_json::Number`] keeps any other as
/// an unsigned one. The bound on nesting is one on the recursion.
#[verifier::external_body]
fn to_value(j: &Json) -> (v: serde_json::Value)
    requires
        is_whole(*j),
        nests(*j, MAX_LEVELS as nat),
    ensures
        tree_of(v) == j@,
{
    match j {
        Json::Null | Json::Real => serde_json::Value::Null,
        Json::Bool(b) => serde_json::Value::Bool(*b),
        Json::Unsigned(n) => serde_json::Value::from(*n),
        Json::Negative(n) => serde_json::Value::from(*n),
        Json::Text(s) => serde_json::Value::String(s.clone()),
        Json::Array(a) => serde_json::Value::Array(a.iter().map(to_value).collect()),
        Json::Object(o) => {
            serde_json::Value::Object(o.iter().map(|(k, v)| (k.clone(), to_value(v))).collect())
        }
    }
}

/// What stands in a text, or why it is no JSON.
pub fn parse_json(s: &str) -> (r: Result<Json, String>)
    ensures
        match r {
            Ok(j) => json_in(s@) == Ok::<JsonView, Seq<char>>(j@),
            Err(e) => json_in(s@) == Err::<JsonView, Seq<char>>(e@),
        },
{
    match parse_value(s) {
        Ok(v) => Ok(from_value(v)),
        Err(e) => Err(e),
    }
}

/// A value as text, which is read as that value.
pub fn write_json(j: &Json) -> (r: Result<String, String>)
    requires
        can_be_written(*j),
    ensures
        match r {
            Ok(s) => {
                &&& json_text(j@) == Ok::<Seq<char>, Seq<char>>(s@)
                &&& json_in(s@) == Ok::<JsonView, Seq<char>>(j@)
            },
            Err(e) => json_text(j@) == Err::<Seq<char>, Seq<char>>(e@),
        },
{
    proof {
        lemma_plain(*j, MAX_LEVELS as nat);
    }
    let v = to_value(j);
    value_text(&v)
}

impl JsonView {
    /// The member of an object; none where there is none, or this is no object.
    pub open spec fn member(self, name: Seq<char>) -> Option<JsonView> {
        match self {
            JsonView::Object(m) => if m.contains_key(name) {
                Some(m[name])
            } else {
                None
            },
            _ => None,
        }
    }

    /// The text that this is.
    pub open spec fn text(self) -> Option<Seq<char>> {
        match self {
            JsonView::Text(s) => Some(s),
            _ => None,
        }
    }

    /// The list that this is.
    pub open spec fn list(self) -> Option<Seq<JsonView>> {
        match self {
            JsonView::Array(a) => Some(a),
            _ => None,
        }
    }

    /// The number that this is, where it is whole and not negative.
    pub open spec fn unsigned(self) -> Option<u64> {
        match self {
            JsonView::Unsigned(n) => Some(n),
            _ => None,
        }
    }

    /// The number that this is, where it is whole and fits.
    pub open spec fn signed(self) -> Option<i64> {
        match self {
            JsonView::Unsigned(n) => if n <= i64::MAX {
                Some(n as i64)
            } else {
                None
            },
            JsonView::Negative(n) => Some(n),
            _ => None,
        }
    }

    /// The text of a member.
    pub open spec fn text_of(self, name: Seq<char>) -> Option<Seq<char>> {
        match self.member(name) {
            Some(v) => v.text(),
            None => None,
        }
    }

    /// The list of a member.
    pub open spec fn list_of(self, name: Seq<char>) -> Option<Seq<JsonView>> {
        match self.member(name) {
            Some(v) => v.list(),
            None => None,
        }
    }
}

proof fn lemma_place(members: Seq<(String, Json)>, name: Seq<char>)
    ensures
        -1 <= place_of(members, name) < members.len(),
    decreases members.len(),
{
    if members.len() > 0 && members.last().0@ != name {
        lemma_place(members.drop_last(), name);
    }
}

impl Json {
    /// The member of an object.
    pub fn get(&self, name: &str) -> (r: Option<&Json>)
        ensures
            match r {
                Some(j) => self@.member(name@) == Some(j@),
                None => self@.member(name@) is None,
            },
    {
        match self {
            Json::Object(members) => {
                let ghost all = members@;
                let mut i: usize = members.len();
                proof {
                    assert(all.subrange(0, i as int) =~= all);
                }
                while i > 0
                    invariant
                        i <= members@.len(),
                        all == members@,
                        *self == Json::Object(*members),
                        place_of(all, name@) == place_of(all.subrange(0, i as int), name@),
                    decreases i,
                {
                    proof {
                        assert(all.subrange(0, i as int).drop_last() =~= all.subrange(0, i - 1));
                    }
                    i = i - 1;
                    if text::same(members[i].0.as_str(), name) {
                        return Some(&members[i].1);
                    }
                }
                proof {
                    lemma_place(all, name@);
                    assert(place_of(all, name@) == -1);
                }
                None
            },
            _ => None,
        }
    }

    /// The text that this is.
    pub fn as_str(&self) -> (r: Option<&str>)
        ensures
            match r {
                Some(s) => self@.text() == Some(s@),
                None => self@.text() is None,
            },
    {
        match self {
            Json::Text(s) => Some(s.as_str()),
            _ => None,
        }
    }

    /// The list that this is.
    pub fn as_array(&self) -> (r: Option<&Vec<Json>>)
        ensures
            match r {
                Some(a) => self@.list() == Some(items(a@)),
                None => self@.list() is None,
            },
    {
        match self {
            Json::Array(a) => {
                proof {
                    assert(self@->Array_0 =~= items(a@));
                }
                Some(a)
            },
            _ => None,
        }
    }

    /// The number that this is, where it is whole and not negative.
    pub fn as_u64(&self) -> (r: Option<u64>)
        ensures
            r == self@.unsigned(),
    {
        match self {
            Json::Unsigned(n) => Some(*n),
            _ => None,
        }
    }

    /// The number that this is, where it is whole and fits.
    pub fn as_i64(&self) -> (r: Option<i64>)
        ensures
            r == self@.signed(),
    {
        match self {
            Json::Unsigned(n) => if *n <= 0x7fff_ffff_ffff_ffff {
                Some(*n as i64)
            } else {
                None
            },
            Json::Negative(n) => Some(*n),
            _ => None,
        }
    }

    /// The text of a member.
    pub fn text_of(&self, name: &str) -> (r: Option<&str>)
        ensures
            match r {
                Some(s) => self@.text_of(name@) == Some(s@),
                None => self@.text_of(name@) is None,
            },
    {
        match self.get(name) {
            Some(j) => j.as_str(),
            None => None,
        }
    }

    /// The list of a member.
    pub fn list_of(&self, name: &str) -> (r: Option<&Vec<Json>>)
        ensures
            match r {
                Some(a) => self@.list_of(name@) == Some(items(a@)),
                None => self@.list_of(name@) is None,
            },
    {
        match self.get(name) {
            Some(j) => j.as_array(),
            None => None,
        }
    }
}

/// What the values of a list hold.
pub open spec fn items(v: Seq<Json>) -> Seq<JsonView> {
    v.map_values(|j: Json| j@)
}

/// The members of an object, of which the last counts where a name stands twice.
pub open spec fn members_of(pairs: Seq<(Seq<char>, JsonView)>) -> Map<Seq<char>, JsonView>
    decreases pairs.len(),
{
    if pairs.len() == 0 {
        Map::empty()
    } else {
        members_of(pairs.drop_last()).insert(pairs.last().0, pairs.last().1)
    }
}

/// What names and values hold.
pub open spec fn pairs_of(v: Seq<(String, Json)>) -> Seq<(Seq<char>, JsonView)> {
    v.map_values(|p: (String, Json)| (p.0@, p.1@))
}

/// An object with these members.
pub open spec fn object_of(pairs: Seq<(Seq<char>, JsonView)>) -> JsonView {
    JsonView::Object(members_of(pairs))
}

proof fn lemma_members(v: Seq<(String, Json)>, name: Seq<char>)
    ensures
        -1 <= place_of(v, name) < v.len(),
        members_of(pairs_of(v)).contains_key(name) == (0 <= place_of(v, name)),
        0 <= place_of(v, name) ==> members_of(pairs_of(v))[name] == v[place_of(v, name)].1@,
    decreases v.len(),
{
    if v.len() > 0 {
        lemma_members(v.drop_last(), name);
        assert(pairs_of(v).drop_last() =~= pairs_of(v.drop_last()));
    }
}

/// An object with these members.
pub fn object(members: Vec<(String, Json)>) -> (j: Json)
    ensures
        j@ == object_of(pairs_of(members@)),
        j == Json::Object(members),
{
    let j = Json::Object(members);
    proof {
        let m = j@->Object_0;
        let n = members_of(pairs_of(members@));
        assert(m =~= n) by {
            assert forall|name: Seq<char>| m.contains_key(name) == n.contains_key(name) by {
                lemma_members(members@, name);
            }
            assert forall|name: Seq<char>| m.contains_key(name) implies m[name] == n[name] by {
                lemma_members(members@, name);
            }
        }
    }
    j
}

/// Whether each of these members is nested no deeper than so many levels.
pub open spec fn all_nest(members: Seq<(String, Json)>, levels: nat) -> bool {
    forall|i: int| 0 <= i < members.len() ==> nests((#[trigger] members[i]).1, levels)
}

/// An object made of members, none of which holds another than whole numbers. It is
/// nested one level deeper than they are.
pub fn whole_object(members: Vec<(String, Json)>) -> (j: Json)
    requires
        forall|i: int| 0 <= i < members@.len() ==> is_whole((#[trigger] members@[i]).1),
    ensures
        j@ == object_of(pairs_of(members@)),
        is_whole(j),
        forall|levels: nat| #[trigger]
            all_nest(members@, levels) ==> nests(j, levels + 1),
{
    object(members)
}

/// A text as a value.
pub fn text_value(s: &str) -> (j: Json)
    ensures
        j@ == JsonView::Text(s@),
        is_whole(j),
{
    Json::Text(s.to_string())
}

/// A signed number as a value.
pub open spec fn signed_view(n: i64) -> JsonView {
    if n < 0 {
        JsonView::Negative(n)
    } else {
        JsonView::Unsigned(n as u64)
    }
}

/// A signed number as a value.
pub fn signed_value(n: i64) -> (j: Json)
    ensures
        j@ == signed_view(n),
        is_whole(j),
{
    if n < 0 {
        Json::Negative(n)
    } else {
        Json::Unsigned(n as u64)
    }
}

/// A member of an object.
pub fn pair(name: &str, value: Json) -> (p: (String, Json))
    ensures
        p.0@ == name@,
        p.1 == value,
{
    (name.to_string(), value)
}

/// An object has the members that it was made of: under a name, the value of the last
/// member of that name, and nothing under a name that none has.
pub proof fn an_object_has_its_members(pairs: Seq<(Seq<char>, JsonView)>, name: Seq<char>)
    ensures
        forall|i: int|
            0 <= i < pairs.len() && (#[trigger] pairs[i]).0 == name && (forall|j: int|
                i < j < pairs.len() ==> (#[trigger] pairs[j]).0 != name) ==> object_of(
                pairs,
            ).member(name) == Some(pairs[i].1),
        (forall|i: int| 0 <= i < pairs.len() ==> (#[trigger] pairs[i]).0 != name) ==> object_of(
            pairs,
        ).member(name) is None,
    decreases pairs.len(),
{
    if pairs.len() > 0 {
        let front = pairs.drop_last();
        an_object_has_its_members(front, name);
        assert forall|i: int|
            0 <= i < pairs.len() && (#[trigger] pairs[i]).0 == name && (forall|j: int|
                i < j < pairs.len() ==> (#[trigger] pairs[j]).0 != name) implies object_of(
            pairs,
        ).member(name) == Some(pairs[i].1) by {
            if i < front.len() {
                assert(front[i] == pairs[i]);
                assert forall|j: int| i < j < front.len() implies (#[trigger] front[j]).0
                    != name by {
                    assert(front[j] == pairs[j]);
                }
                assert(pairs[pairs.len() - 1].0 != name);
            }
        }
        if forall|i: int| 0 <= i < pairs.len() ==> (#[trigger] pairs[i]).0 != name {
            assert forall|i: int| 0 <= i < front.len() implies (#[trigger] front[i]).0 != name by {
                assert(front[i] == pairs[i]);
            }
            assert(pairs[pairs.len() - 1].0 != name);
        }
    }
}

/// A signed number is read as it was written.
pub proof fn a_signed_number_is_read_as_it_was_written(n: i64)
    ensures
        signed_view(n).signed() == Some(n),
        n >= 0 ==> signed_view(n).unsigned() == Some(n as u64),
        n < 0 ==> signed_view(n).unsigned() is None,
{
}

/// The last member of a name is the one that an object has under it.
pub proof fn the_last_member_of_a_name_counts(pairs: Seq<(Seq<char>, JsonView)>, i: int)
    requires
        0 <= i < pairs.len(),
        forall|j: int| i < j < pairs.len() ==> (#[trigger] pairs[j]).0 != pairs[i].0,
    ensures
        object_of(pairs).member(pairs[i].0) == Some(pairs[i].1),
{
    an_object_has_its_members(pairs, pairs[i].0);
}

/// What can be read of a value: a text of a text alone, a list of a list, a number of a
/// whole number that fits, and a member of an object.
pub proof fn what_can_be_read_of_a_value(v: JsonView, name: Seq<char>)
    ensures
        v.text() is Some <==> v is Text,
        v matches JsonView::Text(s) ==> v.text() == Some(s),
        v.list() is Some <==> v is Array,
        v matches JsonView::Array(a) ==> v.list() == Some(a),
        v.unsigned() is Some <==> v is Unsigned,
        v matches JsonView::Unsigned(n) ==> v.unsigned() == Some(n),
        v matches JsonView::Unsigned(n) ==> (n <= 0x7fff_ffff_ffff_ffff ==> (v.signed() matches Some(
            m,
        ) && m == n)) && (n > 0x7fff_ffff_ffff_ffff ==> v.signed() is None),
        v matches JsonView::Negative(n) ==> v.signed() == Some(n),
        !(v is Unsigned) && !(v is Negative) ==> v.signed() is None,
        !(v is Object) ==> v.member(name) is None,
        v matches JsonView::Object(m) ==> (m.contains_key(name) ==> v.member(name) == Some(m[name]))
            && (!m.contains_key(name) ==> v.member(name) is None),
        v.text_of(name) is Some ==> (v.member(name) matches Some(x) && x is Text),
        v.member(name) matches Some(JsonView::Text(s)) ==> v.text_of(name) == Some(s),
        v.member(name) matches Some(JsonView::Array(a)) ==> v.list_of(name) == Some(a),
        v.list_of(name) is Some ==> (v.member(name) matches Some(x) && x is Array),
{
}

} // verus!
