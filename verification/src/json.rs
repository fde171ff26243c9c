//! JSON values as plain data, and the reading of JSON text.

use crate::chars::{chars_of, decimal, decimal_of, str_eq, string_of};
use crate::order::{
    lemma_text_le_antisym, lemma_text_le_total, lemma_text_le_trans, text_before, text_le,
};
use vstd::prelude::*;

verus! {

/// A JSON value. An object is a list of members; a number is kept as it is
/// written, with its value where that is a `u64`.
#[derive(Debug, PartialEq)]
pub enum Json {
    Null,
    Bool(bool),
    Num(JsonNum),
    Str(String),
    Arr(Vec<Json>),
    Obj(Vec<(String, Json)>),
}

/// A JSON number.
#[derive(Debug, PartialEq)]
pub struct JsonNum {
    pub unsigned: Option<u64>,
    pub text: String,
}

/// What a `Json` says.
#[verifier::ext_equal]
pub enum JsonV {
    Null,
    Bool(bool),
    Num(Option<u64>, Seq<char>),
    Str(Seq<char>),
    Arr(Seq<JsonV>),
    Obj(Seq<(Seq<char>, JsonV)>),
}

/// What each of a list of values says.
pub open spec fn says_all(v: Seq<Json>) -> Seq<JsonV> {
    v.map_values(|j: Json| j.says())
}

/// What each of a list of members says.
pub open spec fn says_members(v: Seq<(String, Json)>) -> Seq<(Seq<char>, JsonV)> {
    v.map_values(|m: (String, Json)| (m.0@, m.1.says()))
}

/// What an optional value says.
pub open spec fn says_opt(v: Option<Json>) -> Option<JsonV> {
    match v {
        Some(j) => Some(j.says()),
        None => None,
    }
}

impl Json {
    /// What the value says.
    pub open spec fn says(&self) -> JsonV
        decreases self,
    {
        match self {
            Json::Null => JsonV::Null,
            Json::Bool(b) => JsonV::Bool(*b),
            Json::Num(n) => JsonV::Num(n.unsigned, n.text@),
            Json::Str(s) => JsonV::Str(s@),
            Json::Arr(a) => JsonV::Arr(
                Seq::new(
                    a@.len(),
                    |i: int|
                        if 0 <= i < a@.len() {
                            a@[i].says()
                        } else {
                            JsonV::Null
                        },
                ),
            ),
            Json::Obj(m) => JsonV::Obj(
                Seq::new(
                    m@.len(),
                    |i: int|
                        if 0 <= i < m@.len() {
                            (m@[i].0@, m@[i].1.says())
                        } else {
                            (Seq::empty(), JsonV::Null)
                        },
                ),
            ),
        }
    }

    /// A value that says the same.
    pub fn copy(&self) -> (r: Json)
        ensures
            r.says() == self.says(),
        decreases self,
    {
        match self {
            Json::Null => Json::Null,
            Json::Bool(b) => Json::Bool(*b),
            Json::Num(n) => Json::Num(JsonNum { unsigned: n.unsigned, text: n.text.clone() }),
            Json::Str(s) => Json::Str(s.clone()),
            Json::Arr(a) => {
                let mut out: Vec<Json> = Vec::new();
                for i in 0..a.len()
                    invariant
                        out.len() == i,
                        decreases_to!(self => a),
                        forall|k: int| 0 <= k < i ==> out@[k].says() == a@[k].says(),
                {
                    let item = &a[i];
                    assert(decreases_to!(a => a@));
                    assert(decreases_to!(a@ => a@[i as int]));
                    out.push(item.copy());
                }
                let r = Json::Arr(out);
                proof {
                    lemma_arr(*self);
                    lemma_arr(r);
                    assert(says_all(out@) =~= says_all(a@));
                }
                r
            },
            Json::Obj(m) => {
                let mut out: Vec<(String, Json)> = Vec::new();
                for i in 0..m.len()
                    invariant
                        out.len() == i,
                        decreases_to!(self => m),
                        forall|k: int|
                            0 <= k < i ==> out@[k].0@ == m@[k].0@ && out@[k].1.says()
                                == m@[k].1.says(),
                {
                    let item = &m[i];
                    assert(decreases_to!(m => m@));
                    assert(decreases_to!(m@ => m@[i as int]));
                    assert(decreases_to!(m@[i as int] => m@[i as int].1));
                    out.push((item.0.clone(), item.1.copy()));
                }
                let r = Json::Obj(out);
                proof {
                    lemma_obj(*self);
                    lemma_obj(r);
                    assert(says_members(out@) =~= says_members(m@));
                }
                r
            },
        }
    }

    /// The member named `key`, where the value is an object that has one.
    pub fn get(&self, key: &str) -> (r: Option<&Json>)
        ensures
            match r {
                Some(j) => member(self.says(), key@) == Some(j.says()),
                None => member(self.says(), key@) is None,
            },
    {
        match self {
            Json::Obj(m) => {
                proof {
                    lemma_obj(*self);
                }
                for i in 0..m.len()
                    invariant
                        self.says() == JsonV::Obj(says_members(m@)),
                        forall|k: int| 0 <= k < i ==> m@[k].0@ != key@,
                        first_named(says_members(m@), key@, 0) == first_named(
                            says_members(m@),
                            key@,
                            i as int,
                        ),
                {
                    if str_eq(m[i].0.as_str(), key) {
                        return Some(&m[i].1);
                    }
                }
                None
            },
            _ => None,
        }
    }

    /// The text of the member named `key`.
    pub fn str_at(&self, key: &str) -> (r: Option<String>)
        ensures
            crate::chars::opt_text(r) == text_at(self.says(), key@),
    {
        match self.get(key) {
            Some(Json::Str(s)) => Some(s.clone()),
            _ => None,
        }
    }

    /// The truth value of the member named `key`.
    pub fn bool_at(&self, key: &str) -> (r: Option<bool>)
        ensures
            r == flag_at(self.says(), key@),
    {
        match self.get(key) {
            Some(Json::Bool(b)) => Some(*b),
            _ => None,
        }
    }

    /// The number of the member named `key`, where it is a `u64`.
    pub fn u64_at(&self, key: &str) -> (r: Option<u64>)
        ensures
            r == number_at(self.says(), key@),
    {
        match self.get(key) {
            Some(Json::Num(n)) => n.unsigned,
            _ => None,
        }
    }

    /// The items of the member named `key`, where it is an array.
    pub fn arr_at(&self, key: &str) -> (r: Option<&Vec<Json>>)
        ensures
            match r {
                Some(a) => items_at(self.says(), key@) == Some(says_all(a@)),
                None => items_at(self.says(), key@) is None,
            },
    {
        match self.get(key) {
            Some(j) => {
                proof {
                    lemma_arr(*j);
                }
                match j {
                    Json::Arr(a) => Some(a),
                    _ => None,
                }
            },
            None => None,
        }
    }
}

/// An optional value that says the same.
pub fn copied_json(v: &Option<Json>) -> (r: Option<Json>)
    ensures
        says_opt(r) == says_opt(*v),
{
    match v {
        Some(j) => Some(j.copy()),
        None => None,
    }
}

/// What an array says, item by item.
pub proof fn lemma_arr(j: Json)
    ensures
        j matches Json::Arr(a) ==> j.says() == JsonV::Arr(says_all(a@)),
{
    if let Json::Arr(a) = j {
        assert(j.says()->Arr_0 =~= says_all(a@));
    }
}

/// What an object says, member by member.
pub proof fn lemma_obj(j: Json)
    ensures
        j matches Json::Obj(m) ==> j.says() == JsonV::Obj(says_members(m@)),
{
    if let Json::Obj(m) = j {
        assert(j.says()->Obj_0 =~= says_members(m@));
    }
}

/// The value of the first member at or after `i` that has the name `key`.
pub open spec fn first_named(m: Seq<(Seq<char>, JsonV)>, key: Seq<char>, i: int) -> Option<JsonV>
    decreases m.len() - i,
{
    if i < 0 || i >= m.len() {
        None
    } else if m[i].0 == key {
        Some(m[i].1)
    } else {
        first_named(m, key, i + 1)
    }
}

/// The member of an object that has the name `key`.
pub open spec fn member(v: JsonV, key: Seq<char>) -> Option<JsonV> {
    match v {
        JsonV::Obj(m) => first_named(m, key, 0),
        _ => None,
    }
}

/// The text of the member `key`.
pub open spec fn text_at(v: JsonV, key: Seq<char>) -> Option<Seq<char>> {
    match member(v, key) {
        Some(JsonV::Str(s)) => Some(s),
        _ => None,
    }
}

/// The truth value of the member `key`.
pub open spec fn flag_at(v: JsonV, key: Seq<char>) -> Option<bool> {
    match member(v, key) {
        Some(JsonV::Bool(b)) => Some(b),
        _ => None,
    }
}

/// The number of the member `key`, where it is a `u64`.
pub open spec fn number_at(v: JsonV, key: Seq<char>) -> Option<u64> {
    match member(v, key) {
        Some(JsonV::Num(n, _t)) => n,
        _ => None,
    }
}

/// The items of the member `key`, where it is an array.
pub open spec fn items_at(v: JsonV, key: Seq<char>) -> Option<Seq<JsonV>> {
    match member(v, key) {
        Some(JsonV::Arr(a)) => Some(a),
        _ => None,
    }
}

/// What the member `key` says; null where there is none.
pub open spec fn at(v: JsonV, key: Seq<char>) -> JsonV {
    match member(v, key) {
        Some(x) => x,
        None => JsonV::Null,
    }
}

/// What a value says; null where there is none.
pub open spec fn said(v: Option<&Json>) -> JsonV {
    match v {
        Some(j) => j.says(),
        None => JsonV::Null,
    }
}

/// Goes down to the member `key`.
pub fn down<'a>(v: Option<&'a Json>, key: &str) -> (r: Option<&'a Json>)
    ensures
        said(r) == at(said(v), key@),
{
    match v {
        Some(j) => j.get(key),
        None => None,
    }
}

/// The number of the member `key`.
pub fn u64_in(v: Option<&Json>, key: &str) -> (r: Option<u64>)
    ensures
        r == number_at(said(v), key@),
{
    match v {
        Some(j) => j.u64_at(key),
        None => None,
    }
}

/// The text of the member `key`.
pub fn str_in(v: Option<&Json>, key: &str) -> (r: Option<String>)
    ensures
        crate::chars::opt_text(r) == text_at(said(v), key@),
{
    match v {
        Some(j) => j.str_at(key),
        None => None,
    }
}

/// A text.
pub fn jstr(s: &str) -> (r: Json)
    ensures
        r.says() == JsonV::Str(s@),
{
    Json::Str(s.to_owned())
}

/// What a number that is a `u64` says.
pub open spec fn num_says(n: u64) -> JsonV {
    JsonV::Num(Some(n), decimal(n as nat))
}

/// A number.
pub fn jnum(n: u64) -> (r: Json)
    ensures
        r.says() == num_says(n),
{
    Json::Num(JsonNum { unsigned: Some(n), text: string_of(decimal_of(n).as_slice()) })
}

/// An array.
pub fn jarr(v: Vec<Json>) -> (r: Json)
    ensures
        r.says() == JsonV::Arr(says_all(v@)),
{
    let r = Json::Arr(v);
    proof {
        lemma_arr(r);
    }
    r
}

/// An object. The members of the objects that this library builds stand in
/// the order of their names, as those of parsed text do.
pub fn jobj(v: Vec<(String, Json)>) -> (r: Json)
    ensures
        r.says() == JsonV::Obj(says_members(v@)),
{
    let r = Json::Obj(v);
    proof {
        lemma_obj(r);
    }
    r
}

/// The members of an object that has none.
pub open spec fn ms() -> Seq<(Seq<char>, JsonV)> {
    Seq::empty()
}

/// No members yet.
pub fn no_members() -> (r: Vec<(String, Json)>)
    ensures
        says_members(r@) == ms(),
{
    let v: Vec<(String, Json)> = Vec::new();
    proof {
        assert(says_members(v@) =~= Seq::<(Seq<char>, JsonV)>::empty());
    }
    v
}

/// Adds a member behind the others.
pub fn put(v: &mut Vec<(String, Json)>, key: &str, j: Json)
    ensures
        says_members(final(v)@) == says_members(old(v)@).push((key@, j.says())),
{
    let ghost before = says_members(v@);
    v.push((key.to_owned(), j));
    proof {
        assert(says_members(v@) =~= before.push((key@, j.says())));
    }
}

/// Adds an item behind the others.
pub fn put_item(v: &mut Vec<Json>, j: Json)
    ensures
        says_all(final(v)@) == says_all(old(v)@).push(j.says()),
{
    let ghost before = says_all(v@);
    v.push(j);
    proof {
        assert(says_all(v@) =~= before.push(j.says()));
    }
}

/// The index of the first member at or after `i` that has the name `key`, or
/// else of the first whose name comes after `key`.
pub open spec fn slot(m: Seq<(Seq<char>, JsonV)>, key: Seq<char>, i: int) -> int
    decreases m.len() - i,
{
    if i < 0 || i >= m.len() || m[i].0 == key || !text_le(m[i].0, key) {
        i
    } else {
        slot(m, key, i + 1)
    }
}

/// `m` with the member `key` set: replaced where it has one, else put in its
/// place in the order of names.
pub open spec fn set_member(m: Seq<(Seq<char>, JsonV)>, key: Seq<char>, v: JsonV) -> Seq<
    (Seq<char>, JsonV),
> {
    let i = slot(m, key, 0);
    if 0 <= i < m.len() && m[i].0 == key {
        m.update(i, (key, v))
    } else {
        m.insert(i, (key, v))
    }
}

/// Sets a member.
pub fn put_member(m: &mut Vec<(String, Json)>, key: &str, v: Json)
    ensures
        says_members(final(m)@) == set_member(says_members(old(m)@), key@, v.says()),
{
    let ghost all = says_members(m@);
    let name = chars_of(key);
    let mut i: usize = 0;
    while i < m.len() && !str_eq(m[i].0.as_str(), key) && text_before(
        chars_of(m[i].0.as_str()).as_slice(),
        name.as_slice(),
    )
        invariant
            i <= m.len(),
            all == says_members(m@),
            name@ == key@,
            slot(all, key@, 0) == slot(all, key@, i as int),
        decreases m.len() - i,
    {
        proof {
            assert(all[i as int].0 == m@[i as int].0@);
        }
        i = i + 1;
    }
    proof {
        if i < m.len() {
            assert(all[i as int].0 == m@[i as int].0@);
        }
    }
    if i < m.len() && str_eq(m[i].0.as_str(), key) {
        m[i] = (key.to_owned(), v);
        proof {
            assert(says_members(m@) =~= all.update(i as int, (key@, v.says())));
        }
    } else {
        m.insert(i, (key.to_owned(), v));
        proof {
            assert(says_members(m@) =~= all.insert(i as int, (key@, v.says())));
        }
    }
}

/// `m` with every member of `extra` set, in order.
pub open spec fn set_members(m: Seq<(Seq<char>, JsonV)>, extra: Seq<(Seq<char>, JsonV)>) -> Seq<
    (Seq<char>, JsonV),
>
    decreases extra.len(),
{
    if extra.len() == 0 {
        m
    } else {
        set_member(set_members(m, extra.drop_last()), extra.last().0, extra.last().1)
    }
}

/// Sets every member of `extra`.
pub fn put_members(m: &mut Vec<(String, Json)>, extra: &[(String, Json)])
    ensures
        says_members(final(m)@) == set_members(says_members(old(m)@), says_members(extra@)),
{
    let ghost start = says_members(m@);
    let ghost ext = says_members(extra@);
    for i in 0..extra.len()
        invariant
            ext == says_members(extra@),
            says_members(m@) == set_members(start, ext.take(i as int)),
    {
        proof {
            assert(ext.take(i as int + 1).drop_last() =~= ext.take(i as int));
        }
        put_member(m, extra[i].0.as_str(), extra[i].1.copy());
    }
    proof {
        assert(ext.take(extra@.len() as int) =~= ext);
    }
}

/// Whether the names of members stand in their order, each once.
pub open spec fn in_order(m: Seq<(Seq<char>, JsonV)>) -> bool {
    forall|i: int, j: int|
        0 <= i < j < m.len() ==> text_le((#[trigger] m[i]).0, (#[trigger] m[j]).0) && m[i].0
            != m[j].0
}

/// Members are in order where each comes before the next.
pub proof fn lemma_in_order(m: Seq<(Seq<char>, JsonV)>)
    requires
        forall|i: int|
            0 <= i < m.len() - 1 ==> text_le((#[trigger] m[i]).0, m[i + 1].0) && m[i].0 != m[i
                + 1].0,
    ensures
        in_order(m),
    decreases m.len(),
{
    if m.len() > 0 {
        let d = m.drop_last();
        assert forall|i: int| 0 <= i < d.len() - 1 implies text_le((#[trigger] d[i]).0, d[i + 1].0)
            && d[i].0 != d[i + 1].0 by {
            assert(d[i] == m[i] && d[i + 1] == m[i + 1]);
        }
        lemma_in_order(d);
        let n = m.len() - 1;
        assert forall|i: int, j: int| 0 <= i < j < m.len() implies text_le(
            (#[trigger] m[i]).0,
            (#[trigger] m[j]).0,
        ) && m[i].0 != m[j].0 by {
            assert(d[i] == m[i]);
            if j < n {
                assert(d[j] == m[j]);
            } else if i < n - 1 {
                assert(d[n - 1] == m[n - 1]);
                assert(text_le(d[i].0, d[n - 1].0));
                assert(text_le(m[n - 1].0, m[n - 1 + 1].0));
                lemma_text_le_trans(m[i].0, m[n - 1].0, m[n].0);
                if m[i].0 == m[n].0 {
                    lemma_text_le_antisym(m[n - 1].0, m[n].0);
                }
            } else {
                assert(text_le(m[n - 1].0, m[n - 1 + 1].0));
            }
        }
    }
}

/// Where the place of a name is among members in order.
pub proof fn lemma_slot(m: Seq<(Seq<char>, JsonV)>, key: Seq<char>, from: int)
    requires
        in_order(m),
        0 <= from <= m.len(),
        forall|k: int| 0 <= k < from ==> (#[trigger] m[k]).0 != key && text_le(m[k].0, key),
    ensures
        0 <= slot(m, key, from) <= m.len(),
        forall|k: int|
            0 <= k < slot(m, key, from) ==> (#[trigger] m[k]).0 != key && text_le(m[k].0, key),
        forall|k: int|
            slot(m, key, from) < k < m.len() ==> (#[trigger] m[k]).0 != key && text_le(
                key,
                m[k].0,
            ),
        slot(m, key, from) < m.len() ==> text_le(key, m[slot(m, key, from)].0),
    decreases m.len() - from,
{
    if from < m.len() && m[from].0 != key && text_le(m[from].0, key) {
        lemma_slot(m, key, from + 1);
    } else if from < m.len() {
        lemma_text_le_total(m[from].0, key);
        assert forall|k: int| from < k < m.len() implies (#[trigger] m[k]).0 != key && text_le(
            key,
            m[k].0,
        ) by {
            assert(text_le(m[from].0, m[k].0) && m[from].0 != m[k].0);
            lemma_text_le_trans(key, m[from].0, m[k].0);
            if m[k].0 == key {
                lemma_text_le_antisym(m[from].0, m[k].0);
            }
        }
    }
}

/// Members in order stay in order where one is set.
pub proof fn lemma_set_member(m: Seq<(Seq<char>, JsonV)>, key: Seq<char>, v: JsonV)
    requires
        in_order(m),
    ensures
        in_order(set_member(m, key, v)),
{
    lemma_slot(m, key, 0);
    let s = slot(m, key, 0);
    let now = set_member(m, key, v);
    if !(s < m.len() && m[s].0 == key) {
        assert forall|i: int, j: int| 0 <= i < j < now.len() implies text_le(
            (#[trigger] now[i]).0,
            (#[trigger] now[j]).0,
        ) && now[i].0 != now[j].0 by {
            let a = if i < s {
                i
            } else {
                i - 1
            };
            let b = if j < s {
                j
            } else {
                j - 1
            };
            if i != s && j != s {
                assert(now[i] == m[a] && now[j] == m[b]);
            } else if i == s {
                assert(now[j] == m[b]);
            } else {
                assert(now[i] == m[a]);
            }
        }
    } else {
        assert forall|i: int, j: int| 0 <= i < j < now.len() implies text_le(
            (#[trigger] now[i]).0,
            (#[trigger] now[j]).0,
        ) && now[i].0 != now[j].0 by {
            assert(now[i].0 == m[i].0 && now[j].0 == m[j].0);
        }
    }
}

/// Members that stand in order already are kept as they are.
pub proof fn lemma_set_in_order(m: Seq<(Seq<char>, JsonV)>)
    requires
        in_order(m),
    ensures
        set_members(ms(), m) == m,
    decreases m.len(),
{
    if m.len() > 0 {
        let d = m.drop_last();
        assert forall|i: int, j: int| 0 <= i < j < d.len() implies text_le(
            (#[trigger] d[i]).0,
            (#[trigger] d[j]).0,
        ) && d[i].0 != d[j].0 by {
            assert(d[i] == m[i] && d[j] == m[j]);
        }
        lemma_set_in_order(d);
        lemma_slot(d, m.last().0, 0);
        let s = slot(d, m.last().0, 0);
        if s < d.len() {
            assert(d[s] == m[s]);
            lemma_text_le_antisym(m[s].0, m.last().0);
        }
        assert(set_member(d, m.last().0, m.last().1) =~= m);
    } else {
        assert(m =~= ms());
    }
}

/// The member `key` of a record that is written as an object, or as the array
/// of its `n` fields in order, the last of which may be left out down to
/// `min`; `key` is field number `i`. `None`: the value is no such record.
pub open spec fn field(v: JsonV, key: Seq<char>, i: int, min: int, n: int) -> Option<JsonV> {
    match v {
        JsonV::Obj(_m) => Some(at(v, key)),
        JsonV::Arr(a) => if min <= a.len() <= n {
            Some(
                if 0 <= i < a.len() {
                    a[i]
                } else {
                    JsonV::Null
                },
            )
        } else {
            None
        },
        _ => None,
    }
}

/// Reads a field of a record.
pub fn field_of<'a>(v: &'a Json, key: &str, i: usize, min: usize, n: usize) -> (r: Option<
    Option<&'a Json>,
>)
    ensures
        match r {
            Some(f) => field(v.says(), key@, i as int, min as int, n as int) == Some(said(f)),
            None => field(v.says(), key@, i as int, min as int, n as int) is None,
        },
{
    proof {
        lemma_arr(*v);
        lemma_obj(*v);
    }
    match v {
        Json::Obj(_m) => Some(down(Some(v), key)),
        Json::Arr(a) => if min <= a.len() && a.len() <= n {
            if i < a.len() {
                Some(Some(&a[i]))
            } else {
                Some(None)
            }
        } else {
            None
        },
        _ => None,
    }
}

/// A field that is a text or absent; null counts as absent. `None`: it is
/// something else.
pub open spec fn text_field(v: Option<JsonV>) -> Option<Option<Seq<char>>> {
    match v {
        Some(JsonV::Null) => Some(None),
        Some(JsonV::Str(s)) => Some(Some(s)),
        _ => None,
    }
}

/// A field that is a number no larger than `max`, or absent.
pub open spec fn number_field(v: Option<JsonV>, max: u64) -> Option<Option<u64>> {
    match v {
        Some(JsonV::Null) => Some(None),
        Some(JsonV::Num(Some(n), _t)) => if n <= max {
            Some(Some(n))
        } else {
            None
        },
        _ => None,
    }
}

/// A field that is an array, or absent.
pub open spec fn list_field(v: Option<JsonV>) -> Option<Option<Seq<JsonV>>> {
    match v {
        Some(JsonV::Null) => Some(None),
        Some(JsonV::Arr(a)) => Some(Some(a)),
        _ => None,
    }
}

/// What a field that was found says.
pub open spec fn found(v: Option<Option<&Json>>) -> Option<JsonV> {
    match v {
        Some(f) => Some(said(f)),
        None => None,
    }
}

/// Reads a text field.
pub fn text_of(v: Option<Option<&Json>>) -> (r: Option<Option<String>>)
    ensures
        match r {
            Some(t) => text_field(found(v)) == Some(crate::chars::opt_text(t)),
            None => text_field(found(v)) is None,
        },
{
    match v {
        Some(None) => Some(None),
        Some(Some(Json::Null)) => Some(None),
        Some(Some(Json::Str(s))) => Some(Some(s.clone())),
        _ => None,
    }
}

/// Reads a number field.
pub fn u64_of(v: Option<Option<&Json>>, max: u64) -> (r: Option<Option<u64>>)
    ensures
        r == number_field(found(v), max),
{
    match v {
        Some(None) => Some(None),
        Some(Some(Json::Null)) => Some(None),
        Some(Some(Json::Num(n))) => match n.unsigned {
            Some(k) => if k <= max {
                Some(Some(k))
            } else {
                None
            },
            None => None,
        },
        _ => None,
    }
}

/// Reads an array field.
pub fn list_of<'a>(v: Option<Option<&'a Json>>) -> (r: Option<Option<&'a Vec<Json>>>)
    ensures
        match r {
            Some(Some(a)) => list_field(found(v)) == Some(Some(says_all(a@))),
            Some(None) => list_field(found(v)) == Some(None::<Seq<JsonV>>),
            None => list_field(found(v)) is None,
        },
{
    match v {
        Some(None) => Some(None),
        Some(Some(j)) => {
            proof {
                lemma_arr(*j);
            }
            match j {
                Json::Null => Some(None),
                Json::Arr(a) => Some(Some(a)),
                _ => None,
            }
        },
        None => None,
    }
}

/// `serde_json::Value`: the tree that the outside crate reads text into.
#[verifier::external_type_specification]
#[verifier::external_body]
pub struct ExValue(serde_json::Value);

/// What a `serde_json::Value` holds: the same tree in this module's terms, a
/// number by its text and by its value where `Number::as_u64` gives one.
pub uninterp spec fn value_says(value: serde_json::Value) -> JsonV;

/// What `serde_json::from_str` reads from a text; `None` where it reports an
/// error.
pub uninterp spec fn json_text(text: Seq<char>) -> Option<JsonV>;

/// Calls `serde_json::from_str`: the value that the text writes, or `None`
/// where the text is not one JSON value. What it reads is a function of the
/// text alone, named `json_text`. The digits of a `u64` write that number.
#[verifier::external_body]
fn value_of_text(text: &str) -> (r: Option<serde_json::Value>)
    ensures
        match r {
            Some(v) => json_text(text@) == Some(value_says(v)),
            None => json_text(text@) is None,
        },
        forall|n: u64|
            text@ == #[trigger] decimal(n as nat) ==> r is Some && value_says(r->0) == num_says(n),
{
    serde_json::from_str::<serde_json::Value>(text).ok()
}

/// Takes a `serde_json::Value` apart, kind by kind, into the same tree; a
/// number keeps its text (`Number::to_string`) and its value where
/// `Number::as_u64` gives one.
#[verifier::external_body]
fn json_of_value(value: serde_json::Value) -> (r: Json)
    ensures
        r.says() == value_says(value),
{
    match value {
        serde_json::Value::Null => Json::Null,
        serde_json::Value::Bool(b) => Json::Bool(b),
        serde_json::Value::Number(n) => Json::Num(
            JsonNum { unsigned: n.as_u64(), text: n.to_string() },
        ),
        serde_json::Value::String(s) => Json::Str(s),
        serde_json::Value::Array(a) => Json::Arr(a.into_iter().map(json_of_value).collect()),
        serde_json::Value::Object(m) => Json::Obj(
            m.into_iter().map(|p| (p.0, json_of_value(p.1))).collect(),
        ),
    }
}

/// The value that a text writes, where it is one JSON value.
pub fn parse_json(text: &str) -> (r: Option<Json>)
    ensures
        says_opt(r) == json_text(text@),
{
    match value_of_text(text) {
        Some(value) => Some(json_of_value(value)),
        None => None,
    }
}

/// What `serde_json::to_string_pretty` writes for a value.
pub uninterp spec fn pretty_json(v: JsonV) -> Seq<char>;

/// Calls `serde_json::to_string_pretty`: the value as indented text, a
/// function of what the value holds, named `pretty_json`.
#[verifier::external_body]
fn pretty_of_value(value: &serde_json::Value) -> (r: String)
    ensures
        r@ == pretty_json(value_says(*value)),
{
    serde_json::to_string_pretty(value).unwrap_or_default()
}

/// What the `Display` of `serde_json::Value` writes for a value.
pub uninterp spec fn compact_json(v: JsonV) -> Seq<char>;

/// Whether a text stands in a JSON string as it is: no quotes, no backslashes
/// and no control characters.
pub open spec fn is_plain(s: Seq<char>) -> bool {
    forall|i: int| 0 <= i < s.len() ==> #[trigger] s[i] >= ' ' && s[i] != '"' && s[i] != '\\'
}

/// Whether every number in a tree is a `u64`, and lists and objects stand at
/// most `depth` deep in each other.
pub open spec fn reads_back(v: JsonV, depth: nat) -> bool
    decreases depth,
{
    match v {
        JsonV::Num(n, t) => n is Some && t == decimal(n->0 as nat),
        JsonV::Arr(a) => depth > 0 && forall|i: int|
            0 <= i < a.len() ==> reads_back(#[trigger] a[i], (depth - 1) as nat),
        JsonV::Obj(m) => depth > 0 && forall|i: int|
            0 <= i < m.len() ==> reads_back((#[trigger] m[i]).1, (depth - 1) as nat),
        _ => true,
    }
}

/// Calls the `Display` of `serde_json::Value`: the value as text without
/// blanks between its parts, a function of what the value holds, named
/// `compact_json`. A text without anything to escape is written between
/// quotes as it is. A value whose numbers are each a `u64` and that is not
/// nested too deep to be read is read back from the text.
#[verifier::external_body]
fn compact_of_value(value: &serde_json::Value) -> (r: String)
    ensures
        r@ == compact_json(value_says(*value)),
        match value_says(*value) {
            JsonV::Str(s) => is_plain(s) ==> r@ == seq!['"'] + s + seq!['"'],
            _ => true,
        },
        reads_back(value_says(*value), 100) ==> json_text(r@) == Some(value_says(*value)),
{
    value.to_string()
}

/// Calls `serde_json::Value::from` on a text: the value that is this text.
#[verifier::external_body]
fn value_of_str(text: &str) -> (r: serde_json::Value)
    ensures
        value_says(r) == JsonV::Str(text@),
{
    serde_json::Value::from(text)
}

/// A text as a JSON string.
pub open spec fn json_string(s: Seq<char>) -> Seq<char> {
    if is_plain(s) {
        seq!['"'] + s + seq!['"']
    } else {
        compact_json(JsonV::Str(s))
    }
}

/// Writes a text as a JSON string.
pub fn quoted(text: &str) -> (r: String)
    ensures
        r@ == json_string(text@),
        r@ == compact_json(JsonV::Str(text@)),
{
    compact_of_value(&value_of_str(text))
}

/// Calls `serde_json::Value::from` on the unit: the null value.
#[verifier::external_body]
fn value_of_nothing() -> (r: serde_json::Value)
    ensures
        value_says(r) == JsonV::Null,
{
    serde_json::Value::from(())
}

/// Calls `serde_json::Value::from` on a truth value: the value that it is.
#[verifier::external_body]
fn value_of_bool(b: bool) -> (r: serde_json::Value)
    ensures
        value_says(r) == JsonV::Bool(b),
{
    serde_json::Value::from(b)
}

/// What each of a list of outside values holds.
pub open spec fn values_say(v: Seq<serde_json::Value>) -> Seq<JsonV> {
    v.map_values(|x: serde_json::Value| value_says(x))
}

/// Calls `serde_json::Value::from` on a list of values: the array of them.
#[verifier::external_body]
fn value_of_list(v: Vec<serde_json::Value>) -> (r: serde_json::Value)
    ensures
        value_says(r) == JsonV::Arr(values_say(v@)),
{
    serde_json::Value::from(v)
}

/// What each of a list of outside members holds.
pub open spec fn named_values_say(v: Seq<(String, serde_json::Value)>) -> Seq<
    (Seq<char>, JsonV),
> {
    v.map_values(|p: (String, serde_json::Value)| (p.0@, value_says(p.1)))
}

/// Calls `serde_json::Value::from_iter` on members whose names stand in order:
/// the object that has them.
#[verifier::external_body]
fn value_of_members(v: Vec<(String, serde_json::Value)>) -> (r: serde_json::Value)
    requires
        in_order(named_values_say(v@)),
    ensures
        value_says(r) == JsonV::Obj(named_values_say(v@)),
{
    serde_json::Value::from_iter(v)
}

fn put_value(m: &mut Vec<(String, serde_json::Value)>, key: &str, v: serde_json::Value)
    ensures
        named_values_say(final(m)@) == set_member(
            named_values_say(old(m)@),
            key@,
            value_says(v),
        ),
{
    let ghost all = named_values_say(m@);
    let name = chars_of(key);
    let mut i: usize = 0;
    while i < m.len() && !str_eq(m[i].0.as_str(), key) && text_before(
        chars_of(m[i].0.as_str()).as_slice(),
        name.as_slice(),
    )
        invariant
            i <= m.len(),
            all == named_values_say(m@),
            name@ == key@,
            slot(all, key@, 0) == slot(all, key@, i as int),
        decreases m.len() - i,
    {
        proof {
            assert(all[i as int].0 == m@[i as int].0@);
        }
        i = i + 1;
    }
    proof {
        if i < m.len() {
            assert(all[i as int].0 == m@[i as int].0@);
        }
    }
    if i < m.len() && str_eq(m[i].0.as_str(), key) {
        m[i] = (key.to_owned(), v);
        proof {
            assert(named_values_say(m@) =~= all.update(i as int, (key@, value_says(v))));
        }
    } else {
        m.insert(i, (key.to_owned(), v));
        proof {
            assert(named_values_say(m@) =~= all.insert(i as int, (key@, value_says(v))));
        }
    }
}

/// A tree as the outside crate holds it: the members of objects in the order of
/// their names, each name once, and numbers other than a `u64` as their text is
/// read.
pub open spec fn held(v: JsonV) -> JsonV
    decreases v,
{
    match v {
        JsonV::Num(n, t) => if n is Some && t == decimal(n->0 as nat) {
            v
        } else {
            match json_text(t) {
                Some(w) => w,
                None => JsonV::Null,
            }
        },
        JsonV::Arr(a) => JsonV::Arr(
            Seq::new(
                a.len(),
                |i: int|
                    if 0 <= i < a.len() {
                        held(a[i])
                    } else {
                        JsonV::Null
                    },
            ),
        ),
        JsonV::Obj(m) => JsonV::Obj(held_in_order(m)),
        _ => v,
    }
}

/// The members of an object as the outside crate holds them.
pub open spec fn held_in_order(m: Seq<(Seq<char>, JsonV)>) -> Seq<(Seq<char>, JsonV)>
    decreases m,
{
    if m.len() == 0 {
        ms()
    } else {
        proof {
            assert(decreases_to!(m => m.subrange(0, m.len() - 1)));
            assert(m.drop_last() == m.subrange(0, m.len() - 1));
            assert(decreases_to!(m => m[m.len() - 1]));
            assert(decreases_to!(m[m.len() - 1] => m[m.len() - 1].1));
        }
        set_member(held_in_order(m.drop_last()), m.last().0, held(m.last().1))
    }
}

/// The values of a list as the outside crate holds them.
pub open spec fn held_all(a: Seq<JsonV>) -> Seq<JsonV> {
    a.map_values(|v: JsonV| held(v))
}

/// The members of a list, each value as the outside crate holds it.
pub open spec fn held_members(m: Seq<(Seq<char>, JsonV)>) -> Seq<(Seq<char>, JsonV)> {
    m.map_values(|p: (Seq<char>, JsonV)| (p.0, held(p.1)))
}

proof fn lemma_held_in_order(m: Seq<(Seq<char>, JsonV)>)
    ensures
        held_in_order(m) == set_members(ms(), held_members(m)),
    decreases m.len(),
{
    if m.len() > 0 {
        lemma_held_in_order(m.drop_last());
        assert(held_members(m).drop_last() =~= held_members(m.drop_last()));
    }
}

/// How the outside crate holds lists and objects.
pub proof fn lemma_held(v: JsonV)
    ensures
        v matches JsonV::Arr(a) ==> held(v) == JsonV::Arr(held_all(a)),
        v matches JsonV::Obj(m) ==> held(v) == JsonV::Obj(set_members(ms(), held_members(m))),
{
    match v {
        JsonV::Arr(a) => {
            assert(held(v)->Arr_0 =~= held_all(a));
        },
        JsonV::Obj(m) => {
            lemma_held_in_order(m);
        },
        _ => {},
    }
}

fn value_of_json(j: &Json) -> (r: serde_json::Value)
    ensures
        value_says(r) == held(j.says()),
    decreases j,
{
    match j {
        Json::Null => value_of_nothing(),
        Json::Bool(b) => value_of_bool(*b),
        Json::Num(n) => match value_of_text(n.text.as_str()) {
            Some(v) => v,
            None => value_of_nothing(),
        },
        Json::Str(s) => value_of_str(s.as_str()),
        Json::Arr(a) => {
            let mut out: Vec<serde_json::Value> = Vec::new();
            for i in 0..a.len()
                invariant
                    out.len() == i,
                    decreases_to!(j => a),
                    forall|k: int| 0 <= k < i ==> value_says(#[trigger] out@[k]) == held(a@[k].says()),
            {
                let item = &a[i];
                assert(decreases_to!(a => a@));
                assert(decreases_to!(a@ => a@[i as int]));
                out.push(value_of_json(item));
            }
            proof {
                lemma_arr(*j);
                lemma_held(j.says());
                assert(values_say(out@) =~= held_all(says_all(a@)));
            }
            value_of_list(out)
        },
        Json::Obj(m) => {
            let ghost all = says_members(m@);
            let mut out: Vec<(String, serde_json::Value)> = Vec::new();
            proof {
                assert(named_values_say(out@) =~= ms());
            }
            for i in 0..m.len()
                invariant
                    all == says_members(m@),
                    decreases_to!(j => m),
                    named_values_say(out@) == held_in_order(all.take(i as int)),
                    in_order(named_values_say(out@)),
            {
                let item = &m[i];
                assert(decreases_to!(m => m@));
                assert(decreases_to!(m@ => m@[i as int]));
                assert(decreases_to!(m@[i as int] => m@[i as int].1));
                proof {
                    let some = all.take(i as int + 1);
                    assert(some.drop_last() =~= all.take(i as int));
                    assert(some.last() == (m@[i as int].0@, m@[i as int].1.says()));
                    lemma_set_member(
                        named_values_say(out@),
                        item.0@,
                        held(item.1.says()),
                    );
                }
                put_value(&mut out, item.0.as_str(), value_of_json(&item.1));
            }
            proof {
                lemma_obj(*j);
                assert(all.take(m@.len() as int) =~= all);
            }
            value_of_members(out)
        },
    }
}

/// Writes a tree as text without blanks.
pub fn written(j: &Json) -> (r: String)
    ensures
        r@ == compact_json(held(j.says())),
        reads_back(held(j.says()), 100) ==> json_text(r@) == Some(held(j.says())),
{
    compact_of_value(&value_of_json(j))
}

/// A JSON text written anew with indentation; `None` where it is no JSON.
pub open spec fn pretty_text(text: Seq<char>) -> Option<Seq<char>> {
    match json_text(text) {
        Some(v) => Some(pretty_json(v)),
        None => None,
    }
}

/// Writes a JSON text anew with indentation.
pub fn pretty(text: &str) -> (r: Option<String>)
    ensures
        crate::chars::opt_text(r) == pretty_text(text@),
{
    match value_of_text(text) {
        Some(v) => Some(pretty_of_value(&v)),
        None => None,
    }
}

/// A JSON text written anew with indentation; what is no JSON counts as null.
pub open spec fn pretty_or_null(text: Seq<char>) -> Seq<char> {
    match json_text(text) {
        Some(v) => pretty_json(v),
        None => "null"@,
    }
}

/// Writes the arguments of a call anew with indentation.
pub fn pretty_args(text: &str) -> (r: String)
    ensures
        r@ == pretty_or_null(text@),
{
    match value_of_text(text) {
        Some(v) => pretty_of_value(&v),
        None => "null".to_owned(),
    }
}

/// A JSON text written anew without blanks; what is no JSON counts as null.
pub open spec fn compact_text(text: Seq<char>) -> Seq<char> {
    match json_text(text) {
        Some(v) => compact_json(v),
        None => "null"@,
    }
}

/// Writes a JSON text anew without blanks.
pub fn compact(text: &str) -> (r: String)
    ensures
        r@ == compact_text(text@),
{
    match value_of_text(text) {
        Some(v) => compact_of_value(&v),
        None => "null".to_owned(),
    }
}

/// What a text says; null where it is no JSON.
pub open spec fn args_say(text: Seq<char>) -> JsonV {
    match json_text(text) {
        Some(v) => v,
        None => JsonV::Null,
    }
}

/// Reads the arguments of a tool call; what is no JSON counts as null.
pub fn parse_args(text: &str) -> (r: Json)
    ensures
        r.says() == args_say(text@),
{
    match parse_json(text) {
        Some(v) => v,
        None => Json::Null,
    }
}

/// What `toml::from_str` reads from a text, or the message of its error.
pub uninterp spec fn toml_text(text: Seq<char>) -> Result<JsonV, Seq<char>>;

/// Calls `toml::from_str`: the table that the text writes, or the message of
/// the error. What it gives is a function of the text alone, named
/// `toml_text`.
#[verifier::external_body]
fn value_of_toml(text: &str) -> (r: Result<serde_json::Value, String>)
    ensures
        match r {
            Ok(v) => toml_text(text@) == Ok::<JsonV, Seq<char>>(value_says(v)),
            Err(e) => toml_text(text@) == Err::<JsonV, Seq<char>>(e@),
        },
{
    toml::from_str::<serde_json::Value>(text).map_err(|e| e.to_string())
}

/// The message of the error that `toml::from_str` reports where it reads a
/// text as a table of lists of texts; `None` where it reports none.
pub uninterp spec fn toml_lists_error(text: Seq<char>) -> Option<Seq<char>>;

/// Calls `toml::from_str` to read a table whose values are lists of texts:
/// the message of the error, if there is one. It is a function of the text
/// alone, named `toml_lists_error`.
#[verifier::external_body]
pub(crate) fn lists_error_of_toml(text: &str) -> (r: Option<String>)
    ensures
        crate::chars::opt_text(r) == toml_lists_error(text@),
{
    toml::from_str::<std::collections::BTreeMap<String, Vec<String>>>(text)
        .err()
        .map(|e| e.to_string())
}

/// The table that a TOML text writes, or the message of the error.
pub fn parse_toml(text: &str) -> (r: Result<Json, String>)
    ensures
        match r {
            Ok(v) => toml_text(text@) == Ok::<JsonV, Seq<char>>(v.says()),
            Err(e) => toml_text(text@) == Err::<JsonV, Seq<char>>(e@),
        },
{
    match value_of_toml(text) {
        Ok(v) => Ok(json_of_value(v)),
        Err(e) => Err(e),
    }
}

/// Setting a member of an object gives that member its value and changes no
/// other.
pub proof fn law_member_is_set(
    m: Seq<(Seq<char>, JsonV)>,
    key: Seq<char>,
    v: JsonV,
    e: (Seq<char>, JsonV),
)
    requires
        in_order(m),
    ensures
        set_member(m, key, v).contains(e) <==> e == (key, v) || (e.0 != key && m.contains(e)),
{
    lemma_slot(m, key, 0);
    let s = slot(m, key, 0);
    let now = set_member(m, key, v);
    assert(now[s] == (key, v));
    let held = s < m.len() && m[s].0 == key;
    if m.contains(e) && e.0 != key {
        let i = choose|i: int| 0 <= i < m.len() && m[i] == e;
        if held || i < s {
            assert(now[i] == e);
        } else {
            assert(now[i + 1] == e);
        }
    }
    if now.contains(e) && e != (key, v) {
        let i = choose|i: int| 0 <= i < now.len() && now[i] == e;
        if held || i < s {
            assert(m[i] == e);
            assert(m[i].0 != key);
        } else {
            assert(i != s);
            assert(m[i - 1] == e);
            assert(m[i - 1].0 != key);
        }
    }
}

/// Setting several members, each once, gives each of them its value and changes
/// no other.
pub proof fn law_members_are_set(
    m: Seq<(Seq<char>, JsonV)>,
    extra: Seq<(Seq<char>, JsonV)>,
    e: (Seq<char>, JsonV),
)
    requires
        in_order(m),
        forall|i: int, j: int|
            0 <= i < j < extra.len() ==> (#[trigger] extra[i]).0 != (#[trigger] extra[j]).0,
    ensures
        in_order(set_members(m, extra)),
        set_members(m, extra).contains(e) <==> extra.contains(e) || (m.contains(e) && forall|i: int|
            0 <= i < extra.len() ==> (#[trigger] extra[i]).0 != e.0),
    decreases extra.len(),
{
    if extra.len() > 0 {
        let front = extra.drop_last();
        let x = extra.last();
        assert forall|i: int, j: int| 0 <= i < j < front.len() implies (#[trigger] front[i]).0 != (
        #[trigger] front[j]).0 by {
            assert(extra[i].0 != extra[j].0);
        }
        law_members_are_set(m, front, e);
        let before = set_members(m, front);
        lemma_set_member(before, x.0, x.1);
        law_member_is_set(before, x.0, x.1, e);
        assert(x == (x.0, x.1));
        assert(extra[extra.len() - 1] == x);
        if front.contains(e) {
            let i = choose|i: int| 0 <= i < front.len() && front[i] == e;
            assert(extra[i] == e);
            assert(extra[i].0 != extra[extra.len() - 1].0);
        }
        if extra.contains(e) && e != x {
            let i = choose|i: int| 0 <= i < extra.len() && extra[i] == e;
            assert(front[i] == e);
        }
        if forall|i: int| 0 <= i < extra.len() ==> (#[trigger] extra[i]).0 != e.0 {
            assert forall|i: int| 0 <= i < front.len() implies (#[trigger] front[i]).0 != e.0 by {
                assert(extra[i].0 != e.0);
            }
        }
        if e.0 != x.0 && (forall|i: int| 0 <= i < front.len() ==> (#[trigger] front[i]).0 != e.0) {
            assert forall|i: int| 0 <= i < extra.len() implies (#[trigger] extra[i]).0 != e.0 by {
                if i < front.len() {
                    assert(front[i] == extra[i]);
                }
            }
        }
    }
}

/// A member of an object is found by its name, the first of that name.
pub proof fn law_member_is_found(m: Seq<(Seq<char>, JsonV)>, i: int)
    requires
        0 <= i < m.len(),
        forall|j: int| 0 <= j < i ==> (#[trigger] m[j]).0 != m[i].0,
    ensures
        member(JsonV::Obj(m), m[i].0) == Some(m[i].1),
        at(JsonV::Obj(m), m[i].0) == m[i].1,
{
    lemma_first_named(m, m[i].0, 0, i);
}

proof fn lemma_first_named(m: Seq<(Seq<char>, JsonV)>, key: Seq<char>, from: int, i: int)
    requires
        0 <= from <= i < m.len(),
        m[i].0 == key,
        forall|j: int| from <= j < i ==> (#[trigger] m[j]).0 != key,
    ensures
        first_named(m, key, from) == Some(m[i].1),
    decreases i - from,
{
    if from < i {
        assert(m[from].0 != key);
        lemma_first_named(m, key, from + 1, i);
    }
}

} // verus!
