//! The JSON values that tool calls, tool results and step payloads carry.
//!
//! Numbers are held as the text that the JSON encoder writes for them, so
//! that integers and fractions survive without floating point in the library.

use vstd::prelude::*;
use crate::text::{decimal, u64_to_decimal};

verus! {

/// A JSON value. Object members keep their keys unique (see [`JsonValue::wf`]).
#[derive(Debug)]
pub enum JsonValue {
    Null,
    Bool(bool),
    /// A number, as the JSON text of it (`12`, `-3`, `1.5`, `1e20`).
    Number(String),
    String(String),
    Array(Vec<JsonValue>),
    Object(Vec<(String, JsonValue)>),
}

/// Mathematical model of a [`JsonValue`].
pub enum JsonView {
    Null,
    Bool(bool),
    Number(Seq<char>),
    String(Seq<char>),
    Array(Seq<JsonView>),
    Object(Seq<(Seq<char>, JsonView)>),
}

/// The views of a sequence of values.
pub open spec fn items_view(items: Seq<JsonValue>) -> Seq<JsonView>
    decreases items,
{
    if items.len() == 0 {
        Seq::empty()
    } else {
        items_view(items.subrange(0, items.len() - 1)).push(items[items.len() - 1].to_view())
    }
}

/// The views of a sequence of object members.
pub open spec fn members_view(members: Seq<(String, JsonValue)>) -> Seq<(Seq<char>, JsonView)>
    decreases members,
{
    if members.len() == 0 {
        Seq::empty()
    } else {
        members_view(members.subrange(0, members.len() - 1)).push(
            (members[members.len() - 1].0@, members[members.len() - 1].1.to_view()))
    }
}

impl JsonValue {
    pub open spec fn to_view(self) -> JsonView
        decreases self,
    {
        match self {
            JsonValue::Null => JsonView::Null,
            JsonValue::Bool(b) => JsonView::Bool(b),
            JsonValue::Number(n) => JsonView::Number(n@),
            JsonValue::String(s) => JsonView::String(s@),
            JsonValue::Array(items) => JsonView::Array(items_view(items@)),
            JsonValue::Object(members) => JsonView::Object(members_view(members@)),
        }
    }
}

/// The view of a sequence of values holds the view of each, in order.
pub proof fn lemma_items_view(items: Seq<JsonValue>)
    ensures
        items_view(items).len() == items.len(),
        forall|i: int| 0 <= i < items.len() ==> #[trigger] items_view(items)[i] == items[i].to_view(),
    decreases items.len(),
{
    if items.len() > 0 {
        lemma_items_view(items.subrange(0, items.len() - 1));
    }
}

/// The view of a sequence of members holds the key and view of each, in order.
pub proof fn lemma_members_view(members: Seq<(String, JsonValue)>)
    ensures
        members_view(members).len() == members.len(),
        forall|i: int| 0 <= i < members.len() ==> #[trigger] members_view(members)[i]
            == (members[i].0@, members[i].1.to_view()),
    decreases members.len(),
{
    if members.len() > 0 {
        lemma_members_view(members.subrange(0, members.len() - 1));
    }
}

impl View for JsonValue {
    type V = JsonView;

    open spec fn view(&self) -> JsonView {
        self.to_view()
    }
}

/// No key occurs twice among `members`.
pub open spec fn keys_unique(members: Seq<(Seq<char>, JsonView)>) -> bool {
    forall|i: int, j: int| 0 <= i < j < members.len() ==> #[trigger] members[i].0 != #[trigger] members[j].0
}

/// Index of the first member named `key`, if any.
pub open spec fn member_index(members: Seq<(Seq<char>, JsonView)>, key: Seq<char>) -> Option<int> {
    if exists|i: int| 0 <= i < members.len() && members[i].0 == key {
        Some(choose|i: int| 0 <= i < members.len() && members[i].0 == key
            && forall|k: int| 0 <= k < i ==> members[k].0 != key)
    } else {
        None
    }
}

/// What `value.get(key)` gives: the member named `key` of an object, nothing
/// for any other value.
pub open spec fn json_get(v: JsonView, key: Seq<char>) -> Option<JsonView> {
    match v {
        JsonView::Object(members) => match member_index(members, key) {
            Some(i) => Some(members[i].1),
            None => None,
        },
        _ => None,
    }
}

/// What `value.as_str()` gives.
pub open spec fn json_as_str(v: JsonView) -> Option<Seq<char>> {
    match v {
        JsonView::String(s) => Some(s),
        _ => None,
    }
}

/// What `value.as_bool()` gives.
pub open spec fn json_as_bool(v: JsonView) -> Option<bool> {
    match v {
        JsonView::Bool(b) => Some(b),
        _ => None,
    }
}

/// `c` is an ASCII digit.
pub open spec fn is_digit(c: char) -> bool {
    '0' <= c && c <= '9'
}

/// The value of a sequence of ASCII digits.
pub open spec fn digits_value(s: Seq<char>) -> nat
    decreases s.len(),
{
    if s.len() == 0 {
        0
    } else {
        digits_value(s.drop_last()) * 10 + ((s.last() as u32) - ('0' as u32)) as nat
    }
}

/// What `value.as_u64()` gives: numbers written as plain digits whose value
/// fits in a `u64` (the way non-negative integers are written in JSON).
pub open spec fn json_as_u64(v: JsonView) -> Option<u64> {
    match v {
        JsonView::Number(t) =>
            if t.len() > 0 && (forall|i: int| 0 <= i < t.len() ==> is_digit(#[trigger] t[i]))
                && digits_value(t) <= u64::MAX {
                Some(digits_value(t) as u64)
            } else {
                None
            },
        _ => None,
    }
}

/// Well-formedness: object keys are unique, at every depth.
pub open spec fn json_wf(v: JsonView) -> bool
    decreases v,
{
    match v {
        JsonView::Object(members) => keys_unique(members)
            && forall|i: int| 0 <= i < members.len() ==> json_wf(#[trigger] members[i].1),
        JsonView::Array(items) => forall|i: int| 0 <= i < items.len() ==> json_wf(#[trigger] items[i]),
        _ => true,
    }
}

/// Inserting `key`: the member is replaced where it exists, appended otherwise.
pub open spec fn members_insert(members: Seq<(Seq<char>, JsonView)>, key: Seq<char>, value: JsonView)
    -> Seq<(Seq<char>, JsonView)>
{
    match member_index(members, key) {
        Some(i) => members.update(i, (key, value)),
        None => members.push((key, value)),
    }
}

/// Number digits as the JSON encoder writes a `u64`.
pub open spec fn json_number_u64(n: u64) -> JsonView {
    JsonView::Number(decimal(n as nat))
}

fn str_eq(a: &String, b: &str) -> (r: bool)
    ensures
        r == (a@ == b@),
{
    let bs = b.to_owned();
    *a == bs
}

proof fn lemma_member_index_first(members: Seq<(Seq<char>, JsonView)>, key: Seq<char>, k: int)
    requires
        0 <= k < members.len(),
        members[k].0 == key,
        forall|j: int| 0 <= j < k ==> members[j].0 != key,
    ensures
        member_index(members, key) == Some(k),
{
    assert(0 <= k < members.len() && members[k].0 == key && forall|j: int| 0 <= j < k ==> members[j].0 != key);
    let i = choose|i: int| 0 <= i < members.len() && members[i].0 == key
        && forall|j: int| 0 <= j < i ==> members[j].0 != key;
    if i < k {
        assert(members[i].0 != key);
    } else if i > k {
        assert(members[k].0 != key);
    }
}

impl JsonValue {
    /// Well-formedness of this value: unique keys in every object.
    pub open spec fn wf(&self) -> bool {
        json_wf(self@)
    }

    /// Builds the number that the JSON encoder writes for `n`.
    pub fn from_u64(n: u64) -> (v: JsonValue)
        ensures
            v@ == json_number_u64(n),
            v.wf(),
    {
        JsonValue::Number(u64_to_decimal(n))
    }

    /// An object with one member.
    pub fn object1(key: &str, value: JsonValue) -> (v: JsonValue)
        ensures
            v@ == JsonView::Object(seq![(key@, value@)]),
            value.wf() ==> v.wf(),
    {
        let mut members: Vec<(String, JsonValue)> = Vec::new();
        members.push((key.to_owned(), value));
        let v = JsonValue::Object(members);
        proof {
            lemma_members_view(members@);
            assert(members_view(members@) =~= seq![(key@, value@)]);
        }
        v
    }

    /// `value.is_object()`.
    pub fn is_object(&self) -> (b: bool)
        ensures
            b == (self@ is Object),
    {
        match self {
            JsonValue::Object(_) => true,
            _ => false,
        }
    }

    /// `value.as_str()`.
    pub fn as_str(&self) -> (r: Option<&String>)
        ensures
            match json_as_str(self@) {
                Some(s) => r matches Some(t) && t@ == s,
                None => r is None,
            },
    {
        match self {
            JsonValue::String(s) => Some(s),
            _ => None,
        }
    }

    /// `value.as_bool()`.
    pub fn as_bool(&self) -> (r: Option<bool>)
        ensures
            r == json_as_bool(self@),
    {
        match self {
            JsonValue::Bool(b) => Some(*b),
            _ => None,
        }
    }

    /// `value.as_array()`.
    pub fn as_array(&self) -> (r: Option<&Vec<JsonValue>>)
        ensures
            match self@ {
                JsonView::Array(items) => r matches Some(v)
                    && v@.len() == items.len()
                    && forall|i: int| 0 <= i < items.len() ==> (#[trigger] v@[i])@ == items[i],
                _ => r is None,
            },
    {
        match self {
            JsonValue::Array(items) => {
                proof { lemma_items_view(items@); }
                Some(items)
            },
            _ => None,
        }
    }

    /// `value.get(key)`.
    pub fn get(&self, key: &str) -> (r: Option<&JsonValue>)
        ensures
            match json_get(self@, key@) {
                Some(m) => r matches Some(v) && v@ == m && (self.wf() ==> v.wf()),
                None => r is None,
            },
    {
        match self {
            JsonValue::Object(members) => {
                proof { lemma_members_view(members@); }
                let ghost ms = members_view(members@);
                let mut i: usize = 0;
                while i < members.len()
                    invariant
                        i <= members@.len(),
                        self@ == JsonView::Object(ms),
                        ms == members_view(members@),
                        ms.len() == members@.len(),
                        forall|k: int| 0 <= k < members@.len() ==> #[trigger] ms[k] == (members@[k].0@, members@[k].1.to_view()),
                        forall|k: int| 0 <= k < i ==> members@[k].0@ != key@,
                    decreases members@.len() - i,
                {
                    if str_eq(&members[i].0, key) {
                        proof {
                            assert(ms[i as int].0 == key@);
                            lemma_member_index_first(ms, key@, i as int);
                            if self.wf() {
                                assert(json_wf(ms[i as int].1));
                            }
                        }
                        return Some(&members[i].1);
                    }
                    i = i + 1;
                }
                proof {
                    assert(!(exists|k: int| 0 <= k < ms.len() && ms[k].0 == key@));
                }
                None
            },
            _ => None,
        }
    }

    /// `map.insert(key, value)` on an object: the member named `key` takes
    /// the new value where it exists; otherwise the member is added.
    pub fn insert_member(&mut self, key: &str, value: JsonValue)
        requires
            old(self)@ is Object,
        ensures
            final(self)@ == JsonView::Object(members_insert(old(self)@->Object_0, key@, value@)),
            old(self).wf() && value.wf() ==> final(self).wf(),
    {
        let mut taken = JsonValue::Null;
        std::mem::swap(&mut taken, self);
        match taken {
            JsonValue::Object(mut members) => {
                proof { lemma_members_view(members@); }
                let ghost ms = members_view(members@);
                let mut i: usize = 0;
                while i < members.len()
                    invariant
                        i <= members@.len(),
                        ms == members_view(members@),
                        old(self)@ == JsonView::Object(ms),
                        ms.len() == members@.len(),
                        forall|k: int| 0 <= k < members@.len() ==> #[trigger] ms[k] == (members@[k].0@, members@[k].1.to_view()),
                        forall|k: int| 0 <= k < i ==> members@[k].0@ != key@,
                    decreases members@.len() - i,
                {
                    if str_eq(&members[i].0, key) {
                        proof {
                            lemma_member_index_first(ms, key@, i as int);
                        }
                        members.set(i, (key.to_owned(), value));
                        proof {
                            lemma_members_view(members@);
                            assert(members_view(members@) =~= ms.update(i as int, (key@, value@)));
                            let ns = ms.update(i as int, (key@, value@));
                            if old(self).wf() && value.wf() {
                            assert forall|a: int, b: int| 0 <= a < b < ns.len() implies
                                #[trigger] ns[a].0 != #[trigger] ns[b].0 by {
                                assert(ns[a].0 == ms[a].0 && ns[b].0 == ms[b].0);
                            }
                            assert forall|a: int| 0 <= a < ns.len() implies json_wf(#[trigger] ns[a].1) by {
                                if a != i {
                                    assert(ns[a] == ms[a]);
                                }
                            }
                            }
                        }
                        *self = JsonValue::Object(members);
                        return;
                    }
                    i = i + 1;
                }
                proof {
                    assert(!(exists|k: int| 0 <= k < ms.len() && ms[k].0 == key@));
                }
                members.push((key.to_owned(), value));
                proof {
                    lemma_members_view(members@);
                    assert(members_view(members@) =~= ms.push((key@, value@)));
                    let ns = ms.push((key@, value@));
                    if old(self).wf() && value.wf() {
                    assert forall|a: int, b: int| 0 <= a < b < ns.len() implies
                        #[trigger] ns[a].0 != #[trigger] ns[b].0 by {
                        if b == ms.len() {
                            assert(ns[a] == ms[a]);
                        } else {
                            assert(ns[a] == ms[a] && ns[b] == ms[b]);
                        }
                    }
                    assert forall|a: int| 0 <= a < ns.len() implies json_wf(#[trigger] ns[a].1) by {
                        if a < ms.len() {
                            assert(ns[a] == ms[a]);
                        }
                    }
                    }
                }
                *self = JsonValue::Object(members);
            },
            other => {
                *self = other;
            },
        }
    }

    /// `value.as_u64()`.
    pub fn as_u64(&self) -> (r: Option<u64>)
        ensures
            r == json_as_u64(self@),
    {
        match self {
            JsonValue::Number(t) => parse_digits_u64(t),
            _ => None,
        }
    }
}

impl JsonValue {
    /// A copy of this value.
    pub fn deep_clone(&self) -> (r: JsonValue)
        ensures
            r@ == self@,
        decreases self,
    {
        match self {
            JsonValue::Null => JsonValue::Null,
            JsonValue::Bool(b) => JsonValue::Bool(*b),
            JsonValue::Number(t) => JsonValue::Number(t.clone()),
            JsonValue::String(t) => JsonValue::String(t.clone()),
            JsonValue::Array(items) => {
                let mut out: Vec<JsonValue> = Vec::new();
                let mut i: usize = 0;
                proof { lemma_items_view(items@); }
                while i < items.len()
                    invariant
                        *self == JsonValue::Array(*items),
                        i <= items@.len(),
                        out@.len() == i,
                        forall|k: int| 0 <= k < i ==> (#[trigger] out@[k])@ == items@[k]@,
                    decreases items@.len() - i,
                {
                    proof {
                        assert((*self)->Array_0 == *items);
                        assert(decreases_to!(*self => (*self)->Array_0));
                        assert(decreases_to!(*items => items@));
                        assert(decreases_to!(items@ => items@[i as int]));
                    }
                    let c = items[i].deep_clone();
                    out.push(c);
                    i = i + 1;
                }
                proof {
                    lemma_items_view(out@);
                    assert(items_view(out@) =~= items_view(items@));
                }
                JsonValue::Array(out)
            },
            JsonValue::Object(members) => {
                let mut out: Vec<(String, JsonValue)> = Vec::new();
                let mut i: usize = 0;
                proof { lemma_members_view(members@); }
                while i < members.len()
                    invariant
                        *self == JsonValue::Object(*members),
                        i <= members@.len(),
                        out@.len() == i,
                        forall|k: int| 0 <= k < i ==> (#[trigger] out@[k]).0@ == members@[k].0@
                            && out@[k].1@ == members@[k].1@,
                    decreases members@.len() - i,
                {
                    let k = members[i].0.clone();
                    proof {
                        assert((*self)->Object_0 == *members);
                        assert(decreases_to!(*self => (*self)->Object_0));
                        assert(decreases_to!(*members => members@));
                        assert(decreases_to!(members@ => members@[i as int]));
                        assert(decreases_to!(members@[i as int] => members@[i as int].1));
                    }
                    let c = members[i].1.deep_clone();
                    out.push((k, c));
                    i = i + 1;
                }
                proof {
                    lemma_members_view(out@);
                    assert(members_view(out@) =~= members_view(members@));
                }
                JsonValue::Object(out)
            },
        }
    }
}

impl Clone for JsonValue {
    fn clone(&self) -> (r: Self)
        ensures
            r@ == self@,
    {
        self.deep_clone()
    }
}

/// Reads `t` as a plain run of decimal digits that fits in a `u64`.
fn parse_digits_u64(t: &String) -> (r: Option<u64>)
    ensures
        r == (if t@.len() > 0 && (forall|i: int| 0 <= i < t@.len() ==> is_digit(#[trigger] t@[i]))
            && digits_value(t@) <= u64::MAX {
            Some(digits_value(t@) as u64)
        } else {
            None::<u64>
        }),
{
    let chars = t.as_str();
    let n = chars.unicode_len();
    if n == 0 {
        return None;
    }
    let mut acc: u64 = 0;
    let mut i: usize = 0;
    while i < n
        invariant
            i <= n,
            n == t@.len(),
            chars@ == t@,
            forall|k: int| 0 <= k < i ==> is_digit(#[trigger] t@[k]),
            acc as nat == digits_value(t@.take(i as int)),
        decreases n - i,
    {
        let c = chars.get_char(i);
        if !('0' <= c && c <= '9') {
            return None;
        }
        let d: u64 = ((c as u32) - ('0' as u32)) as u64;
        assert(t@.take(i + 1).drop_last() =~= t@.take(i as int));
        if acc > (u64::MAX - d) / 10 {
            proof {
                assert(digits_value(t@.take(i + 1)) == acc * 10 + d);
                assert(acc * 10 + d > u64::MAX) by (nonlinear_arith)
                    requires acc > (u64::MAX - d) / 10, d <= 9;
                if forall|k: int| 0 <= k < t@.len() ==> is_digit(#[trigger] t@[k]) {
                    lemma_digits_value_prefix_mono(t@, (i + 1) as nat);
                }
            }
            return None;
        }
        acc = acc * 10 + d;
        i = i + 1;
    }
    assert(t@.take(n as int) =~= t@);
    Some(acc)
}

proof fn lemma_digits_value_prefix_mono(s: Seq<char>, k: nat)
    requires
        k <= s.len(),
        forall|i: int| 0 <= i < s.len() ==> is_digit(#[trigger] s[i]),
    ensures
        digits_value(s.take(k as int)) <= digits_value(s),
    decreases s.len() - k,
{
    if k < s.len() {
        lemma_digits_value_prefix_mono(s, k + 1);
        assert(s.take(k + 1 as int).drop_last() =~= s.take(k as int));
        assert(is_digit(s[k as int]));
    } else {
        assert(s.take(k as int) =~= s);
    }
}

/// Where some member is named `key`, a first such member exists.
proof fn lemma_first_match(members: Seq<(Seq<char>, JsonView)>, key: Seq<char>, j0: int) -> (j: int)
    requires
        0 <= j0 < members.len(),
        members[j0].0 == key,
    ensures
        0 <= j <= j0,
        members[j].0 == key,
        forall|k: int| 0 <= k < j ==> members[k].0 != key,
        member_index(members, key) == Some(j),
    decreases j0,
{
    if exists|k: int| 0 <= k < j0 && members[k].0 == key {
        let k = choose|k: int| 0 <= k < j0 && members[k].0 == key;
        lemma_first_match(members, key, k)
    } else {
        lemma_member_index_first(members, key, j0);
        j0
    }
}

/// The member index that `members_insert` writes to: the first member named
/// `key`, else a new one at the end.
proof fn lemma_insert_shape(members: Seq<(Seq<char>, JsonView)>, key: Seq<char>, value: JsonView) -> (i: int)
    ensures
        0 <= i <= members.len(),
        forall|k: int| 0 <= k < i ==> members[k].0 != key,
        i < members.len() ==> members[i].0 == key,
        i < members.len() ==> members_insert(members, key, value) == members.update(i, (key, value)),
        i == members.len() ==> members_insert(members, key, value) == members.push((key, value)),
{
    if exists|j: int| 0 <= j < members.len() && members[j].0 == key {
        let j0 = choose|j: int| 0 <= j < members.len() && members[j].0 == key;
        lemma_first_match(members, key, j0)
    } else {
        members.len() as int
    }
}

/// Law: reading a member back after inserting it gives the inserted value.
pub proof fn lemma_get_after_insert(members: Seq<(Seq<char>, JsonView)>, key: Seq<char>, value: JsonView)
    ensures
        json_get(JsonView::Object(members_insert(members, key, value)), key) == Some(value),
{
    let ins = members_insert(members, key, value);
    let i = lemma_insert_shape(members, key, value);
    assert forall|k: int| 0 <= k < i implies ins[k].0 != key by {
        assert(ins[k] == members[k]);
    }
    assert(ins[i] == (key, value));
    lemma_member_index_first(ins, key, i);
}

/// Law: inserting a member leaves every other member as it reads.
pub proof fn lemma_insert_keeps_others(members: Seq<(Seq<char>, JsonView)>, key: Seq<char>, value: JsonView,
    other: Seq<char>)
    requires
        other != key,
    ensures
        json_get(JsonView::Object(members_insert(members, key, value)), other)
            == json_get(JsonView::Object(members), other),
{
    let ins = members_insert(members, key, value);
    let i = lemma_insert_shape(members, key, value);
    if exists|j: int| 0 <= j < members.len() && members[j].0 == other {
        let j0 = choose|j: int| 0 <= j < members.len() && members[j].0 == other;
        let j = lemma_first_match(members, other, j0);
        assert(ins[j] == members[j]);
        assert forall|k: int| 0 <= k < j implies ins[k].0 != other by {
            if k != i {
                assert(ins[k] == members[k]);
            }
        }
        lemma_member_index_first(ins, other, j);
    } else {
        assert forall|k: int| 0 <= k < ins.len() implies ins[k].0 != other by {
            if k != i {
                assert(ins[k] == members[k]);
            }
        }
        assert(member_index(ins, other) is None);
    }
}

} // verus!
