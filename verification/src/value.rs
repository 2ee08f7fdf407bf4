//! Store values and entities.
//!
//! An entity is a list of named fields in the order of their names, so that
//! no name occurs twice; a field that is set again keeps its place.

use crate::allocator::extends;
use crate::asc::is_string;
use crate::host::{HostCall, Import};
use crate::memory::{as_unsigned32, Memory};
use crate::store::{entity_dec, entity_footprint, entity_ok, is_entity, request_footprint};
use crate::types::{BigDecimal, BigInt, Bytes};
use vstd::prelude::*;

verus! {

/// A value that can be stored in an entity field.
#[derive(Debug)]
pub enum Value {
    String(String),
    Int(i32),
    Int8(i64),
    BigInt(BigInt),
    BigDecimal(BigDecimal),
    Bool(bool),
    Bytes(Bytes),
    Array(Vec<Value>),
    Null,
}

/// What a `Value` stands for: strings and byte strings by their contents,
/// arbitrary-precision numbers by their handle.
pub enum ValueView {
    String(Seq<char>),
    Int(i32),
    Int8(i64),
    BigInt(u32),
    BigDecimal(u32),
    Bool(bool),
    Bytes(Seq<u8>),
    Array(Seq<ValueView>),
    Null,
}

/// What `v` stands for.
pub open spec fn value_view(v: Value) -> ValueView
    decreases v,
{
    match v {
        Value::String(s) => ValueView::String(s@),
        Value::Int(i) => ValueView::Int(i),
        Value::Int8(i) => ValueView::Int8(i),
        Value::BigInt(b) => ValueView::BigInt(b@),
        Value::BigDecimal(b) => ValueView::BigDecimal(b@),
        Value::Bool(b) => ValueView::Bool(b),
        Value::Bytes(b) => ValueView::Bytes(b@),
        Value::Array(a) => ValueView::Array(
            Seq::new(
                a@.len(),
                |i: int|
                    if 0 <= i < a@.len() {
                        value_view(a@[i])
                    } else {
                        ValueView::Null
                    },
            ),
        ),
        Value::Null => ValueView::Null,
    }
}

impl View for Value {
    type V = ValueView;

    open spec fn view(&self) -> ValueView {
        value_view(*self)
    }
}

/// The views of the values of `a`, in order.
pub open spec fn views_of(a: Seq<Value>) -> Seq<ValueView> {
    Seq::new(a.len(), |i: int| a[i]@)
}

/// The view of an array value is the views of its elements.
pub proof fn lemma_array_view(a: Vec<Value>)
    ensures
        Value::Array(a)@ == ValueView::Array(views_of(a@)),
{
    let v = Value::Array(a);
    assert(v@ is Array);
    let t = v@->Array_0;
    assert(t.len() == a@.len());
    assert forall|i: int| 0 <= i < t.len() implies t[i] == views_of(a@)[i] by {
    }
    assert(t =~= views_of(a@));
}

/// Copies of the values of `a`, in order.
fn clone_values(a: &Vec<Value>) -> (out: Vec<Value>)
    ensures
        views_of(out@) == views_of(a@),
    decreases a,
{
    let mut out: Vec<Value> = Vec::new();
    let mut i: usize = 0;
    while i < a.len()
        invariant
            0 <= i <= a.len(),
            out@.len() == i,
            forall|j: int| 0 <= j < i ==> out@[j]@ == a@[j]@,
        decreases a.len() - i,
    {
        out.push(a[i].clone());
        i = i + 1;
    }
    assert(views_of(out@) =~= views_of(a@));
    out
}

impl Clone for Value {
    fn clone(&self) -> (r: Self)
        ensures
            r@ == self@,
        decreases self,
    {
        match self {
            Value::String(s) => Value::String(s.clone()),
            Value::Int(i) => Value::Int(*i),
            Value::Int8(i) => Value::Int8(*i),
            Value::BigInt(b) => Value::BigInt(b.clone()),
            Value::BigDecimal(b) => Value::BigDecimal(b.clone()),
            Value::Bool(b) => Value::Bool(*b),
            Value::Bytes(b) => Value::Bytes(b.clone()),
            Value::Array(a) => {
                let out = clone_values(a);
                proof {
                    lemma_array_view(out);
                    lemma_array_view(*a);
                }
                Value::Array(out)
            },
            Value::Null => Value::Null,
        }
    }
}

impl Value {
    /// The string, if the value is one.
    pub fn as_string(&self) -> (r: Option<&str>)
        ensures
            r is Some <==> self@ is String,
            r matches Some(s) ==> self@ == ValueView::String(s@),
    {
        match self {
            Value::String(s) => Some(s.as_str()),
            _ => None,
        }
    }

    /// The byte string, if the value is one.
    pub fn as_bytes(&self) -> (r: Option<&Bytes>)
        ensures
            r is Some <==> self@ is Bytes,
            r matches Some(b) ==> self@ == ValueView::Bytes(b@),
    {
        match self {
            Value::Bytes(b) => Some(b),
            _ => None,
        }
    }

    /// The big integer, if the value is one.
    pub fn as_big_int(&self) -> (r: Option<&BigInt>)
        ensures
            r is Some <==> self@ is BigInt,
            r matches Some(b) ==> self@ == ValueView::BigInt(b@),
    {
        match self {
            Value::BigInt(b) => Some(b),
            _ => None,
        }
    }

    /// The big decimal, if the value is one.
    pub fn as_big_decimal(&self) -> (r: Option<&BigDecimal>)
        ensures
            r is Some <==> self@ is BigDecimal,
            r matches Some(b) ==> self@ == ValueView::BigDecimal(b@),
    {
        match self {
            Value::BigDecimal(b) => Some(b),
            _ => None,
        }
    }

    /// Whether the value is null.
    pub fn is_null(&self) -> (b: bool)
        ensures
            b == (self@ is Null),
    {
        match self {
            Value::Null => true,
            _ => false,
        }
    }
}

/// The fields of an entity: names with their values.
pub type Fields = Seq<(Seq<char>, ValueView)>;

/// Whether `e` has a field named `key`.
pub open spec fn has_key(e: Fields, key: Seq<char>) -> bool {
    exists|i: int| 0 <= i < e.len() && (#[trigger] e[i]).0 == key
}

/// The position of a field named `key`.
pub open spec fn key_index(e: Fields, key: Seq<char>) -> int {
    choose|i: int| 0 <= i < e.len() && (#[trigger] e[i]).0 == key
}

/// No name occurs twice in `e`.
pub open spec fn distinct_keys(e: Fields) -> bool {
    forall|i: int, j: int|
        0 <= i < e.len() && 0 <= j < e.len() && i != j ==> (#[trigger] e[i]).0 != (
        #[trigger] e[j]).0
}

/// The value of the field named `key`, if there is one.
pub open spec fn fields_get(e: Fields, key: Seq<char>) -> Option<ValueView> {
    if has_key(e, key) {
        Some(e[key_index(e, key)].1)
    } else {
        None
    }
}

/// Whether the name `a` comes before the name `b` from position `i` on:
/// at the first position where they differ `a` has the lower code point,
/// or `a` ends there and `b` goes on.
pub open spec fn less_from(a: Seq<char>, b: Seq<char>, i: int) -> bool
    decreases a.len() - i,
{
    if i < 0 || i >= b.len() {
        false
    } else if i >= a.len() {
        true
    } else if a[i] != b[i] {
        (a[i] as int) < (b[i] as int)
    } else {
        less_from(a, b, i + 1)
    }
}

/// Whether the name `a` comes before the name `b`: the order of strings.
pub open spec fn key_less(a: Seq<char>, b: Seq<char>) -> bool {
    less_from(a, b, 0)
}

/// The names of `e` come in strictly ascending order.
pub open spec fn ascending_keys(e: Fields) -> bool {
    forall|i: int, j: int|
        0 <= i < j < e.len() ==> key_less((#[trigger] e[i]).0, (#[trigger] e[j]).0)
}

/// The first position at or after `from` whose name does not come before
/// `key`, or the number of fields: where a field named `key` belongs.
pub open spec fn slot(e: Fields, key: Seq<char>, from: int) -> int
    decreases e.len() - from,
{
    if from < 0 || from >= e.len() {
        e.len() as int
    } else if !key_less(e[from].0, key) {
        from
    } else {
        slot(e, key, from + 1)
    }
}

/// `e` with the field `key` set to `v`: in place if there is such a field,
/// else where the name belongs in the order of the names.
pub open spec fn fields_set(e: Fields, key: Seq<char>, v: ValueView) -> Fields {
    if has_key(e, key) {
        e.update(key_index(e, key), (key, v))
    } else {
        e.insert(slot(e, key, 0), (key, v))
    }
}

/// No name comes before itself.
pub proof fn lemma_less_irreflexive(a: Seq<char>, i: int)
    requires
        0 <= i,
    ensures
        !less_from(a, a, i),
    decreases a.len() - i,
{
    if i < a.len() {
        lemma_less_irreflexive(a, i + 1);
    }
}

/// The order of names is transitive.
pub proof fn lemma_less_transitive(a: Seq<char>, b: Seq<char>, c: Seq<char>, i: int)
    requires
        0 <= i,
        less_from(a, b, i),
        less_from(b, c, i),
    ensures
        less_from(a, c, i),
    decreases a.len() - i,
{
    if i < a.len() && i < b.len() && i < c.len() && a[i] == b[i] && b[i] == c[i] {
        lemma_less_transitive(a, b, c, i + 1);
    }
}

/// Of two names that agree before position `i`, one comes before the other
/// or they are the same.
pub proof fn lemma_less_total(a: Seq<char>, b: Seq<char>, i: int)
    requires
        0 <= i <= a.len(),
        i <= b.len(),
        forall|j: int| 0 <= j < i ==> a[j] == b[j],
        !less_from(a, b, i),
        !less_from(b, a, i),
    ensures
        a == b,
    decreases a.len() - i,
{
    if i < a.len() && i < b.len() {
        assert(a[i] == b[i]) by {
            assert(a[i] as int == b[i] as int);
        }
        assert forall|j: int| 0 <= j < i + 1 implies a[j] == b[j] by {}
        lemma_less_total(a, b, i + 1);
    } else {
        assert(a =~= b);
    }
}

/// Names in ascending order are distinct.
pub proof fn lemma_ascending_distinct(e: Fields)
    requires
        ascending_keys(e),
    ensures
        distinct_keys(e),
{
    assert forall|i: int, j: int| 0 <= i < e.len() && 0 <= j < e.len() && i != j implies (
    #[trigger] e[i]).0 != (#[trigger] e[j]).0 by {
        if i < j {
            assert(key_less(e[i].0, e[j].0));
        } else {
            assert(key_less(e[j].0, e[i].0));
        }
        lemma_less_irreflexive(e[i].0, 0);
    }
}

/// Among distinct names, the field at a position is the field of its name.
pub proof fn lemma_field_at(e: Fields, i: int)
    requires
        distinct_keys(e),
        0 <= i < e.len(),
    ensures
        has_key(e, e[i].0),
        key_index(e, e[i].0) == i,
        fields_get(e, e[i].0) == Some(e[i].1),
{
    let k = e[i].0;
    assert(has_key(e, k));
    let c = key_index(e, k);
    assert(e[c].0 == k);
}

/// Where a name belongs, the names before it come before it and the names
/// from there on do not.
pub proof fn lemma_slot(e: Fields, key: Seq<char>, from: int)
    requires
        ascending_keys(e),
        0 <= from <= e.len(),
    ensures
        from <= slot(e, key, from) <= e.len(),
        forall|j: int| from <= j < slot(e, key, from) ==> key_less((#[trigger] e[j]).0, key),
        forall|j: int| slot(e, key, from) <= j < e.len() ==> !key_less((#[trigger] e[j]).0, key),
    decreases e.len() - from,
{
    if from < e.len() {
        if key_less(e[from].0, key) {
            lemma_slot(e, key, from + 1);
        } else {
            assert forall|j: int| from <= j < e.len() implies !key_less(
                (#[trigger] e[j]).0,
                key,
            ) by {
                if j > from && key_less(e[j].0, key) {
                    assert(key_less(e[from].0, e[j].0));
                    lemma_less_transitive(e[from].0, e[j].0, key, 0);
                }
            }
        }
    }
}

/// Setting a field keeps the names in ascending order, sets that field and
/// leaves the others as they are.
pub proof fn lemma_fields_set(e: Fields, key: Seq<char>, v: ValueView)
    requires
        ascending_keys(e),
    ensures
        ascending_keys(fields_set(e, key, v)),
        distinct_keys(fields_set(e, key, v)),
        fields_get(fields_set(e, key, v), key) == Some(v),
        forall|k: Seq<char>| has_key(fields_set(e, key, v), k) <==> (k == key || has_key(e, k)),
        forall|k: Seq<char>| k != key ==> fields_get(fields_set(e, key, v), k) == fields_get(e, k),
        fields_set(e, key, v).len() == if has_key(e, key) {
            e.len()
        } else {
            e.len() + 1
        },
{
    let r = fields_set(e, key, v);
    lemma_ascending_distinct(e);
    if has_key(e, key) {
        let i = key_index(e, key);
        assert(e[i].0 == key);
        assert(r[i] == (key, v));
        assert forall|a: int, b: int| 0 <= a < b < r.len() implies key_less(
            (#[trigger] r[a]).0,
            (#[trigger] r[b]).0,
        ) by {
            assert(key_less(e[a].0, e[b].0));
        }
        lemma_ascending_distinct(r);
        lemma_field_at(r, i);
        assert forall|k: Seq<char>| has_key(r, k) <==> (k == key || has_key(e, k)) by {
            if has_key(r, k) {
                let j = key_index(r, k);
                assert(e[j].0 == k);
            }
            if has_key(e, k) {
                let j = key_index(e, k);
                assert(r[j].0 == k);
            }
        }
        assert forall|k: Seq<char>| k != key implies fields_get(r, k) == fields_get(e, k) by {
            if has_key(e, k) {
                let j = key_index(e, k);
                assert(e[j].0 == k);
                assert(r[j] == e[j]);
                lemma_field_at(r, j);
                lemma_field_at(e, j);
            }
        }
    } else {
        let p = slot(e, key, 0);
        lemma_slot(e, key, 0);
        assert(r.len() == e.len() + 1);
        assert(r[p] == (key, v));
        assert forall|j: int| p <= j < e.len() implies key_less(key, (#[trigger] e[j]).0) by {
            assert(!key_less(e[j].0, key));
            if !key_less(key, e[j].0) {
                lemma_less_total(key, e[j].0, 0);
                assert(has_key(e, key));
            }
        }
        assert forall|a: int, b: int| 0 <= a < b < r.len() implies key_less(
            (#[trigger] r[a]).0,
            (#[trigger] r[b]).0,
        ) by {
            if b < p {
                assert(r[a] == e[a] && r[b] == e[b]);
                assert(key_less(e[a].0, e[b].0));
            } else if b == p {
                assert(r[a] == e[a]);
                assert(key_less(e[a].0, key));
            } else if a < p {
                assert(r[a] == e[a] && r[b] == e[b - 1]);
                if b - 1 == a {
                    assert(false);
                }
                assert(key_less(e[a].0, e[b - 1].0));
            } else if a == p {
                assert(r[b] == e[b - 1]);
                assert(key_less(key, e[b - 1].0));
            } else {
                assert(r[a] == e[a - 1] && r[b] == e[b - 1]);
                assert(key_less(e[a - 1].0, e[b - 1].0));
            }
        }
        lemma_ascending_distinct(r);
        lemma_field_at(r, p);
        assert forall|k: Seq<char>| has_key(r, k) <==> (k == key || has_key(e, k)) by {
            if has_key(r, k) {
                let j = key_index(r, k);
                assert(r[j].0 == k);
                if j < p {
                    assert(e[j].0 == k);
                } else if j > p {
                    assert(e[j - 1].0 == k);
                }
            }
            if has_key(e, k) {
                let j = key_index(e, k);
                assert(e[j].0 == k);
                if j < p {
                    assert(r[j].0 == k);
                } else {
                    assert(r[j + 1].0 == k);
                }
            }
        }
        assert forall|k: Seq<char>| k != key implies fields_get(r, k) == fields_get(e, k) by {
            if has_key(e, k) {
                let j = key_index(e, k);
                assert(e[j].0 == k);
                lemma_field_at(e, j);
                if j < p {
                    assert(r[j] == e[j]);
                    lemma_field_at(r, j);
                } else {
                    assert(r[j + 1] == e[j]);
                    lemma_field_at(r, j + 1);
                }
            }
        }
    }
}

/// A field whose name comes after all names of `e` is set at the end.
pub proof fn lemma_fields_set_last(e: Fields, key: Seq<char>, v: ValueView)
    requires
        ascending_keys(e),
        forall|j: int| 0 <= j < e.len() ==> key_less((#[trigger] e[j]).0, key),
    ensures
        fields_set(e, key, v) == e.push((key, v)),
{
    if has_key(e, key) {
        let i = key_index(e, key);
        assert(key_less(e[i].0, key));
        lemma_less_irreflexive(key, 0);
    }
    lemma_slot(e, key, 0);
    let p = slot(e, key, 0);
    if p < e.len() {
        assert(key_less(e[p].0, key));
    }
    assert(e.insert(p, (key, v)) =~= e.push((key, v)));
}

/// The characters of `s`.
fn chars_of(s: &str) -> (v: Vec<char>)
    ensures
        v@ == s@,
{
    let mut v: Vec<char> = Vec::new();
    for c in it: s.chars()
        invariant
            it.seq() == s@,
            v@ == s@.take(it.index()),
    {
        assert(c == s@[it.index()]);
        assert(s@.take(it.index() + 1) =~= s@.take(it.index()).push(c));
        v.push(c);
    }
    assert(s@.take(s@.len() as int) =~= s@);
    v
}

/// The code point of `c`.
fn code_of(c: char) -> (r: u32)
    ensures
        r as int == c as int,
{
    c as u32
}

/// Whether the name `a` comes before the name `b`.
fn comes_before(a: &Vec<char>, b: &Vec<char>) -> (r: bool)
    ensures
        r == key_less(a@, b@),
{
    let mut i: usize = 0;
    while i < a.len() && i < b.len()
        invariant
            0 <= i <= a.len(),
            i <= b.len(),
            key_less(a@, b@) == less_from(a@, b@, i as int),
        decreases a.len() - i,
    {
        let x: char = a[i];
        let y: char = b[i];
        if x != y {
            return code_of(x) < code_of(y);
        }
        i = i + 1;
    }
    i < b.len()
}

/// The fields of an entity, by name.
#[derive(Debug)]
pub struct EntityData {
    fields: Vec<(String, Value)>,
}

impl View for EntityData {
    type V = Fields;

    closed spec fn view(&self) -> Fields {
        Seq::new(self.fields@.len(), |i: int| (self.fields@[i].0@, self.fields@[i].1@))
    }
}

impl Clone for EntityData {
    fn clone(&self) -> (r: Self)
        ensures
            r@ == self@,
            self.wf() ==> r.wf(),
    {
        let mut fields: Vec<(String, Value)> = Vec::new();
        let mut i: usize = 0;
        while i < self.fields.len()
            invariant
                0 <= i <= self.fields.len(),
                fields@.len() == i,
                forall|j: int|
                    0 <= j < i ==> fields@[j].0@ == self.fields@[j].0@ && fields@[j].1@
                        == self.fields@[j].1@,
            decreases self.fields.len() - i,
        {
            let k = self.fields[i].0.clone();
            let v = self.fields[i].1.clone();
            fields.push((k, v));
            i = i + 1;
        }
        let r = EntityData { fields };
        assert(r@ =~= self@);
        r
    }
}

impl EntityData {
    /// The invariant of an entity: the field names come in strictly
    /// ascending order, so that none occurs twice.
    pub closed spec fn wf(&self) -> bool {
        ascending_keys(self@)
    }

    /// What the invariant says.
    pub proof fn lemma_wf(&self)
        ensures
            self.wf() == ascending_keys(self@),
            self.wf() ==> distinct_keys(self@),
    {
        if self.wf() {
            lemma_ascending_distinct(self@);
        }
    }

    /// The entity without fields.
    pub fn new() -> (r: Self)
        ensures
            r.wf(),
            r@ == Seq::<(Seq<char>, ValueView)>::empty(),
    {
        let r = EntityData { fields: Vec::new() };
        assert(r@ =~= Seq::<(Seq<char>, ValueView)>::empty());
        r
    }

    /// The position of the field named `key`, if there is one.
    fn position(&self, key: &str) -> (r: Option<usize>)
        requires
            self.wf(),
        ensures
            r is Some <==> has_key(self@, key@),
            r matches Some(i) ==> i < self@.len() && i == key_index(self@, key@)
                && self@[i as int].0 == key@,
    {
        proof {
            lemma_ascending_distinct(self@);
        }
        let wanted: String = key.to_owned();
        let mut i: usize = 0;
        while i < self.fields.len()
            invariant
                0 <= i <= self.fields.len(),
                wanted@ == key@,
                distinct_keys(self@),
                forall|j: int| 0 <= j < i ==> (#[trigger] self@[j]).0 != key@,
            decreases self.fields.len() - i,
        {
            if self.fields[i].0 == wanted {
                assert(self@[i as int].0 == key@);
                assert(has_key(self@, key@));
                let ghost c = key_index(self@, key@);
                assert(self@[c].0 == key@);
                assert(c == i);
                return Some(i);
            }
            assert(self@[i as int].0 != key@);
            i = i + 1;
        }
        assert(!has_key(self@, key@)) by {
            if has_key(self@, key@) {
                let c = key_index(self@, key@);
                assert(self@[c].0 == key@);
            }
        }
        None
    }

    /// Where a field named `key` belongs in the order of the names.
    fn slot_for(&self, key: &str) -> (r: usize)
        ensures
            r == slot(self@, key@, 0),
            r <= self@.len(),
    {
        let wanted = chars_of(key);
        let mut i: usize = 0;
        while i < self.fields.len()
            invariant
                0 <= i <= self.fields.len(),
                wanted@ == key@,
                slot(self@, key@, 0) == slot(self@, key@, i as int),
            decreases self.fields.len() - i,
        {
            let name = chars_of(self.fields[i].0.as_str());
            assert(self@[i as int].0 == name@);
            if !comes_before(&name, &wanted) {
                return i;
            }
            i = i + 1;
        }
        self.fields.len()
    }

    /// Sets the field `key` to `value`: in place if the entity has such a
    /// field, else where the name belongs in the order of the names.
    pub fn set(&mut self, key: &str, value: Value)
        requires
            old(self).wf(),
        ensures
            final(self).wf(),
            final(self)@ == fields_set(old(self)@, key@, value@),
    {
        proof {
            lemma_fields_set(self@, key@, value@);
        }
        match self.position(key) {
            Some(i) => {
                let ghost before = self@;
                self.fields[i] = (key.to_owned(), value);
                assert(self@ =~= before.update(i as int, (key@, value@)));
            },
            None => {
                let ghost before = self@;
                let p = self.slot_for(key);
                self.fields.insert(p, (key.to_owned(), value));
                assert(self@ =~= before.insert(p as int, (key@, value@)));
            },
        }
    }

    /// The value of the field named `key`, if there is one.
    pub fn get(&self, key: &str) -> (r: Option<&Value>)
        requires
            self.wf(),
        ensures
            r is Some <==> has_key(self@, key@),
            r matches Some(v) ==> fields_get(self@, key@) == Some(v@),
    {
        match self.position(key) {
            Some(i) => Some(&self.fields[i].1),
            None => None,
        }
    }

    /// The string in the field named `key`.
    pub fn get_string(&self, key: &str) -> (r: &str)
        requires
            self.wf(),
            fields_get(self@, key@) matches Some(ValueView::String(_)),
        ensures
            fields_get(self@, key@) == Some(ValueView::String(r@)),
    {
        match self.get(key) {
            Some(Value::String(s)) => s.as_str(),
            _ => {
                proof {
                    assert(false);
                }
                ""
            },
        }
    }

    /// The byte string in the field named `key`.
    pub fn get_bytes(&self, key: &str) -> (r: Bytes)
        requires
            self.wf(),
            fields_get(self@, key@) matches Some(ValueView::Bytes(_)),
        ensures
            fields_get(self@, key@) == Some(ValueView::Bytes(r@)),
    {
        match self.get(key) {
            Some(Value::Bytes(b)) => b.clone(),
            _ => {
                proof {
                    assert(false);
                }
                Bytes::new()
            },
        }
    }

    /// The big integer in the field named `key`.
    pub fn get_bigint(&self, key: &str) -> (r: BigInt)
        requires
            self.wf(),
            fields_get(self@, key@) matches Some(ValueView::BigInt(_)),
        ensures
            fields_get(self@, key@) == Some(ValueView::BigInt(r@)),
    {
        match self.get(key) {
            Some(Value::BigInt(b)) => b.clone(),
            _ => {
                proof {
                    assert(false);
                }
                BigInt::from_reply(0)
            },
        }
    }

    /// The big decimal in the field named `key`.
    pub fn get_big_decimal(&self, key: &str) -> (r: BigDecimal)
        requires
            self.wf(),
            fields_get(self@, key@) matches Some(ValueView::BigDecimal(_)),
        ensures
            fields_get(self@, key@) == Some(ValueView::BigDecimal(r@)),
    {
        match self.get(key) {
            Some(Value::BigDecimal(b)) => b.clone(),
            _ => {
                proof {
                    assert(false);
                }
                BigDecimal::from_reply(0)
            },
        }
    }

    /// The string in the field named `key`, if there is such a field and it
    /// holds a string.
    pub fn get_string_opt(&self, key: &str) -> (r: Option<&str>)
        requires
            self.wf(),
        ensures
            r is Some <==> fields_get(self@, key@) matches Some(ValueView::String(_)),
            r matches Some(s) ==> fields_get(self@, key@) == Some(ValueView::String(s@)),
    {
        match self.get(key) {
            Some(Value::String(s)) => Some(s.as_str()),
            _ => None,
        }
    }

    /// The number of fields.
    pub fn len(&self) -> (n: usize)
        ensures
            n == self@.len(),
    {
        self.fields.len()
    }

    /// The fields, each a name with its value, once each and in strictly
    /// ascending order of the names.
    pub fn iter(&self) -> (r: &Vec<(String, Value)>)
        ensures
            r@.len() == self@.len(),
            forall|i: int| 0 <= i < r@.len() ==> (r@[i].0@, r@[i].1@) == self@[i],
            self.wf() ==> forall|i: int, j: int|
                0 <= i < j < r@.len() ==> key_less((#[trigger] r@[i]).0@, (#[trigger] r@[j]).0@),
    {
        proof {
            if self.wf() {
                assert forall|i: int, j: int| 0 <= i < j < self.fields@.len() implies key_less(
                    (#[trigger] self.fields@[i]).0@,
                    (#[trigger] self.fields@[j]).0@,
                ) by {
                    assert(key_less(self@[i].0, self@[j].0));
                }
            }
        }
        &self.fields
    }
}

/// What every entity type offers: the name of the type as the schema has
/// it, the identifier of an entity, and the requests to the host's store
/// for an entity of the type. A request is written into the memory of the
/// module and handed back for the embedding to carry out.
pub trait Entity: Sized {
    /// The name of the entity type.
    spec fn spec_entity_type() -> Seq<char>;

    /// The identifier of the entity.
    spec fn spec_id(&self) -> Seq<char>;

    /// The fields of the entity, as they are stored.
    spec fn spec_fields(&self) -> Seq<(Seq<char>, ValueView)>;

    /// The name of the entity type.
    fn entity_type() -> (r: &'static str)
        ensures
            r@ == Self::spec_entity_type(),
    ;

    /// The identifier of the entity.
    fn id(&self) -> (r: &str)
        ensures
            r@ == self.spec_id(),
    ;

    /// Writes the name of the type, the identifier and the fields of the
    /// entity into fresh heap and asks the host to store the entity.
    fn save(&self, mem: &mut Memory) -> (request: HostCall)
        requires
            old(mem).wf(),
            ascending_keys(self.spec_fields()),
            old(mem).cursor() + request_footprint(Self::spec_entity_type(), self.spec_id())
                + entity_footprint(self.spec_fields()) <= old(mem).page_limit() * 65536,
        ensures
            extends(
                old(mem),
                final(mem),
                request_footprint(Self::spec_entity_type(), self.spec_id()) + entity_footprint(
                    self.spec_fields(),
                ),
            ),
            request.import == Import::StoreSet,
            request.args@.len() == 3,
            is_string(
                final(mem)@,
                as_unsigned32(request.args@[0]) as int,
                Self::spec_entity_type(),
            ),
            is_string(final(mem)@, as_unsigned32(request.args@[1]) as int, self.spec_id()),
            is_entity(final(mem)@, as_unsigned32(request.args@[2]) as int, self.spec_fields()),
    ;

    /// Writes the name of the type and the identifier `id` into fresh heap
    /// and asks the host for the entity.
    fn load(mem: &mut Memory, id: &str) -> (request: HostCall)
        requires
            old(mem).wf(),
            old(mem).cursor() + request_footprint(Self::spec_entity_type(), id@) <= old(
                mem,
            ).page_limit() * 65536,
        ensures
            extends(old(mem), final(mem), request_footprint(Self::spec_entity_type(), id@)),
            request.import == Import::StoreGet,
            request.args@.len() == 2,
            is_string(
                final(mem)@,
                as_unsigned32(request.args@[0]) as int,
                Self::spec_entity_type(),
            ),
            is_string(final(mem)@, as_unsigned32(request.args@[1]) as int, id@),
    ;

    /// What the host's reply to `load` means: no entity for zero, else the
    /// entity whose fields the reply points to.
    fn loaded(mem: &Memory, reply: i32) -> (r: Option<Self>)
        requires
            mem.wf(),
            entity_ok(mem@, mem@.len() as int, as_unsigned32(reply) as int),
        ensures
            r is Some <==> reply != 0,
            r matches Some(entity) ==> entity.spec_fields() == entity_dec(
                mem@,
                as_unsigned32(reply) as int,
            ),
    ;

    /// Writes the name of the type and the identifier `id` into fresh heap
    /// and asks the host to remove the entity.
    fn remove(mem: &mut Memory, id: &str) -> (request: HostCall)
        requires
            old(mem).wf(),
            old(mem).cursor() + request_footprint(Self::spec_entity_type(), id@) <= old(
                mem,
            ).page_limit() * 65536,
        ensures
            extends(old(mem), final(mem), request_footprint(Self::spec_entity_type(), id@)),
            request.import == Import::StoreRemove,
            request.args@.len() == 2,
            is_string(
                final(mem)@,
                as_unsigned32(request.args@[0]) as int,
                Self::spec_entity_type(),
            ),
            is_string(final(mem)@, as_unsigned32(request.args@[1]) as int, id@),
    ;
}

} // verus!
