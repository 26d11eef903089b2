//! Item NBT as plain values.
//!
//! A decoded value is read once into [`Value`], whose compounds are kept in
//! the order of their names. Contracts speak of a value by its [`Tree`],
//! where a compound is a map.

use crate::order::{
    ascending, by_text, law_text_order_is_total, lemma_ascending_is_set_in_order, not_after,
    set_in_order, text_le,
};
use crate::text::same_text;
use fastnbt::Value as Raw;
use vstd::prelude::*;

verus! {

// ---------------------------------------------------------------------
// Values
// ---------------------------------------------------------------------

/// What an NBT value means. The floating-point tags stand as their bits.
pub enum Tree {
    Byte(i8),
    Short(i16),
    Int(i32),
    Long(i64),
    Float(u32),
    Double(u64),
    String(Seq<char>),
    ByteArray(Seq<i8>),
    IntArray(Seq<i32>),
    LongArray(Seq<i64>),
    List(Seq<Tree>),
    Compound(Map<Seq<char>, Tree>),
}

/// An NBT value. The floating-point tags stand as their bits.
#[derive(Debug, PartialEq, Eq)]
pub enum Value {
    Byte(i8),
    Short(i16),
    Int(i32),
    Long(i64),
    Float(u32),
    Double(u64),
    String(String),
    ByteArray(Vec<i8>),
    IntArray(Vec<i32>),
    LongArray(Vec<i64>),
    List(Vec<Value>),
    Compound(Compound),
}

/// The fields of an NBT compound: each name once, in ascending order.
#[derive(Debug, PartialEq, Eq)]
pub struct Compound {
    entries: Vec<(String, Value)>,
}

impl Value {
    /// What the value means.
    pub open spec fn tree(self) -> Tree
        decreases self,
    {
        match self {
            Value::Byte(n) => Tree::Byte(n),
            Value::Short(n) => Tree::Short(n),
            Value::Int(n) => Tree::Int(n),
            Value::Long(n) => Tree::Long(n),
            Value::Float(bits) => Tree::Float(bits),
            Value::Double(bits) => Tree::Double(bits),
            Value::String(s) => Tree::String(s@),
            Value::ByteArray(items) => Tree::ByteArray(items@),
            Value::IntArray(items) => Tree::IntArray(items@),
            Value::LongArray(items) => Tree::LongArray(items@),
            Value::List(items) => Tree::List(
                Seq::new(
                    items@.len(),
                    |i: int|
                        if 0 <= i < items@.len() {
                            items@[i].tree()
                        } else {
                            Tree::Byte(0)
                        },
                ),
            ),
            Value::Compound(c) => Tree::Compound(c.map()),
        }
    }

    /// A copy of the value.
    pub fn duplicate(&self) -> (copy: Value)
        ensures
            copy.tree() == self.tree(),
        decreases self,
    {
        match self {
            Value::Byte(n) => Value::Byte(*n),
            Value::Short(n) => Value::Short(*n),
            Value::Int(n) => Value::Int(*n),
            Value::Long(n) => Value::Long(*n),
            Value::Float(bits) => Value::Float(*bits),
            Value::Double(bits) => Value::Double(*bits),
            Value::String(s) => Value::String(s.clone()),
            Value::ByteArray(items) => Value::ByteArray(items.clone()),
            Value::IntArray(items) => Value::IntArray(items.clone()),
            Value::LongArray(items) => Value::LongArray(items.clone()),
            Value::List(items) => {
                let mut copies: Vec<Value> = Vec::new();
                let n: usize = items.len();
                for i in 0..n
                    invariant
                        n == items@.len(),
                        *self == Value::List(*items),
                        copies@.len() == i,
                        forall|j: int|
                            0 <= j < i ==> (#[trigger] copies@[j]).tree() == items@[j].tree(),
                {
                    assert(decreases_to!(*self => self->List_0@[i as int]));
                    copies.push(items[i].duplicate());
                }
                let copy = Value::List(copies);
                assert(copy.tree()->List_0 =~= self.tree()->List_0);
                copy
            },
            Value::Compound(c) => Value::Compound(c.duplicate()),
        }
    }
}

impl Tree {
    /// The number under one of the four integer tags.
    pub open spec fn integer(self) -> Option<i64> {
        match self {
            Tree::Byte(n) => Some(n as i64),
            Tree::Short(n) => Some(n as i64),
            Tree::Int(n) => Some(n as i64),
            Tree::Long(n) => Some(n),
            _ => None,
        }
    }
}

/// The number under one of the four integer tags.
pub fn as_int(value: &Value) -> (n: Option<i64>)
    ensures
        n == value.tree().integer(),
{
    match value {
        Value::Byte(n) => Some(*n as i64),
        Value::Short(n) => Some(*n as i64),
        Value::Int(n) => Some(*n as i64),
        Value::Long(n) => Some(*n),
        _ => None,
    }
}

/// The fields, where the value is a compound.
pub fn as_compound(value: &Value) -> (fields: Option<&Compound>)
    ensures
        match fields {
            Some(c) => value.tree() == Tree::Compound(c.map()),
            None => !(value.tree() is Compound),
        },
{
    match value {
        Value::Compound(c) => Some(c),
        _ => None,
    }
}

impl Clone for Value {
    fn clone(&self) -> (copy: Self)
        ensures
            copy.tree() == self.tree(),
    {
        self.duplicate()
    }
}

impl Compound {
    #[verifier::type_invariant]
    spec fn names_ascend(self) -> bool {
        ascending(self.names())
    }

    /// The names of the fields, in ascending order.
    pub closed spec fn names(self) -> Seq<Seq<char>> {
        Seq::new(self.entries@.len(), |i: int| self.entries@[i].0@)
    }

    /// The fields by name.
    pub closed spec fn map(self) -> Map<Seq<char>, Tree>
        decreases self,
    {
        Map::new(
            |k: Seq<char>|
                exists|i: int|
                    0 <= i < self.entries@.len() && (#[trigger] self.entries@[i]).0@ == k,
            |k: Seq<char>|
                {
                    let i = choose|i: int|
                        0 <= i < self.entries@.len() && (#[trigger] self.entries@[i]).0@ == k;
                    if 0 <= i < self.entries@.len() {
                        self.entries@[i].1.tree()
                    } else {
                        Tree::Byte(0)
                    }
                },
        )
    }

    proof fn lemma_map(self)
        requires
            self.names_ascend(),
        ensures
            self.map().dom() == self.names().to_set(),
            self.names() == set_in_order(self.map().dom()),
            self.map().dom().finite(),
            self.map().len() == self.entries@.len(),
            forall|i: int|
                0 <= i < self.entries@.len() ==> self.map().contains_key(
                    (#[trigger] self.entries@[i]).0@,
                ) && self.map()[self.entries@[i].0@] == self.entries@[i].1.tree(),
            forall|k: Seq<char>| #[trigger]
                self.map().contains_key(k) ==> exists|i: int|
                    0 <= i < self.entries@.len() && (#[trigger] self.entries@[i]).0@ == k,
    {
        let names = self.names();
        assert forall|i: int, j: int|
            0 <= i < j < self.entries@.len() implies (#[trigger] self.entries@[i]).0@ != (
        #[trigger] self.entries@[j]).0@ by {
            assert(names[i] != names[j]);
        }
        assert(self.map().dom() =~= names.to_set()) by {
            assert forall|k: Seq<char>| #[trigger] names.to_set().contains(k) <==> self.map().dom().contains(
                k,
            ) by {
                if names.contains(k) {
                    let i = choose|i: int| 0 <= i < names.len() && names[i] == k;
                    assert(self.entries@[i].0@ == k);
                }
                if self.map().dom().contains(k) {
                    let i = choose|i: int|
                        0 <= i < self.entries@.len() && (#[trigger] self.entries@[i]).0@ == k;
                    assert(names[i] == k);
                }
            }
        }
        lemma_ascending_is_set_in_order(names);
        names.unique_seq_to_set();
        vstd::seq_lib::seq_to_set_is_finite(names);
    }

    /// A compound without fields.
    pub fn new() -> (c: Self)
        ensures
            c.map() == Map::<Seq<char>, Tree>::empty(),
    {
        let c = Compound { entries: Vec::new() };
        assert(c.map() =~= Map::<Seq<char>, Tree>::empty());
        c
    }

    /// Number of fields. Their names are those of the map, in order.
    pub fn len(&self) -> (n: usize)
        ensures
            n == self.map().len(),
            n == self.names().len(),
            self.map().dom().finite(),
            self.map().dom() == self.names().to_set(),
            self.names() == set_in_order(self.map().dom()),
            ascending(self.names()),
    {
        proof {
            use_type_invariant(self);
            self.lemma_map();
        }
        self.entries.len()
    }

    /// The name of the field at position `i`.
    pub fn name_at(&self, i: usize) -> (name: &String)
        requires
            i < self.names().len(),
        ensures
            name@ == self.names()[i as int],
    {
        &self.entries[i].0
    }

    /// The value of the field at position `i`.
    pub fn value_at(&self, i: usize) -> (value: &Value)
        requires
            i < self.names().len(),
        ensures
            self.map().contains_key(self.names()[i as int]),
            value.tree() == self.map()[self.names()[i as int]],
    {
        proof {
            use_type_invariant(self);
            self.lemma_map();
        }
        &self.entries[i].1
    }

    /// The number of fields whose name comes before `name`, and whether
    /// the next one is `name` itself.
    fn place_of(&self, name: &str) -> (place: (usize, bool))
        ensures
            place.0 <= self.entries@.len(),
            forall|i: int|
                0 <= i < place.0 ==> text_le((#[trigger] self.entries@[i]).0@, name@)
                    && self.entries@[i].0@ != name@,
            place.1 ==> place.0 < self.entries@.len() && self.entries@[place.0 as int].0@ == name@,
            !place.1 ==> forall|i: int|
                place.0 <= i < self.entries@.len() ==> text_le(
                    name@,
                    (#[trigger] self.entries@[i]).0@,
                ) && self.entries@[i].0@ != name@,
    {
        let ghost le = by_text();
        proof {
            use_type_invariant(self);
            law_text_order_is_total();
        }
        let mut at: usize = 0;
        while at < self.entries.len()
            invariant
                at <= self.entries@.len(),
                le == by_text(),
                vstd::relations::total_ordering(le),
                ascending(self.names()),
                forall|i: int|
                    0 <= i < at ==> text_le((#[trigger] self.entries@[i]).0@, name@)
                        && self.entries@[i].0@ != name@,
            decreases self.entries@.len() - at,
        {
            let key = self.entries[at].0.as_str();
            if same_text(key, name) {
                return (at, true);
            }
            if !not_after(key, name) {
                proof {
                    let here = self.entries@[at as int].0@;
                    assert(le(name@, here) || le(here, name@));
                    assert forall|i: int| at <= i < self.entries@.len() implies text_le(
                        name@,
                        (#[trigger] self.entries@[i]).0@,
                    ) && self.entries@[i].0@ != name@ by {
                        if i > at {
                            assert(text_le(self.names()[at as int], self.names()[i]));
                            assert(le(here, self.entries@[i].0@));
                            assert(le(name@, here));
                            if self.entries@[i].0@ == name@ {
                                assert(le(here, name@));
                            }
                        }
                    }
                }
                return (at, false);
            }
            at += 1;
        }
        (at, false)
    }

    /// The field named `name`.
    pub fn get(&self, name: &str) -> (value: Option<&Value>)
        ensures
            match value {
                Some(v) => self.map().contains_key(name@) && v.tree() == self.map()[name@],
                None => !self.map().contains_key(name@),
            },
    {
        proof {
            use_type_invariant(self);
            self.lemma_map();
        }
        let (at, found) = self.place_of(name);
        if found {
            Some(&self.entries[at].1)
        } else {
            None
        }
    }

    /// Sets the field `name`, in place of what was there.
    pub fn insert(&mut self, name: String, value: Value)
        ensures
            final(self).map() == old(self).map().insert(name@, value.tree()),
    {
        proof {
            use_type_invariant(&*self);
            self.lemma_map();
        }
        let (at, found) = self.place_of(name.as_str());
        let ghost before = *self;
        let ghost k = name@;
        let mut taken = Compound::new();
        std::mem::swap(self, &mut taken);
        let Compound { mut entries } = taken;
        if found {
            entries.set(at, (name, value));
        } else {
            entries.insert(at, (name, value));
        }
        let ghost whole = Compound { entries };
        assert(ascending(whole.names())) by {
            let names = whole.names();
            let old_names = before.names();
            assert forall|i: int, j: int| 0 <= i < j < names.len() implies text_le(
                #[trigger] names[i],
                #[trigger] names[j],
            ) && names[i] != names[j] by {
                if found {
                    assert(old_names[i] == names[i] && old_names[j] == names[j]);
                } else {
                    let was_i = if i < at { i } else { i - 1 };
                    let was_j = if j < at { j } else { j - 1 };
                    if i == at {
                        assert(before.entries@[was_j].0@ == names[j]);
                    } else if j == at {
                        assert(before.entries@[was_i].0@ == names[i]);
                    } else {
                        assert(old_names[was_i] == names[i] && old_names[was_j] == names[j]);
                    }
                }
            }
        }
        *self = Compound { entries };
        proof {
            let old_entries = before.entries@;
            let new_entries = self.entries@;
            self.lemma_map();
            assert(new_entries[at as int].0@ == k);
            assert forall|x: Seq<char>| #[trigger] self.map().contains_key(x) <==> before.map().insert(
                k,
                value.tree(),
            ).contains_key(x) by {
                if self.map().contains_key(x) && x != k {
                    let i = choose|i: int|
                        0 <= i < new_entries.len() && (#[trigger] new_entries[i]).0@ == x;
                    let was = if found || i < at { i } else { i - 1 };
                    assert(old_entries[was].0@ == x);
                }
                if before.map().contains_key(x) && x != k {
                    let i = choose|i: int|
                        0 <= i < old_entries.len() && (#[trigger] old_entries[i]).0@ == x;
                    let now = if found || i < at { i } else { i + 1 };
                    assert(new_entries[now].0@ == x);
                }
            }
            assert forall|x: Seq<char>| #[trigger] self.map().contains_key(x) implies self.map()[x]
                == before.map().insert(k, value.tree())[x] by {
                let i = choose|i: int|
                    0 <= i < new_entries.len() && (#[trigger] new_entries[i]).0@ == x;
                if x != k {
                    let was = if found || i < at { i } else { i - 1 };
                    assert(old_entries[was] == new_entries[i]);
                }
            }
            assert(self.map() =~= before.map().insert(k, value.tree()));
        }
    }

    /// Drops the field `name`, if there is one.
    pub fn remove(&mut self, name: &str)
        ensures
            final(self).map() == old(self).map().remove(name@),
    {
        proof {
            use_type_invariant(&*self);
            self.lemma_map();
        }
        let (at, found) = self.place_of(name);
        if !found {
            assert(self.map() =~= self.map().remove(name@));
            return;
        }
        let ghost before = *self;
        let ghost k = name@;
        let mut taken = Compound::new();
        std::mem::swap(self, &mut taken);
        let Compound { mut entries } = taken;
        entries.remove(at);
        let ghost whole = Compound { entries };
        assert(ascending(whole.names())) by {
            let names = whole.names();
            let old_names = before.names();
            assert forall|i: int, j: int| 0 <= i < j < names.len() implies text_le(
                #[trigger] names[i],
                #[trigger] names[j],
            ) && names[i] != names[j] by {
                let was_i = if i < at { i } else { i + 1 };
                let was_j = if j < at { j } else { j + 1 };
                assert(old_names[was_i] == names[i] && old_names[was_j] == names[j]);
            }
        }
        *self = Compound { entries };
        proof {
            let old_entries = before.entries@;
            let new_entries = self.entries@;
            let old_names = before.names();
            self.lemma_map();
            assert forall|x: Seq<char>| #[trigger] self.map().contains_key(x) <==> before.map().remove(
                k,
            ).contains_key(x) by {
                if self.map().contains_key(x) {
                    let i = choose|i: int|
                        0 <= i < new_entries.len() && (#[trigger] new_entries[i]).0@ == x;
                    let was = if i < at { i } else { i + 1 };
                    assert(old_entries[was].0@ == x);
                    assert(old_names[was] != old_names[at as int]);
                }
                if before.map().contains_key(x) && x != k {
                    let i = choose|i: int|
                        0 <= i < old_entries.len() && (#[trigger] old_entries[i]).0@ == x;
                    let now = if i < at { i } else { i - 1 };
                    assert(new_entries[now].0@ == x);
                }
            }
            assert forall|x: Seq<char>| #[trigger] self.map().contains_key(x) implies self.map()[x]
                == before.map()[x] by {
                let i = choose|i: int|
                    0 <= i < new_entries.len() && (#[trigger] new_entries[i]).0@ == x;
                let was = if i < at { i } else { i + 1 };
                assert(old_entries[was] == new_entries[i]);
            }
            assert(self.map() =~= before.map().remove(k));
        }
    }

    /// A copy of the compound.
    pub fn duplicate(&self) -> (copy: Compound)
        ensures
            copy.map() == self.map(),
        decreases self,
    {
        proof {
            use_type_invariant(self);
        }
        let mut copies: Vec<(String, Value)> = Vec::new();
        let n: usize = self.entries.len();
        for i in 0..n
            invariant
                n == self.entries@.len(),
                copies@.len() == i,
                forall|j: int|
                    0 <= j < i ==> (#[trigger] copies@[j]).0@ == self.entries@[j].0@
                        && copies@[j].1.tree() == self.entries@[j].1.tree(),
        {
            assert(decreases_to!(self => self.entries@[i as int].1));
            copies.push((self.entries[i].0.clone(), self.entries[i].1.duplicate()));
        }
        let ghost whole = Compound { entries: copies };
        assert(whole.names() =~= self.names());
        let copy = Compound { entries: copies };
        assert(copy.map() =~= self.map()) by {
            copy.lemma_map();
            self.lemma_map();
            assert forall|k: Seq<char>| #[trigger] copy.map().contains_key(k) implies copy.map()[k]
                == self.map()[k] by {
                let i = choose|i: int| 0 <= i < copies@.len() && (#[trigger] copies@[i]).0@ == k;
                assert(self.entries@[i].0@ == k);
            }
        }
        copy
    }
}

impl Clone for Compound {
    fn clone(&self) -> (copy: Self)
        ensures
            copy.map() == self.map(),
    {
        self.duplicate()
    }
}

// ---------------------------------------------------------------------
// Reading encoded NBT
// ---------------------------------------------------------------------

/// A value as the NBT decoder holds it. Opaque here: [`open_value`] looks
/// one level into it.
#[verifier::external_type_specification]
#[verifier::external_body]
pub struct ExRaw(Raw);

/// Why bytes are not the NBT that was asked for.
#[verifier::external_type_specification]
#[verifier::external_body]
pub struct ExNbtError(fastnbt::error::Error);

/// What a decoder's value holds.
pub uninterp spec fn raw_tree(raw: fastnbt::Value) -> Tree;

/// What `fastnbt::from_bytes` reads from bytes into a `fastnbt::Value`, if
/// they are a named NBT compound.
pub uninterp spec fn decoded(bytes: Seq<u8>) -> Option<Tree>;

/// One level of a decoder's value.
pub enum Node {
    Byte(i8),
    Short(i16),
    Int(i32),
    Long(i64),
    Float(u32),
    Double(u64),
    String(String),
    ByteArray(Vec<i8>),
    IntArray(Vec<i32>),
    LongArray(Vec<i64>),
    List(Vec<fastnbt::Value>),
    Compound(Vec<(String, fastnbt::Value)>),
}

/// `fields` are the fields of `map`, each once.
pub open spec fn lists(fields: Seq<(String, fastnbt::Value)>, map: Map<Seq<char>, Tree>) -> bool {
    &&& map.dom().finite()
    &&& forall|i: int|
        0 <= i < fields.len() ==> map.contains_key((#[trigger] fields[i]).0@) && map[fields[i].0@]
            == raw_tree(fields[i].1)
    &&& forall|k: Seq<char>| #[trigger]
        map.contains_key(k) ==> exists|i: int|
            0 <= i < fields.len() && (#[trigger] fields[i]).0@ == k
}

/// `node` is one level of `tree`.
pub open spec fn opens(node: Node, tree: Tree) -> bool {
    match node {
        Node::Byte(n) => tree == Tree::Byte(n),
        Node::Short(n) => tree == Tree::Short(n),
        Node::Int(n) => tree == Tree::Int(n),
        Node::Long(n) => tree == Tree::Long(n),
        Node::Float(bits) => tree == Tree::Float(bits),
        Node::Double(bits) => tree == Tree::Double(bits),
        Node::String(s) => tree == Tree::String(s@),
        Node::ByteArray(items) => tree == Tree::ByteArray(items@),
        Node::IntArray(items) => tree == Tree::IntArray(items@),
        Node::LongArray(items) => tree == Tree::LongArray(items@),
        Node::List(items) => tree == Tree::List(
            Seq::new(items@.len(), |i: int| raw_tree(items@[i])),
        ),
        Node::Compound(fields) => tree is Compound && lists(fields@, tree->Compound_0),
    }
}

/// Calls `fastnbt::from_bytes` for a `fastnbt::Value`. It reads the bytes
/// alone, so what it gives is named by them; the claim is that the value
/// holds what is named, and that an error comes where nothing is.
#[verifier::external_body]
fn from_bytes(bytes: &[u8]) -> (read: Result<fastnbt::Value, fastnbt::error::Error>)
    ensures
        match read {
            Ok(raw) => decoded(bytes@) == Some(raw_tree(raw)),
            Err(_) => decoded(bytes@) is None,
        },
{
    fastnbt::from_bytes(bytes)
}

/// Takes a `fastnbt::Value` apart by its variant. The claim is that the
/// parts are those of the value: a list's items in order, a compound's
/// entries each once (it is a hash map), and the bits of a float.
#[verifier::external_body]
fn open_value(raw: fastnbt::Value) -> (node: Node)
    ensures
        opens(node, raw_tree(raw)),
{
    match raw {
        Raw::Byte(n) => Node::Byte(n),
        Raw::Short(n) => Node::Short(n),
        Raw::Int(n) => Node::Int(n),
        Raw::Long(n) => Node::Long(n),
        Raw::Float(x) => Node::Float(x.to_bits()),
        Raw::Double(x) => Node::Double(x.to_bits()),
        Raw::String(s) => Node::String(s),
        Raw::ByteArray(a) => Node::ByteArray(a.into_inner()),
        Raw::IntArray(a) => Node::IntArray(a.into_inner()),
        Raw::LongArray(a) => Node::LongArray(a.into_inner()),
        Raw::List(l) => Node::List(l),
        Raw::Compound(c) => Node::Compound(c.into_iter().collect()),
    }
}

/// Reads a decoder's value into a [`Value`].
fn import(raw: fastnbt::Value) -> (value: Value)
    ensures
        value.tree() == raw_tree(raw),
    decreases raw_tree(raw),
{
    match open_value(raw) {
        Node::Byte(n) => Value::Byte(n),
        Node::Short(n) => Value::Short(n),
        Node::Int(n) => Value::Int(n),
        Node::Long(n) => Value::Long(n),
        Node::Float(bits) => Value::Float(bits),
        Node::Double(bits) => Value::Double(bits),
        Node::String(s) => Value::String(s),
        Node::ByteArray(items) => Value::ByteArray(items),
        Node::IntArray(items) => Value::IntArray(items),
        Node::LongArray(items) => Value::LongArray(items),
        Node::List(items) => {
            let ghost all = items@;
            let ghost trees = raw_tree(raw)->List_0;
            let mut values: Vec<Value> = Vec::new();
            for item in iter: items
                invariant
                    iter.seq() == all,
                    raw_tree(raw) == Tree::List(trees),
                    trees == Seq::new(all.len(), |i: int| raw_tree(all[i])),
                    values@.len() == iter.index(),
                    forall|j: int|
                        0 <= j < iter.index() ==> (#[trigger] values@[j]).tree() == trees[j],
            {
                let ghost i = iter.index();
                assert(trees[i] == raw_tree(item));
                assert(decreases_to!(raw_tree(raw) => raw_tree(raw)->List_0[i]));
                values.push(import(item));
            }
            let value = Value::List(values);
            assert(value.tree()->List_0 =~= trees);
            value
        },
        Node::Compound(fields) => {
            let ghost all = fields@;
            let ghost map = raw_tree(raw)->Compound_0;
            let mut compound = Compound::new();
            for field in iter: fields
                invariant
                    iter.seq() == all,
                    raw_tree(raw) == Tree::Compound(map),
                    lists(all, map),
                    forall|k: Seq<char>| #[trigger]
                        compound.map().contains_key(k) ==> map.contains_key(k)
                            && compound.map()[k] == map[k],
                    forall|j: int|
                        0 <= j < iter.index() ==> compound.map().contains_key(
                            (#[trigger] all[j]).0@,
                        ),
            {
                let ghost i = iter.index();
                let (name, part) = field;
                assert(map.contains_key(all[i].0@));
                assert(decreases_to!(raw_tree(raw) => raw_tree(raw)->Compound_0[all[i].0@]));
                let value = import(part);
                compound.insert(name, value);
            }
            assert(compound.map() =~= map) by {
                assert forall|k: Seq<char>| #[trigger] map.contains_key(k) implies compound.map().contains_key(
                    k,
                ) by {
                    let i = choose|i: int| 0 <= i < all.len() && (#[trigger] all[i]).0@ == k;
                    assert(compound.map().contains_key(all[i].0@));
                }
            }
            Value::Compound(compound)
        },
    }
}

/// Reads encoded NBT.
pub fn read(bytes: &[u8]) -> (value: Result<Value, fastnbt::error::Error>)
    ensures
        match value {
            Ok(v) => decoded(bytes@) == Some(v.tree()),
            Err(_) => decoded(bytes@) is None,
        },
{
    match from_bytes(bytes) {
        Ok(raw) => Ok(import(raw)),
        Err(e) => Err(e),
    }
}

} // verus!
