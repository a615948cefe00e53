//! The objects that live on the garbage-collected heap.
use hashbrown::HashMap;
use vstd::prelude::*;
use vstd::string::StringSliceAdditionalSpecFns;

use crate::byte_code::ByteCode;
use crate::gc::GcRef;
use crate::value::{spec_object_of, Value};

verus! {

// ---------------------------------------------------------------------------
// The field table of an instance, kept in a hashbrown map
// ---------------------------------------------------------------------------

/// The fields of an instance, by name, in a `hashbrown::HashMap`.
#[verifier::external_body]
pub struct FieldTable {
    map: HashMap<GcRef, Value>,
}

/// The fields held by a table.
pub uninterp spec fn field_entries(t: FieldTable) -> Map<GcRef, Value>;

/// `r` is the number of entries of `t`, which holds finitely many.
pub open spec fn counts_entries(t: FieldTable, r: usize) -> bool {
    &&& field_entries(t).dom().finite()
    &&& r == field_entries(t).len()
}

impl FieldTable {
    /// Calls `hashbrown::HashMap::new`, which makes an empty map.
    #[verifier::external_body]
    pub(crate) fn new() -> (table: FieldTable)
        ensures
            field_entries(table) =~= Map::empty(),
    {
        FieldTable { map: HashMap::new() }
    }

    /// Calls `hashbrown::HashMap::len`, the number of entries, of which a map holds finitely
    /// many.
    #[verifier::external_body]
    pub(crate) fn len(&self) -> (r: usize)
        ensures
            counts_entries(*self, r),
    {
        self.map.len()
    }

    /// Calls `hashbrown::HashMap::get`, the value stored under `name`.
    #[verifier::external_body]
    pub(crate) fn get(&self, name: GcRef) -> (r: Option<Value>)
        ensures
            r == (if field_entries(*self).contains_key(name) {
                Some(field_entries(*self)[name])
            } else {
                None
            }),
    {
        self.map.get(&name).copied()
    }

    /// Calls `hashbrown::HashMap::insert`, which stores `value` under `name`, replacing any
    /// earlier value.
    #[verifier::external_body]
    pub(crate) fn insert(&mut self, name: GcRef, value: Value)
        ensures
            field_entries(*final(self)) == field_entries(*old(self)).insert(name, value),
    {
        self.map.insert(name, value);
    }

    /// Calls `hashbrown::HashMap::iter`, each entry once, in an order the map chooses.
    #[verifier::external_body]
    pub(crate) fn entries(&self) -> (r: Vec<(GcRef, Value)>)
        ensures
            forall|k: GcRef, v: Value| #[trigger]
                r@.contains((k, v)) <==> (field_entries(*self).contains_key(k)
                    && field_entries(*self)[k] == v),
            r@.len() == field_entries(*self).len(),
    {
        self.map.iter().map(|(k, v)| (*k, *v)).collect()
    }
}

// ---------------------------------------------------------------------------
// Objects
// ---------------------------------------------------------------------------

/// A heap object: its mark bit and its contents.
pub struct Obj {
    pub is_marked: bool,
    pub kind: ObjKind,
}

/// The kinds of heap objects.
pub enum ObjKind {
    String(ObjString),
    Closure(ObjClosure),
    Function(ObjFunction),
    Upvalue(ObjUpvalue),
    Class(ObjClass),
    Instance(ObjInstance),
    BoundMethod(ObjBoundMethod),
}

/// A string and its precomputed hash.
pub struct ObjString {
    pub value: String,
    pub hash: u64,
}

/// A function together with the variables it captured.
pub struct ObjClosure {
    pub function: GcRef,
    pub upvalues: Vec<GcRef>,
}

/// A compiled function: its name (a string object), arity, code and number of captures.
pub struct ObjFunction {
    pub name: GcRef,
    pub arity: usize,
    pub code: ByteCode,
    pub upvalue_count: usize,
}

/// A captured variable.
pub struct ObjUpvalue {
    pub location: UpvalueLocation,
}

/// A class, by name (a string object), with its methods: closures by name.
pub struct ObjClass {
    pub name: GcRef,
    pub methods: FieldTable,
}

/// A method together with the instance it was read from, its receiver.
pub struct ObjBoundMethod {
    pub receiver: Value,
    pub method: GcRef,
}

/// An instance of a class with its fields.
pub struct ObjInstance {
    pub klass: GcRef,
    pub fields: FieldTable,
}

/// Where a captured variable lives: still in a stack slot, or closed over with its value.
pub enum UpvalueLocation {
    Open(usize),
    Closed(Value),
}

/// `first`, each key of `m`, and each object a value of `m` holds.
pub open spec fn table_refs(first: GcRef, m: Map<GcRef, Value>) -> Set<GcRef> {
    Set::new(
        |r: GcRef|
            r == first || m.contains_key(r) || exists|k: GcRef|
                m.contains_key(k) && spec_object_of(#[trigger] m[k]) == Some(r),
    )
}

/// The objects an object refers to.
pub open spec fn spec_refs(kind: ObjKind) -> Set<GcRef> {
    match kind {
        ObjKind::String(_) => Set::empty(),
        ObjKind::Closure(c) => c.upvalues@.to_set().insert(c.function),
        ObjKind::Function(f) => set![f.name],
        ObjKind::Upvalue(u) => match u.location {
            UpvalueLocation::Closed(Value::Object(r)) => set![r],
            _ => Set::empty(),
        },
        ObjKind::Class(c) => table_refs(c.name, field_entries(c.methods)),
        ObjKind::Instance(i) => table_refs(i.klass, field_entries(i.fields)),
        ObjKind::BoundMethod(b) => match b.receiver {
            Value::Object(r) => set![b.method, r],
            _ => set![b.method],
        },
    }
}

/// The bytes an object accounts for beyond its fixed part.
pub open spec fn spec_extra_size(kind: ObjKind) -> int {
    match kind {
        ObjKind::String(s) => vstd::utf8::encode_utf8(s.value@).len() as int,
        ObjKind::Closure(c) => (c.upvalues@.len() * vstd::layout::size_of::<GcRef>()) as int,
        ObjKind::Function(f) => f.code.code@.len() as int,
        ObjKind::Upvalue(_) => 0,
        ObjKind::Class(c) => (field_entries(c.methods).len() * (vstd::layout::size_of::<GcRef>()
            + vstd::layout::size_of::<Value>())) as int,
        ObjKind::Instance(i) => (field_entries(i.fields).len() * (vstd::layout::size_of::<GcRef>()
            + vstd::layout::size_of::<Value>())) as int,
        ObjKind::BoundMethod(_) => 0,
    }
}

/// The bytes an object accounts for.
pub open spec fn spec_size(o: Obj) -> int {
    vstd::layout::size_of::<Obj>() + spec_extra_size(o.kind)
}

impl Obj {
    /// The bytes this object accounts for: the fixed part plus what it holds.
    pub fn size(&self) -> (r: usize)
        requires
            spec_size(*self) <= usize::MAX,
        ensures
            r == spec_size(*self),
    {
        let base = core::mem::size_of::<Obj>();
        let extra: usize = match &self.kind {
            ObjKind::String(s) => s.value.as_str().len(),
            ObjKind::Closure(c) => {
                let n = c.upvalues.len();
                let w = core::mem::size_of::<GcRef>();
                proof {
                    assert(n * w <= usize::MAX) by (nonlinear_arith)
                        requires
                            n * w <= spec_extra_size(self.kind),
                            spec_extra_size(self.kind) <= usize::MAX,
                    ;
                }
                n * w
            },
            ObjKind::Function(f) => f.code.size(),
            ObjKind::Upvalue(_) => 0,
            ObjKind::Class(c) => {
                let n = c.methods.len();
                let a = core::mem::size_of::<GcRef>();
                let b = core::mem::size_of::<Value>();
                proof {
                    assert(n * a + n * b == n * (a + b)) by (nonlinear_arith);
                    assert(n * a >= 0 && n * b >= 0) by (nonlinear_arith);
                }
                n * a + n * b
            },
            ObjKind::Instance(i) => {
                let n = i.fields.len();
                let a = core::mem::size_of::<GcRef>();
                let b = core::mem::size_of::<Value>();
                proof {
                    assert(n * a + n * b == n * (a + b)) by (nonlinear_arith);
                    assert(n * a >= 0 && n * b >= 0) by (nonlinear_arith);
                }
                n * a + n * b
            },
            ObjKind::BoundMethod(_) => 0,
        };
        base + extra
    }

    /// A new unmarked string object.
    pub fn string(value: String, hash: u64) -> (r: Self)
        ensures
            !r.is_marked,
            r.kind matches ObjKind::String(s) && s.value == value && s.hash == hash,
    {
        Obj { is_marked: false, kind: ObjKind::String(ObjString { value, hash }) }
    }

    /// A new unmarked closure object.
    pub fn closure(function: GcRef, upvalues: Vec<GcRef>) -> (r: Self)
        ensures
            !r.is_marked,
            r.kind matches ObjKind::Closure(c) && c.function == function && c.upvalues
                == upvalues,
    {
        Obj { is_marked: false, kind: ObjKind::Closure(ObjClosure { function, upvalues }) }
    }

    /// A new unmarked function object.
    pub fn function(name: GcRef, arity: usize, code: ByteCode, upvalue_count: usize) -> (r: Self)
        ensures
            !r.is_marked,
            r.kind matches ObjKind::Function(f) && f.name == name && f.arity == arity && f.code
                == code && f.upvalue_count == upvalue_count,
    {
        Obj {
            is_marked: false,
            kind: ObjKind::Function(ObjFunction { name, arity, code, upvalue_count }),
        }
    }

    /// A new unmarked upvalue object.
    pub fn upvalue(location: UpvalueLocation) -> (r: Self)
        ensures
            !r.is_marked,
            r.kind matches ObjKind::Upvalue(u) && u.location == location,
    {
        Obj { is_marked: false, kind: ObjKind::Upvalue(ObjUpvalue { location }) }
    }

    /// A new unmarked class object.
    pub fn class(name: GcRef) -> (r: Self)
        ensures
            !r.is_marked,
            r.kind matches ObjKind::Class(c) && c.name == name && field_entries(c.methods)
                == Map::<GcRef, Value>::empty(),
    {
        Obj { is_marked: false, kind: ObjKind::Class(ObjClass { name, methods: FieldTable::new() }) }
    }

    /// A new unmarked method of `receiver`.
    pub fn bound_method(receiver: Value, method: GcRef) -> (r: Self)
        ensures
            !r.is_marked,
            r.kind == ObjKind::BoundMethod(ObjBoundMethod { receiver, method }),
    {
        Obj { is_marked: false, kind: ObjKind::BoundMethod(ObjBoundMethod { receiver, method }) }
    }

    /// A new unmarked instance of `klass` with no fields.
    pub fn instance(klass: GcRef) -> (r: Self)
        ensures
            !r.is_marked,
            r.kind matches ObjKind::Instance(i) && i.klass == klass && field_entries(i.fields)
                == Map::<GcRef, Value>::empty(),
    {
        Obj { is_marked: false, kind: ObjKind::Instance(ObjInstance { klass, fields: FieldTable::new() }) }
    }
}

impl ObjClass {
    /// The method `name`, if the class has one.
    pub fn method(&self, name: GcRef) -> (r: Option<Value>)
        ensures
            r == (if field_entries(self.methods).contains_key(name) {
                Some(field_entries(self.methods)[name])
            } else {
                None
            }),
    {
        self.methods.get(name)
    }

    /// Stores `value` as the method `name`.
    pub fn set_method(&mut self, name: GcRef, value: Value)
        ensures
            field_entries(final(self).methods) == field_entries(old(self).methods).insert(name, value),
            final(self).name == old(self).name,
    {
        self.methods.insert(name, value);
    }

    /// The number of methods.
    pub fn method_count(&self) -> (r: usize)
        ensures
            r == field_entries(self.methods).len(),
            field_entries(self.methods).dom().finite(),
    {
        self.methods.len()
    }
}

impl ObjInstance {
    /// The value of the field `name`, if the instance has one.
    pub fn field(&self, name: GcRef) -> (r: Option<Value>)
        ensures
            r == (if field_entries(self.fields).contains_key(name) {
                Some(field_entries(self.fields)[name])
            } else {
                None
            }),
    {
        self.fields.get(name)
    }

    /// Sets the field `name` to `value`.
    pub fn set_field(&mut self, name: GcRef, value: Value)
        ensures
            field_entries(final(self).fields) == field_entries(old(self).fields).insert(name, value),
            final(self).klass == old(self).klass,
    {
        self.fields.insert(name, value);
    }

    /// The number of fields.
    pub fn field_count(&self) -> (r: usize)
        ensures
            r == field_entries(self.fields).len(),
            field_entries(self.fields).dom().finite(),
    {
        self.fields.len()
    }
}

/// The objects that `first` and the table refer to: `first`, then each key and each value that
/// is an object.
pub fn table_references(first: GcRef, table: &FieldTable) -> (r: Vec<GcRef>)
    ensures
        r@.to_set() == table_refs(first, field_entries(*table)),
        r@.len() > 0,
        r@[0] == first,
{
    let ghost m = field_entries(*table);
    let entries = table.entries();
    let mut refs: Vec<GcRef> = Vec::new();
    refs.push(first);
    assert forall|x: GcRef| #[trigger] refs@.contains(x) <==> x == first by {
        if x == first {
            assert(refs@[0] == x);
        }
    }
    let mut i: usize = 0;
    while i < entries.len()
        invariant
            0 <= i <= entries@.len(),
            refs@.len() > 0,
            refs@[0] == first,
            forall|k: GcRef, v: Value| #[trigger]
                entries@.contains((k, v)) <==> (m.contains_key(k) && m[k] == v),
            forall|x: GcRef| #[trigger]
                refs@.contains(x) <==> (x == first || exists|j: int|
                    0 <= j < i && (entries@[j].0 == x || spec_object_of(entries@[j].1)
                        == Some(x))),
        decreases entries@.len() - i,
    {
        let (name, value) = entries[i];
        let ghost before = refs@;
        refs.push(name);
        match value {
            Value::Object(r) => refs.push(r),
            _ => {},
        }
        i = i + 1;
        assert forall|x: GcRef| #[trigger]
            refs@.contains(x) <==> (x == first || exists|j: int|
                0 <= j < i && (entries@[j].0 == x || spec_object_of(entries@[j].1)
                    == Some(x))) by {
            if refs@.contains(x) {
                let q = choose|q: int| 0 <= q < refs@.len() && refs@[q] == x;
                if q < before.len() {
                    assert(before.contains(x));
                } else if q == before.len() {
                    assert(entries@[i - 1].0 == x);
                } else {
                    assert(spec_object_of(entries@[i - 1].1) == Some(x));
                }
            }
            if exists|j: int|
                0 <= j < i && (entries@[j].0 == x || spec_object_of(entries@[j].1)
                    == Some(x)) {
                let j = choose|j: int|
                    0 <= j < i && (entries@[j].0 == x || spec_object_of(entries@[j].1)
                        == Some(x));
                if j < i - 1 {
                    assert(before.contains(x));
                    let q = choose|q: int| 0 <= q < before.len() && before[q] == x;
                    assert(refs@[q] == x);
                } else if entries@[j].0 == x {
                    assert(refs@[before.len() as int] == x);
                } else {
                    assert(refs@[before.len() as int + 1] == x);
                }
            }
            if x == first {
                assert(refs@[0] == x);
            }
        }
    }
    proof {
        assert forall|x: GcRef| refs@.to_set().contains(x) <==> table_refs(first, m).contains(x) by {
            if m.contains_key(x) {
                assert(entries@.contains((x, m[x])));
                let j = choose|j: int| 0 <= j < entries@.len() && entries@[j] == (x, m[x]);
                assert(entries@[j].0 == x);
            }
            if exists|k: GcRef| m.contains_key(k) && spec_object_of(#[trigger] m[k]) == Some(x) {
                let k = choose|k: GcRef| m.contains_key(k) && spec_object_of(#[trigger] m[k]) == Some(x);
                assert(entries@.contains((k, m[k])));
                let j = choose|j: int| 0 <= j < entries@.len() && entries@[j] == (k, m[k]);
                assert(spec_object_of(entries@[j].1) == Some(x));
            }
            if exists|j: int| 0 <= j < entries@.len() && (entries@[j].0 == x || spec_object_of(entries@[j].1) == Some(x)) {
                let j = choose|j: int| 0 <= j < entries@.len() && (entries@[j].0 == x || spec_object_of(entries@[j].1) == Some(x));
                let (k, v) = entries@[j];
                assert(entries@.contains((k, v)));
                assert(m.contains_key(k) && m[k] == v);
            }
        }
        assert(refs@.to_set() =~= table_refs(first, m));
    }
    refs
}

impl ObjKind {
    /// The objects this object refers to: for a closure its function then its captures, for
    /// an instance its class first, then each field's name and any object the field holds.
    pub fn get_references(&self) -> (r: Vec<GcRef>)
        ensures
            r@.to_set() == spec_refs(*self),
            match *self {
                ObjKind::String(_) => r@ == Seq::<GcRef>::empty(),
                ObjKind::Closure(c) => r@ == seq![c.function] + c.upvalues@,
                ObjKind::Function(f) => r@ == seq![f.name],
                ObjKind::Class(c) => r@.len() > 0 && r@[0] == c.name,
                ObjKind::BoundMethod(b) => r@.len() > 0 && r@[0] == b.method,
                ObjKind::Instance(i) => r@.len() > 0 && r@[0] == i.klass,
                ObjKind::Upvalue(_) => true,
            },
    {
        match self {
            ObjKind::String(_) => {
                let r: Vec<GcRef> = Vec::new();
                assert(r@.to_set() =~= Set::<GcRef>::empty());
                r
            },
            ObjKind::Closure(c) => {
                let mut refs: Vec<GcRef> = Vec::new();
                refs.push(c.function);
                let mut i: usize = 0;
                while i < c.upvalues.len()
                    invariant
                        0 <= i <= c.upvalues@.len(),
                        refs@ == seq![c.function] + c.upvalues@.take(i as int),
                    decreases c.upvalues@.len() - i,
                {
                    refs.push(c.upvalues[i]);
                    i = i + 1;
                    assert(refs@ =~= seq![c.function] + c.upvalues@.take(i as int));
                }
                assert(c.upvalues@.take(c.upvalues@.len() as int) == c.upvalues@);
                proof {
                    let s = refs@;
                    assert forall|x: GcRef| s.to_set().contains(x) <==> spec_refs(*self).contains(x) by {
                        if s.contains(x) {
                            let j = choose|j: int| 0 <= j < s.len() && s[j] == x;
                            if j > 0 {
                                assert(c.upvalues@[j - 1] == x);
                            }
                        }
                        if c.upvalues@.contains(x) {
                            let j = choose|j: int| 0 <= j < c.upvalues@.len() && c.upvalues@[j] == x;
                            assert(s[j + 1] == x);
                        }
                        if x == c.function {
                            assert(s[0] == x);
                        }
                    }
                    assert(s.to_set() =~= spec_refs(*self));
                }
                refs
            },
            ObjKind::Function(f) => {
                let mut refs: Vec<GcRef> = Vec::new();
                refs.push(f.name);
                proof {
                    assert(refs@.to_set() =~= set![f.name]) by {
                        assert(refs@[0] == f.name);
                    }
                }
                refs
            },
            ObjKind::Upvalue(u) => {
                let mut refs: Vec<GcRef> = Vec::new();
                match &u.location {
                    UpvalueLocation::Closed(Value::Object(r)) => {
                        refs.push(*r);
                        proof {
                            assert(refs@.to_set() =~= set![*r]) by {
                                assert(refs@[0] == *r);
                            }
                        }
                    },
                    _ => {
                        assert(refs@.to_set() =~= Set::<GcRef>::empty());
                    },
                }
                refs
            },
            ObjKind::Class(c) => table_references(c.name, &c.methods),
            ObjKind::Instance(inst) => table_references(inst.klass, &inst.fields),
            ObjKind::BoundMethod(b) => {
                let mut refs: Vec<GcRef> = Vec::new();
                refs.push(b.method);
                match b.receiver {
                    Value::Object(r) => {
                        refs.push(r);
                        proof {
                            assert(refs@.to_set() =~= set![b.method, r]) by {
                                assert(refs@[0] == b.method);
                                assert(refs@[1] == r);
                            }
                        }
                    },
                    _ => {
                        proof {
                            assert(refs@.to_set() =~= set![b.method]) by {
                                assert(refs@[0] == b.method);
                            }
                        }
                    },
                }
                refs
            },
        }
    }
}

} // verus!
