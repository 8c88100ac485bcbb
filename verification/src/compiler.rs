//! Where the items that programs refer to stand in the pool.

use crate::pool::{Function, PoolClass, PoolField, PoolIndex};
use crate::types::{FieldId, GlobalId, MethodId, TypeId};
use std::collections::HashMap;
use vstd::prelude::*;

verus! {

/// The pool entries of all the items that programs can refer to.
#[derive(Debug)]
pub struct CompilationDb {
    pub classes: HashMap<u64, PoolIndex<PoolClass>>,
    pub fields: HashMap<u64, PoolIndex<PoolField>>,
    pub methods: HashMap<u64, PoolIndex<Function>>,
    pub statics: HashMap<u64, PoolIndex<Function>>,
    pub globals: HashMap<u64, PoolIndex<Function>>,
}

/// What `map` holds under `key`.
pub open spec fn lookup<V>(map: Map<u64, V>, key: u64) -> Option<V> {
    if map.contains_key(key) {
        Some(map[key])
    } else {
        None
    }
}

/// What `map` holds under `key`.
fn find<A>(map: &HashMap<u64, PoolIndex<A>>, key: u64) -> (r: Option<PoolIndex<A>>)
    ensures
        r == lookup(map@, key),
{
    broadcast use vstd::std_specs::hash::group_hash_axioms;

    match map.get(&key) {
        Some(index) => Some(*index),
        None => None,
    }
}

impl CompilationDb {
    /// The class that stands for a type.
    pub open spec fn class_entry(self, id: TypeId) -> Option<PoolIndex<PoolClass>> {
        lookup(self.classes@, id.id)
    }

    /// The entry of a field.
    pub open spec fn field_entry(self, id: FieldId) -> Option<PoolIndex<PoolField>> {
        lookup(self.fields@, id.id)
    }

    /// The entry of a method that is called on an object.
    pub open spec fn method_entry(self, id: MethodId) -> Option<PoolIndex<Function>> {
        lookup(self.methods@, id.id)
    }

    /// The entry of a static method.
    pub open spec fn static_entry(self, id: MethodId) -> Option<PoolIndex<Function>> {
        lookup(self.statics@, id.id)
    }

    /// The entry of a function that belongs to no class.
    pub open spec fn global_entry(self, id: GlobalId) -> Option<PoolIndex<Function>> {
        lookup(self.globals@, id.id)
    }

    pub fn class(&self, id: TypeId) -> (r: Option<PoolIndex<PoolClass>>)
        ensures
            r == self.class_entry(id),
    {
        find(&self.classes, id.id)
    }

    pub fn field(&self, id: FieldId) -> (r: Option<PoolIndex<PoolField>>)
        ensures
            r == self.field_entry(id),
    {
        find(&self.fields, id.id)
    }

    pub fn method(&self, id: MethodId) -> (r: Option<PoolIndex<Function>>)
        ensures
            r == self.method_entry(id),
    {
        find(&self.methods, id.id)
    }

    pub fn static_method(&self, id: MethodId) -> (r: Option<PoolIndex<Function>>)
        ensures
            r == self.static_entry(id),
    {
        find(&self.statics, id.id)
    }

    pub fn global(&self, id: GlobalId) -> (r: Option<PoolIndex<Function>>)
        ensures
            r == self.global_entry(id),
    {
        find(&self.globals, id.id)
    }
}

/// Each kind of item is looked up among the items of its kind, by its number.
pub proof fn law_entries(
    db: CompilationDb,
    typ: TypeId,
    field: FieldId,
    method: MethodId,
    global: GlobalId,
)
    ensures
        db.class_entry(typ) == if db.classes@.contains_key(typ.id) {
            Some(db.classes@[typ.id])
        } else {
            None
        },
        db.field_entry(field) == if db.fields@.contains_key(field.id) {
            Some(db.fields@[field.id])
        } else {
            None
        },
        db.method_entry(method) == if db.methods@.contains_key(method.id) {
            Some(db.methods@[method.id])
        } else {
            None
        },
        db.static_entry(method) == if db.statics@.contains_key(method.id) {
            Some(db.statics@[method.id])
        } else {
            None
        },
        db.global_entry(global) == if db.globals@.contains_key(global.id) {
            Some(db.globals@[global.id])
        } else {
            None
        },
{
}

} // verus!
