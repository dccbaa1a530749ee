//! Foreign objects: values of the host program carried through scripts.
use vstd::prelude::*;
use std::any::{Any, TypeId};
use std::rc::Rc;
use crate::slab::Handle;

verus! {

/// Weak reference target kind.
#[derive(Debug, Clone, Copy, PartialEq, Eq, Structural)]
pub enum WeakKind {
    Struct,
    Array,
    MapValue,
}

/// A weak reference to a heap-allocated value: what kind of value, the handle
/// that named it, and the name of its type.
#[derive(Debug, Clone)]
pub struct WeakData {
    pub kind: WeakKind,
    pub target: Handle,
    pub type_label: String,
}

/// A hashable key of a map value.
#[derive(Debug, Clone, PartialEq, Eq, Hash)]
pub enum MapKey {
    Int(i64),
    Str(Rc<str>),
    Bool(bool),
}

#[verifier::external_type_specification]
#[verifier::external_body]
pub struct ExTypeId(TypeId);

/// A type-erased value together with the function that clones it. What the
/// box holds is opaque to the proofs, so it is kept behind this struct.
#[verifier::external_body]
pub struct ErasedValue {
    data: Box<dyn Any>,
    clone_fn: Rc<dyn Fn(&dyn Any) -> Box<dyn Any>>,
}

/// `TypeId::of::<T>()`: the identifier of `T`.
#[verifier::external_body]
fn type_id_of<T: 'static>() -> TypeId {
    TypeId::of::<T>()
}

/// Box `data` as `dyn Any` with a function that clones a boxed `T`.
#[verifier::external_body]
fn erase<T: 'static + Clone>(data: T) -> ErasedValue {
    ErasedValue {
        data: Box::new(data),
        clone_fn: Rc::new(|any: &dyn Any| -> Box<dyn Any> {
            Box::new(any.downcast_ref::<T>().expect("ForeignObject clone: type mismatch").clone())
        }),
    }
}

/// `<dyn Any>::downcast_ref`: the value as a `T` when it is one.
#[verifier::external_body]
fn erased_ref<T: 'static>(v: &ErasedValue) -> Option<&T> {
    v.data.downcast_ref::<T>()
}

/// `<dyn Any>::downcast_mut`: the value as a mutable `T` when it is one.
#[verifier::external_body]
fn erased_mut<T: 'static>(v: &mut ErasedValue) -> Option<&mut T> {
    v.data.downcast_mut::<T>()
}

/// A clone of the boxed value made by its clone function.
#[verifier::external_body]
fn erased_clone(v: &ErasedValue) -> ErasedValue {
    ErasedValue { data: (v.clone_fn)(&*v.data), clone_fn: v.clone_fn.clone() }
}

/// Wrapper around a foreign (Rust) value: the value, its type's identifier for
/// safe downcasting, and a human-readable label of its type.
pub struct ForeignObject {
    pub type_id: TypeId,
    pub type_label: &'static str,
    pub data: ErasedValue,
}

impl ForeignObject {
    /// Wrap `data`; `type_label` is a human-readable label used for diagnostics.
    pub fn new<T: 'static + Clone>(type_label: &'static str, data: T) -> (fo: ForeignObject)
        ensures
            fo.type_label == type_label,
    {
        ForeignObject { type_id: type_id_of::<T>(), type_label, data: erase(data) }
    }

    /// The wrapped value as a `T`; `None` when it is of another type.
    pub fn downcast<T: 'static>(&self) -> Option<&T> {
        erased_ref::<T>(&self.data)
    }

    /// The wrapped value as a mutable `T`; `None` when it is of another type.
    pub fn downcast_mut<T: 'static>(&mut self) -> Option<&mut T> {
        erased_mut::<T>(&mut self.data)
    }
}

impl Clone for ForeignObject {
    fn clone(&self) -> (c: ForeignObject)
        ensures
            c.type_label == self.type_label,
    {
        ForeignObject { type_id: self.type_id, type_label: self.type_label, data: erased_clone(&self.data) }
    }
}

} // verus!
