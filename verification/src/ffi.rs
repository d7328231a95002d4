//! The standard FFI module and the pointer operations of it that are unsafe.
use vstd::prelude::*;

use crate::const_eval::{symbol_string, symbol_text};
use crate::name_set::NameSet;
use crate::text::{ends_with, text_ends_with, text_eq};
use crate::ty::{TyId, TyKind, TyNode, TyStore};

verus! {

/// The key names the standard FFI module: `@std/ffi`, or a file ending in
/// `ffi.ms`.
pub open spec fn is_ffi_module_key(key: Seq<char>) -> bool {
    key == "@std/ffi"@ || ends_with(key, "ffi.ms"@)
}

/// The pointer operations that are unsafe to call: `offset`, `read` and
/// `write`.
pub open spec fn is_unsafe_pointer_op_name(name: Seq<char>) -> bool {
    name == "offset"@ || name == "read"@ || name == "write"@
}

/// Whether `module_key` names the standard FFI module.
pub fn is_std_ffi_module(module_key: &str) -> (r: bool)
    ensures
        r == is_ffi_module_key(module_key@),
{
    text_eq(module_key, "@std/ffi") || text_ends_with(module_key, "ffi.ms")
}

/// Whether `name` is one of the unsafe pointer operations.
pub fn is_unsafe_pointer_op(name: &str) -> (r: bool)
    ensures
        r == is_unsafe_pointer_op_name(name@),
{
    text_eq(name, "offset") || text_eq(name, "read") || text_eq(name, "write")
}

/// Whether the public binding `name` of the module `module_key` is a pointer
/// operation of the standard FFI module that must be called in `unsafe`.
pub fn is_std_ffi_unsafe_public_pointer_op(module_key: &str, name: &str) -> (r: bool)
    ensures
        r == (is_ffi_module_key(module_key@) && is_unsafe_pointer_op_name(name@)),
{
    is_std_ffi_module(module_key) && is_unsafe_pointer_op(name)
}

/// The types a foreign function may take and give under a foreign ABI:
/// integers, naturals, floats, `Bool`, `Unit`, C strings and pointers, the
/// unknown and error types, and data types the module defines.
pub open spec fn ffi_type_ok(tys: Seq<TyNode>, names: Seq<Seq<char>>, data: Set<Seq<char>>, ty: TyId) -> bool {
    match tys[ty.0 as int] {
        TyNode::Int | TyNode::Int8 | TyNode::Int16 | TyNode::Int32 | TyNode::Int64 | TyNode::Nat | TyNode::Nat8
        | TyNode::Nat16 | TyNode::Nat32 | TyNode::Nat64 | TyNode::Float | TyNode::Float32 | TyNode::Float64
        | TyNode::Bool | TyNode::Unit | TyNode::CString | TyNode::CPtr | TyNode::Unknown | TyNode::Error => true,
        TyNode::Named { name, .. } => data.contains(symbol_text(names, name)),
        _ => false,
    }
}

/// Whether `ty` may cross the foreign boundary of ABI `abi`, where `data`
/// holds the names of the data types the module defines: under the `musi`
/// ABI every type may.
pub fn validate_ffi_type(store: &TyStore, names: &Vec<String>, data: &NameSet, abi: &str, ty: TyId) -> (ok: bool)
    requires
        ty.0 < store.kinds().len(),
    ensures
        ok == (abi@ == "musi"@ || ffi_type_ok(store.kinds(), names@.map_values(|t: String| t@), data@, ty)),
{
    if text_eq(abi, "musi") {
        return true;
    }
    match store.kind(ty) {
        TyKind::Int | TyKind::Int8 | TyKind::Int16 | TyKind::Int32 | TyKind::Int64 | TyKind::Nat | TyKind::Nat8
        | TyKind::Nat16 | TyKind::Nat32 | TyKind::Nat64 | TyKind::Float | TyKind::Float32 | TyKind::Float64
        | TyKind::Bool | TyKind::Unit | TyKind::CString | TyKind::CPtr | TyKind::Unknown | TyKind::Error => true,
        TyKind::Named { name, .. } => {
            let text = symbol_string(names, *name);
            data.contains(text.as_str())
        },
        _ => false,
    }
}

} // verus!
