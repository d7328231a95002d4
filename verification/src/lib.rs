use vstd::prelude::*;

pub mod text;
pub mod target;
pub mod name_set;
pub mod text_map;
pub mod surface;
pub mod ty;
pub mod matching;
pub mod subst_map;
pub mod expr;
pub mod const_eval;
pub mod subject;
pub mod diag;
pub mod data_tags;
pub mod simple;
pub mod ty_tree;
pub mod substitute;
pub mod unify;
pub mod pins;
pub mod ty_props;
pub mod attrs;
pub mod ffi;
pub mod binary_types;
pub mod literals;
pub mod facts;
pub mod render;
pub mod assign;
pub mod lets;
pub mod surface_lower;
pub mod layout;
pub mod call_args;
pub mod array_lit;
pub mod prefix;
pub mod dot_callable;
pub mod data_collect;
pub mod records;
pub mod members;
pub mod pats;
pub mod pat_bind;
pub mod surface_import;
pub mod data_surface;
pub mod shape_call;
pub mod data_export;
pub mod shape_surface;
pub mod shape_export;
pub mod effect_surface;
pub mod import_records;
pub mod checking;
pub mod value_export;
