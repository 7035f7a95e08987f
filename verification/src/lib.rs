//! Verified core of a small Java virtual machine.

use vstd::prelude::*;

pub mod annotations;
pub mod arith;
pub mod array_natives;
pub mod bytecode;
pub mod class_file;
pub mod class_identity;
pub mod class_init;
pub mod class_natives;
pub mod class_spec;
pub mod collections;
pub mod descriptors;
pub mod dispatch;
pub mod exceptions;
pub mod frame;
pub mod heap;
pub mod hierarchy;
pub mod indy;
pub mod invoke;
pub mod jar;
pub mod java_strings;
pub mod launcher;
pub mod lazy_classes;
pub mod machine;
pub mod loading;
pub mod method_exec;
pub mod monitors;
pub mod process;
pub mod regex_cache;
pub mod resolution;
pub mod static_fields;
pub mod string_concat;
pub mod string_natives;
pub mod text;
pub mod threads;

verus! {

} // verus!
