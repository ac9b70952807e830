//! The type written after `: ` in an argument declaration selects the value
//! parser and the action of the argument.

use vstd::prelude::*;
use crate::cli::{Action, ArgSpec, ArgView, ValueKind};
use crate::text::{chars_eq, chars_of};

verus! {

/// The type name inside an optional pair of square brackets, and whether the
/// brackets were there (a list).
pub open spec fn type_inner(ty: Seq<char>) -> (Seq<char>, bool) {
    if ty.len() > 0 && ty[0] == '[' && ty.last() == ']' {
        (if ty.len() >= 2 { ty.subrange(1, ty.len() - 1) } else { Seq::empty() }, true)
    } else {
        (ty, false)
    }
}

/// The value parser that a type name selects.
pub open spec fn value_kind_named(t: Seq<char>) -> Option<ValueKind> {
    if t == ""@ || t == "bool"@ || t == "!bool"@ {
        Some(ValueKind::Bool)
    } else if t == "String"@ {
        Some(ValueKind::String)
    } else if t == "OsString"@ {
        Some(ValueKind::OsString)
    } else if t == "PathBuf"@ {
        Some(ValueKind::PathBuf)
    } else if t == "u8"@ {
        Some(ValueKind::U8)
    } else if t == "u16"@ {
        Some(ValueKind::U16)
    } else if t == "u32"@ {
        Some(ValueKind::U32)
    } else if t == "u64"@ {
        Some(ValueKind::U64)
    } else if t == "i8"@ {
        Some(ValueKind::I8)
    } else if t == "i16"@ {
        Some(ValueKind::I16)
    } else if t == "i32"@ {
        Some(ValueKind::I32)
    } else if t == "i64"@ {
        Some(ValueKind::I64)
    } else if t == "usize"@ {
        Some(ValueKind::Usize)
    } else if t == "isize"@ || t == "Number"@ {
        Some(ValueKind::Isize)
    } else if t == "f32"@ {
        Some(ValueKind::F32)
    } else if t == "f64"@ {
        Some(ValueKind::F64)
    } else {
        None
    }
}

/// The action that a type name selects: a flag for `""` and `"bool"`, an
/// appending argument for a list, a single value otherwise.
pub open spec fn type_action(t: Seq<char>, is_list: bool) -> Action {
    if t == ""@ || t == "bool"@ {
        Action::SetTrue
    } else if t == "bool"@ {
        Action::SetFalse
    } else if is_list {
        Action::Append
    } else {
        Action::SetValue
    }
}

/// `arg` after its type was declared as `ty`.
pub open spec fn typed_arg(arg: ArgView, ty: Seq<char>) -> ArgView {
    let (t, is_list) = type_inner(ty);
    ArgView {
        value_parser: match value_kind_named(t) {
            Some(k) => Some(k),
            None => arg.value_parser,
        },
        action: Some(type_action(t, is_list)),
        ..arg
    }
}

fn value_kind(t: &Vec<char>) -> (k: Option<ValueKind>)
    ensures
        k == value_kind_named(t@),
{
    if chars_eq(t, "") || chars_eq(t, "bool") || chars_eq(t, "!bool") {
        Some(ValueKind::Bool)
    } else if chars_eq(t, "String") {
        Some(ValueKind::String)
    } else if chars_eq(t, "OsString") {
        Some(ValueKind::OsString)
    } else if chars_eq(t, "PathBuf") {
        Some(ValueKind::PathBuf)
    } else if chars_eq(t, "u8") {
        Some(ValueKind::U8)
    } else if chars_eq(t, "u16") {
        Some(ValueKind::U16)
    } else if chars_eq(t, "u32") {
        Some(ValueKind::U32)
    } else if chars_eq(t, "u64") {
        Some(ValueKind::U64)
    } else if chars_eq(t, "i8") {
        Some(ValueKind::I8)
    } else if chars_eq(t, "i16") {
        Some(ValueKind::I16)
    } else if chars_eq(t, "i32") {
        Some(ValueKind::I32)
    } else if chars_eq(t, "i64") {
        Some(ValueKind::I64)
    } else if chars_eq(t, "usize") {
        Some(ValueKind::Usize)
    } else if chars_eq(t, "isize") || chars_eq(t, "Number") {
        Some(ValueKind::Isize)
    } else if chars_eq(t, "f32") {
        Some(ValueKind::F32)
    } else if chars_eq(t, "f64") {
        Some(ValueKind::F64)
    } else {
        None
    }
}

fn type_action_of(t: &Vec<char>, is_list: bool) -> (a: Action)
    ensures
        a == type_action(t@, is_list),
{
    if chars_eq(t, "") || chars_eq(t, "bool") {
        Action::SetTrue
    } else if chars_eq(t, "bool") {
        Action::SetFalse
    } else if is_list {
        Action::Append
    } else {
        Action::SetValue
    }
}

fn split_type(cs: &Vec<char>) -> (r: (Vec<char>, bool))
    ensures
        (r.0@, r.1) == type_inner(cs@),
{
    let n = cs.len();
    let is_list = n > 0 && cs[0] == '[' && cs[n - 1] == ']';
    if is_list {
        let mut t: Vec<char> = Vec::new();
        if n >= 2 {
            let mut i: usize = 1;
            while i < n - 1
                invariant
                    n == cs@.len(),
                    n >= 2,
                    1 <= i <= n - 1,
                    t@ == cs@.subrange(1, i as int),
                decreases n - i,
            {
                t.push(cs[i]);
                i = i + 1;
                assert(t@ =~= cs@.subrange(1, i as int));
            }
        } else {
            assert(t@ =~= Seq::<char>::empty());
        }
        (t, true)
    } else {
        (cs.clone(), false)
    }
}

/// Sets the value parser and the action of `arg` from the type name `ty`
/// (`[T]` for a list of `T`).
pub fn parse(arg: ArgSpec, ty: String) -> (r: ArgSpec)
    ensures
        r@ == typed_arg(arg@, ty@),
{
    let cs = chars_of(ty.as_str());
    let (t, is_list) = split_type(&cs);
    let parser = match value_kind(&t) {
        Some(k) => Some(k),
        None => arg.value_parser,
    };
    let action = type_action_of(&t, is_list);
    let mut arg = arg;
    let ghost a0 = arg@;
    arg.value_parser = parser;
    arg.action = Some(action);
    assert(arg@ =~= typed_arg(a0, ty@));
    arg
}

} // verus!
