//! The standard API surface the resolver knows: the importable standard
//! modules and the builtin functions each of them brings into scope.
use vstd::prelude::*;
use crate::ast::{dotted, join_dotted};
use crate::text::str_equal;

verus! {

/// `std.core`: string, integer, ASCII and array builtins.
pub open spec fn is_core_path(path: Seq<String>) -> bool {
    dotted(path) == "std.core"@
}

/// `std.io`: printing, files, paths.
pub open spec fn is_io_path(path: Seq<String>) -> bool {
    dotted(path) == "std.io"@
}

pub fn is_std_core_import(path: &Vec<String>) -> (b: bool)
    ensures
        b == is_core_path(path@),
{
    let joined = join_dotted(path);
    str_equal(joined.as_str(), "std.core")
}

pub fn is_std_io_import(path: &Vec<String>) -> (b: bool)
    ensures
        b == is_io_path(path@),
{
    let joined = join_dotted(path);
    str_equal(joined.as_str(), "std.io")
}

/// Whether an import path names a standard module.
pub fn is_standard_import(path: &Vec<String>) -> (b: bool)
    ensures
        b == (is_core_path(path@) || is_io_path(path@)),
{
    is_std_core_import(path) || is_std_io_import(path)
}

/// The standard module names, as the resolver lists them in its message.
pub open spec fn standard_import_names_text() -> Seq<char> {
    "std.core`, `std.io"@
}

pub open spec fn is_core_function(name: Seq<char>) -> bool {
    ||| name == "string_len"@
    ||| name == "string_byte_at"@
    ||| name == "string_byte_slice"@
    ||| name == "string_concat"@
    ||| name == "int_to_string"@
    ||| name == "int_abs"@
    ||| name == "int_min"@
    ||| name == "int_max"@
    ||| name == "int_pow"@
    ||| name == "string_to_int"@
    ||| name == "string_index_of"@
    ||| name == "string_contains"@
    ||| name == "string_repeat"@
    ||| name == "string_to_upper"@
    ||| name == "string_to_lower"@
    ||| name == "string_trim"@
    ||| name == "ascii_is_digit"@
    ||| name == "ascii_is_alpha"@
    ||| name == "ascii_is_alnum"@
    ||| name == "ascii_is_whitespace"@
    ||| name == "int_array_empty"@
    ||| name == "int_array_push"@
    ||| name == "string_array_empty"@
    ||| name == "string_array_push"@
    ||| name == "bool_array_empty"@
    ||| name == "bool_array_push"@
}

pub open spec fn is_io_function(name: Seq<char>) -> bool {
    ||| name == "print"@
    ||| name == "println"@
    ||| name == "file_read_to_string"@
    ||| name == "path_join"@
    ||| name == "path_basename"@
    ||| name == "diagnostic_format"@
}

/// Whether `name` is a `std.core` builtin.
pub fn core_function(name: &str) -> (b: bool)
    ensures
        b == is_core_function(name@),
{
    str_equal(name, "string_len") || str_equal(name, "string_byte_at") || str_equal(
        name,
        "string_byte_slice",
    ) || str_equal(name, "string_concat") || str_equal(name, "int_to_string") || str_equal(
        name,
        "int_abs",
    ) || str_equal(name, "int_min") || str_equal(name, "int_max") || str_equal(name, "int_pow")
        || str_equal(name, "string_to_int") || str_equal(name, "string_index_of") || str_equal(
        name,
        "string_contains",
    ) || str_equal(name, "string_repeat") || str_equal(name, "string_to_upper") || str_equal(
        name,
        "string_to_lower",
    ) || str_equal(name, "string_trim") || str_equal(name, "ascii_is_digit") || str_equal(
        name,
        "ascii_is_alpha",
    ) || str_equal(name, "ascii_is_alnum") || str_equal(name, "ascii_is_whitespace") || str_equal(
        name,
        "int_array_empty",
    ) || str_equal(name, "int_array_push") || str_equal(name, "string_array_empty") || str_equal(
        name,
        "string_array_push",
    ) || str_equal(name, "bool_array_empty") || str_equal(name, "bool_array_push")
}

/// Whether `name` is a `std.io` builtin.
pub fn io_function(name: &str) -> (b: bool)
    ensures
        b == is_io_function(name@),
{
    str_equal(name, "print") || str_equal(name, "println") || str_equal(name, "file_read_to_string")
        || str_equal(name, "path_join") || str_equal(name, "path_basename") || str_equal(
        name,
        "diagnostic_format",
    )
}

} // verus!
