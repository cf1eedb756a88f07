//! Itanium C++ ABI name mangling for plain functions.
//!
//! A [`Func`] couples a fully qualified C++ name with an ordered list of
//! fundamental parameter types; [`Func::mangle`] renders the linker symbol.
//!
//! Limitations: no pointers, qualifiers, templates or substitutions, and no
//! validation of the name or of the parameter list.
mod func;
mod laws;
mod scope;
mod types;

pub use func::Func;
pub use laws::{
    all_symbol_chars, lemma_decimal_digits, law_nested_segments, law_parameter_order,
    law_symbol_alphabet, law_unscoped, symbol_char,
};
pub use scope::{
    byte_len, decimal, digit_char, has_sep, is_sep_at, join_sep, mangled, name_code, source_name,
    source_names, split_sep,
};
pub use types::{letter_of, letters_of, Type};
