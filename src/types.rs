use vstd::prelude::*;

verus! {

/// Fundamental C++ parameter types, each encoded by one letter.
///
/// Adding a variant requires a matching arm in `letter_of` and `Type::letter`.
#[derive(Clone, Copy, PartialEq, Eq, Debug, Structural)]
#[non_exhaustive]
pub enum Type {
    /// char
    Char,
    /// signed char
    SChar,
    /// double
    Double,
    /// float
    Float,
    /// __float128
    Float128,
    /// unsigned char
    UChar,
    /// int
    Int,
    /// unsigned int
    UInt,
    /// long
    Long,
    /// unsigned long
    ULong,
    /// __int128
    Int128,
    /// unsigned __int128
    UInt128,
    /// short
    Short,
    /// unsigned short
    UShort,
    /// void (no parameters)
    Void,
    /// wchar_t
    WChar,
    /// long long
    LLong,
    /// unsigned long long
    ULLong,
    /// ... (variadic)
    Ellipsis,
}

/// The Itanium encoding letter of a fundamental type.
pub open spec fn letter_of(t: Type) -> char {
    match t {
        Type::Char => 'c',
        Type::SChar => 'a',
        Type::Double => 'd',
        Type::Float => 'f',
        Type::Float128 => 'g',
        Type::UChar => 'h',
        Type::Int => 'i',
        Type::UInt => 'j',
        Type::Long => 'l',
        Type::ULong => 'm',
        Type::Int128 => 'n',
        Type::UInt128 => 'o',
        Type::Short => 's',
        Type::UShort => 't',
        Type::Void => 'v',
        Type::WChar => 'w',
        Type::LLong => 'x',
        Type::ULLong => 'y',
        Type::Ellipsis => 'z',
    }
}

/// The letters of a parameter list, one per parameter, in order.
pub open spec fn letters_of(params: Seq<Type>) -> Seq<char> {
    params.map_values(|t: Type| letter_of(t))
}

/// No two types share a letter, and every letter is a lower-case ASCII letter.
pub proof fn lemma_letter_injective(a: Type, b: Type)
    ensures
        letter_of(a) == letter_of(b) ==> a == b,
        'a' <= letter_of(a) <= 'z',
{
}

impl Type {
    /// The Itanium encoding letter of this type.
    pub fn letter(self) -> (r: char)
        ensures
            r == letter_of(self),
    {
        match self {
            Type::Char => 'c',
            Type::SChar => 'a',
            Type::Double => 'd',
            Type::Float => 'f',
            Type::Float128 => 'g',
            Type::UChar => 'h',
            Type::Int => 'i',
            Type::UInt => 'j',
            Type::Long => 'l',
            Type::ULong => 'm',
            Type::Int128 => 'n',
            Type::UInt128 => 'o',
            Type::Short => 's',
            Type::UShort => 't',
            Type::Void => 'v',
            Type::WChar => 'w',
            Type::LLong => 'x',
            Type::ULLong => 'y',
            Type::Ellipsis => 'z',
        }
    }
}

} // verus!
