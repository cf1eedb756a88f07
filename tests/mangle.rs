use cxx_mangle::{Func, Type};

fn sym(name: &str, params: Vec<Type>) -> String {
    Func::new(String::from(name), params).mangle()
}

#[test]
fn mangle_unscoped() {
    let f1 = Func::new(String::from("func"), vec![Type::Void]);
    let f2 = Func::new(String::from("func"), vec![Type::Int]);
    assert_eq!(&f1.mangle(), "_Z4funcv");
    assert_eq!(&f2.mangle(), "_Z4funci");
}

#[test]
fn mangle_nested() {
    let f = Func::new(
        String::from("myNamespace::inner::func"),
        vec![Type::Int, Type::Double, Type::Ellipsis],
    );
    let h = Func::new(String::from("hello::world"), vec![Type::Void]);
    assert_eq!(&f.mangle(), "_ZN11myNamespace5inner4funcEidz");
    assert_eq!(&h.mangle(), "_ZN5hello5worldEv");
}

#[test]
fn empty_parameter_list_adds_no_letter() {
    assert_eq!(sym("func", vec![]), "_Z4func");
    assert_eq!(sym("a::b", vec![]), "_ZN1a1bE");
}

#[test]
fn mangle_twice_gives_same_symbol() {
    let f = Func::new(String::from("ns::run"), vec![Type::Long, Type::Char]);
    let first = f.mangle();
    let second = f.mangle();
    assert_eq!(first, second);
    assert_eq!(first, "_ZN2ns3runElc");
}

#[test]
fn every_type_letter_in_order() {
    let all = vec![
        Type::Char,
        Type::SChar,
        Type::Double,
        Type::Float,
        Type::Float128,
        Type::UChar,
        Type::Int,
        Type::UInt,
        Type::Long,
        Type::ULong,
        Type::Int128,
        Type::UInt128,
        Type::Short,
        Type::UShort,
        Type::Void,
        Type::WChar,
        Type::LLong,
        Type::ULLong,
        Type::Ellipsis,
    ];
    assert_eq!(sym("f", all), "_Z1fcadfghijlmnostvwxyz");
}

#[test]
fn parameters_keep_order_and_repeats() {
    assert_eq!(sym("f", vec![Type::Int, Type::Char, Type::Int]), "_Z1fici");
    assert_eq!(sym("f", vec![Type::Char, Type::Int, Type::Int]), "_Z1fcii");
}

#[test]
fn segment_count_matches_components() {
    assert_eq!(sym("a::b::c::d", vec![Type::Void]), "_ZN1a1b1c1dEv");
}

#[test]
fn multi_digit_lengths() {
    assert_eq!(sym("abcdefghijkl", vec![Type::Void]), "_Z12abcdefghijklv");
    let long = "x".repeat(105);
    assert_eq!(sym(&long, vec![]), format!("_Z105{}", long));
}

#[test]
fn empty_name_is_encoded_literally() {
    assert_eq!(sym("", vec![Type::Void]), "_Z0v");
}

#[test]
fn empty_segments_are_kept() {
    assert_eq!(sym("a::::b", vec![]), "_ZN1a01bE");
    assert_eq!(sym("::foo", vec![]), "_ZN03fooE");
    assert_eq!(sym("foo::", vec![]), "_ZN3foo0E");
}

#[test]
fn separators_found_left_to_right() {
    assert_eq!(sym("a:::b", vec![]), "_ZN1a2:bE");
    assert_eq!(sym("a:b", vec![]), "_Z3a:b");
}

#[test]
fn length_counts_bytes() {
    assert_eq!(sym("caf\u{e9}", vec![]), "_Z5caf\u{e9}");
}

#[test]
fn identifier_names_give_symbol_characters() {
    let s = sym("my_ns::Inner2::go", vec![Type::ULLong, Type::Ellipsis]);
    assert_eq!(s, "_ZN5my_ns6Inner22goEyz");
    assert!(s.chars().all(|c| c == '_' || c.is_ascii_alphanumeric()));
}
