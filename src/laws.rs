use vstd::prelude::*;

use crate::scope::{
    byte_len, decimal, digit_char, has_sep, is_sep_at, join_sep, lemma_join_split,
    lemma_split_shape, mangled, name_code, source_name, source_names, split_sep,
};
use crate::types::{lemma_letter_injective, letter_of, letters_of, Type};

verus! {

/// A character that may appear in a symbol: `_`, an ASCII digit or an ASCII letter.
pub open spec fn symbol_char(c: char) -> bool {
    c == '_' || ('0' <= c <= '9') || ('A' <= c <= 'Z') || ('a' <= c <= 'z')
}

/// Every character of `s` is a `symbol_char`.
pub open spec fn all_symbol_chars(s: Seq<char>) -> bool {
    forall|i: int| 0 <= i < s.len() ==> symbol_char(#[trigger] s[i])
}

/// The decimal form of `n` is one or more ASCII digits, the first of them
/// not `0` unless `n` is zero.
pub proof fn lemma_decimal_digits(n: nat)
    ensures
        decimal(n).len() >= 1,
        forall|i: int| 0 <= i < decimal(n).len() ==> '0' <= #[trigger] decimal(n)[i] <= '9',
        n > 0 ==> decimal(n)[0] != '0',
    decreases n,
{
    if n >= 10 {
        lemma_decimal_digits(n / 10);
        assert(decimal(n)[0] == decimal(n / 10)[0]);
    }
}

proof fn lemma_all_symbol_concat(a: Seq<char>, b: Seq<char>)
    requires
        all_symbol_chars(a),
        all_symbol_chars(b),
    ensures
        all_symbol_chars(a + b),
{
    assert forall|i: int| 0 <= i < (a + b).len() implies symbol_char(#[trigger] (a + b)[i]) by {
        if i < a.len() {
            assert((a + b)[i] == a[i]);
        } else {
            assert((a + b)[i] == b[i - a.len()]);
        }
    }
}

proof fn lemma_source_name_symbols(s: Seq<char>)
    requires
        all_symbol_chars(s),
    ensures
        all_symbol_chars(source_name(s)),
{
    lemma_decimal_digits(byte_len(s));
    lemma_all_symbol_concat(decimal(byte_len(s)), s);
}

proof fn lemma_source_names_symbols(segs: Seq<Seq<char>>)
    requires
        forall|k: int| 0 <= k < segs.len() ==> all_symbol_chars(#[trigger] segs[k]),
    ensures
        all_symbol_chars(source_names(segs)),
    decreases segs.len(),
{
    if segs.len() > 0 {
        lemma_source_names_symbols(segs.drop_last());
        lemma_source_name_symbols(segs.last());
        lemma_all_symbol_concat(source_names(segs.drop_last()), source_name(segs.last()));
    }
}

/// The first segment of a split is a prefix of the name.
proof fn lemma_split_first_prefix(s: Seq<char>)
    ensures
        split_sep(s)[0].len() <= s.len(),
        split_sep(s)[0] == s.take(split_sep(s)[0].len() as int),
    decreases s.len(),
{
    lemma_split_shape(s);
    if s.len() == 0 {
        assert(s.take(0) =~= split_sep(s)[0]);
    } else if is_sep_at(s, 0) {
        assert(s.take(0) =~= split_sep(s)[0]);
    } else {
        let t = s.skip(1);
        lemma_split_shape(t);
        lemma_split_first_prefix(t);
        let m = split_sep(t)[0].len() as int;
        assert(seq![s[0]] + t.take(m) =~= s.take(m + 1));
    }
}

/// No segment of a split holds the separator.
proof fn lemma_split_segments_plain(s: Seq<char>)
    ensures
        forall|k: int| 0 <= k < split_sep(s).len() ==> !has_sep(#[trigger] split_sep(s)[k]),
    decreases s.len(),
{
    lemma_split_shape(s);
    if s.len() == 0 {
    } else if is_sep_at(s, 0) {
        let x = split_sep(s.skip(2));
        lemma_split_segments_plain(s.skip(2));
        assert forall|k: int| 0 <= k < split_sep(s).len() implies !has_sep(
            #[trigger] split_sep(s)[k],
        ) by {
            if k > 0 {
                assert(split_sep(s)[k] == x[k - 1]);
            }
        }
    } else {
        let t = s.skip(1);
        let r = split_sep(t);
        lemma_split_shape(t);
        lemma_split_segments_plain(t);
        lemma_split_first_prefix(t);
        let f = seq![s[0]] + r[0];
        assert forall|i: int| !is_sep_at(f, i) by {
            if i == 0 && is_sep_at(f, 0) {
                assert(r[0][0] == t.take(r[0].len() as int)[0]);
                assert(is_sep_at(s, 0));
            }
            if i > 0 && is_sep_at(f, i) {
                assert(is_sep_at(r[0], i - 1));
            }
        }
        assert forall|k: int| 0 <= k < split_sep(s).len() implies !has_sep(
            #[trigger] split_sep(s)[k],
        ) by {
            if k > 0 {
                assert(split_sep(s)[k] == r[k]);
            }
        }
    }
}

/// A name without `::` and no parameters mangles to `_Z`, the decimal byte
/// length of the name and the name itself; with the single parameter `Void`
/// a `v` follows.
pub proof fn law_unscoped(n: Seq<char>)
    requires
        !has_sep(n),
    ensures
        mangled(n, Seq::empty()) == seq!['_', 'Z'] + decimal(byte_len(n)) + n,
        mangled(n, seq![Type::Void]) == seq!['_', 'Z'] + decimal(byte_len(n)) + n + seq!['v'],
{
    assert(letters_of(Seq::<Type>::empty()) =~= Seq::<char>::empty());
    assert(letters_of(seq![Type::Void]) =~= seq!['v']);
    assert(mangled(n, Seq::empty()) =~= seq!['_', 'Z'] + decimal(byte_len(n)) + n);
    assert(mangled(n, seq![Type::Void]) =~= seq!['_', 'Z'] + decimal(byte_len(n)) + n + seq![
        'v',
    ]);
}

/// A name with `::` mangles to `_ZN`, one `source_name` per `::`-delimited
/// component, `E`, then the parameter letters. The components are two or more,
/// none holds `::`, and joined with `::` in order they give back the name.
pub proof fn law_nested_segments(name: Seq<char>, params: Seq<Type>)
    requires
        has_sep(name),
    ensures
        mangled(name, params) == seq!['_', 'Z', 'N'] + source_names(split_sep(name)) + seq!['E']
            + letters_of(params),
        split_sep(name).len() >= 2,
        join_sep(split_sep(name)) == name,
        forall|k: int| 0 <= k < split_sep(name).len() ==> !has_sep(#[trigger] split_sep(name)[k]),
{
    lemma_split_shape(name);
    lemma_join_split(name);
    lemma_split_segments_plain(name);
    assert(mangled(name, params) =~= seq!['_', 'Z', 'N'] + source_names(split_sep(name))
        + seq!['E'] + letters_of(params));
}

/// When every component of the name is made of `_`, ASCII digits and ASCII
/// letters, so is the whole symbol.
pub proof fn law_symbol_alphabet(name: Seq<char>, params: Seq<Type>)
    requires
        forall|k: int|
            0 <= k < split_sep(name).len() ==> all_symbol_chars(#[trigger] split_sep(name)[k]),
    ensures
        all_symbol_chars(mangled(name, params)),
{
    lemma_split_shape(name);
    let letters = letters_of(params);
    assert forall|i: int| 0 <= i < letters.len() implies symbol_char(#[trigger] letters[i]) by {
        lemma_letter_injective(params[i], params[i]);
    }
    assert(all_symbol_chars(seq!['_', 'Z']));
    if has_sep(name) {
        lemma_source_names_symbols(split_sep(name));
        assert(all_symbol_chars(seq!['N']));
        assert(all_symbol_chars(seq!['E']));
        lemma_all_symbol_concat(seq!['N'], source_names(split_sep(name)));
        lemma_all_symbol_concat(seq!['N'] + source_names(split_sep(name)), seq!['E']);
    } else {
        assert(split_sep(name)[0] == name);
        lemma_source_name_symbols(name);
    }
    lemma_all_symbol_concat(seq!['_', 'Z'], name_code(name));
    lemma_all_symbol_concat(seq!['_', 'Z'] + name_code(name), letters);
}

/// The symbol ends with exactly one letter per parameter, in the order of the
/// parameters; since no two types share a letter, each parameter is
/// recovered from its position.
pub proof fn law_parameter_order(name: Seq<char>, params: Seq<Type>)
    ensures
        mangled(name, params).len() == 2 + name_code(name).len() + params.len(),
        forall|i: int|
            0 <= i < params.len() ==> #[trigger] mangled(name, params)[2 + name_code(name).len()
                + i] == letter_of(params[i]),
        forall|i: int, t: Type|
            #![trigger params[i], letter_of(t)]
            0 <= i < params.len() && mangled(name, params)[2 + name_code(name).len() + i]
                == letter_of(t) ==> params[i] == t,
{
    let m = mangled(name, params);
    let h = seq!['_', 'Z'] + name_code(name);
    assert forall|i: int| 0 <= i < params.len() implies #[trigger] m[2 + name_code(name).len()
        + i] == letter_of(params[i]) by {
        assert(m[h.len() + i] == letters_of(params)[i]);
    }
    assert forall|i: int, t: Type|
        #![trigger params[i], letter_of(t)]
        0 <= i < params.len() && m[2 + name_code(name).len() + i] == letter_of(t) implies params[i]
            == t by {
        lemma_letter_injective(params[i], t);
    }
}

} // verus!
