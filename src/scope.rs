use vstd::prelude::*;
use vstd::std_specs::iter::IteratorSpec;
use vstd::string::{StrSliceExecFns, StringExecFns};
use vstd::utf8::encode_utf8;

use crate::types::{letters_of, Type};

verus! {

/// `::` starts at position `i` of `s`.
pub open spec fn is_sep_at(s: Seq<char>, i: int) -> bool {
    0 <= i && i + 1 < s.len() && s[i] == ':' && s[i + 1] == ':'
}

/// `s` holds the scope separator `::` somewhere.
pub open spec fn has_sep(s: Seq<char>) -> bool {
    exists|i: int| is_sep_at(s, i)
}

/// Prefixes `p` to the first of the segments `r`.
pub open spec fn prepend_first(p: Seq<char>, r: Seq<Seq<char>>) -> Seq<Seq<char>> {
    r.update(0, p + r[0])
}

/// The segments of `s` between occurrences of `::`, found left to right;
/// empty segments are kept.
pub open spec fn split_sep(s: Seq<char>) -> Seq<Seq<char>>
    decreases s.len(),
{
    if s.len() == 0 {
        seq![Seq::<char>::empty()]
    } else if is_sep_at(s, 0) {
        seq![Seq::<char>::empty()] + split_sep(s.skip(2))
    } else {
        prepend_first(seq![s[0]], split_sep(s.skip(1)))
    }
}

/// Segments joined back together with `::` between neighbours.
pub open spec fn join_sep(segs: Seq<Seq<char>>) -> Seq<char>
    decreases segs.len(),
{
    if segs.len() == 0 {
        Seq::empty()
    } else if segs.len() == 1 {
        segs[0]
    } else {
        segs[0] + seq![':', ':'] + join_sep(segs.skip(1))
    }
}

/// A name without a separator is one segment; one with a separator has two or more.
pub proof fn lemma_split_shape(s: Seq<char>)
    ensures
        split_sep(s).len() >= 1,
        !has_sep(s) ==> split_sep(s) == seq![s],
        has_sep(s) ==> split_sep(s).len() >= 2,
    decreases s.len(),
{
    if s.len() == 0 {
        assert(s =~= Seq::<char>::empty());
        assert(split_sep(s) =~= seq![s]);
    } else if is_sep_at(s, 0) {
        lemma_split_shape(s.skip(2));
    } else {
        let t = s.skip(1);
        lemma_split_shape(t);
        assert forall|i: int| is_sep_at(s, i) <==> (i >= 1 && is_sep_at(t, i - 1)) by {}
        if has_sep(s) {
            let i = choose|i: int| is_sep_at(s, i);
            assert(is_sep_at(t, i - 1));
        } else {
            assert forall|j: int| !is_sep_at(t, j) by {
                assert(!is_sep_at(s, j + 1));
            }
            assert(seq![s[0]] + t =~= s);
            assert(split_sep(s) =~= seq![s]);
        }
    }
}

/// Joining the segments with `::` gives back the name.
pub proof fn lemma_join_split(s: Seq<char>)
    ensures
        join_sep(split_sep(s)) == s,
    decreases s.len(),
{
    if s.len() == 0 {
    } else if is_sep_at(s, 0) {
        let x = split_sep(s.skip(2));
        lemma_join_split(s.skip(2));
        lemma_split_shape(s.skip(2));
        let segs = seq![Seq::<char>::empty()] + x;
        assert(segs.skip(1) =~= x);
        assert(seq![':', ':'] + s.skip(2) =~= s);
        assert(Seq::<char>::empty() + seq![':', ':'] + join_sep(x) =~= s);
    } else {
        let t = s.skip(1);
        let r = split_sep(t);
        lemma_join_split(t);
        lemma_split_shape(t);
        let segs = prepend_first(seq![s[0]], r);
        assert(seq![s[0]] + t =~= s);
        if r.len() == 1 {
        } else {
            assert(segs.skip(1) =~= r.skip(1));
            assert(segs[0] + seq![':', ':'] + join_sep(segs.skip(1)) =~= seq![s[0]] + (r[0]
                + seq![':', ':'] + join_sep(r.skip(1))));
        }
    }
}

/// The characters of `s`, in order.
fn chars_of(s: &str) -> (r: Vec<char>)
    ensures
        r@ == s@,
{
    let mut it = s.chars();
    let mut v: Vec<char> = Vec::new();
    loop
        invariant
            it.remaining() == s@.skip(v@.len() as int),
            v@ == s@.take(v@.len() as int),
            v@.len() <= s@.len(),
        decreases s@.len() - v@.len(),
    {
        match it.next() {
            Some(c) => {
                proof {
                    assert(s@.skip(v@.len() as int).drop_first() =~= s@.skip(v@.len() + 1 as int));
                }
                v.push(c);
                assert(v@ =~= s@.take(v@.len() as int));
            },
            None => {
                assert(v@ =~= s@);
                return v;
            },
        }
    }
}

/// The character sequences held by a list of strings.
pub open spec fn views_of(v: Seq<String>) -> Seq<Seq<char>> {
    v.map_values(|x: String| x@)
}

/// Reports whether `c` holds the separator `::`.
fn has_separator(c: &Vec<char>) -> (r: bool)
    ensures
        r == has_sep(c@),
{
    let n = c.len();
    let mut i: usize = 0;
    while i < n
        invariant
            i <= n,
            n == c@.len(),
            forall|j: int| 0 <= j < i ==> !is_sep_at(c@, j),
        decreases n - i,
    {
        if i + 1 < n && c[i] == ':' && c[i + 1] == ':' {
            assert(is_sep_at(c@, i as int));
            return true;
        }
        i = i + 1;
    }
    assert forall|j: int| !is_sep_at(c@, j) by {
        if 0 <= j < i {
        }
    }
    false
}

/// Splits `name`, whose characters are `c`, at every `::`, left to right.
fn split_segments(name: &str, c: &Vec<char>) -> (r: Vec<String>)
    requires
        c@ == name@,
    ensures
        views_of(r@) == split_sep(name@),
{
    let n = c.len();
    let mut segs: Vec<String> = Vec::new();
    let mut start: usize = 0;
    let mut i: usize = 0;
    proof {
        lemma_split_shape(c@);
        assert(c@.skip(0) =~= c@);
        assert(Seq::<char>::empty() + split_sep(c@)[0] =~= split_sep(c@)[0]);
        assert(prepend_first(c@.subrange(0, 0), split_sep(c@)) =~= split_sep(c@));
        assert(views_of(segs@) =~= Seq::empty());
        assert(views_of(segs@) + split_sep(c@) =~= split_sep(c@));
    }
    while i < n
        invariant
            start <= i <= n,
            n == c@.len(),
            c@ == name@,
            views_of(segs@) + prepend_first(c@.subrange(start as int, i as int), split_sep(
                c@.skip(i as int),
            )) == split_sep(c@),
        decreases n - i,
    {
        let ghost t = c@.skip(i as int);
        let ghost p = c@.subrange(start as int, i as int);
        if i + 1 < n && c[i] == ':' && c[i + 1] == ':' {
            let seg = name.substring_char(start, i).to_owned();
            proof {
                assert(is_sep_at(t, 0));
                assert(t.skip(2) =~= c@.skip(i + 2));
                let x = split_sep(t.skip(2));
                lemma_split_shape(t.skip(2));
                assert(p + Seq::<char>::empty() =~= p);
                assert(prepend_first(p, seq![Seq::<char>::empty()] + x) =~= seq![p] + x);
                assert(Seq::<char>::empty() + x[0] =~= x[0]);
                assert(prepend_first(c@.subrange(i + 2, i + 2), x) =~= x);
                assert(views_of(segs@.push(seg)) =~= views_of(segs@).push(p));
                assert(views_of(segs@).push(p) + x =~= views_of(segs@) + (seq![p] + x));
            }
            segs.push(seg);
            i = i + 2;
            start = i;
        } else {
            proof {
                assert(!is_sep_at(t, 0));
                assert(t.skip(1) =~= c@.skip(i + 1));
                let y = split_sep(t.skip(1));
                lemma_split_shape(t.skip(1));
                assert(p + (seq![t[0]] + y[0]) =~= c@.subrange(start as int, i + 1) + y[0]);
                assert(prepend_first(p, prepend_first(seq![t[0]], y)) =~= prepend_first(
                    c@.subrange(start as int, i + 1),
                    y,
                ));
            }
            i = i + 1;
        }
    }
    let last = name.substring_char(start, n).to_owned();
    proof {
        let p = c@.subrange(start as int, n as int);
        assert(c@.skip(n as int) =~= Seq::<char>::empty());
        assert(p + Seq::<char>::empty() =~= p);
        assert(prepend_first(p, seq![Seq::<char>::empty()]) =~= seq![p]);
        assert(views_of(segs@.push(last)) =~= views_of(segs@) + seq![p]);
    }
    segs.push(last);
    segs
}

/// The ASCII digit of a value below ten.
pub open spec fn digit_char(d: nat) -> char {
    if d == 0 {
        '0'
    } else if d == 1 {
        '1'
    } else if d == 2 {
        '2'
    } else if d == 3 {
        '3'
    } else if d == 4 {
        '4'
    } else if d == 5 {
        '5'
    } else if d == 6 {
        '6'
    } else if d == 7 {
        '7'
    } else if d == 8 {
        '8'
    } else {
        '9'
    }
}

/// The decimal digits of `n`, most significant first, without leading zeros.
pub open spec fn decimal(n: nat) -> Seq<char>
    decreases n,
{
    if n < 10 {
        seq![digit_char(n)]
    } else {
        decimal(n / 10).push(digit_char(n % 10))
    }
}

/// The length of `s` in bytes, as UTF-8.
pub open spec fn byte_len(s: Seq<char>) -> nat {
    encode_utf8(s).len()
}

/// An identifier as the ABI writes it: its byte length in decimal, then itself.
pub open spec fn source_name(s: Seq<char>) -> Seq<char> {
    decimal(byte_len(s)) + s
}

/// The identifiers of a path, each as a `source_name`, outermost first.
pub open spec fn source_names(segs: Seq<Seq<char>>) -> Seq<char>
    decreases segs.len(),
{
    if segs.len() == 0 {
        Seq::empty()
    } else {
        source_names(segs.drop_last()) + source_name(segs.last())
    }
}

/// The encoding of a qualified name: a plain `source_name` without `::`,
/// else its segments between `N` and `E`.
pub open spec fn name_code(name: Seq<char>) -> Seq<char> {
    if has_sep(name) {
        seq!['N'] + source_names(split_sep(name)) + seq!['E']
    } else {
        source_name(name)
    }
}

/// The mangled symbol of a function named `name` with parameters `params`.
pub open spec fn mangled(name: Seq<char>, params: Seq<Type>) -> Seq<char> {
    seq!['_', 'Z'] + name_code(name) + letters_of(params)
}

/// Relies on `String::push`: the character is appended at the end.
#[verifier::external_body]
fn push_char(s: &mut String, c: char)
    ensures
        final(s)@ == old(s)@.push(c),
{
    s.push(c);
}

/// The ASCII digit of `d`.
fn digit(d: usize) -> (r: char)
    requires
        d < 10,
    ensures
        r == digit_char(d as nat),
{
    match d {
        0 => '0',
        1 => '1',
        2 => '2',
        3 => '3',
        4 => '4',
        5 => '5',
        6 => '6',
        7 => '7',
        8 => '8',
        _ => '9',
    }
}

/// Appends the decimal digits of `n`.
fn push_decimal(out: &mut String, n: usize)
    ensures
        final(out)@ == old(out)@ + decimal(n as nat),
    decreases n,
{
    if n >= 10 {
        push_decimal(out, n / 10);
    }
    push_char(out, digit(n % 10));
    assert(final(out)@ =~= old(out)@ + decimal(n as nat));
}

/// Appends `s` as a `source_name`.
fn push_source_name(out: &mut String, s: &str)
    ensures
        final(out)@ == old(out)@ + source_name(s@),
{
    let len = s.as_bytes().len();
    push_decimal(out, len);
    out.append(s);
    assert(final(out)@ =~= old(out)@ + source_name(s@));
}

/// The qualified name of a function: one identifier, or a path of them.
#[derive(Debug)]
pub(crate) enum Scope {
    /// A name without `::`.
    Unscoped(String),
    /// The segments of a name with `::`, outermost first.
    Nested(Vec<String>),
}

impl Scope {
    /// The segments of the name, outermost first; an unscoped name is one segment.
    pub(crate) open spec fn segments(&self) -> Seq<Seq<char>> {
        match self {
            Scope::Unscoped(s) => seq![s@],
            Scope::Nested(v) => views_of(v@),
        }
    }

    /// The encoding of this name in a symbol.
    pub(crate) open spec fn code(&self) -> Seq<char> {
        match self {
            Scope::Unscoped(s) => source_name(s@),
            Scope::Nested(v) => seq!['N'] + source_names(views_of(v@)) + seq!['E'],
        }
    }

    /// Resolves a qualified name: `Unscoped` when it holds no `::`, else
    /// `Nested` with its segments in order.
    pub(crate) fn new(n: String) -> (r: Scope)
        ensures
            r is Nested == has_sep(n@),
            r.segments() == split_sep(n@),
            r.code() == name_code(n@),
    {
        let c = chars_of(n.as_str());
        proof {
            lemma_split_shape(n@);
        }
        if has_separator(&c) {
            Scope::Nested(split_segments(n.as_str(), &c))
        } else {
            Scope::Unscoped(n)
        }
    }

    /// The symbol: `_Z`, this name's encoding, then one letter per parameter.
    pub(crate) fn mangle(&self, t: &[Type]) -> (r: String)
        ensures
            r@ == seq!['_', 'Z'] + self.code() + letters_of(t@),
    {
        let mut s = String::new();
        push_char(&mut s, '_');
        push_char(&mut s, 'Z');
        match self {
            Scope::Unscoped(st) => {
                push_source_name(&mut s, st.as_str());
            },
            Scope::Nested(b) => {
                push_char(&mut s, 'N');
                let ghost head = s@;
                let mut k: usize = 0;
                while k < b.len()
                    invariant
                        k <= b@.len(),
                        s@ == head + source_names(views_of(b@).take(k as int)),
                    decreases b@.len() - k,
                {
                    push_source_name(&mut s, b[k].as_str());
                    proof {
                        let segs = views_of(b@).take(k + 1);
                        assert(segs.drop_last() =~= views_of(b@).take(k as int));
                    }
                    k = k + 1;
                }
                assert(views_of(b@).take(b@.len() as int) =~= views_of(b@));
                push_char(&mut s, 'E');
            },
        }
        let ghost prefix = s@;
        let mut k: usize = 0;
        while k < t.len()
            invariant
                k <= t@.len(),
                s@ == prefix + letters_of(t@.take(k as int)),
            decreases t@.len() - k,
        {
            push_char(&mut s, t[k].letter());
            assert(letters_of(t@.take(k + 1)) =~= letters_of(t@.take(k as int)).push(
                crate::types::letter_of(t@[k as int]),
            ));
            k = k + 1;
        }
        assert(t@.take(t@.len() as int) =~= t@);
        assert(s@ =~= seq!['_', 'Z'] + self.code() + letters_of(t@));
        s
    }
}

} // verus!
