//! Entity references (`&amp;`, `&#39;`, `&#x27;`) in caption text.

use vstd::prelude::*;
use crate::number::{parse_u32, parse_u32_chars};
use crate::text::{chars_of, string_from_chars};

verus! {

/// The five entities that XML predefines, by name.
pub open spec fn predefined_entity(name: Seq<char>) -> Option<Seq<char>> {
    if name == seq!['l', 't'] {
        Some(seq!['<'])
    } else if name == seq!['g', 't'] {
        Some(seq!['>'])
    } else if name == seq!['a', 'm', 'p'] {
        Some(seq!['&'])
    } else if name == seq!['a', 'p', 'o', 's'] {
        Some(seq!['\''])
    } else if name == seq!['q', 'u', 'o', 't'] {
        Some(seq!['"'])
    } else {
        None
    }
}

/// quick-xml's `resolve_predefined_entity`: with the crate's default features
/// (no `escape-html`) it resolves exactly the five predefined XML entities
/// `lt`, `gt`, `amp`, `apos` and `quot`, and nothing else.
pub assume_specification[ quick_xml::escape::resolve_predefined_entity ](entity: &str) -> (r:
    Option<&'static str>)
    ensures
        r is Some == predefined_entity(entity@) is Some,
        r matches Some(v) ==> v@ == predefined_entity(entity@).unwrap(),
;

/// A Unicode scalar value: what std `char::from_u32` accepts.
pub open spec fn is_scalar_value(u: u32) -> bool {
    u < 0xD800 || (0xE000 <= u && u <= 0x10FFFF)
}

/// std `char::from_u32`: the character with code `i`, if `i` is a Unicode
/// scalar value.
pub assume_specification[ char::from_u32 ](i: u32) -> (r: Option<char>)
    ensures
        r is Some == is_scalar_value(i),
        r matches Some(c) ==> c == (i as char),
;

/// The code point of a character reference body (what follows `&#`):
/// `x` or `X` then hexadecimal digits, or decimal digits.
pub open spec fn char_ref_code(digits: Seq<char>) -> Option<u32> {
    if digits.len() > 0 && (digits[0] == 'x' || digits[0] == 'X') {
        parse_u32(digits.drop_first(), 16)
    } else {
        parse_u32(digits, 10)
    }
}

/// What the entity named `name` (the text between `&` and `;`) stands for:
/// a predefined entity, or a character reference to a scalar value.
pub open spec fn entity_value(name: Seq<char>) -> Option<Seq<char>> {
    match predefined_entity(name) {
        Some(v) => Some(v),
        None => if name.len() > 0 && name[0] == '#' {
            match char_ref_code(name.drop_first()) {
                Some(u) => if is_scalar_value(u) {
                    Some(seq![u as char])
                } else {
                    None
                },
                None => None,
            }
        } else {
            None
        },
    }
}

/// The index of the first `c` in `s`.
pub open spec fn index_of(s: Seq<char>, c: char) -> Option<int>
    decreases s.len(),
{
    if s.len() == 0 {
        None
    } else if s[0] == c {
        Some(0)
    } else {
        match index_of(s.drop_first(), c) {
            Some(i) => Some(i + 1),
            None => None,
        }
    }
}

pub proof fn lemma_index_of(s: Seq<char>, c: char)
    ensures
        index_of(s, c) matches Some(i) ==> 0 <= i < s.len() && s[i] == c && forall|k: int|
            0 <= k < i ==> s[k] != c,
        index_of(s, c) is None ==> forall|k: int| 0 <= k < s.len() ==> s[k] != c,
    decreases s.len(),
{
    if s.len() > 0 {
        lemma_index_of(s.drop_first(), c);
        assert forall|k: int| 0 < k < s.len() implies s[k] == s.drop_first()[k - 1] by {}
    }
}

/// `s` with each entity reference that [`entity_value`] resolves replaced by
/// its value; an `&` without a `;` after it, or whose reference does not
/// resolve, is kept as it is and the text after it is still unescaped.
pub open spec fn unescape(s: Seq<char>) -> Seq<char>
    decreases s.len(),
{
    if s.len() == 0 {
        s
    } else if s[0] != '&' {
        seq![s[0]] + unescape(s.drop_first())
    } else {
        let rest = s.drop_first();
        match index_of(rest, ';') {
            Some(j) => {
                proof {
                    lemma_index_of(rest, ';');
                }
                match entity_value(rest.take(j)) {
                    Some(v) => v + unescape(rest.skip(j + 1)),
                    None => seq!['&'] + unescape(rest),
                }
            },
            None => seq!['&'] + unescape(rest),
        }
    }
}

/// The first `c` in `cs[from..to]`, as an index into `cs`.
pub fn find_char(cs: &Vec<char>, from: usize, to: usize, c: char) -> (r: Option<usize>)
    requires
        from <= to <= cs.len(),
    ensures
        match index_of(cs@.subrange(from as int, to as int), c) {
            Some(k) => r == Some((from + k) as usize),
            None => r is None,
        },
{
    let mut k = from;
    while k < to
        invariant
            from <= k <= to <= cs.len(),
            index_of(cs@.subrange(from as int, to as int), c) == match index_of(
                cs@.subrange(k as int, to as int),
                c,
            ) {
                Some(i) => Some(i + (k - from)),
                None => None,
            },
        decreases to - k,
    {
        assert(cs@.subrange(k as int, to as int).drop_first() =~= cs@.subrange(k + 1, to as int));
        if cs[k] == c {
            return Some(k);
        }
        k = k + 1;
    }
    None
}

/// Resolves the entity named `cs[from..to]`, as [`entity_value`] says.
pub fn resolve_entity_chars(cs: &Vec<char>, from: usize, to: usize) -> (r: Option<String>)
    requires
        from <= to <= cs.len(),
    ensures
        match entity_value(cs@.subrange(from as int, to as int)) {
            Some(v) => r matches Some(s) && s@ == v,
            None => r is None,
        },
{
    let ghost name = cs@.subrange(from as int, to as int);
    let name_str = string_from_chars(cs, from, to);
    if let Some(predefined) = quick_xml::escape::resolve_predefined_entity(name_str.as_str()) {
        return Some(String::from_str(predefined));
    }
    if from == to || cs[from] != '#' {
        return None;
    }
    let digits = from + 1;
    let ghost d = cs@.subrange(digits as int, to as int);
    assert(d =~= name.drop_first());
    let code = if digits < to && (cs[digits] == 'x' || cs[digits] == 'X') {
        assert(cs@.subrange(digits + 1, to as int) =~= d.drop_first());
        parse_u32_chars(cs, digits + 1, to, 16)
    } else {
        parse_u32_chars(cs, digits, to, 10)
    };
    match code {
        None => None,
        Some(u) => match char::from_u32(u) {
            Some(ch) => {
                let mut s = String::new();
                s.push(ch);
                assert(s@ =~= seq![u as char]);
                Some(s)
            },
            None => None,
        },
    }
}

/// Resolves one entity body (the text between `&` and `;`); `None` keeps the
/// reference verbatim.
pub fn resolve_entity(entity: &str) -> (r: Option<String>)
    ensures
        match entity_value(entity@) {
            Some(v) => r matches Some(s) && s@ == v,
            None => r is None,
        },
{
    let cs = chars_of(entity);
    assert(cs@.subrange(0, cs@.len() as int) =~= cs@);
    resolve_entity_chars(&cs, 0, cs.len())
}

/// Unescapes the entities that the legacy timedtext format double-escapes
/// (`&amp;#39;` for `'`), reference by reference: a bare `&` (as in
/// "Tom & Jerry") or a reference that does not resolve is kept verbatim
/// while the entities around it still resolve.
pub fn unescape_lenient(text: &str) -> (out: String)
    ensures
        out@ == unescape(text@),
{
    let cs = chars_of(text);
    let n = cs.len();
    let mut out = String::new();
    let mut i: usize = 0;
    assert(cs@.skip(0) =~= cs@);
    while i < n
        invariant
            i <= n == cs.len(),
            cs@ == text@,
            out@ + unescape(cs@.skip(i as int)) == unescape(cs@),
        decreases n - i,
    {
        let ghost s = cs@.skip(i as int);
        assert(s[0] == cs@[i as int]);
        if cs[i] != '&' {
            assert(s.drop_first() =~= cs@.skip(i + 1));
            out.push(cs[i]);
            i = i + 1;
        } else {
            let ghost rest = s.drop_first();
            assert(rest =~= cs@.subrange(i + 1, n as int));
            assert(rest =~= cs@.skip(i + 1));
            let semi = find_char(&cs, i + 1, n, ';');
            let mut resolved = false;
            if let Some(j) = semi {
                proof {
                    lemma_index_of(rest, ';');
                }
                let ghost k = j - (i + 1);
                assert(rest.take(k) =~= cs@.subrange(i + 1, j as int));
                if let Some(value) = resolve_entity_chars(&cs, i + 1, j) {
                    out.append(value.as_str());
                    assert(rest.skip(k + 1) =~= cs@.skip(j + 1));
                    i = j + 1;
                    resolved = true;
                }
            }
            if !resolved {
                out.push('&');
                i = i + 1;
            }
        }
    }
    assert(out@ + unescape(cs@.skip(n as int)) == out@) by {
        assert(cs@.skip(n as int) =~= Seq::<char>::empty());
    }
    out
}

/// Unescaping works reference by reference: text before the first `&` is
/// kept as it is, and what follows it is unescaped on its own.
pub proof fn law_unescape_text_before_references(x: Seq<char>, y: Seq<char>)
    requires
        forall|i: int| 0 <= i < x.len() ==> x[i] != '&',
    ensures
        unescape(x + y) == x + unescape(y),
    decreases x.len(),
{
    if x.len() > 0 {
        let rest = x.drop_first();
        assert((x + y).drop_first() =~= rest + y);
        assert((x + y)[0] == x[0]);
        law_unescape_text_before_references(rest, y);
        assert(seq![x[0]] + (rest + unescape(y)) =~= x + unescape(y));
    } else {
        assert(x + y =~= y);
        assert(x + unescape(y) =~= unescape(y));
    }
}

/// Text without references is left unchanged.
pub proof fn law_unescape_plain_text(s: Seq<char>)
    requires
        forall|i: int| 0 <= i < s.len() ==> s[i] != '&',
    ensures
        unescape(s) == s,
{
    law_unescape_text_before_references(s, Seq::empty());
    assert(s + Seq::<char>::empty() =~= s);
    assert(unescape(Seq::<char>::empty()) =~= Seq::<char>::empty());
}

} // verus!
