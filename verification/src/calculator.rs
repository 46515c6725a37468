//! Quick-calculation input recognition: splitting a typed line into
//! calculator parts and deciding whether it reads as a calculation.

use vstd::prelude::*;
use crate::text::{
    chars_of, string_from_chars, trim_chars, spec_trim, spec_dec, push_dec_u64, spec_is_digit,
};

verus! {

/// The kind of one lexical part of a calculation.
#[derive(Clone, Copy, PartialEq, Eq, Structural, Debug)]
pub enum PartType {
    /// Blank: between parts.
    Gap,
    Variable,
    Number,
    Operator,
    Separator,
}

/// One lexical part: its kind and its text.
pub struct Part {
    pub typ: PartType,
    pub text: String,
}

/// The kind a character continues or starts, given the kind under
/// construction; `None` means the character cannot appear in a calculation
/// at this point.
pub open spec fn spec_char_kind(c: char, cur: PartType, cur_text: Seq<char>) -> Option<PartType> {
    if c == ' ' {
        Some(PartType::Gap)
    } else if c == '+' || c == '-' || c == '*' || c == '/' || c == '%' || c == '^' || c == '!'
        || c == '=' || c == ',' || c == '(' || c == ')' || c == '[' || c == ']' || c == '<' || c
        == '>' || c == '{' || c == '}' {
        Some(PartType::Operator)
    } else if c == ';' || c == '\n' {
        Some(PartType::Separator)
    } else if c == '.' {
        if cur == PartType::Number && spec_contains_char(cur_text, '.') {
            None
        } else {
            Some(PartType::Number)
        }
    } else if spec_is_digit(c) {
        if cur == PartType::Variable {
            Some(PartType::Variable)
        } else {
            Some(PartType::Number)
        }
    } else if 97 <= c as u32 && c as u32 <= 122 {
        if cur == PartType::Number {
            None
        } else {
            Some(PartType::Variable)
        }
    } else {
        None
    }
}

/// Whether `s` holds the character `c`.
pub open spec fn spec_contains_char(s: Seq<char>, c: char) -> bool {
    exists|i: int| 0 <= i < s.len() && s[i] == c
}

/// Splitting the remaining characters into parts, carrying the parts read
/// so far and the part under construction.
pub open spec fn spec_split_parts(
    chars: Seq<char>,
    parts: Seq<(PartType, Seq<char>)>,
    cur: PartType,
    text: Seq<char>,
) -> Option<Seq<(PartType, Seq<char>)>>
    decreases chars.len(),
{
    if chars.len() == 0 {
        if cur != PartType::Gap {
            Some(parts.push((cur, text)))
        } else {
            Some(parts)
        }
    } else {
        match spec_char_kind(chars.first(), cur, text) {
            None => None,
            Some(k) => if k == cur {
                spec_split_parts(chars.drop_first(), parts, cur, text.push(chars.first()))
            } else if cur != PartType::Gap {
                spec_split_parts(
                    chars.drop_first(),
                    parts.push((cur, text)),
                    k,
                    seq![chars.first()],
                )
            } else {
                spec_split_parts(chars.drop_first(), parts, k, seq![chars.first()])
            },
        }
    }
}

/// What a typed line splits into: its calculator parts, or nothing when a
/// character cannot appear in a calculation.
pub open spec fn spec_parse_parts(chars: Seq<char>) -> Option<Seq<(PartType, Seq<char>)>> {
    spec_split_parts(chars, Seq::empty(), PartType::Gap, Seq::empty())
}

/// Decides what kind a character continues or starts.
fn char_kind(c: char, cur: PartType, cur_text: &Vec<char>) -> (r: Option<PartType>)
    ensures
        r == spec_char_kind(c, cur, cur_text@),
{
    if c == ' ' {
        Some(PartType::Gap)
    } else if c == '+' || c == '-' || c == '*' || c == '/' || c == '%' || c == '^' || c == '!'
        || c == '=' || c == ',' || c == '(' || c == ')' || c == '[' || c == ']' || c == '<' || c
        == '>' || c == '{' || c == '}' {
        Some(PartType::Operator)
    } else if c == ';' || c == '\n' {
        Some(PartType::Separator)
    } else if c == '.' {
        let mut has_dot = false;
        if cur == PartType::Number {
            match crate::text::find_char_from(cur_text, '.', 0) {
                Some(_) => {
                    has_dot = true;
                },
                None => {
                    assert(!spec_contains_char(cur_text@, '.'));
                },
            }
        }
        if cur == PartType::Number && has_dot {
            None
        } else {
            Some(PartType::Number)
        }
    } else {
        let v = c as u32;
        if 48 <= v && v <= 57 {
            if cur == PartType::Variable {
                Some(PartType::Variable)
            } else {
                Some(PartType::Number)
            }
        } else if 97 <= v && v <= 122 {
            if cur == PartType::Number {
                None
            } else {
                Some(PartType::Variable)
            }
        } else {
            None
        }
    }
}

/// Splits a typed line into calculator parts; `None` when some character
/// cannot appear in a calculation.
pub fn parse_parts(chars: &Vec<char>) -> (r: Option<Vec<Part>>)
    ensures
        match spec_parse_parts(chars@) {
            Some(ps) => matches!(r, Some(_)) && r->Some_0@.map_values(
                |p: Part| (p.typ, p.text@),
            ) == ps,
            None => matches!(r, None),
        },
{
    let mut parts: Vec<Part> = Vec::new();
    let mut cur: PartType = PartType::Gap;
    let mut text: Vec<char> = Vec::new();
    let mut i: usize = 0;
    assert(chars@.skip(0) =~= chars@);
    assert(parts@.map_values(|p: Part| (p.typ, p.text@)) =~= Seq::<(PartType, Seq<char>)>::empty());
    while i < chars.len()
        invariant
            i <= chars@.len(),
            spec_parse_parts(chars@) == spec_split_parts(
                chars@.skip(i as int),
                parts@.map_values(|p: Part| (p.typ, p.text@)),
                cur,
                text@,
            ),
        decreases chars.len() - i,
    {
        let c = chars[i];
        proof {
            assert(chars@.skip(i as int).first() == c);
            assert(chars@.skip(i as int).drop_first() =~= chars@.skip(i + 1));
        }
        match char_kind(c, cur, &text) {
            None => {
                return None;
            },
            Some(k) => {
                if k == cur {
                    text.push(c);
                } else if cur != PartType::Gap {
                    let part = Part { typ: cur, text: string_from_chars(&text) };
                    let ghost ps0 = parts@.map_values(|p: Part| (p.typ, p.text@));
                    parts.push(part);
                    assert(parts@.map_values(|p: Part| (p.typ, p.text@)) =~= ps0.push(
                        (cur, text@),
                    ));
                    cur = k;
                    text = Vec::new();
                    text.push(c);
                    assert(text@ =~= seq![c]);
                } else {
                    cur = k;
                    text = Vec::new();
                    text.push(c);
                    assert(text@ =~= seq![c]);
                }
            },
        }
        i += 1;
    }
    proof {
        assert(chars@.skip(chars@.len() as int) =~= Seq::<char>::empty());
    }
    if cur != PartType::Gap {
        let part = Part { typ: cur, text: string_from_chars(&text) };
        let ghost ps0 = parts@.map_values(|p: Part| (p.typ, p.text@));
        parts.push(part);
        assert(parts@.map_values(|p: Part| (p.typ, p.text@)) =~= ps0.push((cur, text@)));
    }
    Some(parts)
}

/// The numeric base a radix prefix letter selects, or zero.
pub open spec fn spec_base_of(c: char) -> u32 {
    if c == 'x' || c == 'X' {
        16
    } else if c == 'o' || c == 'O' {
        8
    } else if c == 'b' || c == 'B' {
        2
    } else {
        0
    }
}

/// The value of a digit character in the given base, if it is one.
pub open spec fn spec_radix_digit(c: char, base: u32) -> Option<u32> {
    let v = c as u32;
    if 48 <= v && v < 48 + (if base < 10 {
        base
    } else {
        10
    }) {
        Some((v - 48) as u32)
    } else if base == 16 && 97 <= v && v <= 102 {
        Some((v - 87) as u32)
    } else if base == 16 && 65 <= v && v <= 70 {
        Some((v - 55) as u32)
    } else {
        None
    }
}

/// Whether `s` is a nonempty string of digits of the given base.
pub open spec fn spec_radix_valid(s: Seq<char>, base: u32) -> bool {
    s.len() > 0 && forall|i: int|
        0 <= i < s.len() ==> spec_radix_digit(#[trigger] s[i], base) is Some
}

/// Checks that `s` is a nonempty string of digits of the given base: the
/// shape of a radix-prefixed number literal's digits.
pub fn radix_valid(s: &Vec<char>, base: u32) -> (r: bool)
    ensures
        r == spec_radix_valid(s@, base),
{
    if s.len() == 0 {
        return false;
    }
    let mut i: usize = 0;
    while i < s.len()
        invariant
            i <= s@.len(),
            forall|j: int| 0 <= j < i ==> spec_radix_digit(#[trigger] s@[j], base) is Some,
        decreases s.len() - i,
    {
        let v = s[i] as u32;
        let ok = if 48 <= v && v < 48 + (if base < 10 {
            base
        } else {
            10
        }) {
            true
        } else if base == 16 && 97 <= v && v <= 102 {
            true
        } else if base == 16 && 65 <= v && v <= 70 {
            true
        } else {
            false
        };
        if !ok {
            assert(spec_radix_digit(s@[i as int], base) is None);
            return false;
        }
        i += 1;
    }
    true
}

/// Whether the defined-variable list holds `name`.
pub open spec fn spec_defined(vars: Seq<Seq<char>>, name: Seq<char>) -> bool {
    exists|i: int| 0 <= i < vars.len() && vars[i] == name
}

/// The variable-use scan over consecutive part pairs: a variable must be
/// followed by an operator or separator, and an undefined one only by an
/// assignment (defining it) or an opening parenthesis (a call).
pub open spec fn spec_scan_vars(parts: Seq<(PartType, Seq<char>)>, vars: Seq<Seq<char>>) -> bool
    decreases parts.len(),
{
    if parts.len() <= 1 {
        true
    } else {
        let p = parts.first();
        let q = parts[1];
        if p.0 == PartType::Variable {
            if q.0 != PartType::Operator && q.0 != PartType::Separator {
                false
            } else if !spec_defined(vars, p.1) {
                if q.1 == "="@ {
                    spec_scan_vars(parts.drop_first(), vars.push(p.1))
                } else if q.1 == "("@ {
                    spec_scan_vars(parts.drop_first(), vars)
                } else {
                    false
                }
            } else {
                spec_scan_vars(parts.drop_first(), vars)
            }
        } else {
            spec_scan_vars(parts.drop_first(), vars)
        }
    }
}

/// Whether a trimmed input line reads as a calculation: either a
/// radix-prefixed number literal, or a part split whose variable uses all
/// check out.
pub open spec fn spec_accepts_input(s: Seq<char>) -> bool {
    let t = spec_trim(s);
    if t.len() == 0 {
        false
    } else if t.len() > 2 && t[0] == '0' && spec_base_of(t[1]) != 0 && spec_radix_valid(
        t.skip(2),
        spec_base_of(t[1]),
    ) {
        true
    } else {
        match spec_parse_parts(t) {
            None => false,
            Some(ps) => spec_scan_vars(
                ps.push((PartType::Separator, Seq::empty())),
                Seq::empty(),
            ),
        }
    }
}

/// Finds the defined-variable list entry equal to `name`.
fn defined_contains(vars: &Vec<String>, name: &String) -> (r: bool)
    ensures
        r == spec_defined(vars@.map_values(|s: String| s@), name@),
{
    let ghost vs = vars@.map_values(|s: String| s@);
    let mut i: usize = 0;
    while i < vars.len()
        invariant
            vs == vars@.map_values(|s: String| s@),
            i <= vars.len(),
            forall|j: int| 0 <= j < i ==> vs[j] != name@,
        decreases vars.len() - i,
    {
        if vars[i].eq(name) {
            assert(vs[i as int] == name@);
            return true;
        }
        i += 1;
    }
    false
}

/// Decides whether the typed line reads as a calculation.
pub fn accepts_input(input: &str) -> (r: bool)
    ensures
        r == spec_accepts_input(input@),
{
    let raw = chars_of(input);
    let t = trim_chars(&raw);
    if t.len() == 0 {
        return false;
    }
    if t.len() > 2 && t[0] == '0' {
        let base: u32 = if t[1] == 'x' || t[1] == 'X' {
            16
        } else if t[1] == 'o' || t[1] == 'O' {
            8
        } else if t[1] == 'b' || t[1] == 'B' {
            2
        } else {
            0
        };
        if base != 0 {
            let digits = crate::text::sub_chars(&t, 2, t.len());
            assert(digits@ =~= spec_trim(input@).skip(2));
            if radix_valid(&digits, base) {
                return true;
            }
        }
    }
    assert(!(t@.len() > 2 && t@[0] == '0' && spec_base_of(t@[1]) != 0 && spec_radix_valid(
        t@.skip(2),
        spec_base_of(t@[1]),
    )));
    let parts = match parse_parts(&t) {
        Some(parts) => parts,
        None => {
            return false;
        },
    };
    let ghost ps = parts@.map_values(|p: Part| (p.typ, p.text@));
    let mut scan: Vec<Part> = parts;
    scan.push(Part { typ: PartType::Separator, text: String::new() });
    assert(scan@.map_values(|p: Part| (p.typ, p.text@)) =~= ps.push(
        (PartType::Separator, Seq::<char>::empty()),
    ));
    let mut vars: Vec<String> = Vec::new();
    let ghost full = scan@.map_values(|p: Part| (p.typ, p.text@));
    let mut n: usize = 0;
    assert(full.skip(0) =~= full);
    assert(vars@.map_values(|s: String| s@) =~= Seq::<Seq<char>>::empty());
    while n + 1 < scan.len()
        invariant
            t@ == spec_trim(input@),
            t@.len() > 0,
            !(t@.len() > 2 && t@[0] == '0' && spec_base_of(t@[1]) != 0 && spec_radix_valid(
                t@.skip(2),
                spec_base_of(t@[1]),
            )),
            spec_parse_parts(t@) == Some(ps),
            full == ps.push((PartType::Separator, Seq::<char>::empty())),
            full == scan@.map_values(|p: Part| (p.typ, p.text@)),
            n < scan.len(),
            spec_scan_vars(full, Seq::empty()) == spec_scan_vars(
                full.skip(n as int),
                vars@.map_values(|s: String| s@),
            ),
        decreases scan.len() - n,
    {
        proof {
            reveal_strlit("=");
            reveal_strlit("(");
            assert(full.skip(n as int).first() == full[n as int]);
            assert(full.skip(n as int)[1] == full[n + 1]);
            assert(full.skip(n as int).drop_first() =~= full.skip(n + 1));
        }
        let ghost vs0 = vars@.map_values(|s: String| s@);
        let p_typ = scan[n].typ;
        let q_typ = scan[n + 1].typ;
        if p_typ == PartType::Variable {
            assert(full[n as int].0 == p_typ);
            assert(full[n + 1].0 == q_typ);
            if q_typ != PartType::Operator && q_typ != PartType::Separator {
                assert(!spec_scan_vars(full.skip(n as int), vs0));
                assert(!spec_scan_vars(full, Seq::empty()));
                return false;
            }
            let p_text = scan[n].text.clone();
            if !defined_contains(&vars, &p_text) {
                let eq_s = String::from_str("=");
                let paren_s = String::from_str("(");
                assert(full[n as int].1 == p_text@);
                assert(full[n + 1].1 == scan@[n + 1].text@);
                if scan[n + 1].text.eq(&eq_s) {
                    vars.push(p_text);
                    assert(vars@.map_values(|s: String| s@) =~= vs0.push(full[n as int].1));
                } else if scan[n + 1].text.eq(&paren_s) {
                } else {
                    assert(!spec_scan_vars(full.skip(n as int), vs0));
                    assert(!spec_scan_vars(full, Seq::empty()));
                    return false;
                }
            }
        }
        n += 1;
    }
    proof {
        assert(full.skip(n as int).len() <= 1);
    }
    true
}

/// The decimal rendering of a radix-prefixed literal's digits, when its
/// value fits the machine word.
pub fn radix_literal_decimal(digits: &Vec<char>, base: u32) -> (r: Option<String>)
    requires
        base == 2 || base == 8 || base == 16,
    ensures
        matches!(r, Some(_)) ==> spec_radix_valid(digits@, base),
        !spec_radix_valid(digits@, base) ==> matches!(r, None),
        match r {
            Some(s) => s@ == spec_dec(spec_radix_value(digits@, base)),
            None => true,
        },
{
    if !radix_valid(digits, base) {
        return None;
    }
    let mut acc: u64 = 0;
    let mut i: usize = 0;
    while i < digits.len()
        invariant
            base == 2 || base == 8 || base == 16,
            spec_radix_valid(digits@, base),
            i <= digits@.len(),
            acc == spec_radix_value(digits@.take(i as int), base),
        decreases digits.len() - i,
    {
        let v = digits[i] as u32;
        let d: u64 = if 48 <= v && v <= 57 {
            (v - 48) as u64
        } else if 97 <= v && v <= 122 {
            (v - 87) as u64
        } else {
            (v - 55) as u64
        };
        proof {
            assert(spec_radix_digit(digits@[i as int], base) is Some);
            assert(digits@.take(i + 1).drop_last() =~= digits@.take(i as int));
        }
        if acc > (u64::MAX - d) / (base as u64) {
            return None;
        }
        assert(acc * (base as u64) + d <= u64::MAX) by (nonlinear_arith)
            requires
                acc <= (u64::MAX - d) as int / (base as int),
                d < base,
                base == 2 || base == 8 || base == 16,
        ;
        acc = acc * (base as u64) + d;
        i += 1;
    }
    assert(digits@.take(digits@.len() as int) =~= digits@);
    let mut out: Vec<char> = Vec::new();
    push_dec_u64(acc, &mut out);
    assert(out@ =~= spec_dec(acc as nat));
    Some(string_from_chars(&out))
}

/// The value of a valid radix digit string.
pub open spec fn spec_radix_value(s: Seq<char>, base: u32) -> nat
    decreases s.len(),
{
    if s.len() == 0 {
        0
    } else {
        (spec_radix_value(s.drop_last(), base) * base + (match spec_radix_digit(s.last(), base) {
            Some(v) => v as int,
            None => 0int,
        })) as nat
    }
}

} // verus!
