//! Character-level text helpers shared by the parsing and history modules.

use vstd::prelude::*;
use vstd::string::StrSliceExecFns;

verus! {

/// ASCII lower-casing of one character; other characters are unchanged.
pub open spec fn spec_lower_char(c: char) -> char {
    if 65 <= c as u32 && c as u32 <= 90 {
        (((c as u32) + 32) as u8) as char
    } else {
        c
    }
}

/// ASCII lower-casing of a character sequence.
pub open spec fn spec_lower(s: Seq<char>) -> Seq<char> {
    s.map_values(|c: char| spec_lower_char(c))
}

/// Lower-cases one ASCII letter, leaving every other character unchanged.
pub fn lower_char(c: char) -> (r: char)
    ensures
        r == spec_lower_char(c),
{
    let v = c as u32;
    if 65 <= v && v <= 90 {
        ((v + 32) as u8) as char
    } else {
        c
    }
}

/// Builds the string holding exactly the given characters.
/// Relies on `String`'s `FromIterator<char>`: collecting chars yields the
/// string of those chars in order.
#[verifier::external_body]
pub fn string_from_chars(v: &Vec<char>) -> (r: String)
    ensures
        r@ == v@,
{
    v.iter().collect()
}

/// Compares two strings ignoring ASCII case.
pub fn eq_ignore_case(a: &str, b: &str) -> (r: bool)
    ensures
        r == (spec_lower(a@) == spec_lower(b@)),
{
    let n = a.unicode_len();
    if n != b.unicode_len() {
        assert(spec_lower(a@).len() != spec_lower(b@).len());
        return false;
    }
    let mut i: usize = 0;
    while i < n
        invariant
            n == a@.len(),
            n == b@.len(),
            i <= n,
            forall|j: int| 0 <= j < i ==> spec_lower_char(a@[j]) == spec_lower_char(b@[j]),
        decreases n - i,
    {
        if lower_char(a.get_char(i)) != lower_char(b.get_char(i)) {
            assert(spec_lower(a@)[i as int] != spec_lower(b@)[i as int]);
            return false;
        }
        i += 1;
    }
    assert(spec_lower(a@) =~= spec_lower(b@));
    true
}

/// Copies the characters of a string slice into a vector.
pub fn chars_of(s: &str) -> (r: Vec<char>)
    ensures
        r@ == s@,
{
    let n = s.unicode_len();
    let mut r: Vec<char> = Vec::new();
    let mut i: usize = 0;
    while i < n
        invariant
            n == s@.len(),
            i <= n,
            r@ == s@.take(i as int),
        decreases n - i,
    {
        r.push(s.get_char(i));
        assert(r@ =~= s@.take(i + 1));
        i += 1;
    }
    assert(r@ =~= s@);
    r
}

/// Lower-cases every character of a vector.
pub fn lower_chars(v: &Vec<char>) -> (r: Vec<char>)
    ensures
        r@ == spec_lower(v@),
{
    let mut r: Vec<char> = Vec::new();
    let mut i: usize = 0;
    while i < v.len()
        invariant
            i <= v@.len(),
            r@.len() == i,
            forall|j: int| 0 <= j < i ==> r@[j] == spec_lower_char(v@[j]),
        decreases v.len() - i,
    {
        r.push(lower_char(v[i]));
        i += 1;
    }
    assert(r@ =~= spec_lower(v@));
    r
}

/// Whether two character vectors hold the same characters.
pub fn eq_chars(a: &Vec<char>, b: &Vec<char>) -> (r: bool)
    ensures
        r == (a@ == b@),
{
    if a.len() != b.len() {
        return false;
    }
    let mut i: usize = 0;
    while i < a.len()
        invariant
            a@.len() == b@.len(),
            i <= a@.len(),
            forall|j: int| 0 <= j < i ==> a@[j] == b@[j],
        decreases a.len() - i,
    {
        if a[i] != b[i] {
            return false;
        }
        i += 1;
    }
    assert(a@ =~= b@);
    true
}

/// Lexicographic order on character sequences, comparing scalar values.
pub open spec fn spec_seq_le(x: Seq<char>, y: Seq<char>) -> bool
    decreases x.len(),
{
    if x.len() == 0 {
        true
    } else if y.len() == 0 {
        false
    } else if x.first() == y.first() {
        spec_seq_le(x.drop_first(), y.drop_first())
    } else {
        (x.first() as u32) < (y.first() as u32)
    }
}

/// Decides the lexicographic order on two character vectors.
pub fn le_chars(a: &Vec<char>, b: &Vec<char>) -> (r: bool)
    ensures
        r == spec_seq_le(a@, b@),
{
    let mut i: usize = 0;
    assert(a@.skip(0) =~= a@);
    assert(b@.skip(0) =~= b@);
    while i < a.len() && i < b.len()
        invariant
            i <= a@.len(),
            i <= b@.len(),
            spec_seq_le(a@, b@) == spec_seq_le(a@.skip(i as int), b@.skip(i as int)),
            forall|j: int| 0 <= j < i ==> a@[j] == b@[j],
        decreases a.len() - i,
    {
        let ghost xa = a@.skip(i as int);
        let ghost xb = b@.skip(i as int);
        if a[i] != b[i] {
            assert(xa.first() == a@[i as int] && xb.first() == b@[i as int]);
            return (a[i] as u32) < (b[i] as u32);
        }
        assert(xa.drop_first() =~= a@.skip(i + 1));
        assert(xb.drop_first() =~= b@.skip(i + 1));
        i += 1;
    }
    if i >= a.len() {
        assert(a@.skip(i as int) =~= Seq::<char>::empty());
        return true;
    }
    assert(b@.skip(i as int) =~= Seq::<char>::empty());
    assert(a@.skip(i as int).len() > 0);
    false
}

/// Whether `c` is an ASCII decimal digit.
pub open spec fn spec_is_digit(c: char) -> bool {
    48 <= c as u32 && c as u32 <= 57
}

/// Whether every character of `s` is an ASCII decimal digit.
pub open spec fn spec_all_digits(s: Seq<char>) -> bool {
    forall|i: int| 0 <= i < s.len() ==> spec_is_digit(#[trigger] s[i])
}

/// The numeric value of a digit character.
pub open spec fn spec_digit_val(c: char) -> nat {
    (c as u32 - 48) as nat
}

/// The value of a decimal digit string.
pub open spec fn spec_digits_val(s: Seq<char>) -> nat
    decreases s.len(),
{
    if s.len() == 0 {
        0
    } else {
        spec_digits_val(s.drop_last()) * 10 + spec_digit_val(s.last())
    }
}

/// The number a nonempty all-digit string denotes, if it fits in `u64`.
pub open spec fn spec_parse_u64(s: Seq<char>) -> Option<u64> {
    if s.len() > 0 && spec_all_digits(s) && spec_digits_val(s) <= u64::MAX {
        Some(spec_digits_val(s) as u64)
    } else {
        None
    }
}

proof fn lemma_digits_val_prefix_le(s: Seq<char>, j: int)
    requires
        0 <= j <= s.len(),
    ensures
        spec_digits_val(s.take(j)) <= spec_digits_val(s),
    decreases s.len() - j,
{
    if j < s.len() {
        lemma_digits_val_prefix_le(s, j + 1);
        assert(s.take(j + 1).drop_last() =~= s.take(j));
        assert(spec_digits_val(s.take(j)) <= spec_digits_val(s.take(j)) * 10 + spec_digit_val(
            s.take(j + 1).last(),
        )) by (nonlinear_arith);
    } else {
        assert(s.take(j) =~= s);
    }
}

/// Parses a nonempty all-digit character sequence as a `u64`; anything else,
/// or a value beyond `u64`, yields `None`.
pub fn parse_u64_chars(v: &Vec<char>) -> (r: Option<u64>)
    ensures
        r == spec_parse_u64(v@),
{
    if v.len() == 0 {
        return None;
    }
    let mut acc: u64 = 0;
    let mut i: usize = 0;
    while i < v.len()
        invariant
            i <= v.len(),
            spec_all_digits(v@.take(i as int)),
            acc == spec_digits_val(v@.take(i as int)),
        decreases v.len() - i,
    {
        let c = v[i];
        let cv = c as u32;
        if !(48 <= cv && cv <= 57) {
            assert(!spec_all_digits(v@));
            return None;
        }
        let d = (cv - 48) as u64;
        assert(v@.take(i + 1).drop_last() =~= v@.take(i as int));
        if acc > (u64::MAX - d) / 10 {
            proof {
                assert(spec_digits_val(v@.take(i + 1)) > u64::MAX) by (nonlinear_arith)
                    requires
                        spec_digits_val(v@.take(i + 1)) == acc * 10 + d,
                        acc > (u64::MAX - d) / 10,
                        d < 10,
                ;
                lemma_digits_val_prefix_le(v@, i + 1);
            }
            return None;
        }
        assert(acc * 10 + d <= u64::MAX) by (nonlinear_arith)
            requires
                acc <= (u64::MAX - d) / 10,
                d < 10,
        ;
        acc = acc * 10 + d;
        i += 1;
    }
    assert(v@.take(v@.len() as int) =~= v@);
    Some(acc)
}

/// Decimal digits of `n`, most significant first, without leading zeroes
/// (`0` denotes itself).
pub open spec fn spec_dec(n: nat) -> Seq<char>
    decreases n,
{
    if n < 10 {
        seq![((n + 48) as u8) as char]
    } else {
        spec_dec(n / 10).push((((n % 10) + 48) as u8) as char)
    }
}

/// `spec_dec` left-padded with zeroes to at least `width` characters.
pub open spec fn spec_dec_pad(n: nat, width: nat) -> Seq<char> {
    if spec_dec(n).len() >= width {
        spec_dec(n)
    } else {
        Seq::new((width - spec_dec(n).len()) as nat, |i: int| '0') + spec_dec(n)
    }
}

/// Appends the decimal digits of `n` to `out`.
pub fn push_dec_u64(n: u64, out: &mut Vec<char>)
    ensures
        final(out)@ == old(out)@ + spec_dec(n as nat),
    decreases n,
{
    if n >= 10 {
        assert(n / 10 < n) by (nonlinear_arith)
            requires
                n >= 10,
        ;
        push_dec_u64(n / 10, out);
    }
    let d = n % 10;
    out.push(((d + 48) as u8) as char);
    assert(final(out)@ =~= old(out)@ + spec_dec(n as nat));
}

/// The decimal digits of `n`, left-padded with zeroes to at least `width`.
pub fn fmt_dec_u64_pad(n: u64, width: usize) -> (r: Vec<char>)
    ensures
        r@ == spec_dec_pad(n as nat, width as nat),
{
    let mut digits: Vec<char> = Vec::new();
    push_dec_u64(n, &mut digits);
    assert(digits@ == spec_dec(n as nat));
    if digits.len() >= width {
        return digits;
    }
    let mut r: Vec<char> = Vec::new();
    let pad = width - digits.len();
    let mut i: usize = 0;
    while i < pad
        invariant
            i <= pad,
            r@ =~= Seq::new(i as nat, |j: int| '0'),
        decreases pad - i,
    {
        r.push('0');
        assert(r@ =~= Seq::new((i + 1) as nat, |j: int| '0'));
        i += 1;
    }
    r.append(&mut digits);
    assert(r@ =~= spec_dec_pad(n as nat, width as nat));
    r
}

/// Ten to the `k`.
pub open spec fn spec_pow10(k: nat) -> nat
    decreases k,
{
    if k == 0 {
        1
    } else {
        10 * spec_pow10((k - 1) as nat)
    }
}

/// The decimal rendering of `n` is all digits, nonempty, and denotes `n`.
pub proof fn lemma_dec_digits(n: nat)
    ensures
        spec_all_digits(spec_dec(n)),
        spec_digits_val(spec_dec(n)) == n,
        spec_dec(n).len() >= 1,
    decreases n,
{
    let d = n % 10;
    let c = (((d + 48) as u8) as char);
    assert(c as u32 == d + 48);
    if n < 10 {
        assert(spec_dec(n) =~= seq![c]);
        assert(seq![c].len() == 1);
        assert(seq![c].last() == c);
        assert(seq![c].drop_last() =~= Seq::<char>::empty());
        assert(spec_digits_val(Seq::<char>::empty()) == 0);
        assert(spec_digits_val(seq![c]) == spec_digits_val(seq![c].drop_last()) * 10
            + spec_digit_val(seq![c].last()));
        assert(spec_digits_val(seq![c]) == spec_digit_val(c));
    } else {
        lemma_dec_digits(n / 10);
        assert(spec_dec(n) == spec_dec(n / 10).push(c));
        assert(spec_dec(n).drop_last() =~= spec_dec(n / 10));
        assert(spec_digits_val(spec_dec(n)) == (n / 10) * 10 + d);
        assert((n / 10) * 10 + n % 10 == n) by (nonlinear_arith);
        assert forall|i: int|
            0 <= i < spec_dec(n).len() implies spec_is_digit(#[trigger] spec_dec(n)[i]) by {
            if i < spec_dec(n / 10).len() {
                assert(spec_dec(n)[i] == spec_dec(n / 10)[i]);
            } else {
                assert(spec_dec(n)[i] == c);
            }
        }
    }
}

/// A number below ten to the `k` renders in at most `k` digits.
pub proof fn lemma_dec_len_bound(n: nat, k: nat)
    requires
        k >= 1,
        n < spec_pow10(k),
    ensures
        spec_dec(n).len() <= k,
    decreases n,
{
    if n >= 10 {
        assert(spec_pow10(1) == 10 * spec_pow10(0));
        assert(spec_pow10(0) == 1);
        if k == 1 {
            assert(false);
        }
        assert(spec_pow10(k) == 10 * spec_pow10((k - 1) as nat));
        assert(n / 10 < spec_pow10((k - 1) as nat)) by (nonlinear_arith)
            requires
                n < 10 * spec_pow10((k - 1) as nat),
        ;
        assert(n / 10 < n) by (nonlinear_arith)
            requires
                n >= 10,
        ;
        lemma_dec_len_bound(n / 10, (k - 1) as nat);
    }
}

/// Leading zeroes do not change a digit string's value.
proof fn lemma_digits_val_leading_zeros(k: nat, s: Seq<char>)
    ensures
        spec_digits_val(Seq::new(k, |i: int| '0') + s) == spec_digits_val(s),
    decreases s.len(),
{
    let z = Seq::new(k, |i: int| '0');
    if s.len() == 0 {
        assert(z + s =~= z);
        lemma_digits_val_all_zeros(k);
    } else {
        lemma_digits_val_leading_zeros(k, s.drop_last());
        assert((z + s).drop_last() =~= z + s.drop_last());
        assert((z + s).last() == s.last());
    }
}

proof fn lemma_digits_val_all_zeros(k: nat)
    ensures
        spec_digits_val(Seq::new(k, |i: int| '0')) == 0,
    decreases k,
{
    let z = Seq::new(k, |i: int| '0');
    if k > 0 {
        lemma_digits_val_all_zeros((k - 1) as nat);
        assert(z.drop_last() =~= Seq::new((k - 1) as nat, |i: int| '0'));
        assert(z.last() == '0');
        assert('0' as u32 == 48);
    }
}

/// The zero-padded rendering is all digits, at least `w` long, and still
/// denotes `n`.
pub proof fn lemma_dec_pad_digits(n: nat, w: nat)
    ensures
        spec_all_digits(spec_dec_pad(n, w)),
        spec_digits_val(spec_dec_pad(n, w)) == n,
        spec_dec_pad(n, w).len() >= w,
        spec_dec_pad(n, w).len() >= spec_dec(n).len(),
{
    lemma_dec_digits(n);
    if spec_dec(n).len() < w {
        let k = (w - spec_dec(n).len()) as nat;
        let z = Seq::new(k, |i: int| '0');
        lemma_digits_val_leading_zeros(k, spec_dec(n));
        assert('0' as u32 == 48);
        assert forall|i: int|
            0 <= i < spec_dec_pad(n, w).len() implies spec_is_digit(
                #[trigger] spec_dec_pad(n, w)[i],
            ) by {
            if i < k {
                assert(spec_dec_pad(n, w)[i] == '0');
            } else {
                assert(spec_dec_pad(n, w)[i] == spec_dec(n)[i - k]);
            }
        }
    }
}

/// The value of a concatenation of digit strings.
pub proof fn lemma_digits_val_concat(a: Seq<char>, b: Seq<char>)
    ensures
        spec_digits_val(a + b) == spec_digits_val(a) * spec_pow10(b.len()) + spec_digits_val(b),
    decreases b.len(),
{
    if b.len() == 0 {
        assert(a + b =~= a);
        assert(spec_pow10(0) == 1);
        assert(spec_digits_val(a) * 1 == spec_digits_val(a)) by (nonlinear_arith);
    } else {
        lemma_digits_val_concat(a, b.drop_last());
        assert((a + b).drop_last() =~= a + b.drop_last());
        assert((a + b).last() == b.last());
        let p = spec_pow10((b.len() - 1) as nat);
        assert(spec_pow10(b.len()) == 10 * p);
        assert((spec_digits_val(a) * p + spec_digits_val(b.drop_last())) * 10 + spec_digit_val(
            b.last(),
        ) == spec_digits_val(a) * (10 * p) + (spec_digits_val(b.drop_last()) * 10 + spec_digit_val(
            b.last(),
        ))) by (nonlinear_arith);
    }
}

/// `spec_find_char` skips over a prefix free of the character.
pub proof fn lemma_find_char_concat(a: Seq<char>, b: Seq<char>, c: char)
    requires
        forall|i: int| 0 <= i < a.len() ==> a[i] != c,
    ensures
        spec_find_char(a + b, c) == a.len() + spec_find_char(b, c),
    decreases a.len(),
{
    if a.len() == 0 {
        assert(a + b =~= b);
    } else {
        assert((a + b).first() == a.first());
        assert(a[0] != c);
        assert forall|i: int|
            0 <= i < a.drop_first().len() implies a.drop_first()[i] != c by {
            assert(a.drop_first()[i] == a[i + 1]);
        }
        lemma_find_char_concat(a.drop_first(), b, c);
        assert((a + b).drop_first() =~= a.drop_first() + b);
    }
}

/// Whether `c` is an ASCII blank: space, tab, carriage return or newline.
pub open spec fn spec_is_space(c: char) -> bool {
    c == ' ' || c == '\t' || c == '\r' || c == '\n'
}

/// `s` without its leading blanks.
pub open spec fn spec_trim_start(s: Seq<char>) -> Seq<char>
    decreases s.len(),
{
    if s.len() > 0 && spec_is_space(s.first()) {
        spec_trim_start(s.drop_first())
    } else {
        s
    }
}

/// `s` without its trailing blanks.
pub open spec fn spec_trim_end(s: Seq<char>) -> Seq<char>
    decreases s.len(),
{
    if s.len() > 0 && spec_is_space(s.last()) {
        spec_trim_end(s.drop_last())
    } else {
        s
    }
}

/// `s` without leading and trailing blanks.
pub open spec fn spec_trim(s: Seq<char>) -> Seq<char> {
    spec_trim_end(spec_trim_start(s))
}

/// Whether `c` is an ASCII blank (executable form).
pub fn is_space(c: char) -> (r: bool)
    ensures
        r == spec_is_space(c),
{
    c == ' ' || c == '\t' || c == '\r' || c == '\n'
}

/// Removes leading and trailing blanks.
pub fn trim_chars(v: &Vec<char>) -> (r: Vec<char>)
    ensures
        r@ == spec_trim(v@),
{
    let mut a: usize = 0;
    assert(v@.skip(0) =~= v@);
    while a < v.len() && is_space(v[a])
        invariant
            a <= v.len(),
            spec_trim_start(v@) == spec_trim_start(v@.skip(a as int)),
        decreases v.len() - a,
    {
        assert(v@.skip(a as int).drop_first() =~= v@.skip(a + 1));
        a += 1;
    }
    let ghost t = v@.skip(a as int);
    proof {
        if a < v.len() {
            assert(spec_trim_start(v@) == t);
        } else {
            assert(t =~= Seq::<char>::empty());
            assert(spec_trim_start(v@) == t);
        }
    }
    let mut b: usize = v.len();
    while b > a && is_space(v[b - 1])
        invariant
            a <= b <= v.len(),
            spec_trim_end(t) == spec_trim_end(v@.subrange(a as int, b as int)),
        decreases b,
    {
        assert(v@.subrange(a as int, b as int).drop_last() =~= v@.subrange(a as int, b - 1));
        b -= 1;
    }
    proof {
        let u = v@.subrange(a as int, b as int);
        if b > a {
            assert(u.last() == v@[b - 1]);
            assert(spec_trim_end(u) == u);
        } else {
            assert(u =~= Seq::<char>::empty());
            assert(spec_trim_end(u) == u);
        }
    }
    let mut r: Vec<char> = Vec::new();
    let mut i: usize = a;
    while i < b
        invariant
            a <= i <= b <= v.len(),
            r@ =~= v@.subrange(a as int, i as int),
        decreases b - i,
    {
        r.push(v[i]);
        assert(r@ =~= v@.subrange(a as int, i + 1));
        i += 1;
    }
    assert(r@ =~= v@.subrange(a as int, b as int));
    r
}

/// Removes trailing blanks from a string slice.
pub fn trim_end_str(s: &str) -> (r: String)
    ensures
        r@ == spec_trim_end(s@),
{
    let v = chars_of(s);
    let mut b: usize = v.len();
    assert(v@.take(b as int) =~= v@);
    while b > 0 && is_space(v[b - 1])
        invariant
            b <= v@.len(),
            spec_trim_end(v@) == spec_trim_end(v@.take(b as int)),
        decreases b,
    {
        assert(v@.take(b as int).last() == v@[b - 1]);
        assert(v@.take(b as int).drop_last() =~= v@.take(b - 1));
        b -= 1;
    }
    proof {
        if b > 0 {
            assert(v@.take(b as int).last() == v@[b - 1]);
            assert(spec_trim_end(v@.take(b as int)) == v@.take(b as int));
        } else {
            assert(v@.take(0) =~= Seq::<char>::empty());
        }
    }
    let r = sub_chars(&v, 0, b);
    assert(r@ =~= v@.take(b as int));
    string_from_chars(&r)
}

/// The first index at or after `from` holding `c`, if any.
pub fn find_char_from(v: &Vec<char>, c: char, from: usize) -> (r: Option<usize>)
    requires
        from <= v@.len(),
    ensures
        match r {
            Some(i) => from <= i < v@.len() && v@[i as int] == c && forall|j: int|
                from <= j < i ==> v@[j] != c,
            None => forall|j: int| from <= j < v@.len() ==> v@[j] != c,
        },
{
    let mut i: usize = from;
    while i < v.len()
        invariant
            from <= i <= v@.len(),
            forall|j: int| from <= j < i ==> v@[j] != c,
        decreases v.len() - i,
    {
        if v[i] == c {
            return Some(i);
        }
        i += 1;
    }
    None
}

/// Whether `p` is a prefix of `s`.
pub open spec fn spec_starts_with(s: Seq<char>, p: Seq<char>) -> bool {
    s.len() >= p.len() && s.take(p.len() as int) == p
}

/// Whether the string slice `s` starts with `p`.
pub fn starts_with_str(s: &str, p: &str) -> (r: bool)
    ensures
        r == spec_starts_with(s@, p@),
{
    let n = p.unicode_len();
    if s.unicode_len() < n {
        return false;
    }
    let mut i: usize = 0;
    while i < n
        invariant
            n == p@.len(),
            n <= s@.len(),
            i <= n,
            forall|j: int| 0 <= j < i ==> s@[j] == p@[j],
        decreases n - i,
    {
        if s.get_char(i) != p.get_char(i) {
            assert(s@.take(p@.len() as int)[i as int] != p@[i as int]);
            return false;
        }
        i += 1;
    }
    assert(s@.take(p@.len() as int) =~= p@);
    true
}

/// Whether `p` occurs in `v` at position `at`.
pub fn match_at(v: &Vec<char>, p: &Vec<char>, at: usize) -> (r: bool)
    requires
        at <= v@.len(),
    ensures
        r == spec_starts_with(v@.skip(at as int), p@),
{
    if v.len() - at < p.len() {
        return false;
    }
    let mut i: usize = 0;
    while i < p.len()
        invariant
            at + p@.len() <= v@.len(),
            i <= p@.len(),
            forall|j: int| 0 <= j < i ==> v@[at + j] == p@[j],
        decreases p.len() - i,
    {
        assert(at + i < v.len());
        if v[at + i] != p[i] {
            assert(v@.skip(at as int).take(p@.len() as int)[i as int] != p@[i as int]);
            return false;
        }
        i += 1;
    }
    assert(v@.skip(at as int).take(p@.len() as int) =~= p@);
    true
}

/// `s` with every left-to-right, non-overlapping occurrence of `p` removed.
pub open spec fn spec_remove_all(s: Seq<char>, p: Seq<char>) -> Seq<char>
    decreases s.len(),
    when p.len() > 0
{
    if s.len() == 0 {
        s
    } else if spec_starts_with(s, p) {
        spec_remove_all(s.skip(p.len() as int), p)
    } else {
        seq![s.first()] + spec_remove_all(s.drop_first(), p)
    }
}

/// Removes every left-to-right, non-overlapping occurrence of `p`.
pub fn remove_all(v: &Vec<char>, p: &Vec<char>) -> (r: Vec<char>)
    requires
        p@.len() > 0,
    ensures
        r@ == spec_remove_all(v@, p@),
{
    let mut out: Vec<char> = Vec::new();
    let mut i: usize = 0;
    assert(v@.skip(0) =~= v@);
    assert(out@ + spec_remove_all(v@, p@) =~= spec_remove_all(v@, p@));
    while i < v.len()
        invariant
            p@.len() > 0,
            i <= v@.len(),
            spec_remove_all(v@, p@) =~= out@ + spec_remove_all(v@.skip(i as int), p@),
        decreases v.len() - i,
    {
        if match_at(v, p, i) {
            assert(v@.skip(i as int).skip(p@.len() as int) =~= v@.skip(i + p@.len()));
            i += p.len();
        } else {
            assert(v@.skip(i as int).drop_first() =~= v@.skip(i + 1));
            assert(v@.skip(i as int).first() == v@[i as int]);
            out.push(v[i]);
            i += 1;
        }
    }
    assert(v@.skip(v@.len() as int) =~= Seq::<char>::empty());
    assert(out@ =~= spec_remove_all(v@, p@));
    out
}

/// Index of the first occurrence of `c` in `s`, or `s.len()` when absent.
pub open spec fn spec_find_char(s: Seq<char>, c: char) -> int
    decreases s.len(),
{
    if s.len() == 0 {
        0
    } else if s.first() == c {
        0
    } else {
        1 + spec_find_char(s.drop_first(), c)
    }
}

/// `spec_find_char` stays within `0 ..= s.len()`.
pub proof fn lemma_find_char_bounds(s: Seq<char>, c: char)
    ensures
        0 <= spec_find_char(s, c) <= s.len(),
    decreases s.len(),
{
    if s.len() > 0 && s.first() != c {
        lemma_find_char_bounds(s.drop_first(), c);
    }
}

/// Pins `spec_find_char` down from positional facts: no occurrence before
/// `k`, and one at `k` unless `k` is the length.
pub proof fn lemma_find_char_at(s: Seq<char>, c: char, k: int)
    requires
        0 <= k <= s.len(),
        forall|j: int| 0 <= j < k ==> s[j] != c,
        k < s.len() ==> s[k] == c,
    ensures
        spec_find_char(s, c) == if k < s.len() {
            k
        } else {
            s.len() as int
        },
    decreases s.len(),
{
    if s.len() > 0 && s.first() != c {
        lemma_find_char_at(s.drop_first(), c, k - 1);
    }
}

/// The lines of `s`, split on `\n`; the separator is dropped, and a trailing
/// separator yields a final empty line.
pub open spec fn spec_split_lines(s: Seq<char>) -> Seq<Seq<char>>
    decreases s.len(),
    via spec_split_lines_decreases
{
    let i = spec_find_char(s, '\n');
    if i >= s.len() {
        seq![s]
    } else {
        seq![s.take(i)] + spec_split_lines(s.skip(i + 1))
    }
}

#[via_fn]
proof fn spec_split_lines_decreases(s: Seq<char>) {
    lemma_find_char_bounds(s, '\n');
}

/// Splits `v` into its lines on `\n`.
pub fn split_lines(v: &Vec<char>) -> (r: Vec<Vec<char>>)
    ensures
        r@.map_values(|l: Vec<char>| l@) == spec_split_lines(v@),
{
    let mut r: Vec<Vec<char>> = Vec::new();
    let mut start: usize = 0;
    assert(v@.skip(0) =~= v@);
    assert(r@.map_values(|l: Vec<char>| l@) =~= Seq::<Seq<char>>::empty());
    loop
        invariant
            start <= v@.len(),
            spec_split_lines(v@) =~= r@.map_values(|l: Vec<char>| l@) + spec_split_lines(
                v@.skip(start as int),
            ),
        decreases v@.len() - start,
    {
        let ghost rest = v@.skip(start as int);
        match find_char_from(v, '\n', start) {
            Some(i) => {
                proof {
                    assert(forall|j: int| 0 <= j < i - start ==> rest[j] != '\n');
                    lemma_find_char_at(rest, '\n', i - start);
                    assert(rest.take(i - start) =~= v@.subrange(start as int, i as int));
                    assert(rest.skip(i - start + 1) =~= v@.skip(i + 1));
                }
                let line = sub_chars(v, start, i);
                r.push(line);
                assert(i < v.len());
                start = i + 1;
            },
            None => {
                proof {
                    assert(forall|j: int| 0 <= j < rest.len() ==> rest[j] != '\n');
                    lemma_find_char_at(rest, '\n', rest.len() as int);
                    assert(rest =~= v@.subrange(start as int, v@.len() as int));
                }
                let line = sub_chars(v, start, v.len());
                r.push(line);
                assert(r@.map_values(|l: Vec<char>| l@) =~= spec_split_lines(v@));
                return r;
            },
        }
    }
}

/// A copy of `v[a..b]`.
pub fn sub_chars(v: &Vec<char>, a: usize, b: usize) -> (r: Vec<char>)
    requires
        a <= b <= v@.len(),
    ensures
        r@ == v@.subrange(a as int, b as int),
{
    let mut r: Vec<char> = Vec::new();
    let mut i: usize = a;
    while i < b
        invariant
            a <= i <= b <= v@.len(),
            r@ =~= v@.subrange(a as int, i as int),
        decreases b - i,
    {
        r.push(v[i]);
        assert(r@ =~= v@.subrange(a as int, i + 1));
        i += 1;
    }
    r
}

} // verus!
