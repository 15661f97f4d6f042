//! Character-level helpers over `&str` and `String`, stated over `Seq<char>`.

use vstd::prelude::*;

verus! {

/// `String::push`: appends one character.
#[verifier::external_body]
pub(crate) fn push_char(s: &mut String, c: char)
    ensures
        final(s)@ == old(s)@.push(c),
{
    s.push(c);
}

/// The characters of `s`, one by one.
pub fn chars_of(s: &str) -> (v: Vec<char>)
    ensures
        v@ == s@,
{
    let n = s.unicode_len();
    let mut v: Vec<char> = Vec::new();
    let mut i: usize = 0;
    while i < n
        invariant
            n == s@.len(),
            i <= n,
            v@ == s@.subrange(0, i as int),
        decreases n - i,
    {
        v.push(s.get_char(i));
        i = i + 1;
    }
    v
}

/// A `String` holding exactly the characters of `v`.
pub fn string_of(v: &[char]) -> (s: String)
    ensures
        s@ == v@,
{
    let mut s = String::new();
    let mut i: usize = 0;
    while i < v.len()
        invariant
            i <= v@.len(),
            s@ == v@.subrange(0, i as int),
        decreases v@.len() - i,
    {
        push_char(&mut s, v[i]);
        i = i + 1;
    }
    s
}

/// Whether two character sequences are equal.
pub fn chars_eq(a: &[char], b: &[char]) -> (r: bool)
    ensures
        r == (a@ == b@),
{
    if a.len() != b.len() {
        return false;
    }
    let mut i: usize = 0;
    while i < a.len()
        invariant
            a@.len() == b@.len(),
            i <= a@.len(),
            forall|k: int| 0 <= k < i ==> a@[k] == b@[k],
        decreases a@.len() - i,
    {
        if a[i] != b[i] {
            return false;
        }
        i = i + 1;
    }
    assert(a@ =~= b@);
    true
}

/// Whether two strings hold the same characters.
pub fn str_eq(a: &str, b: &str) -> (r: bool)
    ensures
        r == (a@ == b@),
{
    let va = chars_of(a);
    let vb = chars_of(b);
    chars_eq(va.as_slice(), vb.as_slice())
}

/// `p` is a prefix of `s`.
pub open spec fn has_prefix(s: Seq<char>, p: Seq<char>) -> bool {
    p.len() <= s.len() && s.subrange(0, p.len() as int) == p
}

/// `p` is a suffix of `s`.
pub open spec fn has_suffix(s: Seq<char>, p: Seq<char>) -> bool {
    p.len() <= s.len() && s.subrange(s.len() - p.len(), s.len() as int) == p
}

/// Whether `p` is a prefix of `s`.
pub fn starts_with(s: &[char], p: &[char]) -> (r: bool)
    ensures
        r == has_prefix(s@, p@),
{
    if p.len() > s.len() {
        return false;
    }
    let mut i: usize = 0;
    while i < p.len()
        invariant
            p@.len() <= s@.len(),
            i <= p@.len(),
            forall|k: int| 0 <= k < i ==> s@[k] == p@[k],
        decreases p@.len() - i,
    {
        if s[i] != p[i] {
            assert(s@.subrange(0, p@.len() as int)[i as int] != p@[i as int]);
            return false;
        }
        i = i + 1;
    }
    assert(s@.subrange(0, p@.len() as int) =~= p@);
    true
}

/// Whether `p` is a suffix of `s`.
pub fn ends_with(s: &[char], p: &[char]) -> (r: bool)
    ensures
        r == has_suffix(s@, p@),
{
    if p.len() > s.len() {
        return false;
    }
    let n = s.len();
    let off = n - p.len();
    let mut i: usize = 0;
    while i < p.len()
        invariant
            n == s@.len(),
            p@.len() <= s@.len(),
            off + p@.len() == s@.len(),
            i <= p@.len(),
            forall|k: int| 0 <= k < i ==> s@[off + k] == p@[k],
        decreases p@.len() - i,
    {
        if s[off + i] != p[i] {
            assert(s@.subrange(off as int, s@.len() as int)[i as int] != p@[i as int]);
            return false;
        }
        i = i + 1;
    }
    assert(s@.subrange(off as int, s@.len() as int) =~= p@);
    true
}

/// ASCII lower-casing of one character: `'A'..='Z'` become `'a'..='z'`.
pub open spec fn lower_char(c: char) -> char {
    if 'A' <= c && c <= 'Z' {
        ((c as u32) + 32) as char
    } else {
        c
    }
}

/// ASCII lower-casing of a whole sequence (what `to_ascii_lowercase` does).
pub open spec fn ascii_lower(s: Seq<char>) -> Seq<char> {
    s.map_values(|c: char| lower_char(c))
}

/// ASCII lower-casing of one character.
pub fn to_lower_char(c: char) -> (r: char)
    ensures
        r == lower_char(c),
{
    if 'A' <= c && c <= 'Z' {
        let u: u32 = c as u32;
        assert(65 <= u <= 90);
        let b: u8 = (u + 32) as u8;
        b as char
    } else {
        c
    }
}

/// ASCII lower-casing of a character sequence.
pub fn lower_chars(s: &[char]) -> (r: Vec<char>)
    ensures
        r@ == ascii_lower(s@),
{
    let mut r: Vec<char> = Vec::new();
    let mut i: usize = 0;
    while i < s.len()
        invariant
            i <= s@.len(),
            r@ == ascii_lower(s@.subrange(0, i as int)),
        decreases s@.len() - i,
    {
        r.push(to_lower_char(s[i]));
        proof {
            assert(ascii_lower(s@.subrange(0, i + 1)) =~= ascii_lower(s@.subrange(0, i as int)).push(
                lower_char(s@[i as int]),
            ));
        }
        i = i + 1;
    }
    assert(s@.subrange(0, s@.len() as int) =~= s@);
    r
}

/// `str::to_ascii_lowercase`, stated over the characters.
pub fn to_ascii_lowercase(s: &str) -> (r: String)
    ensures
        r@ == ascii_lower(s@),
{
    let v = chars_of(s);
    let l = lower_chars(v.as_slice());
    string_of(l.as_slice())
}

/// The character of a decimal digit `0..=9`.
pub open spec fn digit_char(d: nat) -> char {
    ((d + 48) as u32) as char
}

/// The value of a decimal digit character.
pub open spec fn digit_value(c: char) -> nat {
    ((c as u32) - 48) as nat
}

/// `c` is one of `'0'..='9'`.
pub open spec fn is_digit(c: char) -> bool {
    '0' <= c && c <= '9'
}

/// Every character of `s` is a decimal digit.
pub open spec fn all_digits(s: Seq<char>) -> bool {
    forall|i: int| 0 <= i < s.len() ==> is_digit(#[trigger] s[i])
}

/// The number that a run of decimal digits denotes.
pub open spec fn decimal_value(s: Seq<char>) -> nat
    decreases s.len(),
{
    if s.len() == 0 {
        0
    } else {
        decimal_value(s.drop_last()) * 10 + digit_value(s.last())
    }
}

/// The shortest decimal writing of `n`, as `to_string` on an integer gives it.
pub open spec fn decimal(n: nat) -> Seq<char>
    decreases n,
{
    if n < 10 {
        seq![digit_char(n)]
    } else {
        decimal(n / 10).push(digit_char(n % 10))
    }
}

/// What `str::parse::<u32>` gives: an optional leading `+`, then one or more
/// decimal digits whose value fits in a `u32`; anything else is refused.
pub open spec fn parse_u32_spec(s: Seq<char>) -> Option<u32> {
    let d = if s.len() > 0 && s[0] == '+' {
        s.drop_first()
    } else {
        s
    };
    if d.len() > 0 && all_digits(d) && decimal_value(d) <= u32::MAX {
        Some(decimal_value(d) as u32)
    } else {
        None
    }
}

/// The digit character of `d` denotes `d`.
pub proof fn lemma_digit_roundtrip(d: nat)
    requires
        d < 10,
    ensures
        digit_value(digit_char(d)) == d,
        is_digit(digit_char(d)),
{
    assert(((d + 48) as u32) as char as u32 == (d + 48) as u32);
}

/// A decimal writing is made of digits, never starts with `+`, and denotes its number.
pub proof fn lemma_decimal(n: nat)
    ensures
        decimal(n).len() > 0,
        all_digits(decimal(n)),
        decimal_value(decimal(n)) == n,
        is_digit(decimal(n)[0]),
    decreases n,
{
    lemma_digit_roundtrip(n % 10);
    if n >= 10 {
        lemma_decimal(n / 10);
        let d = decimal(n / 10);
        assert(decimal(n).drop_last() =~= d);
        assert(decimal(n)[0] == d[0]);
        assert(decimal(n).last() == digit_char(n % 10));
        assert(decimal_value(decimal(n)) == decimal_value(d) * 10 + digit_value(digit_char(n % 10)));
        assert((n / 10) * 10 + n % 10 == n);
    } else {
        assert(decimal(n).drop_last() =~= Seq::<char>::empty());
        assert(decimal_value(Seq::<char>::empty()) == 0);
        assert(decimal(n).last() == digit_char(n));
        assert(n % 10 == n);
    }
}

/// Parsing the decimal writing of a `u32` gives the number back.
pub proof fn lemma_parse_decimal(n: u32)
    ensures
        parse_u32_spec(decimal(n as nat)) == Some(n),
{
    lemma_decimal(n as nat);
}

/// Appends the decimal writing of `n` (what `n.to_string()` gives).
pub fn push_decimal(s: &mut String, n: u32)
    ensures
        final(s)@ == old(s)@ + decimal(n as nat),
    decreases n,
{
    if n >= 10 {
        push_decimal(s, n / 10);
    }
    let d: u32 = n % 10;
    let b: u8 = (d + 48) as u8;
    push_char(s, b as char);
    proof {
        if n >= 10 {
            assert(decimal(n as nat) == decimal((n / 10) as nat).push(digit_char((n % 10) as nat)));
        }
    }
    assert(final(s)@ =~= old(s)@ + decimal(n as nat)) by {
        if n >= 10 {
            assert(decimal(n as nat) == decimal((n / 10) as nat).push(digit_char((n % 10) as nat)));
        }
    }
}

/// `u32::to_string`.
pub fn decimal_string(n: u32) -> (r: String)
    ensures
        r@ == decimal(n as nat),
{
    let mut s = String::new();
    push_decimal(&mut s, n);
    assert(s@ =~= decimal(n as nat));
    s
}

/// `str::parse::<u32>`, with the error dropped.
pub fn parse_u32(s: &str) -> (r: Option<u32>)
    ensures
        r == parse_u32_spec(s@),
{
    let v = chars_of(s);
    let n = v.len();
    let start: usize = if n > 0 && v[0] == '+' { 1 } else { 0 };
    let ghost d = if s@.len() > 0 && s@[0] == '+' { s@.drop_first() } else { s@ };
    assert(d =~= v@.subrange(start as int, n as int));
    if start == n {
        return None;
    }
    let mut acc: u64 = 0;
    let mut i: usize = start;
    while i < n
        invariant
            n == v@.len(),
            start <= i <= n,
            d == v@.subrange(start as int, n as int),
            d == (if s@.len() > 0 && s@[0] == '+' { s@.drop_first() } else { s@ }),
            v@ == s@,
            all_digits(v@.subrange(start as int, i as int)),
            decimal_value(v@.subrange(start as int, i as int)) <= u32::MAX ==> acc == decimal_value(
                v@.subrange(start as int, i as int),
            ),
            decimal_value(v@.subrange(start as int, i as int)) > u32::MAX ==> acc > u32::MAX,
            acc <= u32::MAX || acc == u32::MAX + 1,
        decreases n - i,
    {
        let c = v[i];
        if !('0' <= c && c <= '9') {
            assert(!all_digits(d)) by {
                assert(d[i - start] == c);
            }
            assert(parse_u32_spec(s@) is None);
            return None;
        }
        let ghost pre = v@.subrange(start as int, i as int);
        let ghost post = v@.subrange(start as int, i + 1);
        assert(post.drop_last() =~= pre);
        assert(post.last() == c);
        let dv: u64 = (c as u32 - 48) as u64;
        if acc <= 0xffff_ffff {
            let next = acc * 10 + dv;
            if next > 0xffff_ffff {
                acc = 0x1_0000_0000;
            } else {
                acc = next;
            }
        }
        assert(all_digits(post)) by {
            assert forall|k: int| 0 <= k < post.len() implies is_digit(#[trigger] post[k]) by {
                if k < pre.len() {
                    assert(post[k] == pre[k]);
                }
            }
        }
        i = i + 1;
    }
    assert(v@.subrange(start as int, n as int) =~= d);
    if acc <= 0xffff_ffff {
        Some(acc as u32)
    } else {
        None
    }
}

/// Unicode white space, as `char::is_whitespace` decides it.
pub open spec fn is_white(c: char) -> bool {
    let u = c as u32;
    (0x09 <= u && u <= 0x0d) || u == 0x20 || u == 0x85 || u == 0xa0 || u == 0x1680 || (0x2000 <= u
        && u <= 0x200a) || u == 0x2028 || u == 0x2029 || u == 0x202f || u == 0x205f || u == 0x3000
}

/// `char::is_whitespace`.
pub fn is_whitespace(c: char) -> (r: bool)
    ensures
        r == is_white(c),
{
    let u = c as u32;
    (0x09 <= u && u <= 0x0d) || u == 0x20 || u == 0x85 || u == 0xa0 || u == 0x1680 || (0x2000 <= u
        && u <= 0x200a) || u == 0x2028 || u == 0x2029 || u == 0x202f || u == 0x205f || u == 0x3000
}

/// The characters that a trim removes.
#[derive(Debug, Clone, Copy, PartialEq, Eq, Structural)]
pub enum TrimSet {
    /// White space (`str::trim`).
    Whitespace,
    /// Brackets, commas and semicolons that often wrap a link in a message.
    LinkPunctuation,
}

/// Membership of a character in a trim set.
pub open spec fn in_trim_set(c: char, t: TrimSet) -> bool {
    match t {
        TrimSet::Whitespace => is_white(c),
        TrimSet::LinkPunctuation => c == ')' || c == '(' || c == '[' || c == ']' || c == '{' || c
            == '}' || c == ',' || c == ';',
    }
}

/// Membership of a character in a trim set.
pub fn trims(c: char, t: TrimSet) -> (r: bool)
    ensures
        r == in_trim_set(c, t),
{
    match t {
        TrimSet::Whitespace => is_whitespace(c),
        TrimSet::LinkPunctuation => c == ')' || c == '(' || c == '[' || c == ']' || c == '{' || c
            == '}' || c == ',' || c == ';',
    }
}

/// `s` without its leading characters from the set.
pub open spec fn trim_start_by(s: Seq<char>, t: TrimSet) -> Seq<char>
    decreases s.len(),
{
    if s.len() > 0 && in_trim_set(s[0], t) {
        trim_start_by(s.drop_first(), t)
    } else {
        s
    }
}

/// `s` without its trailing characters from the set.
pub open spec fn trim_end_by(s: Seq<char>, t: TrimSet) -> Seq<char>
    decreases s.len(),
{
    if s.len() > 0 && in_trim_set(s.last(), t) {
        trim_end_by(s.drop_last(), t)
    } else {
        s
    }
}

/// `s` without leading and trailing characters from the set (`str::trim_matches`).
pub open spec fn trim_by(s: Seq<char>, t: TrimSet) -> Seq<char> {
    trim_end_by(trim_start_by(s, t), t)
}

/// Removes leading and trailing characters of the set.
pub fn trim_chars(s: &[char], t: TrimSet) -> (r: Vec<char>)
    ensures
        r@ == trim_by(s@, t),
{
    let n = s.len();
    let mut a: usize = 0;
    assert(s@.subrange(0, n as int) =~= s@);
    while a < n && trims(s[a], t)
        invariant
            n == s@.len(),
            a <= n,
            trim_start_by(s@, t) == trim_start_by(s@.subrange(a as int, n as int), t),
        decreases n - a,
    {
        assert(s@.subrange(a as int, n as int).drop_first() =~= s@.subrange(a + 1, n as int));
        a = a + 1;
    }
    assert(trim_start_by(s@.subrange(a as int, n as int), t) == s@.subrange(a as int, n as int));
    let mut b: usize = n;
    while b > a && trims(s[b - 1], t)
        invariant
            n == s@.len(),
            a <= b <= n,
            trim_by(s@, t) == trim_end_by(s@.subrange(a as int, b as int), t),
        decreases b - a,
    {
        assert(s@.subrange(a as int, b as int).drop_last() =~= s@.subrange(a as int, b - 1));
        b = b - 1;
    }
    let mut r: Vec<char> = Vec::new();
    let mut i: usize = a;
    while i < b
        invariant
            n == s@.len(),
            a <= i <= b <= n,
            r@ == s@.subrange(a as int, i as int),
        decreases b - i,
    {
        r.push(s[i]);
        assert(r@ =~= s@.subrange(a as int, i + 1));
        i = i + 1;
    }
    r
}

/// `str::trim`.
pub fn trim_whitespace(s: &str) -> (r: String)
    ensures
        r@ == trim_by(s@, TrimSet::Whitespace),
{
    let v = chars_of(s);
    let t = trim_chars(v.as_slice(), TrimSet::Whitespace);
    string_of(t.as_slice())
}

/// The pieces of `s` between occurrences of `sep` (`str::split` with a char):
/// always at least one piece, empty pieces kept.
pub open spec fn split_on(s: Seq<char>, sep: char) -> Seq<Seq<char>>
    decreases s.len(),
{
    if s.len() == 0 {
        seq![Seq::<char>::empty()]
    } else {
        let rest = split_on(s.drop_last(), sep);
        if s.last() == sep {
            rest.push(Seq::<char>::empty())
        } else {
            rest.update(rest.len() - 1, rest.last().push(s.last()))
        }
    }
}

/// `split_on` always gives at least one piece.
pub proof fn lemma_split_nonempty(s: Seq<char>, sep: char)
    ensures
        split_on(s, sep).len() >= 1,
    decreases s.len(),
{
    if s.len() > 0 {
        lemma_split_nonempty(s.drop_last(), sep);
    }
}

/// The character sequences held by a list of character vectors.
pub open spec fn char_vecs_view(p: Seq<Vec<char>>) -> Seq<Seq<char>> {
    p.map_values(|v: Vec<char>| v@)
}

/// Splits `s` at every `sep`.
pub fn split_chars(s: &[char], sep: char) -> (parts: Vec<Vec<char>>)
    ensures
        char_vecs_view(parts@) == split_on(s@, sep),
{
    let mut parts: Vec<Vec<char>> = Vec::new();
    parts.push(Vec::new());
    assert(char_vecs_view(parts@) =~~= split_on(s@.subrange(0, 0), sep));
    let mut i: usize = 0;
    while i < s.len()
        invariant
            i <= s@.len(),
            char_vecs_view(parts@) == split_on(s@.subrange(0, i as int), sep),
            parts@.len() >= 1,
        decreases s@.len() - i,
    {
        let c = s[i];
        let ghost pre = s@.subrange(0, i as int);
        assert(s@.subrange(0, i + 1).drop_last() =~= pre);
        let ghost before = char_vecs_view(parts@);
        if c == sep {
            parts.push(Vec::new());
            assert(char_vecs_view(parts@) =~~= before.push(Seq::<char>::empty()));
        } else {
            let mut last = parts.pop().unwrap();
            last.push(c);
            parts.push(last);
            assert(char_vecs_view(parts@) =~~= before.update(before.len() - 1, before.last().push(c)));
        }
        i = i + 1;
    }
    assert(s@.subrange(0, s@.len() as int) =~= s@);
    parts
}

/// The leading run of non-white characters of `s`.
pub open spec fn leading_word(s: Seq<char>) -> Seq<char>
    decreases s.len(),
{
    if s.len() > 0 && !is_white(s[0]) {
        seq![s[0]] + leading_word(s.drop_first())
    } else {
        Seq::<char>::empty()
    }
}

/// `leading_word` is a prefix of what it reads.
pub proof fn lemma_leading_word(s: Seq<char>)
    ensures
        leading_word(s).len() <= s.len(),
        leading_word(s) == s.subrange(0, leading_word(s).len() as int),
        s.len() > 0 && !is_white(s[0]) ==> leading_word(s).len() > 0,
        forall|k: int| 0 <= k < leading_word(s).len() ==> !is_white(#[trigger] s[k]),
        leading_word(s).len() < s.len() ==> is_white(s[leading_word(s).len() as int]),
    decreases s.len(),
{
    if s.len() > 0 && !is_white(s[0]) {
        lemma_leading_word(s.drop_first());
        let w = leading_word(s.drop_first());
        assert(leading_word(s) =~= seq![s[0]] + w);
        assert(s.subrange(0, (w.len() + 1) as int) =~= seq![s[0]] + s.drop_first().subrange(0, w.len() as int));
        assert forall|k: int| 0 <= k < leading_word(s).len() implies !is_white(#[trigger] s[k]) by {
            if k > 0 {
                assert(s[k] == s.drop_first()[k - 1]);
            }
        }
        if leading_word(s).len() < s.len() {
            assert(s[leading_word(s).len() as int] == s.drop_first()[w.len() as int]);
        }
    }
}

/// `trim_start_by` gives a suffix.
pub proof fn lemma_trim_start_suffix(s: Seq<char>, t: TrimSet)
    ensures
        trim_start_by(s, t).len() <= s.len(),
        trim_start_by(s, t) == s.subrange(s.len() - trim_start_by(s, t).len(), s.len() as int),
        trim_start_by(s, t).len() > 0 ==> !in_trim_set(trim_start_by(s, t)[0], t),
    decreases s.len(),
{
    if s.len() > 0 && in_trim_set(s[0], t) {
        lemma_trim_start_suffix(s.drop_first(), t);
        let r = trim_start_by(s.drop_first(), t);
        assert(s.drop_first().subrange(s.drop_first().len() - r.len(), s.drop_first().len() as int)
            =~= s.subrange(s.len() - r.len(), s.len() as int));
    } else {
        assert(s.subrange(0, s.len() as int) =~= s);
    }
}

/// A lower-case hexadecimal digit.
pub open spec fn is_lower_hex(c: char) -> bool {
    is_digit(c) || ('a' <= c && c <= 'f')
}

/// The version-4 variant digit of a UUID: one of `8`, `9`, `a`, `b`.
pub open spec fn is_variant_digit(c: char) -> bool {
    c == '8' || c == '9' || c == 'a' || c == 'b'
}

/// A random (version 4) UUID in its simple text form: 32 lower-case hex
/// digits, the 13th being `4` and the 17th a variant digit.
pub open spec fn uuid_v4_simple(t: Seq<char>) -> bool {
    &&& t.len() == 32
    &&& forall|i: int| 0 <= i < 32 ==> is_lower_hex(#[trigger] t[i])
    &&& t[12] == '4'
    &&& is_variant_digit(t[16])
}

/// A random (version 4) UUID in its hyphenated text form: 36 characters, `-`
/// at positions 8, 13, 18 and 23 and lower-case hex digits elsewhere, the
/// version digit (position 14) being `4` and position 19 a variant digit.
pub open spec fn uuid_v4_hyphenated(t: Seq<char>) -> bool {
    &&& t.len() == 36
    &&& forall|i: int|
        0 <= i < 36 ==> if i == 8 || i == 13 || i == 18 || i == 23 {
            #[trigger] t[i] == '-'
        } else {
            is_lower_hex(t[i])
        }
    &&& t[14] == '4'
    &&& is_variant_digit(t[19])
}

/// `s` does not contain `c`.
pub open spec fn lacks(s: Seq<char>, c: char) -> bool {
    forall|i: int| 0 <= i < s.len() ==> s[i] != c
}

/// A text without the separator is one piece.
pub proof fn lemma_split_single(s: Seq<char>, sep: char)
    requires
        lacks(s, sep),
    ensures
        split_on(s, sep) == seq![s],
    decreases s.len(),
{
    if s.len() > 0 {
        lemma_split_single(s.drop_last(), sep);
        assert(s.drop_last().push(s.last()) =~= s);
        assert(seq![s.drop_last()].update(0, s.drop_last().push(s.last())) =~= seq![s]);
    } else {
        assert(s =~= Seq::<char>::empty());
    }
}

/// Splitting `x`, a separator, then `y` without separators gives the pieces of
/// `x` followed by `y`.
pub proof fn lemma_split_append(x: Seq<char>, sep: char, y: Seq<char>)
    requires
        lacks(y, sep),
    ensures
        split_on(x + seq![sep] + y, sep) == split_on(x, sep).push(y),
    decreases y.len(),
{
    if y.len() == 0 {
        assert(x + seq![sep] + y =~= x.push(sep));
        assert((x.push(sep)).drop_last() =~= x);
        assert(y =~= Seq::<char>::empty());
    } else {
        let y0 = y.drop_last();
        lemma_split_append(x, sep, y0);
        let s = x + seq![sep] + y;
        assert(s.drop_last() =~= x + seq![sep] + y0);
        assert(s.last() == y.last());
        assert(y0.push(y.last()) =~= y);
        assert(split_on(x, sep).push(y0).update(split_on(x, sep).len() as int, y0.push(y.last()))
            =~= split_on(x, sep).push(y));
    }
}

} // verus!
