//! Character-level helpers: converting between strings and character
//! vectors, comparing, and rendering numbers as decimal or hexadecimal text.

use vstd::prelude::*;

verus! {

/// The character sequences of a list of strings.
pub open spec fn views(v: Seq<String>) -> Seq<Seq<char>> {
    v.map_values(|s: String| s@)
}

/// `String::push`: appends one character at the end of the string.
#[verifier::external_body]
fn push_char(s: &mut String, c: char)
    ensures
        final(s)@ == old(s)@.push(c),
{
    s.push(c);
}

/// The characters of `s`, in order.
pub fn chars_of(s: &str) -> (v: Vec<char>)
    ensures
        v@ == s@,
{
    let mut v: Vec<char> = Vec::new();
    for c in it: s.chars()
        invariant
            it.seq() == s@,
            v@ == it.seq().take(it.index() as int),
    {
        v.push(c);
        proof {
            assert(it.seq().take(it.index() + 1) =~= v@);
        }
    }
    v
}


/// A string holding exactly the characters `v`.
pub fn string_of(v: &[char]) -> (s: String)
    ensures
        s@ == v@,
{
    let mut s = String::new();
    let mut i: usize = 0;
    while i < v.len()
        invariant
            i <= v@.len(),
            s@ == v@.take(i as int),
        decreases v@.len() - i,
    {
        push_char(&mut s, v[i]);
        proof {
            assert(v@.take(i + 1) =~= v@.take(i as int).push(v@[i as int]));
        }
        i = i + 1;
    }
    proof {
        assert(v@.take(v@.len() as int) =~= v@);
    }
    s
}

/// Appends the characters `v` to `s`.
pub fn push_chars(s: &mut String, v: &[char])
    ensures
        final(s)@ == old(s)@ + v@,
{
    let ghost start = s@;
    let mut i: usize = 0;
    while i < v.len()
        invariant
            i <= v@.len(),
            s@ == start + v@.take(i as int),
        decreases v@.len() - i,
    {
        push_char(s, v[i]);
        proof {
            assert(v@.take(i + 1) =~= v@.take(i as int).push(v@[i as int]));
            assert(start + v@.take(i + 1) =~= (start + v@.take(i as int)).push(v@[i as int]));
        }
        i = i + 1;
    }
    proof {
        assert(v@.take(v@.len() as int) =~= v@);
    }
}

/// Appends the characters of `t` to `s`.
pub fn push_str(s: &mut String, t: &str)
    ensures
        final(s)@ == old(s)@ + t@,
{
    let v = chars_of(t);
    push_chars(s, v.as_slice());
}

/// Whether the two character sequences are equal.
pub fn chars_eq(a: &[char], b: &[char]) -> (r: bool)
    ensures
        r == (a@ == b@),
{
    if a.len() != b.len() {
        return false;
    }
    let mut i: usize = 0;
    while i < a.len()
        invariant
            a@.len() == b@.len(),
            i <= a@.len(),
            forall|j: int| 0 <= j < i ==> a@[j] == b@[j],
        decreases a@.len() - i,
    {
        if a[i] != b[i] {
            return false;
        }
        i = i + 1;
    }
    proof {
        assert(a@ =~= b@);
    }
    true
}

/// Whether `p` is a prefix of `a`.
pub fn starts_with(a: &[char], p: &[char]) -> (r: bool)
    ensures
        r == p@.is_prefix_of(a@),
{
    if p.len() > a.len() {
        return false;
    }
    let mut i: usize = 0;
    while i < p.len()
        invariant
            p@.len() <= a@.len(),
            i <= p@.len(),
            forall|j: int| 0 <= j < i ==> p@[j] == a@[j],
        decreases p@.len() - i,
    {
        if a[i] != p[i] {
            return false;
        }
        i = i + 1;
    }
    true
}

/// Lexicographic order on character sequences, comparing code points; a
/// proper prefix comes first. This is the order of `String`'s `Ord`.
pub open spec fn lex_lt(a: Seq<char>, b: Seq<char>) -> bool
    decreases a.len(),
{
    if a.len() == 0 {
        b.len() > 0
    } else if b.len() == 0 {
        false
    } else if a[0] != b[0] {
        (a[0] as u32) < (b[0] as u32)
    } else {
        lex_lt(a.drop_first(), b.drop_first())
    }
}

proof fn lemma_same_head_tail(a: Seq<char>, b: Seq<char>)
    requires
        a.len() > 0,
        b.len() > 0,
        a[0] == b[0],
        a.drop_first() == b.drop_first(),
    ensures
        a == b,
{
    assert(a.drop_first().len() == a.len() - 1);
    assert(b.drop_first().len() == b.len() - 1);
    assert(a.len() == b.len());
    assert forall|k: int| 0 <= k < a.len() implies a[k] == b[k] by {
        if k > 0 {
            assert(a[k] == a.drop_first()[k - 1]);
            assert(b[k] == b.drop_first()[k - 1]);
        }
    }
    assert(a =~= b);
}

/// Lexicographic order is irreflexive and asymmetric.
pub proof fn law_lex_asymmetric(a: Seq<char>, b: Seq<char>)
    ensures
        !lex_lt(a, a),
        lex_lt(a, b) ==> !lex_lt(b, a),
    decreases a.len(),
{
    if a.len() > 0 {
        law_lex_asymmetric(a.drop_first(), a.drop_first());
        if b.len() > 0 {
            law_lex_asymmetric(a.drop_first(), b.drop_first());
        }
    }
}

proof fn lemma_char_code_injective(x: char, y: char)
    requires
        x != y,
    ensures
        (x as u32) != (y as u32),
{
}

/// Lexicographic order is total: of two distinct sequences one comes first.
pub proof fn law_lex_total(a: Seq<char>, b: Seq<char>)
    ensures
        a != b ==> lex_lt(a, b) || lex_lt(b, a),
    decreases a.len(),
{
    if a.len() == 0 && b.len() == 0 {
        assert(a =~= b);
    } else if a.len() > 0 && b.len() > 0 && a[0] != b[0] {
        lemma_char_code_injective(a[0], b[0]);
        assert(lex_lt(a, b) == ((a[0] as u32) < (b[0] as u32)));
        assert(lex_lt(b, a) == ((b[0] as u32) < (a[0] as u32)));
    } else if a.len() > 0 && b.len() > 0 && a[0] == b[0] {
        law_lex_total(a.drop_first(), b.drop_first());
        if a.drop_first() == b.drop_first() {
            lemma_same_head_tail(a, b);
        }
    }
}

/// Lexicographic order is transitive.
pub proof fn law_lex_transitive(a: Seq<char>, b: Seq<char>, c: Seq<char>)
    requires
        lex_lt(a, b),
        lex_lt(b, c),
    ensures
        lex_lt(a, c),
    decreases a.len(),
{
    if a.len() > 0 && b.len() > 0 && c.len() > 0 && a[0] == b[0] && b[0] == c[0] {
        law_lex_transitive(a.drop_first(), b.drop_first(), c.drop_first());
    }
}

proof fn lemma_lex_skip(a: Seq<char>, b: Seq<char>, i: int)
    requires
        0 <= i < a.len(),
        i < b.len(),
        a[i] == b[i],
    ensures
        lex_lt(a.skip(i), b.skip(i)) == lex_lt(a.skip(i + 1), b.skip(i + 1)),
{
    assert(a.skip(i).drop_first() =~= a.skip(i + 1));
    assert(b.skip(i).drop_first() =~= b.skip(i + 1));
}

/// Whether `a` comes strictly before `b` in lexicographic order.
pub fn lex_less(a: &[char], b: &[char]) -> (r: bool)
    ensures
        r == lex_lt(a@, b@),
{
    let mut i: usize = 0;
    proof {
        assert(a@.skip(0) =~= a@);
        assert(b@.skip(0) =~= b@);
    }
    while i < a.len() && i < b.len() && a[i] == b[i]
        invariant
            i <= a@.len(),
            i <= b@.len(),
            lex_lt(a@, b@) == lex_lt(a@.skip(i as int), b@.skip(i as int)),
        decreases a@.len() - i,
    {
        proof {
            lemma_lex_skip(a@, b@, i as int);
        }
        i = i + 1;
    }
    if i == a.len() {
        i < b.len()
    } else if i == b.len() {
        false
    } else {
        (a[i] as u32) < (b[i] as u32)
    }
}

/// `s` with every occurrence of the non-empty `pat` replaced by `rep`,
/// scanning from the left and never re-examining replaced text.
pub open spec fn replace_all(s: Seq<char>, pat: Seq<char>, rep: Seq<char>) -> Seq<char>
    decreases s.len(),
{
    if s.len() == 0 || pat.len() == 0 {
        s
    } else if pat.is_prefix_of(s) {
        rep + replace_all(s.skip(pat.len() as int), pat, rep)
    } else {
        seq![s[0]] + replace_all(s.drop_first(), pat, rep)
    }
}

fn matches_at(s: &[char], i: usize, pat: &[char]) -> (r: bool)
    requires
        i <= s@.len(),
    ensures
        r == pat@.is_prefix_of(s@.skip(i as int)),
{
    let n = s.len();
    if pat.len() > n - i {
        return false;
    }
    let mut j: usize = 0;
    while j < pat.len()
        invariant
            n == s@.len(),
            i <= s@.len(),
            pat@.len() <= s@.len() - i,
            j <= pat@.len(),
            forall|k: int| 0 <= k < j ==> pat@[k] == s@[i + k],
        decreases pat@.len() - j,
    {
        assert(i + j < n);
        if s[i + j] != pat[j] {
            assert(s@.skip(i as int)[j as int] == s@[i + j]);
            return false;
        }
        j = j + 1;
    }
    assert forall|k: int| 0 <= k < pat@.len() implies pat@[k] == s@.skip(i as int)[k] by {
        assert(s@.skip(i as int)[k] == s@[i + k]);
    }
    true
}

/// `s` with every occurrence of `pat` replaced by `rep`, as `str::replace` does.
pub fn replace_str(s: &str, pat: &str, rep: &str) -> (r: String)
    requires
        pat@.len() > 0,
    ensures
        r@ == replace_all(s@, pat@, rep@),
{
    let sv = chars_of(s);
    let pv = chars_of(pat);
    let rv = chars_of(rep);
    let mut out = String::new();
    let mut i: usize = 0;
    proof {
        assert(sv@.skip(0) =~= sv@);
    }
    while i < sv.len()
        invariant
            i <= sv@.len(),
            pv@.len() > 0,
            out@ + replace_all(sv@.skip(i as int), pv@, rv@) == replace_all(sv@, pv@, rv@),
        decreases sv@.len() - i,
    {
        let ghost rest = sv@.skip(i as int);
        if matches_at(sv.as_slice(), i, pv.as_slice()) {
            proof {
                assert(rest.skip(pv@.len() as int) =~= sv@.skip(i + pv@.len()));
                assert(out@ + (rv@ + replace_all(rest.skip(pv@.len() as int), pv@, rv@)) =~= (out@
                    + rv@) + replace_all(rest.skip(pv@.len() as int), pv@, rv@));
            }
            push_chars(&mut out, rv.as_slice());
            i = i + pv.len();
        } else {
            proof {
                assert(rest.drop_first() =~= sv@.skip(i + 1));
                assert(rest[0] == sv@[i as int]);
                assert(out@ + (seq![rest[0]] + replace_all(rest.drop_first(), pv@, rv@)) =~= out@.push(
                    rest[0],
                ) + replace_all(rest.drop_first(), pv@, rv@));
            }
            push_char(&mut out, sv[i]);
            i = i + 1;
        }
    }
    proof {
        assert(sv@.skip(i as int).len() == 0);
        assert(out@ + replace_all(sv@.skip(i as int), pv@, rv@) =~= out@);
    }
    out
}

/// Whether the two strings hold the same characters.
pub fn str_eq(a: &str, b: &str) -> (r: bool)
    ensures
        r == (a@ == b@),
{
    let av = chars_of(a);
    let bv = chars_of(b);
    chars_eq(av.as_slice(), bv.as_slice())
}

/// ASCII lower-casing of one character; every other character is kept.
pub open spec fn lower_ascii(c: char) -> char {
    if 'A' <= c && c <= 'Z' {
        ((c as u32) + 32) as char
    } else {
        c
    }
}

/// Whether `a` and `b` are equal when ASCII letters are compared without case.
pub open spec fn eq_ignore_ascii_case(a: Seq<char>, b: Seq<char>) -> bool {
    a.len() == b.len() && forall|i: int| 0 <= i < a.len() ==> lower_ascii(#[trigger] a[i]) == lower_ascii(b[i])
}

/// ASCII lower-casing of a character.
pub fn lower_char(c: char) -> (r: char)
    ensures
        r == lower_ascii(c),
{
    if 'A' <= c && c <= 'Z' {
        let b: u8 = c as u8;
        proof {
            assert(b == c as u32);
        }
        (b + 32) as char
    } else {
        c
    }
}

/// Whether `a` and `b` are equal up to ASCII case.
pub fn same_ignoring_ascii_case(a: &str, b: &str) -> (r: bool)
    ensures
        r == eq_ignore_ascii_case(a@, b@),
{
    let x = chars_of(a);
    let y = chars_of(b);
    if x.len() != y.len() {
        return false;
    }
    let mut i: usize = 0;
    while i < x.len()
        invariant
            x@ == a@,
            y@ == b@,
            x@.len() == y@.len(),
            i <= x@.len(),
            forall|j: int| 0 <= j < i ==> lower_ascii(#[trigger] x@[j]) == lower_ascii(y@[j]),
        decreases x@.len() - i,
    {
        if lower_char(x[i]) != lower_char(y[i]) {
            return false;
        }
        i = i + 1;
    }
    true
}

/// Whether `p` occurs in `s` as a contiguous run.
pub open spec fn has_sub(s: Seq<char>, p: Seq<char>) -> bool {
    exists|k: int| 0 <= k && k + p.len() <= s.len() && #[trigger] s.subrange(k, k + p.len()) == p
}

/// Whether `s` ends with `p`.
pub open spec fn ends_with_seq(s: Seq<char>, p: Seq<char>) -> bool {
    p.len() <= s.len() && s.subrange(s.len() - p.len(), s.len() as int) == p
}

/// `s` with its ASCII letters lower-cased.
pub open spec fn lower_seq(s: Seq<char>) -> Seq<char> {
    s.map_values(|c: char| lower_ascii(c))
}

/// Whether `p` occurs in `a` starting at position `k`.
fn occurs_at(a: &[char], p: &[char], k: usize) -> (r: bool)
    requires
        k + p@.len() <= a@.len(),
    ensures
        r == (a@.subrange(k as int, k + p@.len()) == p@),
{
    let mut j: usize = 0;
    while j < p.len()
        invariant
            k + p@.len() <= a@.len(),
            a@.len() == a.len(),
            j <= p@.len(),
            forall|m: int| 0 <= m < j ==> a@[k + m] == p@[m],
        decreases p@.len() - j,
    {
        assert(k + j < a@.len());
        if a[k + j] != p[j] {
            proof {
                assert(a@.subrange(k as int, k + p@.len())[j as int] != p@[j as int]);
            }
            return false;
        }
        j = j + 1;
    }
    proof {
        assert(a@.subrange(k as int, k + p@.len()) =~= p@);
    }
    true
}

/// Whether the text `p` occurs in `a`.
pub fn contains_text(a: &[char], p: &str) -> (r: bool)
    ensures
        r == has_sub(a@, p@),
{
    let pv = chars_of(p);
    if pv.len() > a.len() {
        return false;
    }
    if pv.len() == 0 {
        proof {
            assert(a@.subrange(0int, 0int + p@.len()) =~= p@);
        }
        return true;
    }
    let last = a.len() - pv.len();
    let mut k: usize = 0;
    while k <= last
        invariant
            pv@ == p@,
            last == a@.len() - pv@.len(),
            k <= last + 1,
            pv@.len() > 0,
            a@.len() == a.len(),
            last < a@.len(),
            forall|m: int| 0 <= m < k ==> #[trigger] a@.subrange(m, m + p@.len()) != p@,
        decreases last + 1 - k,
    {
        if occurs_at(a, pv.as_slice(), k) {
            return true;
        }
        k = k + 1;
    }
    false
}

/// Whether `a` ends with the text `p`.
pub fn ends_with_text(a: &[char], p: &str) -> (r: bool)
    ensures
        r == ends_with_seq(a@, p@),
{
    let pv = chars_of(p);
    if pv.len() > a.len() {
        return false;
    }
    occurs_at(a, pv.as_slice(), a.len() - pv.len())
}

/// Whether `a` starts with the text `p`.
pub fn starts_with_text(a: &[char], p: &str) -> (r: bool)
    ensures
        r == p@.is_prefix_of(a@),
{
    let pv = chars_of(p);
    starts_with(a, pv.as_slice())
}

/// `a` with its ASCII letters lower-cased.
pub fn lower_chars(a: &[char]) -> (r: Vec<char>)
    ensures
        r@ == lower_seq(a@),
{
    let mut r: Vec<char> = Vec::new();
    let mut i: usize = 0;
    while i < a.len()
        invariant
            i <= a@.len(),
            r@ == lower_seq(a@.take(i as int)),
        decreases a@.len() - i,
    {
        r.push(lower_char(a[i]));
        proof {
            assert(lower_seq(a@.take(i + 1)) =~= lower_seq(a@.take(i as int)).push(lower_ascii(a@[i as int])));
        }
        i = i + 1;
    }
    proof {
        assert(a@.take(a@.len() as int) =~= a@);
    }
    r
}

/// The text `pre`, then `x`, then `post`.
pub fn framed(pre: &str, x: &[char], post: &str) -> (r: String)
    ensures
        r@ == pre@ + x@ + post@,
{
    let mut r = String::from_str(pre);
    push_chars(&mut r, x);
    push_str(&mut r, post);
    r
}

/// The decimal digit character for `d`.
pub open spec fn digit_char(d: nat) -> char {
    if d == 0 { '0' }
    else if d == 1 { '1' }
    else if d == 2 { '2' }
    else if d == 3 { '3' }
    else if d == 4 { '4' }
    else if d == 5 { '5' }
    else if d == 6 { '6' }
    else if d == 7 { '7' }
    else if d == 8 { '8' }
    else { '9' }
}

/// The lowercase hexadecimal digit character for `d`.
pub open spec fn hex_char(d: nat) -> char {
    if d < 10 { digit_char(d) }
    else if d == 10 { 'a' }
    else if d == 11 { 'b' }
    else if d == 12 { 'c' }
    else if d == 13 { 'd' }
    else if d == 14 { 'e' }
    else { 'f' }
}

/// The decimal rendering of `n`, without leading zeros ("0" for zero).
pub open spec fn decimal(n: nat) -> Seq<char>
    decreases n,
{
    if n < 10 {
        seq![digit_char(n)]
    } else {
        decimal(n / 10).push(digit_char(n % 10))
    }
}

/// `n` in decimal, left-padded with zeros to at least `width` characters.
pub open spec fn decimal_padded(n: nat, width: nat) -> Seq<char> {
    let d = decimal(n);
    if d.len() >= width {
        d
    } else {
        Seq::new((width - d.len()) as nat, |i: int| '0') + d
    }
}

/// The last `width` hexadecimal digits of `n`, most significant first.
pub open spec fn hex_digits(n: nat, width: nat) -> Seq<char>
    decreases width,
{
    if width == 0 {
        Seq::empty()
    } else {
        hex_digits(n / 16, (width - 1) as nat).push(hex_char(n % 16))
    }
}

fn digit_of(d: u64) -> (c: char)
    requires
        d < 16,
    ensures
        c == hex_char(d as nat),
{
    if d == 0 { '0' }
    else if d == 1 { '1' }
    else if d == 2 { '2' }
    else if d == 3 { '3' }
    else if d == 4 { '4' }
    else if d == 5 { '5' }
    else if d == 6 { '6' }
    else if d == 7 { '7' }
    else if d == 8 { '8' }
    else if d == 9 { '9' }
    else if d == 10 { 'a' }
    else if d == 11 { 'b' }
    else if d == 12 { 'c' }
    else if d == 13 { 'd' }
    else if d == 14 { 'e' }
    else { 'f' }
}

/// The decimal characters of `n`.
pub fn decimal_chars(n: u64) -> (v: Vec<char>)
    ensures
        v@ == decimal(n as nat),
    decreases n,
{
    if n < 10 {
        let mut v: Vec<char> = Vec::new();
        v.push(digit_of(n));
        proof {
            assert(v@ =~= seq![digit_char(n as nat)]);
        }
        v
    } else {
        let mut v = decimal_chars(n / 10);
        v.push(digit_of(n % 10));
        v
    }
}

/// Appends the decimal rendering of `n` to `s`.
pub fn push_decimal(s: &mut String, n: u64)
    ensures
        final(s)@ == old(s)@ + decimal(n as nat),
{
    let v = decimal_chars(n);
    push_chars(s, v.as_slice());
}

/// Appends `n` in decimal, zero-padded to at least `width` characters.
pub fn push_decimal_padded(s: &mut String, n: u64, width: usize)
    ensures
        final(s)@ == old(s)@ + decimal_padded(n as nat, width as nat),
{
    let v = decimal_chars(n);
    let ghost start = s@;
    if v.len() < width {
        let pad = width - v.len();
        let mut i: usize = 0;
        while i < pad
            invariant
                i <= pad,
                s@ == start + Seq::new(i as nat, |j: int| '0'),
            decreases pad - i,
        {
            push_char(s, '0');
            proof {
                assert(start + Seq::new((i + 1) as nat, |j: int| '0') =~= (start + Seq::new(
                    i as nat,
                    |j: int| '0',
                )).push('0'));
            }
            i = i + 1;
        }
        push_chars(s, v.as_slice());
        proof {
            assert(s@ =~= start + decimal_padded(n as nat, width as nat));
        }
    } else {
        push_chars(s, v.as_slice());
    }
}

/// Appends the last `width` lowercase hexadecimal digits of `n`.
pub fn push_hex(s: &mut String, n: u64, width: usize)
    ensures
        final(s)@ == old(s)@ + hex_digits(n as nat, width as nat),
    decreases width,
{
    if width > 0 {
        push_hex(s, n / 16, width - 1);
        push_char(s, digit_of(n % 16));
        proof {
            let a = old(s)@;
            assert(a + hex_digits(n as nat, width as nat) =~= (a + hex_digits(
                (n / 16) as nat,
                (width - 1) as nat,
            )).push(hex_char((n % 16) as nat)));
        }
    } else {
        proof {
            assert(old(s)@ + hex_digits(n as nat, 0) =~= old(s)@);
        }
    }
}

} // verus!
