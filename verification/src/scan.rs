//! Scanning text as the standard library's string methods do: Unicode
//! white space, trimming, splitting into lines, and reading unsigned integers.

use vstd::prelude::*;

verus! {

broadcast use vstd::seq_lib::group_seq_properties;

/// Whether `c` has the Unicode `White_Space` property (`char::is_whitespace`).
pub open spec fn is_white_space(c: char) -> bool {
    ('\u{9}' <= c && c <= '\u{d}') || c == ' ' || c == '\u{85}' || c == '\u{a0}' || c == '\u{1680}'
        || ('\u{2000}' <= c && c <= '\u{200a}') || c == '\u{2028}' || c == '\u{2029}'
        || c == '\u{202f}' || c == '\u{205f}' || c == '\u{3000}'
}

/// Whether `c` is white space, as `char::is_whitespace` decides.
pub fn white_space(c: char) -> (r: bool)
    ensures
        r == is_white_space(c),
{
    ('\u{9}' <= c && c <= '\u{d}') || c == ' ' || c == '\u{85}' || c == '\u{a0}' || c == '\u{1680}'
        || ('\u{2000}' <= c && c <= '\u{200a}') || c == '\u{2028}' || c == '\u{2029}'
        || c == '\u{202f}' || c == '\u{205f}' || c == '\u{3000}'
}

/// The number of leading white-space characters of `s`.
pub open spec fn leading_space(s: Seq<char>) -> nat
    decreases s.len(),
{
    if s.len() > 0 && is_white_space(s[0]) {
        1 + leading_space(s.drop_first())
    } else {
        0
    }
}

/// The number of trailing white-space characters of `s`.
pub open spec fn trailing_space(s: Seq<char>) -> nat
    decreases s.len(),
{
    if s.len() > 0 && is_white_space(s.last()) {
        1 + trailing_space(s.drop_last())
    } else {
        0
    }
}

/// `s` without leading white space (`str::trim_start`).
pub open spec fn trim_start(s: Seq<char>) -> Seq<char> {
    s.skip(leading_space(s) as int)
}

/// `s` without leading or trailing white space (`str::trim`).
pub open spec fn trim(s: Seq<char>) -> Seq<char> {
    let t = trim_start(s);
    t.take(t.len() - trailing_space(t))
}

proof fn lemma_leading_space(s: Seq<char>)
    ensures
        leading_space(s) <= s.len(),
        forall|i: int| 0 <= i < leading_space(s) ==> is_white_space(#[trigger] s[i]),
        leading_space(s) < s.len() ==> !is_white_space(s[leading_space(s) as int]),
    decreases s.len(),
{
    if s.len() > 0 && is_white_space(s[0]) {
        lemma_leading_space(s.drop_first());
        assert forall|i: int| 0 <= i < leading_space(s) implies is_white_space(#[trigger] s[i]) by {
            if i > 0 {
                assert(s[i] == s.drop_first()[i - 1]);
            }
        }
    }
}

proof fn lemma_trailing_space(s: Seq<char>)
    ensures
        trailing_space(s) <= s.len(),
        forall|i: int| s.len() - trailing_space(s) <= i < s.len() ==> is_white_space(#[trigger] s[i]),
        trailing_space(s) < s.len() ==> !is_white_space(s[s.len() - trailing_space(s) - 1]),
    decreases s.len(),
{
    if s.len() > 0 && is_white_space(s.last()) {
        lemma_trailing_space(s.drop_last());
        assert forall|i: int| s.len() - trailing_space(s) <= i < s.len() implies is_white_space(#[trigger] s[i]) by {
            if i < s.len() - 1 {
                assert(s[i] == s.drop_last()[i]);
            }
        }
    }
}

/// The leading white space of `s` is part of `s`.
pub proof fn lemma_leading_space_bound(s: Seq<char>)
    ensures
        leading_space(s) <= s.len(),
{
    lemma_leading_space(s);
}

/// The number of leading white-space characters of `v`.
pub fn count_leading_space(v: &[char]) -> (n: usize)
    ensures
        n == leading_space(v@),
{
    let mut i: usize = 0;
    while i < v.len() && white_space(v[i])
        invariant
            i <= v@.len(),
            leading_space(v@) == i + leading_space(v@.skip(i as int)),
        decreases v@.len() - i,
    {
        proof {
            assert(v@.skip(i as int).drop_first() =~= v@.skip(i + 1));
        }
        i = i + 1;
    }
    proof {
        if i < v@.len() {
            assert(v@.skip(i as int)[0] == v@[i as int]);
        }
    }
    i
}

/// The number of trailing white-space characters of `v`.
pub fn count_trailing_space(v: &[char]) -> (n: usize)
    ensures
        n == trailing_space(v@),
{
    let mut i: usize = 0;
    proof {
        assert(v@.take(v@.len() as int) =~= v@);
    }
    while i < v.len() && white_space(v[v.len() - 1 - i])
        invariant
            i <= v@.len(),
            trailing_space(v@) == i + trailing_space(v@.take(v@.len() - i)),
        decreases v@.len() - i,
    {
        proof {
            let t = v@.take(v@.len() - i);
            assert(t.drop_last() =~= v@.take(v@.len() - i - 1));
            assert(t.last() == v@[v@.len() - 1 - i]);
        }
        i = i + 1;
    }
    proof {
        if i < v@.len() {
            assert(v@.take(v@.len() - i).last() == v@[v@.len() - 1 - i]);
        }
    }
    i
}

/// The characters of `v` from `start` to `end`.
pub fn slice_chars(v: &[char], start: usize, end: usize) -> (r: Vec<char>)
    requires
        start <= end <= v@.len(),
    ensures
        r@ == v@.subrange(start as int, end as int),
{
    let mut r: Vec<char> = Vec::new();
    let mut j: usize = start;
    while j < end
        invariant
            start <= j <= end,
            end <= v@.len(),
            r@ == v@.subrange(start as int, j as int),
        decreases end - j,
    {
        r.push(v[j]);
        proof {
            assert(v@.subrange(start as int, j + 1) =~= v@.subrange(start as int, j as int).push(v@[j as int]));
        }
        j = j + 1;
    }
    r
}

/// `v` without leading or trailing white space.
pub fn trim_chars(v: &[char]) -> (r: Vec<char>)
    ensures
        r@ == trim(v@),
{
    let a = count_leading_space(v);
    proof {
        lemma_leading_space(v@);
    }
    let t = slice_chars(v, a, v.len());
    proof {
        assert(t@ =~= trim_start(v@));
    }
    let b = count_trailing_space(t.as_slice());
    proof {
        lemma_trailing_space(t@);
    }
    slice_chars(t.as_slice(), 0, t.len() - b)
}

/// The lines of `s` as `str::lines` yields them: pieces separated by
/// `'\n'`, a `'\r'` that precedes a `'\n'` dropped, and no final empty piece.
pub open spec fn lines(s: Seq<char>) -> Seq<Seq<char>>
    decreases s.len(),
{
    lines_from(s, Seq::empty())
}

/// The lines of `cur + s`, where `cur` is the start of the current line.
pub open spec fn lines_from(s: Seq<char>, cur: Seq<char>) -> Seq<Seq<char>>
    decreases s.len(),
{
    if s.len() == 0 {
        if cur.len() == 0 {
            Seq::empty()
        } else {
            seq![cur]
        }
    } else if s[0] == '\n' {
        let line = if cur.len() > 0 && cur.last() == '\r' {
            cur.drop_last()
        } else {
            cur
        };
        seq![line] + lines_from(s.drop_first(), Seq::empty())
    } else {
        lines_from(s.drop_first(), cur.push(s[0]))
    }
}

/// The lines of `v`, each as its characters.
pub fn split_lines(v: &[char]) -> (r: Vec<Vec<char>>)
    ensures
        r@.map_values(|l: Vec<char>| l@) == lines(v@),
{
    let mut r: Vec<Vec<char>> = Vec::new();
    let mut cur: Vec<char> = Vec::new();
    let mut i: usize = 0;
    proof {
        assert(v@.skip(0) =~= v@);
        assert(r@.map_values(|l: Vec<char>| l@) + lines_from(v@, cur@) =~= lines(v@));
    }
    while i < v.len()
        invariant
            i <= v@.len(),
            r@.map_values(|l: Vec<char>| l@) + lines_from(v@.skip(i as int), cur@) == lines(v@),
        decreases v@.len() - i,
    {
        let ghost rest = v@.skip(i as int);
        let ghost done = r@.map_values(|l: Vec<char>| l@);
        proof {
            assert(rest[0] == v@[i as int]);
            assert(rest.drop_first() =~= v@.skip(i + 1));
        }
        let ghost c0 = cur@;
        if v[i] == '\n' {
            let mut line = cur;
            if line.len() > 0 && line[line.len() - 1] == '\r' {
                line.pop();
                proof {
                    assert(line@ =~= c0.drop_last());
                }
            }
            let ghost lv = line@;
            r.push(line);
            cur = Vec::new();
            proof {
                assert(r@.map_values(|l: Vec<char>| l@) =~= done.push(lv));
                assert(done + (seq![lv] + lines_from(rest.drop_first(), Seq::empty())) =~= done.push(lv)
                    + lines_from(rest.drop_first(), Seq::empty()));
                assert(cur@ =~= Seq::<char>::empty());
            }
        } else {
            cur.push(v[i]);
        }
        i = i + 1;
    }
    proof {
        assert(v@.skip(i as int) =~= Seq::<char>::empty());
    }
    if cur.len() > 0 {
        r.push(cur);
    }
    proof {
        assert(r@.map_values(|l: Vec<char>| l@) =~= lines(v@));
    }
    r
}


/// Whether `c` is an ASCII decimal digit.
pub open spec fn is_digit(c: char) -> bool {
    '0' <= c && c <= '9'
}

/// The number written by the decimal digits `d`.
pub open spec fn digits_value(d: Seq<char>) -> nat
    decreases d.len(),
{
    if d.len() == 0 {
        0
    } else {
        digits_value(d.drop_last()) * 10 + ((d.last() as nat) - ('0' as nat)) as nat
    }
}

/// The unsigned integer `s` spells, as `usize::from_str` reads it: an
/// optional `+`, then one or more decimal digits, with a value that fits.
pub open spec fn parse_usize(s: Seq<char>) -> Option<nat> {
    if all_digits(unsigned_digits(s)) && digits_value(unsigned_digits(s)) <= usize::MAX {
        Some(digits_value(unsigned_digits(s)))
    } else {
        None
    }
}

/// `s` without one leading `+`.
pub open spec fn unsigned_digits(s: Seq<char>) -> Seq<char> {
    if s.len() > 0 && s[0] == '+' {
        s.drop_first()
    } else {
        s
    }
}

/// Whether `d` is one or more decimal digits.
pub open spec fn all_digits(d: Seq<char>) -> bool {
    d.len() > 0 && forall|i: int| 0 <= i < d.len() ==> is_digit(#[trigger] d[i])
}

proof fn lemma_digit_value(c: char)
    requires
        '0' <= c && c <= '9',
    ensures
        ((c as u32 - '0' as u32) as usize) as nat == ((c as nat) - ('0' as nat)) as nat,
        (c as u32 - '0' as u32) <= 9,
{
}

proof fn lemma_digits_prefix(d: Seq<char>, i: int)
    requires
        0 <= i <= d.len(),
    ensures
        digits_value(d.take(i)) <= digits_value(d),
    decreases d.len(),
{
    if i < d.len() {
        assert(d.drop_last().take(i) =~= d.take(i));
        lemma_digits_prefix(d.drop_last(), i);
    } else {
        assert(d.take(i) =~= d);
    }
}

/// The unsigned integer written in `v`, if it reads as one.
pub fn parse_usize_chars(v: &[char]) -> (r: Option<usize>)
    ensures
        r matches Some(n) ==> parse_usize(v@) == Some(n as nat),
        r is None ==> parse_usize(v@) is None,
{
    let start: usize = if v.len() > 0 && v[0] == '+' { 1 } else { 0 };
    let ghost d = unsigned_digits(v@);
    proof {
        assert(d =~= v@.skip(start as int));
    }
    if start == v.len() {
        return None;
    }
    let mut acc: usize = 0;
    let mut i: usize = start;
    while i < v.len()
        invariant
            start <= i <= v@.len(),
            d == v@.skip(start as int),
            d == unsigned_digits(v@),
            acc as nat == digits_value(d.take(i - start)),
            forall|j: int| 0 <= j < i - start ==> is_digit(#[trigger] d[j]),
        decreases v@.len() - i,
    {
        let c = v[i];
        proof {
            assert(d[i - start] == c);
            assert(d.take(i - start + 1).drop_last() =~= d.take(i - start));
        }
        if !('0' <= c && c <= '9') {
            proof {
                assert(!is_digit(d[i - start]));
                assert(!all_digits(d));
            }
            return None;
        }
        let dv: usize = (c as u32 - '0' as u32) as usize;
        proof {
            lemma_digit_value(c);
            assert(d.take(i - start + 1).last() == c);
            assert(digits_value(d.take(i - start + 1)) == acc * 10 + dv);
        }
        if acc > (usize::MAX - dv) / 10 {
            proof {
                assert(acc * 10 + dv > usize::MAX) by (nonlinear_arith)
                    requires
                        acc > (usize::MAX - dv) / 10,
                        dv <= 9,
                ;
                lemma_digits_prefix(d, i - start + 1);
                assert(digits_value(d) > usize::MAX);
            }
            return None;
        }
        proof {
            assert(acc * 10 + dv <= usize::MAX) by (nonlinear_arith)
                requires
                    acc <= (usize::MAX - dv) / 10,
                    dv <= 9,
            ;
        }
        acc = acc * 10 + dv;
        i = i + 1;
    }
    proof {
        assert(d.take(i - start) =~= d);
    }
    Some(acc)
}

/// The part of `s` after its last `':'`, if it has one (as `rsplit_once`).
pub open spec fn after_last_colon(s: Seq<char>) -> Option<Seq<char>>
    decreases s.len(),
{
    if s.len() == 0 {
        None
    } else if s.last() == ':' {
        Some(Seq::empty())
    } else {
        match after_last_colon(s.drop_last()) {
            Some(t) => Some(t.push(s.last())),
            None => None,
        }
    }
}

/// The part of `v` after its last `':'`, if it has one.
pub fn after_last_colon_chars(v: &[char]) -> (r: Option<Vec<char>>)
    ensures
        r matches Some(t) ==> after_last_colon(v@) == Some(t@),
        r is None ==> after_last_colon(v@) is None,
{
    let mut k: usize = v.len();
    while k > 0 && v[k - 1] != ':'
        invariant
            k <= v@.len(),
            forall|j: int| k <= j < v@.len() ==> v@[j] != ':',
        decreases k,
    {
        k = k - 1;
    }
    proof {
        lemma_after_last_colon(v@, k as int);
    }
    if k == 0 {
        None
    } else {
        Some(slice_chars(v, k, v.len()))
    }
}

proof fn lemma_after_last_colon(s: Seq<char>, k: int)
    requires
        0 <= k <= s.len(),
        forall|j: int| k <= j < s.len() ==> s[j] != ':',
        k > 0 ==> s[k - 1] == ':',
    ensures
        k == 0 ==> after_last_colon(s) is None,
        k > 0 ==> after_last_colon(s) == Some(s.subrange(k, s.len() as int)),
    decreases s.len(),
{
    if s.len() == 0 {
    } else if s.last() == ':' {
        assert(k == s.len());
        assert(s.subrange(k, s.len() as int) =~= Seq::<char>::empty());
    } else {
        lemma_after_last_colon(s.drop_last(), k);
        if k > 0 {
            assert(s.subrange(k, s.len() as int) =~= s.drop_last().subrange(k, s.drop_last().len() as int).push(s.last()));
        }
    }
}

/// The count a line of `rg --count` output reports: the number after the
/// last `':'`, white space trimmed, when it reads as one.
pub open spec fn line_count(l: Seq<char>) -> Option<nat> {
    match after_last_colon(l) {
        Some(t) => parse_usize(trim(t)),
        None => None,
    }
}

/// The sum of the counts that the lines `ls` report.
pub open spec fn counts_total(ls: Seq<Seq<char>>) -> nat
    decreases ls.len(),
{
    if ls.len() == 0 {
        0
    } else {
        counts_total(ls.drop_last()) + match line_count(ls.last()) {
            Some(n) => n,
            None => 0,
        }
    }
}

proof fn lemma_counts_total_prefix(ls: Seq<Seq<char>>, i: int)
    requires
        0 <= i <= ls.len(),
    ensures
        counts_total(ls.take(i)) <= counts_total(ls),
    decreases ls.len(),
{
    if i < ls.len() {
        assert(ls.drop_last().take(i) =~= ls.take(i));
        lemma_counts_total_prefix(ls.drop_last(), i);
    } else {
        assert(ls.take(i) =~= ls);
    }
}

/// The total number of matches that `rg --count` output reports, or
/// `None` when the total does not fit in `usize`.
pub fn sum_counts(text: &str) -> (r: Option<usize>)
    ensures
        r matches Some(n) ==> n as nat == counts_total(lines(text@)),
        r is None ==> counts_total(lines(text@)) > usize::MAX,
{
    let v = crate::text::chars_of(text);
    let ls = split_lines(v.as_slice());
    let ghost lv = ls@.map_values(|l: Vec<char>| l@);
    let mut total: usize = 0;
    let mut i: usize = 0;
    while i < ls.len()
        invariant
            i <= ls@.len(),
            lv == ls@.map_values(|l: Vec<char>| l@),
            lv == lines(text@),
            total as nat == counts_total(lv.take(i as int)),
        decreases ls@.len() - i,
    {
        proof {
            assert(lv.take(i + 1).drop_last() =~= lv.take(i as int));
            assert(lv.take(i + 1).last() == ls@[i as int]@);
        }
        let n: usize = match after_last_colon_chars(ls[i].as_slice()) {
            Some(t) => {
                let tt = trim_chars(t.as_slice());
                match parse_usize_chars(tt.as_slice()) {
                    Some(n) => n,
                    None => 0,
                }
            },
            None => 0,
        };
        if total > usize::MAX - n {
            proof {
                lemma_counts_total_prefix(lv, i + 1);
            }
            return None;
        }
        total = total + n;
        i = i + 1;
    }
    proof {
        assert(lv.take(i as int) =~= lv);
    }
    Some(total)
}

} // verus!
