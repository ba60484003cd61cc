//! The grep baseline adapter's logic: deriving search patterns from
//! queries, reading the searcher's output, and mapping names back to ids.
//! The searches themselves run outside: each query is answered in at most
//! two steps, a request for one search and the answer built from its output.

use vstd::prelude::*;
use crate::text::{views, chars_of, string_of, push_chars, push_str, starts_with};
use crate::ids::{first_occurrences, lemma_first_occurrences, contains_id};
use crate::scan::{is_white_space, lines, trim_start, leading_space, split_lines, count_leading_space, slice_chars, counts_total, sum_counts};
use crate::protocol::Query;

verus! {

broadcast use vstd::seq_lib::group_seq_properties;

/// Name for what `char::is_alphanumeric` returns: whether `c` is
/// alphabetic or numeric in the Unicode sense.
pub uninterp spec fn unicode_alphanumeric(c: char) -> bool;

/// `char::is_alphanumeric`: whether `c` is alphabetic or numeric.
#[verifier::external_body]
fn is_alphanumeric(c: char) -> (r: bool)
    ensures
        r == unicode_alphanumeric(c),
{
    c.is_alphanumeric()
}

/// Characters that may appear in an identifier.
pub open spec fn is_ident_char(c: char) -> bool {
    unicode_alphanumeric(c) || c == '_'
}

fn ident_char(c: char) -> (r: bool)
    ensures
        r == is_ident_char(c),
{
    is_alphanumeric(c) || c == '_'
}

/// Descriptor characters that end SCIP stable ids.
pub open spec fn is_descriptor_mark(c: char) -> bool {
    c == '(' || c == ')' || c == '.' || c == '#' || c == ':' || c == '/' || c == ';' || c == '['
        || c == ']'
}

/// The number of trailing characters of `s` that satisfy `p`.
pub open spec fn trailing_count(s: Seq<char>, p: spec_fn(char) -> bool) -> nat
    decreases s.len(),
{
    if s.len() > 0 && p(s.last()) {
        1 + trailing_count(s.drop_last(), p)
    } else {
        0
    }
}

proof fn lemma_trailing_count(s: Seq<char>, p: spec_fn(char) -> bool)
    ensures
        trailing_count(s, p) <= s.len(),
    decreases s.len(),
{
    if s.len() > 0 && p(s.last()) {
        lemma_trailing_count(s.drop_last(), p);
    }
}

/// The last identifier of a stable id: descriptor marks stripped from the
/// end, then the longest run of identifier characters that ends it.
pub open spec fn trailing_ident_spec(s: Seq<char>) -> Seq<char> {
    let t = s.take(s.len() - trailing_count(s, |c: char| is_descriptor_mark(c)));
    t.skip(t.len() - trailing_count(t, |c: char| is_ident_char(c)))
}

fn is_mark(c: char) -> (r: bool)
    ensures
        r == is_descriptor_mark(c),
{
    c == '(' || c == ')' || c == '.' || c == '#' || c == ':' || c == '/' || c == ';' || c == '['
        || c == ']'
}

fn count_trailing_marks(v: &[char]) -> (n: usize)
    ensures
        n == trailing_count(v@, |c: char| is_descriptor_mark(c)),
{
    let mut i: usize = 0;
    proof {
        assert(v@.take(v@.len() as int) =~= v@);
    }
    while i < v.len() && is_mark(v[v.len() - 1 - i])
        invariant
            i <= v@.len(),
            trailing_count(v@, |c: char| is_descriptor_mark(c)) == i + trailing_count(
                v@.take(v@.len() - i),
                |c: char| is_descriptor_mark(c),
            ),
        decreases v@.len() - i,
    {
        proof {
            let t = v@.take(v@.len() - i);
            assert(t.drop_last() =~= v@.take(v@.len() - i - 1));
            assert(t.last() == v@[v@.len() - 1 - i]);
        }
        i = i + 1;
    }
    proof {
        let t = v@.take(v@.len() - i);
        if i < v@.len() {
            assert(t.last() == v@[v@.len() - 1 - i]);
        }
    }
    i
}

fn count_trailing_ident(v: &[char]) -> (n: usize)
    ensures
        n == trailing_count(v@, |c: char| is_ident_char(c)),
{
    let mut i: usize = 0;
    proof {
        assert(v@.take(v@.len() as int) =~= v@);
    }
    while i < v.len() && ident_char(v[v.len() - 1 - i])
        invariant
            i <= v@.len(),
            trailing_count(v@, |c: char| is_ident_char(c)) == i + trailing_count(
                v@.take(v@.len() - i),
                |c: char| is_ident_char(c),
            ),
        decreases v@.len() - i,
    {
        proof {
            let t = v@.take(v@.len() - i);
            assert(t.drop_last() =~= v@.take(v@.len() - i - 1));
            assert(t.last() == v@[v@.len() - 1 - i]);
        }
        i = i + 1;
    }
    proof {
        let t = v@.take(v@.len() - i);
        if i < v@.len() {
            assert(t.last() == v@[v@.len() - 1 - i]);
        }
    }
    i
}

/// The trailing identifier of a SCIP stable id, such as `Name` in
/// `.../Name().` or `Name#`.
pub fn trailing_ident(stable_id: &str) -> (r: &str)
    ensures
        r@ == trailing_ident_spec(stable_id@),
{
    let v = chars_of(stable_id);
    let m = count_trailing_marks(v.as_slice());
    proof {
        lemma_trailing_count(v@, |c: char| is_descriptor_mark(c));
    }
    let end = v.len() - m;
    let t = crate::scan::slice_chars(v.as_slice(), 0, end);
    let k = count_trailing_ident(t.as_slice());
    proof {
        lemma_trailing_count(t@, |c: char| is_ident_char(c));
        assert(t@ =~= stable_id@.take(stable_id@.len() - m));
    }
    let start = end - k;
    stable_id.substring_char(start, end)
}

/// Whether `c` has a special meaning in a regular expression.
pub open spec fn is_regex_meta(c: char) -> bool {
    c == '\\' || c == '.' || c == '+' || c == '*' || c == '?' || c == '(' || c == ')' || c == '['
        || c == ']' || c == '{' || c == '}' || c == '|' || c == '^' || c == '$'
}

/// `s` with a backslash before every regular-expression metacharacter.
pub open spec fn regex_escape_spec(s: Seq<char>) -> Seq<char>
    decreases s.len(),
{
    if s.len() == 0 {
        Seq::empty()
    } else {
        let e = regex_escape_spec(s.drop_last());
        if is_regex_meta(s.last()) {
            e.push('\\').push(s.last())
        } else {
            e.push(s.last())
        }
    }
}

/// `s` escaped so that a regular expression matches it literally.
pub fn regex_escape(s: &str) -> (r: String)
    ensures
        r@ == regex_escape_spec(s@),
{
    let v = chars_of(s);
    let mut out: Vec<char> = Vec::new();
    let mut i: usize = 0;
    while i < v.len()
        invariant
            i <= v@.len(),
            out@ == regex_escape_spec(v@.take(i as int)),
        decreases v@.len() - i,
    {
        let c = v[i];
        proof {
            assert(v@.take(i + 1).drop_last() =~= v@.take(i as int));
            assert(v@.take(i + 1).last() == c);
        }
        if c == '\\' || c == '.' || c == '+' || c == '*' || c == '?' || c == '(' || c == ')' || c
            == '[' || c == ']' || c == '{' || c == '}' || c == '|' || c == '^' || c == '$' {
            out.push('\\');
        }
        out.push(c);
        i = i + 1;
    }
    proof {
        assert(v@.take(v@.len() as int) =~= v@);
    }
    string_of(out.as_slice())
}

/// Escaping keeps every character, adds one backslash per metacharacter,
/// and leaves text without metacharacters unchanged.
pub proof fn law_regex_escape_identity_on_plain_text(s: Seq<char>)
    requires
        forall|i: int| 0 <= i < s.len() ==> !is_regex_meta(#[trigger] s[i]),
    ensures
        regex_escape_spec(s) == s,
    decreases s.len(),
{
    if s.len() > 0 {
        law_regex_escape_identity_on_plain_text(s.drop_last());
        assert(s.drop_last().push(s.last()) =~= s);
    }
}


/// Escaping works character by character: the escape of two texts put
/// together is the two escapes put together.
pub proof fn law_regex_escape_concat(a: Seq<char>, b: Seq<char>)
    ensures
        regex_escape_spec(a + b) == regex_escape_spec(a) + regex_escape_spec(b),
    decreases b.len(),
{
    if b.len() == 0 {
        assert(a + b =~= a);
        assert(regex_escape_spec(a) + regex_escape_spec(b) =~= regex_escape_spec(a));
    } else {
        law_regex_escape_concat(a, b.drop_last());
        assert((a + b).drop_last() =~= a + b.drop_last());
        assert((a + b).last() == b.last());
        let ea = regex_escape_spec(a);
        let eb = regex_escape_spec(b.drop_last());
        if is_regex_meta(b.last()) {
            assert((ea + eb).push('\\').push(b.last()) =~= ea + eb.push('\\').push(b.last()));
        } else {
            assert((ea + eb).push(b.last()) =~= ea + eb.push(b.last()));
        }
    }
}

/// `s` with every escaping backslash removed: reading from the left, a
/// backslash and the character after it become that character.
pub open spec fn regex_unescape_spec(s: Seq<char>) -> Seq<char>
    decreases s.len(),
{
    if s.len() == 0 {
        Seq::empty()
    } else if s.len() >= 2 && s[0] == '\\' {
        seq![s[1]] + regex_unescape_spec(s.skip(2))
    } else {
        seq![s[0]] + regex_unescape_spec(s.skip(1))
    }
}

/// Removing the escaping backslashes from an escaped text gives the text back.
pub proof fn law_regex_unescape_inverts_escape(s: Seq<char>)
    ensures
        regex_unescape_spec(regex_escape_spec(s)) == s,
    decreases s.len(),
{
    if s.len() > 0 {
        let c = s[0];
        let rest = s.drop_first();
        law_regex_unescape_inverts_escape(rest);
        law_regex_escape_concat(seq![c], rest);
        assert(seq![c] + rest =~= s);
        assert(seq![c].drop_last() =~= Seq::<char>::empty());
        let ec = regex_escape_spec(seq![c]);
        let er = regex_escape_spec(rest);
        assert(regex_escape_spec(seq![c].drop_last()) =~= Seq::<char>::empty());
        assert(seq![c].last() == c);
        if is_regex_meta(c) {
            assert(ec =~= seq!['\\', c]);
            assert((ec + er).skip(2) =~= er);
        } else {
            assert(ec =~= seq![c]);
            assert((ec + er).skip(1) =~= er);
        }
        assert(seq![c] + rest =~= s);
    }
}

/// Index entries: a short name and the ids of the symbols that carry it.
pub type EntriesView = Seq<(Seq<char>, Seq<Seq<char>>)>;

/// The short names of the entries, in order.
pub open spec fn entry_names(e: EntriesView) -> Seq<Seq<char>> {
    e.map_values(|x: (Seq<char>, Seq<Seq<char>>)| x.0)
}

/// The position of the entry named `name`, if any (the last, should two share it).
pub open spec fn find_entry(e: EntriesView, name: Seq<char>) -> Option<int>
    decreases e.len(),
{
    if e.len() == 0 {
        None
    } else if e.last().0 == name {
        Some(e.len() - 1)
    } else {
        find_entry(e.drop_last(), name)
    }
}

/// The ids recorded under `name`, if it has an entry.
pub open spec fn lookup_ids(e: EntriesView, name: Seq<char>) -> Option<Seq<Seq<char>>> {
    match find_entry(e, name) {
        Some(k) => Some(e[k].1),
        None => None,
    }
}

/// The index after recording that the symbol `id` has short name `bare`;
/// pairs with an empty name or id are not recorded.
pub open spec fn add_pair(e: EntriesView, bare: Seq<char>, id: Seq<char>) -> EntriesView {
    if bare.len() == 0 || id.len() == 0 {
        e
    } else {
        match find_entry(e, bare) {
            Some(k) => e.update(k, (bare, e[k].1.push(id))),
            None => e.push((bare, seq![id])),
        }
    }
}

/// The index built from (short name, id) pairs in order.
pub open spec fn index_of_pairs(pairs: Seq<(Seq<char>, Seq<char>)>) -> EntriesView
    decreases pairs.len(),
{
    if pairs.len() == 0 {
        Seq::empty()
    } else {
        add_pair(index_of_pairs(pairs.drop_last()), pairs.last().0, pairs.last().1)
    }
}

/// Every id of the index, entry after entry.
pub open spec fn all_ids(e: EntriesView) -> Seq<Seq<char>>
    decreases e.len(),
{
    if e.len() == 0 {
        Seq::empty()
    } else {
        all_ids(e.drop_last()) + e.last().1
    }
}

proof fn lemma_find_entry(e: EntriesView, name: Seq<char>)
    ensures
        find_entry(e, name) matches Some(k) ==> 0 <= k < e.len() && e[k].0 == name
            && forall|j: int| k < j < e.len() ==> e[j].0 != name,
        find_entry(e, name) is None ==> forall|j: int| 0 <= j < e.len() ==> e[j].0 != name,
    decreases e.len(),
{
    if e.len() > 0 {
        lemma_find_entry(e.drop_last(), name);
        assert forall|j: int| 0 <= j < e.len() - 1 implies e.drop_last()[j] == e[j] by {}
    }
}

proof fn lemma_find_unique(e: EntriesView, name: Seq<char>, k: int)
    requires
        entry_names(e).no_duplicates(),
        0 <= k < e.len(),
        e[k].0 == name,
    ensures
        find_entry(e, name) == Some(k),
{
    lemma_find_entry(e, name);
    match find_entry(e, name) {
        Some(j) => {
            if j != k {
                assert(entry_names(e)[j] == entry_names(e)[k]);
            }
        },
        None => {},
    }
}

/// A map from short names to the ids of the symbols carrying them, with
/// names kept in the order they were first seen.
pub struct BareIndex {
    entries: Vec<(String, Vec<String>)>,
}

impl View for BareIndex {
    type V = EntriesView;

    closed spec fn view(&self) -> EntriesView {
        self.entries@.map_values(|x: (String, Vec<String>)| (x.0@, views(x.1@)))
    }
}

impl BareIndex {
    /// No short name has two entries.
    #[verifier::type_invariant]
    closed spec fn names_distinct(self) -> bool {
        entry_names(self@).no_duplicates()
    }

    /// The index of the (short name, id) pairs, in order.
    pub fn from_pairs(pairs: &Vec<(String, String)>) -> (ix: BareIndex)
        ensures
            ix@ == index_of_pairs(pairs@.map_values(|p: (String, String)| (p.0@, p.1@))),
    {
        let ghost pv = pairs@.map_values(|p: (String, String)| (p.0@, p.1@));
        let mut entries: Vec<(String, Vec<String>)> = Vec::new();
        let mut i: usize = 0;
        while i < pairs.len()
            invariant
                i <= pairs@.len(),
                pv == pairs@.map_values(|p: (String, String)| (p.0@, p.1@)),
                entries@.map_values(|x: (String, Vec<String>)| (x.0@, views(x.1@))) == index_of_pairs(pv.take(i as int)),
                entry_names(entries@.map_values(|x: (String, Vec<String>)| (x.0@, views(x.1@)))).no_duplicates(),
            decreases pairs@.len() - i,
        {
            let ghost ev = entries@.map_values(|x: (String, Vec<String>)| (x.0@, views(x.1@)));
            proof {
                assert(pv.take(i + 1).drop_last() =~= pv.take(i as int));
                assert(pv.take(i + 1).last() == (pairs@[i as int].0@, pairs@[i as int].1@));
            }
            let bare = &pairs[i].0;
            let id = &pairs[i].1;
            if bare.as_str().is_empty() || id.as_str().is_empty() {
            } else {
                let mut k: usize = 0;
                while k < entries.len() && entries[k].0 != *bare
                    invariant
                        k <= entries@.len(),
                        ev == entries@.map_values(|x: (String, Vec<String>)| (x.0@, views(x.1@))),
                        forall|j: int| 0 <= j < k ==> ev[j].0 != bare@,
                    decreases entries@.len() - k,
                {
                    k = k + 1;
                }
                proof {
                    lemma_find_entry(ev, bare@);
                }
                if k < entries.len() {
                    proof {
                        lemma_find_unique(ev, bare@, k as int);
                    }
                    let ghost old_entries = entries@;
                    let (name, mut ids) = entries.remove(k);
                    let ghost old_ids = ids@;
                    proof {
                        assert(name@ == bare@);
                        assert(views(old_ids) == ev[k as int].1);
                    }
                    let idc = id.clone();
                    ids.push(idc);
                    proof {
                        assert(views(ids@) =~= views(old_ids).push(id@));
                    }
                    entries.insert(k, (name, ids));
                    proof {
                        assert(entries@ =~= old_entries.update(k as int, entries@[k as int]));
                        let after = entries@.map_values(|x: (String, Vec<String>)| (x.0@, views(x.1@)));
                        assert(after =~= ev.update(k as int, (bare@, ev[k as int].1.push(id@))));
                        assert(entry_names(after) =~= entry_names(ev));
                    }
                } else {
                    let mut one: Vec<String> = Vec::new();
                    one.push(id.clone());
                    proof {
                        assert(views(one@) =~= seq![id@]);
                    }
                    entries.push((bare.clone(), one));
                    proof {
                        let after = entries@.map_values(|x: (String, Vec<String>)| (x.0@, views(x.1@)));
                        assert(after =~= ev.push((bare@, seq![id@])));
                        assert(entry_names(after) =~= entry_names(ev).push(bare@));
                    }
                }
            }
            i = i + 1;
        }
        proof {
            assert(pv.take(pairs@.len() as int) =~= pv);
        }
        BareIndex { entries }
    }

    /// The ids recorded under `name`, if it has an entry.
    pub fn get(&self, name: &String) -> (r: Option<&Vec<String>>)
        ensures
            r matches Some(v) ==> lookup_ids(self@, name@) == Some(views(v@)),
            r is None ==> lookup_ids(self@, name@) is None,
    {
        proof {
            use_type_invariant(self);
        }
        let ghost ev = self@;
        let mut k: usize = 0;
        while k < self.entries.len() && self.entries[k].0 != *name
            invariant
                k <= self.entries@.len(),
                ev == self@,
                forall|j: int| 0 <= j < k ==> ev[j].0 != name@,
            decreases self.entries@.len() - k,
        {
            k = k + 1;
        }
        proof {
            lemma_find_entry(ev, name@);
        }
        if k < self.entries.len() {
            proof {
                lemma_find_unique(ev, name@, k as int);
            }
            Some(&self.entries[k].1)
        } else {
            None
        }
    }

    /// Every id of the index, entry after entry.
    pub fn all_ids(&self) -> (r: Vec<String>)
        ensures
            views(r@) == all_ids(self@),
    {
        let ghost ev = self@;
        let mut r: Vec<String> = Vec::new();
        let mut i: usize = 0;
        while i < self.entries.len()
            invariant
                i <= self.entries@.len(),
                ev == self@,
                views(r@) == all_ids(ev.take(i as int)),
            decreases self.entries@.len() - i,
        {
            proof {
                assert(ev.take(i + 1).drop_last() =~= ev.take(i as int));
            }
            let ids = &self.entries[i].1;
            let ghost before = views(r@);
            let mut j: usize = 0;
            while j < ids.len()
                invariant
                    j <= ids@.len(),
                    views(r@) == before + views(ids@).take(j as int),
                decreases ids@.len() - j,
            {
                let c = ids[j].clone();
                let ghost old_r = r@;
                r.push(c);
                proof {
                    assert(views(r@) =~= views(old_r).push(ids@[j as int]@));
                    assert(views(ids@).take(j + 1) =~= views(ids@).take(j as int).push(ids@[j as int]@));
                    assert(views(r@) =~= before + views(ids@).take(j + 1));
                }
                j = j + 1;
            }
            proof {
                assert(views(ids@).take(ids@.len() as int) =~= views(ids@));
                assert(ev.take(i + 1).last().1 == views(ids@));
            }
            i = i + 1;
        }
        proof {
            assert(ev.take(self.entries@.len() as int) =~= ev);
        }
        r
    }
}

/// What the baseline answers for a search that returned the files
/// `files`: every id of the index once, first-seen order, at most 50.
/// (Which files matched does not narrow the answer: that is the baseline's
/// over-reporting.)
pub open spec fn ids_in_files_spec(e: EntriesView) -> Seq<Seq<char>> {
    let d = first_occurrences(all_ids(e));
    if d.len() > 50 {
        d.take(50)
    } else {
        d
    }
}

/// Maps the files a search matched back to stable ids.
pub fn ids_in_files(by_bare: &BareIndex, files: &[String]) -> (r: Vec<String>)
    ensures
        views(r@) == ids_in_files_spec(by_bare@),
        r@.len() <= 50,
        views(r@).no_duplicates(),
{
    let all = by_bare.all_ids();
    let mut d = crate::ids::distinct(&all);
    proof {
        lemma_first_occurrences(all_ids(by_bare@));
    }
    let ghost full = views(d@);
    d.truncate(50);
    proof {
        if full.len() > 50 {
            assert(views(d@) =~= full.take(50));
            assert forall|a: int, b: int| 0 <= a < b < views(d@).len() implies views(d@)[a] != views(d@)[b] by {
                assert(views(d@)[a] == full[a] && views(d@)[b] == full[b]);
            }
        } else {
            assert(views(d@) =~= full);
        }
    }
    d
}


/// The definition keywords the baseline looks for at the start of a line,
/// in the order it tries them.
pub open spec fn def_prefixes() -> Seq<Seq<char>> {
    seq![
        "def "@,
        "class "@,
        "fn "@,
        "pub fn "@,
        "struct "@,
        "pub struct "@,
        "enum "@,
        "pub enum "@,
        "trait "@,
        "pub trait "@,
        "impl "@,
    ]
}

/// The number of leading identifier characters of `s`.
pub open spec fn ident_prefix_len(s: Seq<char>) -> nat
    decreases s.len(),
{
    if s.len() > 0 && is_ident_char(s[0]) {
        1 + ident_prefix_len(s.drop_first())
    } else {
        0
    }
}

proof fn lemma_ident_prefix_len(s: Seq<char>)
    ensures
        ident_prefix_len(s) <= s.len(),
    decreases s.len(),
{
    if s.len() > 0 && is_ident_char(s[0]) {
        lemma_ident_prefix_len(s.drop_first());
    }
}

/// The name defined by a trimmed line under the first keyword of `ps` that
/// starts it: the identifier right after the keyword, if not empty.
pub open spec fn def_name_from(t: Seq<char>, ps: Seq<Seq<char>>) -> Option<Seq<char>>
    decreases ps.len(),
{
    if ps.len() == 0 {
        None
    } else if ps[0].is_prefix_of(t) {
        let rest = t.skip(ps[0].len() as int);
        let nm = rest.take(ident_prefix_len(rest) as int);
        if nm.len() > 0 {
            Some(nm)
        } else {
            None
        }
    } else {
        def_name_from(t, ps.drop_first())
    }
}

/// The name a source line defines, if it starts (after white space) with a
/// definition keyword followed by an identifier.
pub open spec fn def_name(line: Seq<char>) -> Option<Seq<char>> {
    def_name_from(trim_start(line), def_prefixes())
}

/// The names defined by `ls`, line after line.
pub open spec fn defined_names(ls: Seq<Seq<char>>) -> Seq<Seq<char>>
    decreases ls.len(),
{
    if ls.len() == 0 {
        Seq::empty()
    } else {
        defined_names(ls.drop_last()) + match def_name(ls.last()) {
            Some(n) => seq![n],
            None => Seq::empty(),
        }
    }
}

/// The ids recorded under each name of `names`, name after name.
pub open spec fn ids_of_names(e: EntriesView, names: Seq<Seq<char>>) -> Seq<Seq<char>>
    decreases names.len(),
{
    if names.len() == 0 {
        Seq::empty()
    } else {
        ids_of_names(e, names.drop_last()) + match lookup_ids(e, names.last()) {
            Some(ids) => ids,
            None => Seq::empty(),
        }
    }
}

fn def_prefix_list() -> (v: Vec<&'static str>)
    ensures
        v@.map_values(|p: &str| p@) == def_prefixes(),
{
    let mut v: Vec<&'static str> = Vec::new();
    v.push("def ");
    v.push("class ");
    v.push("fn ");
    v.push("pub fn ");
    v.push("struct ");
    v.push("pub struct ");
    v.push("enum ");
    v.push("pub enum ");
    v.push("trait ");
    v.push("pub trait ");
    v.push("impl ");
    proof {
        assert(v@.map_values(|p: &str| p@) =~= def_prefixes());
    }
    v
}

/// The name that the line `line` defines, if any.
fn line_def_name(line: &[char], prefixes: &Vec<&'static str>) -> (r: Option<Vec<char>>)
    requires
        prefixes@.map_values(|p: &str| p@) == def_prefixes(),
    ensures
        r matches Some(n) ==> def_name(line@) == Some(n@),
        r is None ==> def_name(line@) is None,
{
    let a = count_leading_space(line);
    proof {
        crate::scan::lemma_leading_space_bound(line@);
    }
    let t = slice_chars(line, a, line.len());
    proof {
        assert(t@ =~= trim_start(line@));
    }
    let ghost ps = def_prefixes();
    let mut i: usize = 0;
    proof {
        assert(ps.skip(0) =~= ps);
    }
    while i < prefixes.len()
        invariant
            i <= prefixes@.len(),
            ps == def_prefixes(),
            t@ == trim_start(line@),
            prefixes@.map_values(|p: &str| p@) == ps,
            def_name_from(t@, ps) == def_name_from(t@, ps.skip(i as int)),
        decreases prefixes@.len() - i,
    {
        let pc = chars_of(prefixes[i]);
        proof {
            assert(ps.skip(i as int)[0] == pc@);
            assert(ps.skip(i as int).drop_first() =~= ps.skip(i + 1));
        }
        if starts_with(t.as_slice(), pc.as_slice()) {
            let mut e = pc.len();
            proof {
                assert(t@.skip(pc@.len() as int).skip(0) =~= t@.skip(pc@.len() as int));
            }
            while e < t.len() && ident_char(t[e])
                invariant
                    pc@.len() <= e <= t@.len(),
                    ident_prefix_len(t@.skip(pc@.len() as int)) == (e - pc@.len()) + ident_prefix_len(t@.skip(e as int)),
                decreases t@.len() - e,
            {
                proof {
                    assert(t@.skip(e as int)[0] == t@[e as int]);
                    assert(t@.skip(e as int).drop_first() =~= t@.skip(e + 1));
                }
                e = e + 1;
            }
            proof {
                if e < t@.len() {
                    assert(t@.skip(e as int)[0] == t@[e as int]);
                }
                assert(t@.skip(pc@.len() as int).take(e - pc@.len()) =~= t@.subrange(pc@.len() as int, e as int));
            }
            if e > pc.len() {
                return Some(slice_chars(t.as_slice(), pc.len(), e));
            } else {
                return None;
            }
        }
        i = i + 1;
    }
    None
}

/// The names a source file defines, line after line.
pub fn defined_names_in(text: &str) -> (r: Vec<String>)
    ensures
        views(r@) == defined_names(lines(text@)),
{
    let prefixes = def_prefix_list();
    let v = chars_of(text);
    let ls = split_lines(v.as_slice());
    let ghost lv = ls@.map_values(|l: Vec<char>| l@);
    let mut r: Vec<String> = Vec::new();
    let mut i: usize = 0;
    while i < ls.len()
        invariant
            i <= ls@.len(),
            prefixes@.map_values(|p: &str| p@) == def_prefixes(),
            lv == ls@.map_values(|l: Vec<char>| l@),
            lv == lines(text@),
            views(r@) == defined_names(lv.take(i as int)),
        decreases ls@.len() - i,
    {
        proof {
            assert(lv.take(i + 1).drop_last() =~= lv.take(i as int));
            assert(lv.take(i + 1).last() == ls@[i as int]@);
        }
        let ghost before = views(r@);
        match line_def_name(ls[i].as_slice(), &prefixes) {
            Some(n) => {
                let s = string_of(n.as_slice());
                r.push(s);
                proof {
                    assert(views(r@) =~= before + seq![n@]);
                }
            },
            None => {
                proof {
                    assert(before + Seq::<Seq<char>>::empty() =~= before);
                }
            },
        }
        i = i + 1;
    }
    proof {
        assert(lv.take(i as int) =~= lv);
    }
    r
}

/// The ids recorded under the names defined in a source file.
pub fn file_symbol_ids(by_bare: &BareIndex, text: &str) -> (r: Vec<String>)
    ensures
        views(r@) == ids_of_names(by_bare@, defined_names(lines(text@))),
{
    let names = defined_names_in(text);
    let mut r: Vec<String> = Vec::new();
    let mut i: usize = 0;
    while i < names.len()
        invariant
            i <= names@.len(),
            views(r@) == ids_of_names(by_bare@, views(names@).take(i as int)),
        decreases names@.len() - i,
    {
        proof {
            assert(views(names@).take(i + 1).drop_last() =~= views(names@).take(i as int));
            assert(views(names@).take(i + 1).last() == names@[i as int]@);
        }
        let ghost before = views(r@);
        match by_bare.get(&names[i]) {
            Some(ids) => {
                let mut j: usize = 0;
                while j < ids.len()
                    invariant
                        j <= ids@.len(),
                        views(r@) == before + views(ids@).take(j as int),
                    decreases ids@.len() - j,
                {
                    let c = ids[j].clone();
                    let ghost old_r = r@;
                    r.push(c);
                    proof {
                        assert(views(r@) =~= views(old_r).push(ids@[j as int]@));
                        assert(views(ids@).take(j + 1) =~= views(ids@).take(j as int).push(ids@[j as int]@));
                        assert(views(r@) =~= before + views(ids@).take(j + 1));
                    }
                    j = j + 1;
                }
                proof {
                    assert(views(ids@).take(ids@.len() as int) =~= views(ids@));
                }
            },
            None => {
                proof {
                    assert(before + Seq::<Seq<char>>::empty() =~= before);
                }
            },
        }
        i = i + 1;
    }
    proof {
        assert(views(names@).take(names@.len() as int) =~= views(names@));
    }
    r
}


/// The last identifier-like segment of a name: trailing non-identifier
/// characters dropped, then the longest run of identifier characters that
/// ends what is left (empty when there is none).
pub open spec fn last_segment(s: Seq<char>) -> Seq<char> {
    let t = s.take(s.len() - trailing_count(s, |c: char| !is_ident_char(c)));
    t.skip(t.len() - trailing_count(t, |c: char| is_ident_char(c)))
}

fn count_trailing_non_ident(v: &[char]) -> (n: usize)
    ensures
        n == trailing_count(v@, |c: char| !is_ident_char(c)),
{
    let mut i: usize = 0;
    proof {
        assert(v@.take(v@.len() as int) =~= v@);
    }
    while i < v.len() && !ident_char(v[v.len() - 1 - i])
        invariant
            i <= v@.len(),
            trailing_count(v@, |c: char| !is_ident_char(c)) == i + trailing_count(
                v@.take(v@.len() - i),
                |c: char| !is_ident_char(c),
            ),
        decreases v@.len() - i,
    {
        proof {
            let t = v@.take(v@.len() - i);
            assert(t.drop_last() =~= v@.take(v@.len() - i - 1));
            assert(t.last() == v@[v@.len() - 1 - i]);
        }
        i = i + 1;
    }
    proof {
        let t = v@.take(v@.len() - i);
        if i < v@.len() {
            assert(t.last() == v@[v@.len() - 1 - i]);
        }
    }
    i
}

/// The last identifier-like segment of `name`.
pub fn last_segment_of(name: &str) -> (r: Vec<char>)
    ensures
        r@ == last_segment(name@),
{
    let v = chars_of(name);
    let m = count_trailing_non_ident(v.as_slice());
    proof {
        lemma_trailing_count(v@, |c: char| !is_ident_char(c));
    }
    let t = slice_chars(v.as_slice(), 0, v.len() - m);
    let k = count_trailing_ident(t.as_slice());
    proof {
        lemma_trailing_count(t@, |c: char| is_ident_char(c));
        assert(t@ =~= name@.take(name@.len() - m));
    }
    slice_chars(t.as_slice(), t.len() - k, t.len())
}

/// The search pattern for call sites of `probe`: the word followed by `(`.
pub open spec fn call_pattern(probe: Seq<char>) -> Seq<char> {
    "\\b"@ + regex_escape_spec(probe) + "\\s*\\("@
}

/// The search pattern for the word `probe`.
pub open spec fn word_pattern(probe: Seq<char>) -> Seq<char> {
    "\\b"@ + regex_escape_spec(probe) + "\\b"@
}

/// The search, if any, that answering a query needs.
pub enum Search {
    /// Count the whole-word matches of the pattern across the source tree.
    CountWord(Seq<char>),
    /// List the files in which the pattern matches.
    FilesMatching(Seq<char>),
    /// Read the repo-relative file.
    ReadSource(Seq<char>),
    /// No search: the answer is known at once.
    Immediate,
}

/// The search the baseline runs for query `q`.
pub open spec fn planned_search(q: Query) -> Search {
    match q {
        Query::Lookup { name, bare_name, kind } => if bare_name {
            Search::CountWord(regex_escape_spec(name@))
        } else if last_segment(name@).len() == 0 {
            Search::Immediate
        } else {
            Search::CountWord(regex_escape_spec(last_segment(name@)))
        },
        Query::Callers { sym_stable_id } => if trailing_ident_spec(sym_stable_id@).len() == 0 {
            Search::Immediate
        } else {
            Search::FilesMatching(call_pattern(trailing_ident_spec(sym_stable_id@)))
        },
        Query::Callees { sym_stable_id } => if trailing_ident_spec(sym_stable_id@).len() == 0 {
            Search::Immediate
        } else {
            Search::FilesMatching(word_pattern(trailing_ident_spec(sym_stable_id@)))
        },
        Query::ContainedBy { sym_stable_id } => if trailing_ident_spec(sym_stable_id@).len() == 0 {
            Search::Immediate
        } else {
            Search::FilesMatching(word_pattern(trailing_ident_spec(sym_stable_id@)))
        },
        Query::FileSymbols { file_path } => Search::ReadSource(file_path@),
        Query::Implementors { sym_stable_id } => Search::Immediate,
        Query::Orphans { kind } => Search::Immediate,
    }
}

/// The number of word matches the searcher reported in `out`.
pub open spec fn reported_count(out: Option<Seq<char>>) -> nat {
    match out {
        Some(o) => counts_total(lines(o)),
        None => 0,
    }
}

/// The baseline's answer to `q`, given the index `e` and the output `out`
/// of the planned search (the searcher's listing, or the file's text;
/// `None` when there was none or the file could not be read).
pub open spec fn grep_answer(q: Query, e: EntriesView, out: Option<Seq<char>>) -> Seq<Seq<char>> {
    match q {
        Query::Lookup { name, bare_name, kind } => if bare_name {
            if reported_count(out) == 0 {
                Seq::empty()
            } else {
                match lookup_ids(e, name@) {
                    Some(ids) => ids,
                    None => Seq::empty(),
                }
            }
        } else if last_segment(name@).len() == 0 || reported_count(out) == 0 {
            Seq::empty()
        } else {
            seq![name@]
        },
        Query::Callers { sym_stable_id } => if trailing_ident_spec(sym_stable_id@).len() == 0 {
            Seq::empty()
        } else {
            ids_in_files_spec(e)
        },
        Query::Callees { sym_stable_id } => if trailing_ident_spec(sym_stable_id@).len() == 0 {
            Seq::empty()
        } else {
            ids_in_files_spec(e)
        },
        Query::ContainedBy { sym_stable_id } => if trailing_ident_spec(sym_stable_id@).len() == 0 {
            Seq::empty()
        } else {
            ids_in_files_spec(e)
        },
        Query::FileSymbols { file_path } => match out {
            Some(text) => ids_of_names(e, defined_names(lines(text))),
            None => Seq::empty(),
        },
        Query::Implementors { sym_stable_id } => Seq::empty(),
        Query::Orphans { kind } => Seq::empty(),
    }
}

/// The first step of answering a query: either the answer, or the search to run.
pub enum GrepStep {
    Answer { results: Vec<String> },
    CountWord { pattern: String },
    FilesMatching { pattern: String },
    ReadSource { file_path: String },
}

impl GrepStep {
    pub open spec fn search(self) -> Search {
        match self {
            GrepStep::Answer { .. } => Search::Immediate,
            GrepStep::CountWord { pattern } => Search::CountWord(pattern@),
            GrepStep::FilesMatching { pattern } => Search::FilesMatching(pattern@),
            GrepStep::ReadSource { file_path } => Search::ReadSource(file_path@),
        }
    }
}

fn pattern_around(prefix: &str, probe: &[char], suffix: &str) -> (r: String)
    ensures
        r@ == prefix@ + regex_escape_spec(probe@) + suffix@,
{
    let p = string_of(probe);
    let esc = regex_escape(p.as_str());
    let mut r = String::from_str(prefix);
    push_str(&mut r, esc.as_str());
    push_str(&mut r, suffix);
    r
}

/// Starts answering `q`: returns the answer when no search is needed, and
/// otherwise the search to run.
pub fn grep_start(q: &Query, by_bare: &BareIndex) -> (r: GrepStep)
    ensures
        r.search() == planned_search(*q),
        r matches GrepStep::Answer { results } ==> views(results@) == grep_answer(*q, by_bare@, None),
{
    match q {
        Query::Lookup { name, bare_name, .. } => {
            if *bare_name {
                GrepStep::CountWord { pattern: regex_escape(name.as_str()) }
            } else {
                let probe = last_segment_of(name.as_str());
                if probe.len() == 0 {
                    GrepStep::Answer { results: Vec::new() }
                } else {
                    let p = string_of(probe.as_slice());
                    GrepStep::CountWord { pattern: regex_escape(p.as_str()) }
                }
            }
        },
        Query::Callers { sym_stable_id } => {
            let probe = chars_of(trailing_ident(sym_stable_id.as_str()));
            if probe.len() == 0 {
                GrepStep::Answer { results: Vec::new() }
            } else {
                GrepStep::FilesMatching { pattern: pattern_around("\\b", probe.as_slice(), "\\s*\\(") }
            }
        },
        Query::Callees { sym_stable_id } => {
            let probe = chars_of(trailing_ident(sym_stable_id.as_str()));
            if probe.len() == 0 {
                GrepStep::Answer { results: Vec::new() }
            } else {
                GrepStep::FilesMatching { pattern: pattern_around("\\b", probe.as_slice(), "\\b") }
            }
        },
        Query::ContainedBy { sym_stable_id } => {
            let probe = chars_of(trailing_ident(sym_stable_id.as_str()));
            if probe.len() == 0 {
                GrepStep::Answer { results: Vec::new() }
            } else {
                GrepStep::FilesMatching { pattern: pattern_around("\\b", probe.as_slice(), "\\b") }
            }
        },
        Query::FileSymbols { file_path } => GrepStep::ReadSource { file_path: file_path.clone() },
        Query::Implementors { .. } => GrepStep::Answer { results: Vec::new() },
        Query::Orphans { .. } => GrepStep::Answer { results: Vec::new() },
    }
}

fn count_is_zero(out: &Option<String>) -> (r: bool)
    ensures
        r == (reported_count(match out { Some(o) => Some(o@), None => None }) == 0),
{
    match out {
        Some(o) => match sum_counts(o.as_str()) {
            Some(n) => n == 0,
            None => false,
        },
        None => true,
    }
}

fn clone_ids(v: &Vec<String>) -> (r: Vec<String>)
    ensures
        views(r@) == views(v@),
{
    let mut r: Vec<String> = Vec::new();
    let mut j: usize = 0;
    while j < v.len()
        invariant
            j <= v@.len(),
            views(r@) == views(v@).take(j as int),
        decreases v@.len() - j,
    {
        let c = v[j].clone();
        let ghost old_r = r@;
        r.push(c);
        proof {
            assert(views(r@) =~= views(old_r).push(v@[j as int]@));
            assert(views(v@).take(j + 1) =~= views(v@).take(j as int).push(v@[j as int]@));
        }
        j = j + 1;
    }
    proof {
        assert(views(v@).take(v@.len() as int) =~= views(v@));
    }
    r
}

/// Finishes answering `q` from the output of its search (the searcher's
/// listing, or the text of the file; `None` when there was none).
pub fn grep_finish(q: &Query, by_bare: &BareIndex, out: &Option<String>) -> (r: Vec<String>)
    ensures
        views(r@) == grep_answer(*q, by_bare@, match out { Some(o) => Some(o@), None => None }),
{
    match q {
        Query::Lookup { name, bare_name, .. } => {
            if *bare_name {
                if count_is_zero(out) {
                    Vec::new()
                } else {
                    match by_bare.get(name) {
                        Some(ids) => clone_ids(ids),
                        None => Vec::new(),
                    }
                }
            } else {
                let probe = last_segment_of(name.as_str());
                if probe.len() == 0 || count_is_zero(out) {
                    Vec::new()
                } else {
                    let mut r: Vec<String> = Vec::new();
                    r.push(name.clone());
                    proof {
                        assert(views(r@) =~= seq![name@]);
                    }
                    r
                }
            }
        },
        Query::Callers { sym_stable_id } | Query::Callees { sym_stable_id } | Query::ContainedBy { sym_stable_id } => {
            let probe = trailing_ident(sym_stable_id.as_str());
            if probe.is_empty() {
                Vec::new()
            } else {
                let files: Vec<String> = match out {
                    Some(o) => {
                        let v = chars_of(o.as_str());
                        let ls = split_lines(v.as_slice());
                        let mut fs: Vec<String> = Vec::new();
                        let mut i: usize = 0;
                        while i < ls.len()
                            invariant
                                i <= ls@.len(),
                            decreases ls@.len() - i,
                        {
                            fs.push(string_of(ls[i].as_slice()));
                            i = i + 1;
                        }
                        fs
                    },
                    None => Vec::new(),
                };
                ids_in_files(by_bare, files.as_slice())
            }
        },
        Query::FileSymbols { .. } => match out {
            Some(text) => file_symbol_ids(by_bare, text.as_str()),
            None => Vec::new(),
        },
        Query::Implementors { .. } => Vec::new(),
        Query::Orphans { .. } => Vec::new(),
    }
}

/// A query the baseline answers without searching gets the same answer
/// whatever a search would have printed.
pub proof fn law_no_search_answer_is_output_independent(q: Query, e: EntriesView, out: Option<Seq<char>>)
    requires
        planned_search(q) is Immediate,
    ensures
        grep_answer(q, e, out) == grep_answer(q, e, None),
{
}

/// A short-name lookup of a name absent from the index answers nothing,
/// whatever the search found: the baseline never invents ids.
pub proof fn law_unknown_bare_name_answers_nothing(name: String, kind: Option<String>, e: EntriesView, out: Option<Seq<char>>)
    requires
        lookup_ids(e, name@) is None,
    ensures
        grep_answer(Query::Lookup { name, bare_name: true, kind }, e, out).len() == 0,
{
}

/// Grep cannot answer queries that need the typed graph: implementors and
/// orphans get an empty answer, whatever the index and the search output.
pub proof fn law_graph_queries_answer_nothing(q: Query, e: EntriesView, out: Option<Seq<char>>)
    requires
        q is Implementors || q is Orphans,
    ensures
        planned_search(q) is Immediate,
        grep_answer(q, e, out).len() == 0,
{
}


proof fn lemma_ident_prefix_of(name: Seq<char>, rest: Seq<char>)
    requires
        forall|i: int| 0 <= i < name.len() ==> is_ident_char(#[trigger] name[i]),
        rest.len() == 0 || !is_ident_char(rest[0]),
    ensures
        ident_prefix_len(name + rest) == name.len(),
    decreases name.len(),
{
    if name.len() == 0 {
        assert(name + rest =~= rest);
    } else {
        assert((name + rest).drop_first() =~= name.drop_first() + rest);
        assert((name + rest)[0] == name[0]);
        lemma_ident_prefix_of(name.drop_first(), rest);
    }
}

proof fn lemma_leading_count(ws: Seq<char>, t: Seq<char>)
    requires
        forall|i: int| 0 <= i < ws.len() ==> is_white_space(#[trigger] ws[i]),
        t.len() > 0 && !is_white_space(t[0]),
    ensures
        leading_space(ws + t) == ws.len(),
    decreases ws.len(),
{
    if ws.len() == 0 {
        assert(ws + t =~= t);
    } else {
        assert((ws + t).drop_first() =~= ws.drop_first() + t);
        assert((ws + t)[0] == ws[0]);
        lemma_leading_count(ws.drop_first(), t);
    }
}

proof fn lemma_leading_white(ws: Seq<char>, t: Seq<char>)
    requires
        forall|i: int| 0 <= i < ws.len() ==> is_white_space(#[trigger] ws[i]),
        t.len() > 0 && !is_white_space(t[0]),
    ensures
        trim_start(ws + t) == t,
{
    lemma_leading_count(ws, t);
    assert((ws + t).skip(ws.len() as int) =~= t);
}

proof fn lemma_def_name_from_skip(t: Seq<char>, m: int)
    requires
        0 <= m <= def_prefixes().len(),
        forall|j: int| 0 <= j < m ==> !(#[trigger] def_prefixes()[j]).is_prefix_of(t),
    ensures
        def_name_from(t, def_prefixes()) == def_name_from(t, def_prefixes().skip(m)),
    decreases m,
{
    if m > 0 {
        let ps = def_prefixes();
        lemma_def_name_from_skip_gen(t, ps, m);
    }
}

proof fn lemma_def_name_from_skip_gen(t: Seq<char>, ps: Seq<Seq<char>>, m: int)
    requires
        0 <= m <= ps.len(),
        forall|j: int| 0 <= j < m ==> !(#[trigger] ps[j]).is_prefix_of(t),
    ensures
        def_name_from(t, ps) == def_name_from(t, ps.skip(m)),
    decreases m,
{
    if m == 0 {
        assert(ps.skip(0) =~= ps);
    } else {
        assert(!ps[0].is_prefix_of(t));
        assert forall|j: int| 0 <= j < m - 1 implies !(#[trigger] ps.drop_first()[j]).is_prefix_of(t) by {
            assert(ps.drop_first()[j] == ps[j + 1]);
        }
        lemma_def_name_from_skip_gen(t, ps.drop_first(), m - 1);
        assert(ps.drop_first().skip(m - 1) =~= ps.skip(m));
    }
}

proof fn lemma_not_before_1(t: Seq<char>)
    requires
        "class "@.is_prefix_of(t),
    ensures
        forall|j: int| 0 <= j < 1 ==> !(#[trigger] def_prefixes()[j]).is_prefix_of(t),
{
    reveal_strlit("class ");
    assert forall|j: int| 0 <= j < 1 implies !(#[trigger] def_prefixes()[j]).is_prefix_of(t) by {
        if j == 0 {
            reveal_strlit("def ");
            assert(def_prefixes()[0] == "def "@);
            assert("def "@[0] != "class "@[0]);
            assert(t[0] == "class "@[0]);
        }
    }
}

proof fn lemma_not_before_2(t: Seq<char>)
    requires
        "fn "@.is_prefix_of(t),
    ensures
        forall|j: int| 0 <= j < 2 ==> !(#[trigger] def_prefixes()[j]).is_prefix_of(t),
{
    reveal_strlit("fn ");
    assert forall|j: int| 0 <= j < 2 implies !(#[trigger] def_prefixes()[j]).is_prefix_of(t) by {
        if j == 0 {
            reveal_strlit("def ");
            assert(def_prefixes()[0] == "def "@);
            assert("def "@[0] != "fn "@[0]);
            assert(t[0] == "fn "@[0]);
        }
        if j == 1 {
            reveal_strlit("class ");
            assert(def_prefixes()[1] == "class "@);
            assert("class "@[0] != "fn "@[0]);
            assert(t[0] == "fn "@[0]);
        }
    }
}

proof fn lemma_not_before_3(t: Seq<char>)
    requires
        "pub fn "@.is_prefix_of(t),
    ensures
        forall|j: int| 0 <= j < 3 ==> !(#[trigger] def_prefixes()[j]).is_prefix_of(t),
{
    reveal_strlit("pub fn ");
    assert forall|j: int| 0 <= j < 3 implies !(#[trigger] def_prefixes()[j]).is_prefix_of(t) by {
        if j == 0 {
            reveal_strlit("def ");
            assert(def_prefixes()[0] == "def "@);
            assert("def "@[0] != "pub fn "@[0]);
            assert(t[0] == "pub fn "@[0]);
        }
        if j == 1 {
            reveal_strlit("class ");
            assert(def_prefixes()[1] == "class "@);
            assert("class "@[0] != "pub fn "@[0]);
            assert(t[0] == "pub fn "@[0]);
        }
        if j == 2 {
            reveal_strlit("fn ");
            assert(def_prefixes()[2] == "fn "@);
            assert("fn "@[0] != "pub fn "@[0]);
            assert(t[0] == "pub fn "@[0]);
        }
    }
}

proof fn lemma_not_before_4(t: Seq<char>)
    requires
        "struct "@.is_prefix_of(t),
    ensures
        forall|j: int| 0 <= j < 4 ==> !(#[trigger] def_prefixes()[j]).is_prefix_of(t),
{
    reveal_strlit("struct ");
    assert forall|j: int| 0 <= j < 4 implies !(#[trigger] def_prefixes()[j]).is_prefix_of(t) by {
        if j == 0 {
            reveal_strlit("def ");
            assert(def_prefixes()[0] == "def "@);
            assert("def "@[0] != "struct "@[0]);
            assert(t[0] == "struct "@[0]);
        }
        if j == 1 {
            reveal_strlit("class ");
            assert(def_prefixes()[1] == "class "@);
            assert("class "@[0] != "struct "@[0]);
            assert(t[0] == "struct "@[0]);
        }
        if j == 2 {
            reveal_strlit("fn ");
            assert(def_prefixes()[2] == "fn "@);
            assert("fn "@[0] != "struct "@[0]);
            assert(t[0] == "struct "@[0]);
        }
        if j == 3 {
            reveal_strlit("pub fn ");
            assert(def_prefixes()[3] == "pub fn "@);
            assert("pub fn "@[0] != "struct "@[0]);
            assert(t[0] == "struct "@[0]);
        }
    }
}

proof fn lemma_not_before_5(t: Seq<char>)
    requires
        "pub struct "@.is_prefix_of(t),
    ensures
        forall|j: int| 0 <= j < 5 ==> !(#[trigger] def_prefixes()[j]).is_prefix_of(t),
{
    reveal_strlit("pub struct ");
    assert forall|j: int| 0 <= j < 5 implies !(#[trigger] def_prefixes()[j]).is_prefix_of(t) by {
        if j == 0 {
            reveal_strlit("def ");
            assert(def_prefixes()[0] == "def "@);
            assert("def "@[0] != "pub struct "@[0]);
            assert(t[0] == "pub struct "@[0]);
        }
        if j == 1 {
            reveal_strlit("class ");
            assert(def_prefixes()[1] == "class "@);
            assert("class "@[0] != "pub struct "@[0]);
            assert(t[0] == "pub struct "@[0]);
        }
        if j == 2 {
            reveal_strlit("fn ");
            assert(def_prefixes()[2] == "fn "@);
            assert("fn "@[0] != "pub struct "@[0]);
            assert(t[0] == "pub struct "@[0]);
        }
        if j == 3 {
            reveal_strlit("pub fn ");
            assert(def_prefixes()[3] == "pub fn "@);
            assert("pub fn "@[4] != "pub struct "@[4]);
            assert(t[4] == "pub struct "@[4]);
        }
        if j == 4 {
            reveal_strlit("struct ");
            assert(def_prefixes()[4] == "struct "@);
            assert("struct "@[0] != "pub struct "@[0]);
            assert(t[0] == "pub struct "@[0]);
        }
    }
}

proof fn lemma_not_before_6(t: Seq<char>)
    requires
        "enum "@.is_prefix_of(t),
    ensures
        forall|j: int| 0 <= j < 6 ==> !(#[trigger] def_prefixes()[j]).is_prefix_of(t),
{
    reveal_strlit("enum ");
    assert forall|j: int| 0 <= j < 6 implies !(#[trigger] def_prefixes()[j]).is_prefix_of(t) by {
        if j == 0 {
            reveal_strlit("def ");
            assert(def_prefixes()[0] == "def "@);
            assert("def "@[0] != "enum "@[0]);
            assert(t[0] == "enum "@[0]);
        }
        if j == 1 {
            reveal_strlit("class ");
            assert(def_prefixes()[1] == "class "@);
            assert("class "@[0] != "enum "@[0]);
            assert(t[0] == "enum "@[0]);
        }
        if j == 2 {
            reveal_strlit("fn ");
            assert(def_prefixes()[2] == "fn "@);
            assert("fn "@[0] != "enum "@[0]);
            assert(t[0] == "enum "@[0]);
        }
        if j == 3 {
            reveal_strlit("pub fn ");
            assert(def_prefixes()[3] == "pub fn "@);
            assert("pub fn "@[0] != "enum "@[0]);
            assert(t[0] == "enum "@[0]);
        }
        if j == 4 {
            reveal_strlit("struct ");
            assert(def_prefixes()[4] == "struct "@);
            assert("struct "@[0] != "enum "@[0]);
            assert(t[0] == "enum "@[0]);
        }
        if j == 5 {
            reveal_strlit("pub struct ");
            assert(def_prefixes()[5] == "pub struct "@);
            assert("pub struct "@[0] != "enum "@[0]);
            assert(t[0] == "enum "@[0]);
        }
    }
}

proof fn lemma_not_before_7(t: Seq<char>)
    requires
        "pub enum "@.is_prefix_of(t),
    ensures
        forall|j: int| 0 <= j < 7 ==> !(#[trigger] def_prefixes()[j]).is_prefix_of(t),
{
    reveal_strlit("pub enum ");
    assert forall|j: int| 0 <= j < 7 implies !(#[trigger] def_prefixes()[j]).is_prefix_of(t) by {
        if j == 0 {
            reveal_strlit("def ");
            assert(def_prefixes()[0] == "def "@);
            assert("def "@[0] != "pub enum "@[0]);
            assert(t[0] == "pub enum "@[0]);
        }
        if j == 1 {
            reveal_strlit("class ");
            assert(def_prefixes()[1] == "class "@);
            assert("class "@[0] != "pub enum "@[0]);
            assert(t[0] == "pub enum "@[0]);
        }
        if j == 2 {
            reveal_strlit("fn ");
            assert(def_prefixes()[2] == "fn "@);
            assert("fn "@[0] != "pub enum "@[0]);
            assert(t[0] == "pub enum "@[0]);
        }
        if j == 3 {
            reveal_strlit("pub fn ");
            assert(def_prefixes()[3] == "pub fn "@);
            assert("pub fn "@[4] != "pub enum "@[4]);
            assert(t[4] == "pub enum "@[4]);
        }
        if j == 4 {
            reveal_strlit("struct ");
            assert(def_prefixes()[4] == "struct "@);
            assert("struct "@[0] != "pub enum "@[0]);
            assert(t[0] == "pub enum "@[0]);
        }
        if j == 5 {
            reveal_strlit("pub struct ");
            assert(def_prefixes()[5] == "pub struct "@);
            assert("pub struct "@[4] != "pub enum "@[4]);
            assert(t[4] == "pub enum "@[4]);
        }
        if j == 6 {
            reveal_strlit("enum ");
            assert(def_prefixes()[6] == "enum "@);
            assert("enum "@[0] != "pub enum "@[0]);
            assert(t[0] == "pub enum "@[0]);
        }
    }
}

proof fn lemma_not_before_8(t: Seq<char>)
    requires
        "trait "@.is_prefix_of(t),
    ensures
        forall|j: int| 0 <= j < 8 ==> !(#[trigger] def_prefixes()[j]).is_prefix_of(t),
{
    reveal_strlit("trait ");
    assert forall|j: int| 0 <= j < 8 implies !(#[trigger] def_prefixes()[j]).is_prefix_of(t) by {
        if j == 0 {
            reveal_strlit("def ");
            assert(def_prefixes()[0] == "def "@);
            assert("def "@[0] != "trait "@[0]);
            assert(t[0] == "trait "@[0]);
        }
        if j == 1 {
            reveal_strlit("class ");
            assert(def_prefixes()[1] == "class "@);
            assert("class "@[0] != "trait "@[0]);
            assert(t[0] == "trait "@[0]);
        }
        if j == 2 {
            reveal_strlit("fn ");
            assert(def_prefixes()[2] == "fn "@);
            assert("fn "@[0] != "trait "@[0]);
            assert(t[0] == "trait "@[0]);
        }
        if j == 3 {
            reveal_strlit("pub fn ");
            assert(def_prefixes()[3] == "pub fn "@);
            assert("pub fn "@[0] != "trait "@[0]);
            assert(t[0] == "trait "@[0]);
        }
        if j == 4 {
            reveal_strlit("struct ");
            assert(def_prefixes()[4] == "struct "@);
            assert("struct "@[0] != "trait "@[0]);
            assert(t[0] == "trait "@[0]);
        }
        if j == 5 {
            reveal_strlit("pub struct ");
            assert(def_prefixes()[5] == "pub struct "@);
            assert("pub struct "@[0] != "trait "@[0]);
            assert(t[0] == "trait "@[0]);
        }
        if j == 6 {
            reveal_strlit("enum ");
            assert(def_prefixes()[6] == "enum "@);
            assert("enum "@[0] != "trait "@[0]);
            assert(t[0] == "trait "@[0]);
        }
        if j == 7 {
            reveal_strlit("pub enum ");
            assert(def_prefixes()[7] == "pub enum "@);
            assert("pub enum "@[0] != "trait "@[0]);
            assert(t[0] == "trait "@[0]);
        }
    }
}

proof fn lemma_not_before_9(t: Seq<char>)
    requires
        "pub trait "@.is_prefix_of(t),
    ensures
        forall|j: int| 0 <= j < 9 ==> !(#[trigger] def_prefixes()[j]).is_prefix_of(t),
{
    reveal_strlit("pub trait ");
    assert forall|j: int| 0 <= j < 9 implies !(#[trigger] def_prefixes()[j]).is_prefix_of(t) by {
        if j == 0 {
            reveal_strlit("def ");
            assert(def_prefixes()[0] == "def "@);
            assert("def "@[0] != "pub trait "@[0]);
            assert(t[0] == "pub trait "@[0]);
        }
        if j == 1 {
            reveal_strlit("class ");
            assert(def_prefixes()[1] == "class "@);
            assert("class "@[0] != "pub trait "@[0]);
            assert(t[0] == "pub trait "@[0]);
        }
        if j == 2 {
            reveal_strlit("fn ");
            assert(def_prefixes()[2] == "fn "@);
            assert("fn "@[0] != "pub trait "@[0]);
            assert(t[0] == "pub trait "@[0]);
        }
        if j == 3 {
            reveal_strlit("pub fn ");
            assert(def_prefixes()[3] == "pub fn "@);
            assert("pub fn "@[4] != "pub trait "@[4]);
            assert(t[4] == "pub trait "@[4]);
        }
        if j == 4 {
            reveal_strlit("struct ");
            assert(def_prefixes()[4] == "struct "@);
            assert("struct "@[0] != "pub trait "@[0]);
            assert(t[0] == "pub trait "@[0]);
        }
        if j == 5 {
            reveal_strlit("pub struct ");
            assert(def_prefixes()[5] == "pub struct "@);
            assert("pub struct "@[4] != "pub trait "@[4]);
            assert(t[4] == "pub trait "@[4]);
        }
        if j == 6 {
            reveal_strlit("enum ");
            assert(def_prefixes()[6] == "enum "@);
            assert("enum "@[0] != "pub trait "@[0]);
            assert(t[0] == "pub trait "@[0]);
        }
        if j == 7 {
            reveal_strlit("pub enum ");
            assert(def_prefixes()[7] == "pub enum "@);
            assert("pub enum "@[4] != "pub trait "@[4]);
            assert(t[4] == "pub trait "@[4]);
        }
        if j == 8 {
            reveal_strlit("trait ");
            assert(def_prefixes()[8] == "trait "@);
            assert("trait "@[0] != "pub trait "@[0]);
            assert(t[0] == "pub trait "@[0]);
        }
    }
}

proof fn lemma_not_before_10(t: Seq<char>)
    requires
        "impl "@.is_prefix_of(t),
    ensures
        forall|j: int| 0 <= j < 10 ==> !(#[trigger] def_prefixes()[j]).is_prefix_of(t),
{
    reveal_strlit("impl ");
    assert forall|j: int| 0 <= j < 10 implies !(#[trigger] def_prefixes()[j]).is_prefix_of(t) by {
        if j == 0 {
            reveal_strlit("def ");
            assert(def_prefixes()[0] == "def "@);
            assert("def "@[0] != "impl "@[0]);
            assert(t[0] == "impl "@[0]);
        }
        if j == 1 {
            reveal_strlit("class ");
            assert(def_prefixes()[1] == "class "@);
            assert("class "@[0] != "impl "@[0]);
            assert(t[0] == "impl "@[0]);
        }
        if j == 2 {
            reveal_strlit("fn ");
            assert(def_prefixes()[2] == "fn "@);
            assert("fn "@[0] != "impl "@[0]);
            assert(t[0] == "impl "@[0]);
        }
        if j == 3 {
            reveal_strlit("pub fn ");
            assert(def_prefixes()[3] == "pub fn "@);
            assert("pub fn "@[0] != "impl "@[0]);
            assert(t[0] == "impl "@[0]);
        }
        if j == 4 {
            reveal_strlit("struct ");
            assert(def_prefixes()[4] == "struct "@);
            assert("struct "@[0] != "impl "@[0]);
            assert(t[0] == "impl "@[0]);
        }
        if j == 5 {
            reveal_strlit("pub struct ");
            assert(def_prefixes()[5] == "pub struct "@);
            assert("pub struct "@[0] != "impl "@[0]);
            assert(t[0] == "impl "@[0]);
        }
        if j == 6 {
            reveal_strlit("enum ");
            assert(def_prefixes()[6] == "enum "@);
            assert("enum "@[0] != "impl "@[0]);
            assert(t[0] == "impl "@[0]);
        }
        if j == 7 {
            reveal_strlit("pub enum ");
            assert(def_prefixes()[7] == "pub enum "@);
            assert("pub enum "@[0] != "impl "@[0]);
            assert(t[0] == "impl "@[0]);
        }
        if j == 8 {
            reveal_strlit("trait ");
            assert(def_prefixes()[8] == "trait "@);
            assert("trait "@[0] != "impl "@[0]);
            assert(t[0] == "impl "@[0]);
        }
        if j == 9 {
            reveal_strlit("pub trait ");
            assert(def_prefixes()[9] == "pub trait "@);
            assert("pub trait "@[0] != "impl "@[0]);
            assert(t[0] == "impl "@[0]);
        }
    }
}

proof fn lemma_def_at(t: Seq<char>, m: int)
    requires
        0 <= m < def_prefixes().len(),
        def_prefixes()[m].is_prefix_of(t),
    ensures
        ({
            let rest = t.skip(def_prefixes()[m].len() as int);
            let nm = rest.take(ident_prefix_len(rest) as int);
            def_name_from(t, def_prefixes().skip(m)) == if nm.len() > 0 {
                Some(nm)
            } else {
                None
            }
        }),
{
    assert(def_prefixes().skip(m)[0] == def_prefixes()[m]);
}

/// A source line that starts, after white space, with one of the keywords
/// `def`, `class`, `fn`, `pub fn`, `struct`, `pub struct`, `enum`,
/// `pub enum`, `trait`, `pub trait` or `impl` and a space, followed by an
/// identifier, defines that identifier.
#[verifier::rlimit(50)]
pub proof fn law_definition_lines(ws: Seq<char>, kw: Seq<char>, name: Seq<char>, rest: Seq<char>)
    requires
        kw == "def "@ || kw == "class "@ || kw == "fn "@ || kw == "pub fn "@ || kw == "struct "@ || kw == "pub struct "@ || kw == "enum "@ || kw == "pub enum "@ || kw == "trait "@ || kw == "pub trait "@ || kw == "impl "@,
        forall|i: int| 0 <= i < ws.len() ==> is_white_space(#[trigger] ws[i]),
        name.len() > 0,
        forall|i: int| 0 <= i < name.len() ==> is_ident_char(#[trigger] name[i]),
        rest.len() == 0 || !is_ident_char(rest[0]),
    ensures
        def_name(ws + kw + name + rest) == Some(name),
{
    let t = kw + (name + rest);
    assert(ws + kw + name + rest =~= ws + t);
    assert(kw.is_prefix_of(t));
    assert(t.skip(kw.len() as int) =~= name + rest);
    lemma_ident_prefix_of(name, rest);
    assert((name + rest).take(name.len() as int) =~= name);
    assert(kw.len() > 0 && !is_white_space(kw[0])) by {
        reveal_strlit("def ");
        reveal_strlit("class ");
        reveal_strlit("fn ");
        reveal_strlit("pub fn ");
        reveal_strlit("struct ");
        reveal_strlit("pub struct ");
        reveal_strlit("enum ");
        reveal_strlit("pub enum ");
        reveal_strlit("trait ");
        reveal_strlit("pub trait ");
        reveal_strlit("impl ");
    }
    assert(t[0] == kw[0]);
    lemma_leading_white(ws, t);
    if kw == "def "@ {
        assert(def_prefixes()[0] == "def "@);
        lemma_def_name_from_skip(t, 0);
        lemma_def_at(t, 0);
    }
    if kw == "class "@ {
        assert(def_prefixes()[1] == "class "@);
        lemma_not_before_1(t);
        lemma_def_name_from_skip(t, 1);
        lemma_def_at(t, 1);
    }
    if kw == "fn "@ {
        assert(def_prefixes()[2] == "fn "@);
        lemma_not_before_2(t);
        lemma_def_name_from_skip(t, 2);
        lemma_def_at(t, 2);
    }
    if kw == "pub fn "@ {
        assert(def_prefixes()[3] == "pub fn "@);
        lemma_not_before_3(t);
        lemma_def_name_from_skip(t, 3);
        lemma_def_at(t, 3);
    }
    if kw == "struct "@ {
        assert(def_prefixes()[4] == "struct "@);
        lemma_not_before_4(t);
        lemma_def_name_from_skip(t, 4);
        lemma_def_at(t, 4);
    }
    if kw == "pub struct "@ {
        assert(def_prefixes()[5] == "pub struct "@);
        lemma_not_before_5(t);
        lemma_def_name_from_skip(t, 5);
        lemma_def_at(t, 5);
    }
    if kw == "enum "@ {
        assert(def_prefixes()[6] == "enum "@);
        lemma_not_before_6(t);
        lemma_def_name_from_skip(t, 6);
        lemma_def_at(t, 6);
    }
    if kw == "pub enum "@ {
        assert(def_prefixes()[7] == "pub enum "@);
        lemma_not_before_7(t);
        lemma_def_name_from_skip(t, 7);
        lemma_def_at(t, 7);
    }
    if kw == "trait "@ {
        assert(def_prefixes()[8] == "trait "@);
        lemma_not_before_8(t);
        lemma_def_name_from_skip(t, 8);
        lemma_def_at(t, 8);
    }
    if kw == "pub trait "@ {
        assert(def_prefixes()[9] == "pub trait "@);
        lemma_not_before_9(t);
        lemma_def_name_from_skip(t, 9);
        lemma_def_at(t, 9);
    }
    if kw == "impl "@ {
        assert(def_prefixes()[10] == "impl "@);
        lemma_not_before_10(t);
        lemma_def_name_from_skip(t, 10);
        lemma_def_at(t, 10);
    }
}

proof fn lemma_defined_name_listed(ls: Seq<Seq<char>>, k: int, n: Seq<char>)
    requires
        0 <= k < ls.len(),
        def_name(ls[k]) == Some(n),
    ensures
        defined_names(ls).contains(n),
    decreases ls.len(),
{
    if k == ls.len() - 1 {
        let d = defined_names(ls);
        assert(d[d.len() - 1] == n);
    } else {
        lemma_defined_name_listed(ls.drop_last(), k, n);
        let pre = defined_names(ls.drop_last());
        let j = choose|j: int| 0 <= j < pre.len() && pre[j] == n;
        assert(defined_names(ls)[j] == pre[j]);
    }
}

proof fn lemma_ids_of_listed_name(e: EntriesView, names: Seq<Seq<char>>, n: Seq<char>, id: Seq<char>)
    requires
        names.contains(n),
        lookup_ids(e, n) matches Some(ids) && ids.contains(id),
    ensures
        ids_of_names(e, names).contains(id),
    decreases names.len(),
{
    let r = ids_of_names(e, names);
    let pre = ids_of_names(e, names.drop_last());
    if names.last() == n {
        let ids = lookup_ids(e, n)->0;
        let j = choose|j: int| 0 <= j < ids.len() && ids[j] == id;
        assert(r[pre.len() + j] == ids[j]);
    } else {
        let k = choose|k: int| 0 <= k < names.len() && names[k] == n;
        assert(names.drop_last()[k] == n);
        lemma_ids_of_listed_name(e, names.drop_last(), n, id);
        let j = choose|j: int| 0 <= j < pre.len() && pre[j] == id;
        assert(r[j] == pre[j]);
    }
}

/// Answering which symbols a file holds: every id that the index records
/// under a name defined on some line of the file is in the answer.
pub proof fn law_file_symbols_include_definitions(
    file_path: String,
    e: EntriesView,
    text: Seq<char>,
    k: int,
    n: Seq<char>,
    id: Seq<char>,
)
    requires
        0 <= k < lines(text).len(),
        def_name(lines(text)[k]) == Some(n),
        lookup_ids(e, n) matches Some(ids) && ids.contains(id),
    ensures
        grep_answer(Query::FileSymbols { file_path }, e, Some(text)).contains(id),
{
    lemma_defined_name_listed(lines(text), k, n);
    lemma_ids_of_listed_name(e, defined_names(lines(text)), n, id);
}

} // verus!
