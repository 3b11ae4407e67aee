//! The tag filter: an OR of AND-groups of key patterns, matched against the
//! keys of an element's tags (values are never consulted).
//!
//! A pattern is `*` (any tag at all), `prefix*`, `*suffix`, `a*b*c` (the
//! fragments found left to right, the last one ending the key) or an exact key.

use vstd::prelude::*;
use crate::geometry::text_from_chars;
use crate::osm::{OsmElement, Tags};

verus! {

/// `p` is a prefix of `s`.
pub open spec fn starts_with(s: Seq<char>, p: Seq<char>) -> bool {
    p.len() <= s.len() && s.subrange(0, p.len() as int) == p
}

/// `p` is a suffix of `s`.
pub open spec fn ends_with(s: Seq<char>, p: Seq<char>) -> bool {
    p.len() <= s.len() && s.subrange(s.len() - p.len(), s.len() as int) == p
}

/// `needle` occurs in `hay` starting at position `j`.
pub open spec fn occurs_at(hay: Seq<char>, needle: Seq<char>, j: int) -> bool {
    0 <= j && j + needle.len() <= hay.len() && hay.subrange(j, j + needle.len()) == needle
}

/// The leftmost occurrence of `needle` in `hay` at or after `from`.
pub open spec fn first_occurrence(hay: Seq<char>, needle: Seq<char>, from: int) -> Option<int>
    decreases hay.len() + 1 - from,
{
    if from < 0 || from + needle.len() > hay.len() {
        None
    } else if occurs_at(hay, needle, from) {
        Some(from)
    } else {
        first_occurrence(hay, needle, from + 1)
    }
}

/// The pieces of `p` between occurrences of `sep` (one more than there are
/// separators).
pub open spec fn split_char(p: Seq<char>, sep: char) -> Seq<Seq<char>>
    decreases p.len(),
{
    if p.len() == 0 {
        seq![Seq::<char>::empty()]
    } else {
        let s = split_char(p.drop_last(), sep);
        if p.last() == sep {
            s.push(Seq::<char>::empty())
        } else {
            s.update(s.len() - 1, s.last().push(p.last()))
        }
    }
}

/// The fragments of `p` between its `*` characters.
pub open spec fn split_star(p: Seq<char>) -> Seq<Seq<char>> {
    split_char(p, '*')
}

/// Matching the fragments `parts[i..]` against `key` from position `pos`:
/// each non-empty fragment but the last is taken at its leftmost occurrence
/// after the previous one, and the last fragment, when non-empty, must end
/// the key without overlapping what came before it.
pub open spec fn fragments_match(key: Seq<char>, parts: Seq<Seq<char>>, i: int, pos: int) -> bool
    decreases parts.len() - i,
{
    if i < 0 || i >= parts.len() {
        true
    } else if parts[i].len() == 0 {
        fragments_match(key, parts, i + 1, pos)
    } else if i == parts.len() - 1 {
        ends_with(key, parts[i]) && pos + parts[i].len() <= key.len()
    } else {
        match first_occurrence(key, parts[i], pos) {
            None => false,
            Some(j) => fragments_match(key, parts, i + 1, j + parts[i].len()),
        }
    }
}

/// Whether one tag key fits a pattern other than the lone `*`.
pub open spec fn key_matches(key: Seq<char>, pat: Seq<char>) -> bool {
    if pat.len() > 0 && pat.last() == '*' {
        starts_with(key, pat.drop_last())
    } else if pat.len() > 0 && pat[0] == '*' {
        ends_with(key, pat.drop_first())
    } else if pat.contains('*') {
        fragments_match(key, split_star(pat), 0, 0)
    } else {
        key == pat
    }
}

/// Whether a tag set satisfies one pattern.
pub open spec fn pattern_matches(tags: Map<Seq<char>, Seq<char>>, pat: Seq<char>) -> bool {
    if pat == seq!['*'] {
        tags.dom().len() > 0
    } else {
        exists|k: Seq<char>| #[trigger] tags.dom().contains(k) && key_matches(k, pat)
    }
}

/// Whether a tag set satisfies every pattern of an AND-group.
pub open spec fn group_matches(tags: Map<Seq<char>, Seq<char>>, group: Seq<Seq<char>>) -> bool {
    forall|j: int| 0 <= j < group.len() ==> #[trigger] pattern_matches(tags, group[j])
}

/// Whether a tag set satisfies a filter: no groups at all, or some group whole.
pub open spec fn filter_matches(tags: Map<Seq<char>, Seq<char>>, groups: Seq<Seq<Seq<char>>>) -> bool {
    groups.len() == 0 || exists|g: int| 0 <= g < groups.len() && #[trigger] group_matches(tags, groups[g])
}

/// The character view of a list of strings.
pub open spec fn strings_view(v: Seq<String>) -> Seq<Seq<char>> {
    v.map_values(|s: String| s@)
}

/// The character view of a list of string lists.
pub open spec fn groups_view(v: Seq<Vec<String>>) -> Seq<Seq<Seq<char>>> {
    v.map_values(|g: Vec<String>| strings_view(g@))
}

/// The characters of a string.
pub fn chars_of(s: &str) -> (r: Vec<char>)
    ensures
        r@ == s@,
{
    let n = s.unicode_len();
    let mut r: Vec<char> = Vec::new();
    let mut i: usize = 0;
    while i < n
        invariant
            n == s@.len(),
            i <= n,
            r@ == s@.subrange(0, i as int),
        decreases n - i,
    {
        let c = s.get_char(i);
        r.push(c);
        i = i + 1;
        assert(r@ =~= s@.subrange(0, i as int));
    }
    assert(r@ =~= s@);
    r
}

/// Compares `hay[at..at + (end - start)]` with `needle[start..end]`.
fn same_at(hay: &Vec<char>, at: usize, needle: &Vec<char>, start: usize, end: usize) -> (b: bool)
    requires
        start <= end <= needle.len(),
        at + (end - start) <= hay.len(),
    ensures
        b <==> hay@.subrange(at as int, at + (end - start)) == needle@.subrange(start as int, end as int),
{
    let mut k: usize = 0;
    while k < end - start
        invariant
            start <= end <= needle.len(),
            at + (end - start) <= hay.len(),
            k <= end - start,
            hay@.subrange(at as int, at + k) == needle@.subrange(start as int, start + k),
        decreases end - start - k,
    {
        if hay[at + k] != needle[start + k] {
            assert(hay@.subrange(at as int, at + (end - start))[k as int] != needle@.subrange(start as int, end as int)[k as int]);
            return false;
        }
        assert(hay@.subrange(at as int, at + k + 1) =~= hay@.subrange(at as int, at + k).push(hay@[at + k]));
        assert(needle@.subrange(start as int, start + k + 1) =~= needle@.subrange(start as int, start + k).push(needle@[start + k]));
        k = k + 1;
    }
    true
}

proof fn lemma_first_occurrence_skip(hay: Seq<char>, needle: Seq<char>, from: int, j: int)
    requires
        0 <= from <= j,
        forall|m: int| from <= m < j ==> !occurs_at(hay, needle, m),
    ensures
        first_occurrence(hay, needle, from) == first_occurrence(hay, needle, j),
    decreases j - from,
{
    if from < j {
        if from + needle.len() <= hay.len() {
            assert(!occurs_at(hay, needle, from));
            lemma_first_occurrence_skip(hay, needle, from + 1, j);
        } else {
            lemma_first_occurrence_past_end(hay, needle, j);
        }
    }
}

proof fn lemma_first_occurrence_past_end(hay: Seq<char>, needle: Seq<char>, j: int)
    requires
        j + needle.len() > hay.len(),
    ensures
        first_occurrence(hay, needle, j) == None::<int>,
{
}

proof fn lemma_first_occurrence_found(hay: Seq<char>, needle: Seq<char>, from: int)
    ensures
        match first_occurrence(hay, needle, from) {
            Some(j) => from <= j && occurs_at(hay, needle, j),
            None => true,
        },
    decreases hay.len() + 1 - from,
{
    if from >= 0 && from + needle.len() <= hay.len() && !occurs_at(hay, needle, from) {
        lemma_first_occurrence_found(hay, needle, from + 1);
    }
}

/// The leftmost occurrence of `needle` in `hay` at or after `from`.
fn find_from(hay: &Vec<char>, needle: &Vec<char>, from: usize) -> (r: Option<usize>)
    ensures
        match first_occurrence(hay@, needle@, from as int) {
            Some(j) => r == Some(j as usize),
            None => r is None,
        },
{
    if needle.len() > hay.len() || from > hay.len() - needle.len() {
        return None;
    }
    let last = hay.len() - needle.len();
    let mut j: usize = from;
    loop
        invariant
            last == hay.len() - needle.len(),
            from <= j <= last,
            forall|m: int| from <= m < j ==> !occurs_at(hay@, needle@, m),
        decreases last - j,
    {
        assert(needle@.subrange(0, needle.len() as int) =~= needle@);
        if same_at(hay, j, needle, 0, needle.len()) {
            proof {
                lemma_first_occurrence_skip(hay@, needle@, from as int, j as int);
            }
            return Some(j);
        }
        if j == last {
            proof {
                lemma_first_occurrence_skip(hay@, needle@, from as int, j as int);
                lemma_first_occurrence_past_end(hay@, needle@, j + 1);
            }
            return None;
        }
        j = j + 1;
    }
}

proof fn lemma_split_char_nonempty(p: Seq<char>, sep: char)
    ensures
        split_char(p, sep).len() >= 1,
    decreases p.len(),
{
    if p.len() > 0 {
        lemma_split_char_nonempty(p.drop_last(), sep);
    }
}

/// The pieces of `p` between occurrences of `sep`.
pub fn split_on(p: &Vec<char>, sep: char) -> (r: Vec<Vec<char>>)
    ensures
        r@.map_values(|v: Vec<char>| v@) == split_char(p@, sep),
{
    let mut out: Vec<Vec<char>> = Vec::new();
    let mut cur: Vec<char> = Vec::new();
    let mut i: usize = 0;
    while i < p.len()
        invariant
            i <= p.len(),
            out@.map_values(|v: Vec<char>| v@).push(cur@) == split_char(p@.subrange(0, i as int), sep),
        decreases p.len() - i,
    {
        let c = p[i];
        let ghost before = p@.subrange(0, i as int);
        let ghost after = p@.subrange(0, i + 1);
        assert(after.drop_last() =~= before);
        proof {
            lemma_split_char_nonempty(before, sep);
        }
        if c == sep {
            let done = cur;
            out.push(done);
            cur = Vec::new();
            assert(out@.map_values(|v: Vec<char>| v@).push(cur@) =~= split_char(after, sep));
        } else {
            cur.push(c);
            assert(out@.map_values(|v: Vec<char>| v@).push(cur@) =~= split_char(after, sep));
        }
        i = i + 1;
    }
    assert(p@.subrange(0, p.len() as int) =~= p@);
    out.push(cur);
    assert(out@.map_values(|v: Vec<char>| v@) =~= split_char(p@, sep));
    out
}

/// Whether a sequence of characters holds a `*`.
fn has_star(p: &Vec<char>) -> (b: bool)
    ensures
        b <==> p@.contains('*'),
{
    let mut i: usize = 0;
    while i < p.len()
        invariant
            i <= p.len(),
            forall|j: int| 0 <= j < i ==> p@[j] != '*',
        decreases p.len() - i,
    {
        if p[i] == '*' {
            assert(p@[i as int] == '*');
            return true;
        }
        i = i + 1;
    }
    false
}

/// The fragment matcher of `fragments_match`, from the start of the key.
fn fragments_fit(key: &Vec<char>, parts: &Vec<Vec<char>>) -> (b: bool)
    ensures
        b == fragments_match(key@, parts@.map_values(|v: Vec<char>| v@), 0, 0),
{
    let ghost ps = parts@.map_values(|v: Vec<char>| v@);
    let mut i: usize = 0;
    let mut pos: usize = 0;
    while i < parts.len()
        invariant
            ps == parts@.map_values(|v: Vec<char>| v@),
            i <= parts.len(),
            pos <= key.len(),
            fragments_match(key@, ps, 0, 0) == fragments_match(key@, ps, i as int, pos as int),
        decreases parts.len() - i,
    {
        let part = &parts[i];
        assert(ps[i as int] == part@);
        if part.len() == 0 {
            i = i + 1;
        } else if i == parts.len() - 1 {
            if part.len() > key.len() || pos > key.len() - part.len() {
                return false;
            }
            assert(part@.subrange(0, part.len() as int) =~= part@);
            let at = key.len() - part.len();
            assert(at + (part.len() - 0) == key.len());
            return same_at(key, at, part, 0, part.len());
        } else {
            proof {
                lemma_first_occurrence_found(key@, part@, pos as int);
            }
            match find_from(key, part, pos) {
                None => {
                    return false;
                },
                Some(j) => {
                    pos = j + part.len();
                    i = i + 1;
                },
            }
        }
    }
    true
}

/// Whether one key fits a pattern other than the lone `*`, given the
/// pattern's fragments.
fn key_fits(key: &Vec<char>, pat: &Vec<char>, parts: &Vec<Vec<char>>) -> (b: bool)
    requires
        parts@.map_values(|v: Vec<char>| v@) == split_star(pat@),
    ensures
        b == key_matches(key@, pat@),
{
    let n = pat.len();
    if n > 0 && pat[n - 1] == '*' {
        let m = n - 1;
        assert(pat@.drop_last() =~= pat@.subrange(0, m as int));
        if m > key.len() {
            return false;
        }
        assert(key@.subrange(0, m as int) =~= key@.subrange(0, 0 + (m - 0)));
        same_at(key, 0, pat, 0, m)
    } else if n > 0 && pat[0] == '*' {
        let m = n - 1;
        assert(pat@.drop_first() =~= pat@.subrange(1, n as int));
        if m > key.len() {
            return false;
        }
        same_at(key, key.len() - m, pat, 1, n)
    } else if has_star(pat) {
        fragments_fit(key, parts)
    } else {
        if key.len() != n {
            return false;
        }
        let r = same_at(key, 0, pat, 0, n);
        assert(key@.subrange(0, n as int) =~= key@);
        assert(pat@.subrange(0, n as int) =~= pat@);
        r
    }
}

impl OsmElement {
    /// Whether this element's tags satisfy one pattern.
    pub fn matches_tag_pattern(&self, pattern: &str) -> (b: bool)
        requires
            self.wf(),
        ensures
            b == pattern_matches(self.spec_tags()@, pattern@),
    {
        let pat = chars_of(pattern);
        let tags: &Tags = self.tags();
        if pat.len() == 1 && pat[0] == '*' {
            assert(pat@ =~= seq!['*']);
            return !tags.is_empty();
        }
        assert(pat@ != seq!['*']) by {
            if pat@ == seq!['*'] {
                assert(pat@.len() == 1 && pat@[0] == '*');
            }
        }
        let parts = split_on(&pat, '*');
        proof {
            tags.lemma_keys();
        }
        let n = tags.len();
        let mut i: usize = 0;
        while i < n
            invariant
                tags.wf(),
                *tags == self.spec_tags(),
                pat@ == pattern@,
                pat@ != seq!['*'],
                n == tags@.len(),
                tags.key_seq().len() == n,
                parts@.map_values(|v: Vec<char>| v@) == split_star(pat@),
                i <= n,
                forall|j: int| 0 <= j < i ==> !key_matches(#[trigger] tags.key_seq()[j], pat@),
            decreases n - i,
        {
            let key = chars_of(tags.key_at(i).as_str());
            if key_fits(&key, &pat, &parts) {
                assert(tags@.dom().contains(key@));
                return true;
            }
            i = i + 1;
        }
        assert forall|k: Seq<char>| #[trigger] tags@.dom().contains(k) implies !key_matches(k, pat@) by {
            let j = choose|j: int| 0 <= j < tags.key_seq().len() && tags.key_seq()[j] == k;
        }
        false
    }

    /// Whether this element's tags satisfy every pattern of one AND-group.
    fn matches_group(&self, group: &Vec<String>) -> (b: bool)
        requires
            self.wf(),
        ensures
            b == group_matches(self.spec_tags()@, strings_view(group@)),
    {
        let mut j: usize = 0;
        while j < group.len()
            invariant
                self.wf(),
                j <= group.len(),
                forall|q: int| 0 <= q < j ==> pattern_matches(self.spec_tags()@, #[trigger] strings_view(group@)[q]),
            decreases group.len() - j,
        {
            if !self.matches_tag_pattern(group[j].as_str()) {
                assert(!pattern_matches(self.spec_tags()@, strings_view(group@)[j as int]));
                return false;
            }
            j = j + 1;
        }
        true
    }

    /// Whether this element passes a filter: an OR over AND-groups of
    /// patterns; an empty filter passes every element.
    pub fn matches_filter(&self, filter_tags: &[Vec<String>]) -> (b: bool)
        requires
            self.wf(),
        ensures
            b == filter_matches(self.spec_tags()@, groups_view(filter_tags@)),
    {
        if filter_tags.len() == 0 {
            return true;
        }
        let mut g: usize = 0;
        while g < filter_tags.len()
            invariant
                self.wf(),
                g <= filter_tags@.len(),
                forall|h: int| 0 <= h < g ==> !group_matches(self.spec_tags()@, #[trigger] groups_view(filter_tags@)[h]),
            decreases filter_tags@.len() - g,
        {
            if self.matches_group(&filter_tags[g]) {
                assert(group_matches(self.spec_tags()@, groups_view(filter_tags@)[g as int]));
                return true;
            }
            g = g + 1;
        }
        false
    }
}


/// Whether `c` is whitespace: a character of the Unicode `White_Space`
/// property, as `char::is_whitespace` decides it.
pub open spec fn is_space(c: char) -> bool {
    ||| ('\u{9}' <= c && c <= '\u{d}')
    ||| c == ' '
    ||| c == '\u{85}'
    ||| c == '\u{a0}'
    ||| c == '\u{1680}'
    ||| ('\u{2000}' <= c && c <= '\u{200a}')
    ||| c == '\u{2028}'
    ||| c == '\u{2029}'
    ||| c == '\u{202f}'
    ||| c == '\u{205f}'
    ||| c == '\u{3000}'
}

/// Whether `c` is whitespace.
pub fn char_is_space(c: char) -> (b: bool)
    ensures
        b == is_space(c),
{
    ('\u{9}' <= c && c <= '\u{d}') || c == ' ' || c == '\u{85}' || c == '\u{a0}' || c == '\u{1680}'
        || ('\u{2000}' <= c && c <= '\u{200a}') || c == '\u{2028}' || c == '\u{2029}' || c == '\u{202f}'
        || c == '\u{205f}' || c == '\u{3000}'
}

/// `s` without its leading whitespace.
pub open spec fn trim_start(s: Seq<char>) -> Seq<char>
    decreases s.len(),
{
    if s.len() > 0 && is_space(s[0]) {
        trim_start(s.drop_first())
    } else {
        s
    }
}

/// `s` without its trailing whitespace.
pub open spec fn trim_end(s: Seq<char>) -> Seq<char>
    decreases s.len(),
{
    if s.len() > 0 && is_space(s.last()) {
        trim_end(s.drop_last())
    } else {
        s
    }
}

/// `s` without its leading and trailing whitespace.
pub open spec fn trimmed(s: Seq<char>) -> Seq<char> {
    trim_end(trim_start(s))
}

/// The characters of `s` without leading and trailing whitespace.
pub fn trim_chars(s: &Vec<char>) -> (r: Vec<char>)
    ensures
        r@ == trimmed(s@),
{
    let n = s.len();
    let mut a: usize = 0;
    assert(s@.subrange(0, n as int) =~= s@);
    while a < n && char_is_space(s[a])
        invariant
            n == s.len(),
            a <= n,
            trim_start(s@) == trim_start(s@.subrange(a as int, n as int)),
        decreases n - a,
    {
        assert(s@.subrange(a as int, n as int).drop_first() =~= s@.subrange(a + 1, n as int));
        a = a + 1;
    }
    let ghost t = s@.subrange(a as int, n as int);
    assert(trim_start(t) == t);
    let mut b: usize = n;
    assert(t.subrange(0, (b - a) as int) =~= t);
    while b > a && char_is_space(s[b - 1])
        invariant
            n == s.len(),
            a <= b <= n,
            t == s@.subrange(a as int, n as int),
            trim_end(t) == trim_end(s@.subrange(a as int, b as int)),
        decreases b - a,
    {
        assert(s@.subrange(a as int, b as int).drop_last() =~= s@.subrange(a as int, b - 1));
        b = b - 1;
    }
    let mut r: Vec<char> = Vec::new();
    let mut i: usize = a;
    while i < b
        invariant
            n == s.len(),
            a <= i <= b <= n,
            r@ == s@.subrange(a as int, i as int),
        decreases b - i,
    {
        r.push(s[i]);
        i = i + 1;
        assert(r@ =~= s@.subrange(a as int, i as int));
    }
    r
}

/// The filter a text denotes: `,` separates OR-groups, `+` separates the
/// patterns of a group, and each pattern is trimmed.
pub open spec fn spec_parse_filter(s: Seq<char>) -> Seq<Seq<Seq<char>>> {
    split_char(s, ',').map_values(
        |g: Seq<char>| split_char(g, '+').map_values(|t: Seq<char>| trimmed(t)),
    )
}

/// The trimmed patterns of one group.
fn parse_group(g: &Vec<char>) -> (r: Vec<String>)
    ensures
        strings_view(r@) == split_char(g@, '+').map_values(|t: Seq<char>| trimmed(t)),
{
    let terms = split_on(g, '+');
    let ghost ts = terms@.map_values(|v: Vec<char>| v@);
    let mut out: Vec<String> = Vec::new();
    let mut i: usize = 0;
    while i < terms.len()
        invariant
            ts == terms@.map_values(|v: Vec<char>| v@),
            ts == split_char(g@, '+'),
            i <= terms.len(),
            strings_view(out@) == ts.subrange(0, i as int).map_values(|t: Seq<char>| trimmed(t)),
        decreases terms.len() - i,
    {
        assert(terms[i as int]@ == ts[i as int]);
        let t = text_from_chars(trim_chars(&terms[i]));
        let ghost before = out@;
        out.push(t);
        assert(out@ == before.push(t));
        assert(strings_view(out@) =~= strings_view(before).push(trimmed(ts[i as int])));
        i = i + 1;
        assert(strings_view(out@) =~= ts.subrange(0, i as int).map_values(|t: Seq<char>| trimmed(t)));
    }
    assert(ts.subrange(0, i as int) =~= ts);
    out
}

/// Reads a filter from text such as `amenity+name,highway`: `,` separates
/// OR-groups and `+` separates the patterns of a group; patterns are trimmed.
pub fn parse_tag_filter(s: &str) -> (r: Vec<Vec<String>>)
    ensures
        groups_view(r@) == spec_parse_filter(s@),
{
    let cs = chars_of(s);
    let groups = split_on(&cs, ',');
    let ghost gs = groups@.map_values(|v: Vec<char>| v@);
    let mut out: Vec<Vec<String>> = Vec::new();
    let mut i: usize = 0;
    while i < groups.len()
        invariant
            gs == groups@.map_values(|v: Vec<char>| v@),
            gs == split_char(s@, ','),
            i <= groups.len(),
            groups_view(out@) == gs.subrange(0, i as int).map_values(
                |g: Seq<char>| split_char(g, '+').map_values(|t: Seq<char>| trimmed(t)),
            ),
        decreases groups.len() - i,
    {
        assert(groups[i as int]@ == gs[i as int]);
        let g = parse_group(&groups[i]);
        let ghost before = out@;
        let ghost gv = strings_view(g@);
        out.push(g);
        assert(out@ == before.push(g));
        assert(groups_view(out@) =~= groups_view(before).push(gv));
        i = i + 1;
        assert(groups_view(out@) =~= gs.subrange(0, i as int).map_values(
            |g: Seq<char>| split_char(g, '+').map_values(|t: Seq<char>| trimmed(t)),
        ));
    }
    assert(gs.subrange(0, i as int) =~= gs);
    out
}

/// A filter without groups passes every tag set.
pub proof fn lemma_empty_filter_matches_all(tags: Map<Seq<char>, Seq<char>>)
    ensures
        filter_matches(tags, Seq::<Seq<Seq<char>>>::empty()),
{
}

/// The lone `*` pattern holds exactly for tag sets with at least one tag.
pub proof fn lemma_star_matches_tagged(tags: Map<Seq<char>, Seq<char>>)
    requires
        tags.dom().finite(),
    ensures
        pattern_matches(tags, seq!['*']) <==> tags.dom().len() > 0,
        pattern_matches(tags, seq!['*']) <==> exists|k: Seq<char>| #[trigger] tags.dom().contains(k),
{
    if tags.dom().len() > 0 {
        let k = tags.dom().choose();
        assert(tags.dom().contains(k));
    }
    if exists|k: Seq<char>| #[trigger] tags.dom().contains(k) {
        let k = choose|k: Seq<char>| #[trigger] tags.dom().contains(k);
        assert(tags.dom().len() > 0);
    }
}

/// A pattern `prefix*` holds exactly when some tag key starts with `prefix`.
pub proof fn lemma_prefix_pattern(tags: Map<Seq<char>, Seq<char>>, prefix: Seq<char>)
    requires
        tags.dom().finite(),
    ensures
        pattern_matches(tags, prefix.push('*')) <==> exists|k: Seq<char>|
            #[trigger] tags.dom().contains(k) && starts_with(k, prefix),
{
    let pat = prefix.push('*');
    assert(pat.drop_last() =~= prefix);
    if pat == seq!['*'] {
        assert(prefix.len() == 0);
        lemma_star_matches_tagged(tags);
        if exists|k: Seq<char>| #[trigger] tags.dom().contains(k) {
            let k = choose|k: Seq<char>| #[trigger] tags.dom().contains(k);
            assert(k.subrange(0, 0) =~= prefix);
            assert(starts_with(k, prefix));
        }
    } else {
        assert forall|k: Seq<char>| key_matches(k, pat) <==> starts_with(k, prefix) by {
            assert(pat.len() > 0 && pat.last() == '*');
        }
    }
}

/// The filter `[[a, b], [c]]` holds exactly when `a` and `b` both hold, or `c` does.
pub proof fn lemma_and_or_composition(
    tags: Map<Seq<char>, Seq<char>>,
    a: Seq<char>,
    b: Seq<char>,
    c: Seq<char>,
)
    ensures
        filter_matches(tags, seq![seq![a, b], seq![c]]) <==> ((pattern_matches(tags, a)
            && pattern_matches(tags, b)) || pattern_matches(tags, c)),
{
    let groups = seq![seq![a, b], seq![c]];
    let g0 = seq![a, b];
    let g1 = seq![c];
    assert(groups[0] == g0 && groups[1] == g1);
    if pattern_matches(tags, a) && pattern_matches(tags, b) {
        assert(group_matches(tags, g0)) by {
            assert forall|j: int| 0 <= j < g0.len() implies #[trigger] pattern_matches(tags, g0[j]) by {
                if j == 0 {
                    assert(g0[j] == a);
                } else {
                    assert(g0[j] == b);
                }
            }
        }
    }
    if pattern_matches(tags, c) {
        assert(group_matches(tags, g1)) by {
            assert forall|j: int| 0 <= j < g1.len() implies #[trigger] pattern_matches(tags, g1[j]) by {
                assert(g1[j] == c);
            }
        }
    }
    if filter_matches(tags, groups) {
        let g = choose|g: int| 0 <= g < groups.len() && #[trigger] group_matches(tags, groups[g]);
        if g == 0 {
            assert(pattern_matches(tags, g0[0]));
            assert(pattern_matches(tags, g0[1]));
        } else {
            assert(pattern_matches(tags, g1[0]));
        }
    }
}

} // verus!
