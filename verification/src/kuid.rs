//! The identity grammar of marker files: a line `kuid <tag>` whose tag is
//! `kuid[2]:<int>:<int>[:<int>]` (keyword case-insensitive), the companion
//! `username "<text>"` line, and the dummy-identity rewrite used for staging.

use vstd::prelude::*;

use crate::textutil::{
    append_chars, chars_to_string, digits_end, digits_end_exec, find_char, find_char_exec,
    is_space, lemma_find_char, lemma_find_char_is, lemma_find_char_none, lemma_skip_spaces,
    lemma_skip_spaces_is, match_kw_ci, match_kw_ci_exec, skip_spaces, skip_spaces_exec,
    str_to_chars,
};

verus! {

/// The identity keyword, lower-case.
pub open spec fn kw_kuid() -> Seq<char> {
    seq!['k', 'u', 'i', 'd']
}

/// The display-name keyword, lower-case.
pub open spec fn kw_username() -> Seq<char> {
    seq!['u', 's', 'e', 'r', 'n', 'a', 'm', 'e']
}

/// The fixed dummy identity staged copies are rewritten to.
pub open spec fn dummy_kuid() -> Seq<char> {
    seq!['k', 'u', 'i', 'd', ':', '2', '9', '8', '4', '6', '9', ':', '9', '9', '9', '9', '9', '9']
}

/// A colon followed by at least one digit at `i`; returns the index past the
/// digit run.
pub open spec fn colon_digits(s: Seq<char>, i: int) -> Option<int> {
    if 0 <= i < s.len() && s[i] == ':' {
        let e = digits_end(s, i + 1);
        if e > i + 1 {
            Some(e)
        } else {
            None
        }
    } else {
        None
    }
}

/// The tag grammar: `kuid` (case-insensitive), an optional `2`, then two or
/// three colon-separated digit runs filling the rest exactly.
pub open spec fn is_kuid_tag(s: Seq<char>) -> bool {
    if !match_kw_ci(s, 0, kw_kuid()) {
        false
    } else {
        let p: int = if 4 < s.len() && s[4] == '2' {
            5
        } else {
            4
        };
        match colon_digits(s, p) {
            None => false,
            Some(q1) => match colon_digits(s, q1) {
                None => false,
                Some(q2) => q2 == s.len() || colon_digits(s, q2) == Some(s.len() as int),
            },
        }
    }
}

/// The identity grammar matched against one line: the keyword at line start,
/// at least one space, then `<tag>` with a valid tag; anything may follow.
/// Returns the positions of `<` and `>`.
pub open spec fn kuid_line_span(l: Seq<char>) -> Option<(int, int)> {
    if !match_kw_ci(l, 0, kw_kuid()) {
        None
    } else {
        let w = skip_spaces(l, 4);
        if w == 4 {
            None
        } else if w < l.len() && l[w] == '<' {
            match find_char(l, w + 1, '>') {
                Some(g) => if is_kuid_tag(l.subrange(w + 1, g)) {
                    Some((w, g))
                } else {
                    None
                },
                None => None,
            }
        } else {
            None
        }
    }
}

/// The display-name grammar matched against one line: the keyword at line
/// start, at least one space, then a double-quoted stretch; returns the
/// span of the quoted text, which may be empty.
pub open spec fn username_span(l: Seq<char>) -> Option<(int, int)> {
    if !match_kw_ci(l, 0, kw_username()) {
        None
    } else {
        let w = skip_spaces(l, 8);
        if w == 8 {
            None
        } else if w < l.len() && l[w] == '"' {
            match find_char(l, w + 1, '"') {
                Some(q) => Some((w + 1, q)),
                None => None,
            }
        } else {
            None
        }
    }
}

/// The first line of `text`: everything before the first `'\n'`, or all of it.
pub open spec fn spec_first_line(text: Seq<char>) -> Seq<char> {
    match find_char(text, 0, '\n') {
        Some(nl) => text.subrange(0, nl),
        None => text,
    }
}

/// The span of the identity tag in `text`: the first line (in order) that the
/// identity grammar matches decides, and the span is global, between its `<`
/// and `>`.
pub open spec fn spec_tag_span(text: Seq<char>) -> Option<(int, int)>
    decreases text.len(),
{
    match kuid_line_span(spec_first_line(text)) {
        Some((lt, gt)) => Some((lt + 1, gt)),
        None => match find_char(text, 0, '\n') {
            Some(nl) => if 0 <= nl < text.len() {
                match spec_tag_span(text.subrange(nl + 1, text.len() as int)) {
                    Some((a, b)) => Some((a + nl + 1, b + nl + 1)),
                    None => None,
                }
            } else {
                None
            },
            None => None,
        },
    }
}

/// The identity a marker file carries, if any line matches.
pub open spec fn spec_config_kuid(text: Seq<char>) -> Option<Seq<char>> {
    match spec_tag_span(text) {
        Some((a, b)) => Some(text.subrange(a, b)),
        None => None,
    }
}

/// The display name a marker file carries: the quoted text of the first line
/// the display-name grammar matches.
pub open spec fn spec_config_username(text: Seq<char>) -> Option<Seq<char>>
    decreases text.len(),
{
    match username_span(spec_first_line(text)) {
        Some((a, b)) => Some(spec_first_line(text).subrange(a, b)),
        None => match find_char(text, 0, '\n') {
            Some(nl) => if 0 <= nl < text.len() {
                spec_config_username(text.subrange(nl + 1, text.len() as int))
            } else {
                None
            },
            None => None,
        },
    }
}

/// `text` with the matched identity tag replaced by the dummy identity;
/// unchanged where no line matches.
pub open spec fn spec_rewrite(text: Seq<char>) -> Seq<char> {
    match spec_tag_span(text) {
        Some((a, b)) => text.subrange(0, a) + dummy_kuid() + text.subrange(b, text.len() as int),
        None => text,
    }
}

fn kw_kuid_exec() -> (v: Vec<char>)
    ensures
        v@ == kw_kuid(),
{
    let v = vec!['k', 'u', 'i', 'd'];
    proof {
        assert(v@ =~= kw_kuid());
    }
    v
}

fn kw_username_exec() -> (v: Vec<char>)
    ensures
        v@ == kw_username(),
{
    let v = vec!['u', 's', 'e', 'r', 'n', 'a', 'm', 'e'];
    proof {
        assert(v@ =~= kw_username());
    }
    v
}

/// The dummy identity as a string.
pub fn dummy_kuid_string() -> (s: String)
    ensures
        s@ == dummy_kuid(),
{
    let v = vec![
        'k',
        'u',
        'i',
        'd',
        ':',
        '2',
        '9',
        '8',
        '4',
        '6',
        '9',
        ':',
        '9',
        '9',
        '9',
        '9',
        '9',
        '9',
    ];
    proof {
        assert(v@ =~= dummy_kuid());
    }
    chars_to_string(v.as_slice())
}

/// Exec mirror of `colon_digits`.
fn colon_digits_exec(v: &[char], i: usize) -> (r: Option<usize>)
    requires
        i <= v@.len(),
    ensures
        match r {
            Some(e) => colon_digits(v@, i as int) == Some(e as int) && i < e <= v@.len(),
            None => colon_digits(v@, i as int) is None,
        },
{
    if i < v.len() && v[i] == ':' {
        let e = digits_end_exec(v, i + 1);
        if e > i + 1 {
            Some(e)
        } else {
            None
        }
    } else {
        None
    }
}

/// Exec mirror of `is_kuid_tag`.
fn is_kuid_tag_exec(v: &[char], kuid_kw: &[char]) -> (r: bool)
    requires
        kuid_kw@ == kw_kuid(),
    ensures
        r == is_kuid_tag(v@),
{
    let n = v.len();
    if !match_kw_ci_exec(v, 0, kuid_kw) {
        return false;
    }
    let p: usize = if 4 < n && v[4] == '2' {
        5
    } else {
        4
    };
    proof {
        assert(kw_kuid().len() == 4);
    }
    let q1 = match colon_digits_exec(v, p) {
        Some(q) => q,
        None => {
            return false;
        },
    };
    let q2 = match colon_digits_exec(v, q1) {
        Some(q) => q,
        None => {
            return false;
        },
    };
    if q2 == n {
        return true;
    }
    match colon_digits_exec(v, q2) {
        Some(q3) => q3 == n,
        None => false,
    }
}

/// Exec mirror of `kuid_line_span`.
fn kuid_line_span_exec(l: &[char], kuid_kw: &[char]) -> (r: Option<(usize, usize)>)
    requires
        kuid_kw@ == kw_kuid(),
    ensures
        match r {
            Some((lt, gt)) => kuid_line_span(l@) == Some((lt as int, gt as int)) && lt < gt
                < l@.len(),
            None => kuid_line_span(l@) is None,
        },
{
    if !match_kw_ci_exec(l, 0, kuid_kw) {
        return None;
    }
    proof {
        assert(kw_kuid().len() == 4);
    }
    let w = skip_spaces_exec(l, 4);
    if w == 4 {
        return None;
    }
    if !(w < l.len() && l[w] == '<') {
        return None;
    }
    let g = match find_char_exec(l, w + 1, '>') {
        Some(g) => g,
        None => {
            return None;
        },
    };
    let tag = copy_range(l, w + 1, g);
    if is_kuid_tag_exec(tag.as_slice(), kuid_kw) {
        Some((w, g))
    } else {
        None
    }
}

/// Exec mirror of `username_span`.
fn username_span_exec(l: &[char], user_kw: &[char]) -> (r: Option<(usize, usize)>)
    requires
        user_kw@ == kw_username(),
    ensures
        match r {
            Some((a, b)) => username_span(l@) == Some((a as int, b as int)) && a <= b < l@.len(),
            None => username_span(l@) is None,
        },
{
    if !match_kw_ci_exec(l, 0, user_kw) {
        return None;
    }
    proof {
        assert(kw_username().len() == 8);
    }
    let w = skip_spaces_exec(l, 8);
    if w == 8 {
        return None;
    }
    if !(w < l.len() && l[w] == '"') {
        return None;
    }
    match find_char_exec(l, w + 1, '"') {
        Some(q) => Some((w + 1, q)),
        None => None,
    }
}

/// The characters of `v` from `from` up to `to`.
fn copy_range(v: &[char], from: usize, to: usize) -> (r: Vec<char>)
    requires
        from <= to <= v@.len(),
    ensures
        r@ == v@.subrange(from as int, to as int),
{
    let mut r: Vec<char> = Vec::new();
    let mut i: usize = from;
    proof {
        assert(r@ =~= v@.subrange(from as int, from as int));
    }
    while i < to
        invariant
            from <= i <= to <= v@.len(),
            r@ == v@.subrange(from as int, i as int),
        decreases to - i,
    {
        r.push(v[i]);
        i = i + 1;
        proof {
            assert(r@ =~= v@.subrange(from as int, i as int));
        }
    }
    r
}

/// A `find_char` result carries over to the suffix starting at `o`.
proof fn lemma_find_char_shift(s: Seq<char>, o: int, c: char)
    requires
        0 <= o <= s.len(),
    ensures
        match find_char(s, o, c) {
            Some(j) => find_char(s.subrange(o, s.len() as int), 0, c) == Some(j - o),
            None => find_char(s.subrange(o, s.len() as int), 0, c) is None,
        },
{
    let sub = s.subrange(o, s.len() as int);
    lemma_find_char(s, o, c);
    match find_char(s, o, c) {
        Some(j) => {
            assert(sub[j - o] == s[j]);
            assert(forall|k: int| 0 <= k < j - o ==> sub[k] == s[k + o] && sub[k] != c);
            lemma_find_char_is(sub, 0, c, j - o);
        },
        None => {
            assert(forall|k: int| 0 <= k < sub.len() ==> sub[k] == s[k + o] && sub[k] != c);
            lemma_find_char_none(sub, 0, c);
        },
    }
}

/// Exec mirror of `spec_tag_span`.
fn tag_span_exec(v: &[char], kuid_kw: &[char]) -> (r: Option<(usize, usize)>)
    requires
        kuid_kw@ == kw_kuid(),
    ensures
        match r {
            Some((a, b)) => spec_tag_span(v@) == Some((a as int, b as int)) && 0 < a <= b
                < v@.len(),
            None => spec_tag_span(v@) is None,
        },
{
    let n = v.len();
    let mut o: usize = 0;
    proof {
        assert(v@.subrange(0, n as int) =~= v@);
    }
    while o <= n
        invariant
            o <= n + 1,
            o <= n,
            n == v@.len(),
            kuid_kw@ == kw_kuid(),
            spec_tag_span(v@) == (match spec_tag_span(v@.subrange(o as int, n as int)) {
                Some((a, b)) => Some((a + o as int, b + o as int)),
                None => None::<(int, int)>,
            }),
        decreases n - o,
    {
        let ghost sub = v@.subrange(o as int, n as int);
        let e = match find_char_exec(v, o, '\n') {
            Some(e) => e,
            None => n,
        };
        let line = copy_range(v, o, e);
        proof {
            lemma_find_char_shift(v@, o as int, '\n');
            match find_char(v@, o as int, '\n') {
                Some(j) => {
                    assert(spec_first_line(sub) =~= sub.subrange(0, j - o));
                    assert(sub.subrange(0, j - o) =~= v@.subrange(o as int, j));
                },
                None => {
                    assert(spec_first_line(sub) == sub);
                    assert(sub =~= v@.subrange(o as int, n as int));
                },
            }
            assert(line@ == spec_first_line(sub));
        }
        match kuid_line_span_exec(line.as_slice(), kuid_kw) {
            Some((lt, gt)) => {
                proof {
                    assert(spec_tag_span(sub) == Some((lt + 1 as int, gt as int)));
                }
                return Some((o + lt + 1, o + gt));
            },
            None => {},
        }
        if e == n {
            proof {
                assert(kuid_line_span(spec_first_line(sub)) is None);
                if find_char(v@, o as int, '\n') is Some {
                    let nl = find_char(v@, o as int, '\n').unwrap();
                    assert(false);
                }
                assert(find_char(sub, 0, '\n') is None);
                assert(spec_tag_span(sub) is None);
            }
            return None;
        }
        proof {
            let nl = e - o;
            assert(find_char(sub, 0, '\n') == Some(nl as int));
            let sub2 = sub.subrange(nl + 1, sub.len() as int);
            assert(sub2 =~= v@.subrange(e + 1, n as int));
            assert(spec_tag_span(sub) == (match spec_tag_span(sub2) {
                Some((a, b)) => Some((a + nl + 1, b + nl + 1)),
                None => None::<(int, int)>,
            }));
        }
        o = e + 1;
    }
    proof {
        assert(v@.subrange(o as int, n as int) =~= Seq::<char>::empty());
    }
    None
}

/// The identity the marker text carries, if any line matches the identity
/// grammar.
pub fn config_kuid(text: &str) -> (r: Option<String>)
    ensures
        match r {
            Some(k) => spec_config_kuid(text@) == Some(k@),
            None => spec_config_kuid(text@) is None,
        },
{
    let v = str_to_chars(text);
    let kw = kw_kuid_exec();
    match tag_span_exec(v.as_slice(), kw.as_slice()) {
        Some((a, b)) => Some(chars_to_string(copy_range(v.as_slice(), a, b).as_slice())),
        None => None,
    }
}

/// The display name the marker text carries, if any line matches the
/// display-name grammar.
pub fn config_username(text: &str) -> (r: Option<String>)
    ensures
        match r {
            Some(nm) => spec_config_username(text@) == Some(nm@),
            None => spec_config_username(text@) is None,
        },
{
    let v = str_to_chars(text);
    let s = v.as_slice();
    let kw = kw_username_exec();
    let n = s.len();
    let mut o: usize = 0;
    proof {
        assert(v@.subrange(0, n as int) =~= v@);
    }
    while o <= n
        invariant
            o <= n,
            n == v@.len(),
            s@ == v@,
            v@ == text@,
            kw@ == kw_username(),
            spec_config_username(text@) == spec_config_username(
                v@.subrange(o as int, n as int),
            ),
        decreases n - o,
    {
        let ghost sub = v@.subrange(o as int, n as int);
        let e = match find_char_exec(s, o, '\n') {
            Some(e) => e,
            None => n,
        };
        let line = copy_range(s, o, e);
        proof {
            lemma_find_char_shift(v@, o as int, '\n');
            match find_char(v@, o as int, '\n') {
                Some(j) => {
                    assert(spec_first_line(sub) =~= sub.subrange(0, j - o));
                    assert(sub.subrange(0, j - o) =~= v@.subrange(o as int, j));
                },
                None => {
                    assert(sub =~= v@.subrange(o as int, n as int));
                },
            }
            assert(line@ == spec_first_line(sub));
        }
        match username_span_exec(line.as_slice(), kw.as_slice()) {
            Some((a, b)) => {
                proof {
                    assert(spec_config_username(sub) == Some(line@.subrange(a as int, b as int)));
                }
                return Some(chars_to_string(copy_range(line.as_slice(), a, b).as_slice()));
            },
            None => {},
        }
        if e == n {
            proof {
                if find_char(v@, o as int, '\n') is Some {
                    assert(false);
                }
                assert(find_char(sub, 0, '\n') is None);
                assert(spec_config_username(sub) is None);
            }
            return None;
        }
        proof {
            let nl = e - o;
            assert(find_char(sub, 0, '\n') == Some(nl as int));
            let sub2 = sub.subrange(nl + 1, sub.len() as int);
            assert(sub2 =~= v@.subrange(e + 1, n as int));
            assert(spec_config_username(sub) == spec_config_username(sub2));
        }
        o = e + 1;
    }
    proof {
        assert(v@.subrange(o as int, n as int) =~= Seq::<char>::empty());
    }
    None
}

/// The marker text with its identity tag replaced by the dummy identity;
/// unchanged where no line matches the identity grammar.
pub fn rewrite_config(text: &str) -> (r: String)
    ensures
        r@ == spec_rewrite(text@),
{
    let v = str_to_chars(text);
    let kw = kw_kuid_exec();
    match tag_span_exec(v.as_slice(), kw.as_slice()) {
        Some((a, b)) => {
            let mut out = chars_to_string(copy_range(v.as_slice(), 0, a).as_slice());
            let dummy = dummy_kuid_string();
            out.append(dummy.as_str());
            let tail = copy_range(v.as_slice(), b, v.len());
            append_chars(&mut out, tail.as_slice());
            out
        },
        None => chars_to_string(v.as_slice()),
    }
}

/// The dummy identity is itself a valid tag and holds neither `'>'` nor
/// `'\n'`; its fifth character is the first colon.
proof fn lemma_dummy_tag()
    ensures
        dummy_kuid().len() == 18,
        is_kuid_tag(dummy_kuid()),
        forall|k: int| 0 <= k < 18 ==> dummy_kuid()[k] != '>' && dummy_kuid()[k] != '\n',
{
    let d = dummy_kuid();
    assert(d.len() == 18);
    assert forall|j: int| 0 <= j < 4 implies crate::textutil::eq_ci(d[j], kw_kuid()[j]) by {
        assert(d[0] == 'k' && d[1] == 'u' && d[2] == 'i' && d[3] == 'd');
    }
    assert(match_kw_ci(d, 0, kw_kuid()));
    assert(d[4] == ':');
    assert(digits_end(d, 5) == 11) by {
        reveal_with_fuel(crate::textutil::digits_end, 9);
    }
    assert(colon_digits(d, 4) == Some(11int));
    assert(digits_end(d, 12) == 18) by {
        reveal_with_fuel(crate::textutil::digits_end, 9);
    }
    assert(colon_digits(d, 11) == Some(18int));
    assert(is_kuid_tag(d));
}

/// What a matched identity line pins down: the keyword, the space run, the
/// bracket positions, and the tag between them.
proof fn lemma_kuid_line_span_props(l: Seq<char>, lt: int, gt: int)
    requires
        kuid_line_span(l) == Some((lt, gt)),
    ensures
        match_kw_ci(l, 0, kw_kuid()),
        5 <= lt,
        lt + 1 <= gt < l.len(),
        skip_spaces(l, 4) == lt,
        forall|j: int| 4 <= j < lt ==> is_space(l[j]),
        l[lt] == '<',
        l[gt] == '>',
        forall|k: int| lt + 1 <= k < gt ==> l[k] != '>',
        is_kuid_tag(l.subrange(lt + 1, gt)),
{
    assert(kw_kuid().len() == 4);
    assert(l.len() >= 4);
    lemma_skip_spaces(l, 4);
    let w = skip_spaces(l, 4);
    assert(w == lt);
    lemma_find_char(l, lt + 1, '>');
}

/// Rewriting the tag of a matched line yields a line the grammar matches
/// again, with the same `<` position and the tag replaced by the dummy.
proof fn lemma_line_rewrite(l: Seq<char>, lt: int, gt: int)
    requires
        kuid_line_span(l) == Some((lt, gt)),
    ensures
        kuid_line_span(
            l.subrange(0, lt + 1) + dummy_kuid() + l.subrange(gt, l.len() as int),
        ) == Some((lt, lt + 19)),
{
    lemma_kuid_line_span_props(l, lt, gt);
    lemma_dummy_tag();
    let d = dummy_kuid();
    let l2 = l.subrange(0, lt + 1) + d + l.subrange(gt, l.len() as int);
    assert(l2.len() == lt + 19 + (l.len() - gt));
    assert(forall|j: int| 0 <= j <= lt ==> l2[j] == l[j]);
    assert(forall|k: int| 0 <= k < 18 ==> l2[lt + 1 + k] == d[k]);
    assert(l2[lt + 19] == l[gt]);
    assert forall|j: int| 0 <= j < 4 implies crate::textutil::eq_ci(l2[j], kw_kuid()[j]) by {
        assert(l2[j] == l[j]);
    }
    assert(match_kw_ci(l2, 0, kw_kuid()));
    assert(!is_space('<'));
    lemma_skip_spaces_is(l2, 4, lt);
    assert(l2[lt] == '<');
    assert forall|k: int| lt + 1 <= k < lt + 19 implies l2[k] != '>' by {
        assert(l2[k] == d[k - lt - 1]);
    }
    assert(l2[lt + 19] == '>');
    lemma_find_char_is(l2, lt + 1, '>', lt + 19);
    assert(l2.subrange(lt + 1, lt + 19) =~= d);
    assert(is_kuid_tag(l2.subrange(lt + 1, lt + 19)));
    assert(kuid_line_span(l2) == Some((lt, lt + 19)));
}

/// A matched tag span lies strictly inside the text.
proof fn lemma_tag_span_bounds(text: Seq<char>)
    requires
        spec_tag_span(text) is Some,
    ensures
        ({
            let (a, b) = spec_tag_span(text)->Some_0;
            &&& 0 < a <= b < text.len()
            &&& text[a - 1] == '<'
            &&& text[b] == '>'
        }),
    decreases text.len(),
{
    let l = spec_first_line(text);
    lemma_find_char(text, 0, '\n');
    match kuid_line_span(l) {
        Some((lt, gt)) => {
            lemma_kuid_line_span_props(l, lt, gt);
            assert(l.len() <= text.len());
            assert(forall|j: int| 0 <= j < l.len() ==> l[j] == text[j]);
        },
        None => {
            let nl = find_char(text, 0, '\n')->Some_0;
            let tail = text.subrange(nl + 1, text.len() as int);
            lemma_tag_span_bounds(tail);
        },
    }
}

/// Rewriting moves the matched span to the dummy tag, at the same start.
#[verifier::rlimit(60)]
proof fn lemma_tag_span_rewrite(text: Seq<char>)
    requires
        spec_tag_span(text) is Some,
    ensures
        ({
            let (a, b) = spec_tag_span(text)->Some_0;
            spec_tag_span(spec_rewrite(text)) == Some((a, a + 18))
        }),
    decreases text.len(),
{
    lemma_dummy_tag();
    lemma_tag_span_bounds(text);
    let d = dummy_kuid();
    let (a, b) = spec_tag_span(text)->Some_0;
    let r = spec_rewrite(text);
    assert(r == text.subrange(0, a) + d + text.subrange(b, text.len() as int));
    assert(r.len() == a + 18 + (text.len() - b));
    let l = spec_first_line(text);
    lemma_find_char(text, 0, '\n');
    match kuid_line_span(l) {
        Some((lt, gt)) => {
            lemma_kuid_line_span_props(l, lt, gt);
            assert(a == lt + 1 && b == gt);
            let l2 = l.subrange(0, lt + 1) + d + l.subrange(gt, l.len() as int);
            lemma_line_rewrite(l, lt, gt);
            match find_char(text, 0, '\n') {
                None => {
                    assert(l == text);
                    assert(forall|k: int| 0 <= k < r.len() ==> r[k] != '\n') by {
                        assert(forall|k: int| 0 <= k < text.len() ==> text[k] != '\n');
                    }
                    lemma_find_char_none(r, 0, '\n');
                    assert(spec_first_line(r) == r);
                    assert(r =~= l2);
                    assert(kuid_line_span(r) == Some((lt, lt + 19)));
                    assert(spec_tag_span(r) == Some((lt + 1, lt + 19)));
                },
                Some(nl) => {
                    assert(l == text.subrange(0, nl));
                    assert(gt < nl);
                    let nl2 = nl + 18 - (gt - lt - 1);
                    assert(nl2 == a + 18 + (nl - b));
                    assert forall|k: int| 0 <= k < nl2 implies r[k] != '\n' by {
                        if k < a {
                            assert(r[k] == text[k]);
                        } else if k < a + 18 {
                            assert(r[k] == d[k - a]);
                        } else {
                            assert(r[k] == text[k - 18 + (b - a)]);
                            assert(b <= k - 18 + (b - a) < nl);
                        }
                    }
                    assert(r[nl2] == text[nl]);
                    lemma_find_char_is(r, 0, '\n', nl2);
                    assert(spec_first_line(r) == r.subrange(0, nl2));
                    assert(r.subrange(0, nl2) =~= l2);
                    assert(kuid_line_span(spec_first_line(r)) == Some((lt, lt + 19)));
                    assert(spec_tag_span(r) == Some((lt + 1, lt + 19)));
                },
            }
        },
        None => {
            let nl = find_char(text, 0, '\n')->Some_0;
            let tail = text.subrange(nl + 1, text.len() as int);
            assert(spec_tag_span(tail) is Some);
            let (a2, b2) = spec_tag_span(tail)->Some_0;
            assert(a == a2 + nl + 1 && b == b2 + nl + 1);
            lemma_tag_span_bounds(tail);
            lemma_tag_span_rewrite(tail);
            let rt = spec_rewrite(tail);
            assert(rt == tail.subrange(0, a2) + d + tail.subrange(b2, tail.len() as int));
            assert(r.subrange(nl + 1, r.len() as int) =~= rt);
            assert(forall|k: int| 0 <= k < nl ==> r[k] == text[k] && r[k] != '\n');
            assert(r[nl] == text[nl]);
            lemma_find_char_is(r, 0, '\n', nl);
            assert(spec_first_line(r) =~= l);
            assert(kuid_line_span(spec_first_line(r)) is None);
            assert(spec_tag_span(rt) == Some((a2, a2 + 18)));
            assert(spec_tag_span(r) == Some((a2 + nl + 1, a2 + 18 + nl + 1)));
        },
    }
}

/// The dummy-identity rewrite is idempotent: applying it twice yields the
/// same text as applying it once.
pub proof fn lemma_rewrite_idempotent(text: Seq<char>)
    ensures
        spec_rewrite(spec_rewrite(text)) == spec_rewrite(text),
{
    if spec_tag_span(text) is Some {
        lemma_dummy_tag();
        lemma_tag_span_bounds(text);
        lemma_tag_span_rewrite(text);
        let d = dummy_kuid();
        let (a, b) = spec_tag_span(text)->Some_0;
        let r = spec_rewrite(text);
        assert(r == text.subrange(0, a) + d + text.subrange(b, text.len() as int));
        assert(spec_tag_span(r) == Some((a, a + 18)));
        assert(r.subrange(0, a) =~= text.subrange(0, a));
        assert(r.subrange(a + 18, r.len() as int) =~= text.subrange(b, text.len() as int));
        assert(spec_rewrite(r) == r.subrange(0, a) + d + r.subrange(a + 18, r.len() as int));
        assert(spec_rewrite(r) =~= r);
    }
}

} // verus!
