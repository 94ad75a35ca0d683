//! Character- and string-level helpers shared by the line grammars: character
//! classes, case-insensitive comparison, line splitting, and decimal rendering.

use vstd::prelude::*;

verus! {

/// The whitespace class accepted between tokens of the line grammars.
pub open spec fn is_space(c: char) -> bool {
    c == ' ' || c == '\t' || c == '\n' || c == '\r' || c == '\u{b}' || c == '\u{c}'
}

/// Exec mirror of `is_space`.
pub fn space_char(c: char) -> (r: bool)
    ensures
        r == is_space(c),
{
    c == ' ' || c == '\t' || c == '\n' || c == '\r' || c == '\u{b}' || c == '\u{c}'
}

/// A decimal digit.
pub open spec fn is_digit(c: char) -> bool {
    48 <= c as u32 <= 57
}

/// Exec mirror of `is_digit`.
pub fn digit_char(c: char) -> (r: bool)
    ensures
        r == is_digit(c),
{
    let u = c as u32;
    48 <= u && u <= 57
}

/// Numeric value of a decimal digit.
pub open spec fn digit_val(c: char) -> nat {
    (c as u32 - 48) as nat
}

/// Case-insensitive equality against an ASCII lower-case letter `l`:
/// `c` equals `l` itself or its upper-case form.
pub open spec fn eq_ci(c: char, l: char) -> bool {
    c == l || (97 <= l as u32 <= 122 && c as u32 + 32 == l as u32)
}

/// Exec mirror of `eq_ci`.
pub fn char_eq_ci(c: char, l: char) -> (r: bool)
    ensures
        r == eq_ci(c, l),
{
    c == l || (97 <= l as u32 && l as u32 <= 122 && c as u32 + 32 == l as u32)
}

/// Relies on `String::push`: appends the one character to the string.
#[verifier::external_body]
pub fn push_char(s: &mut String, c: char)
    ensures
        final(s)@ == old(s)@.push(c),
{
    s.push(c);
}

/// The characters of a string slice, in order.
pub fn str_to_chars(s: &str) -> (v: Vec<char>)
    ensures
        v@ == s@,
{
    let n = s.unicode_len();
    let mut v: Vec<char> = Vec::new();
    let mut i: usize = 0;
    while i < n
        invariant
            n == s@.len(),
            i <= n,
            v@ == s@.subrange(0, i as int),
        decreases n - i,
    {
        v.push(s.get_char(i));
        i = i + 1;
        proof {
            assert(v@ =~= s@.subrange(0, i as int));
        }
    }
    proof {
        assert(v@ =~= s@);
    }
    v
}

/// A string holding exactly the given characters.
pub fn chars_to_string(v: &[char]) -> (s: String)
    ensures
        s@ == v@,
{
    let mut s = String::new();
    let mut i: usize = 0;
    while i < v.len()
        invariant
            i <= v@.len(),
            s@ == v@.subrange(0, i as int),
        decreases v@.len() - i,
    {
        push_char(&mut s, v[i]);
        i = i + 1;
        proof {
            assert(s@ =~= v@.subrange(0, i as int));
        }
    }
    proof {
        assert(s@ =~= v@);
    }
    s
}

/// Splitting on `'\n'` with `cur` as the line gathered so far: every `'\n'`
/// ends a line, and a non-empty final fragment counts as a line of its own.
pub open spec fn split_from(s: Seq<char>, cur: Seq<char>) -> Seq<Seq<char>>
    decreases s.len(),
{
    if s.len() == 0 {
        if cur.len() == 0 {
            Seq::empty()
        } else {
            seq![cur]
        }
    } else if s[0] == '\n' {
        seq![cur] + split_from(s.subrange(1, s.len() as int), Seq::empty())
    } else {
        split_from(s.subrange(1, s.len() as int), cur.push(s[0]))
    }
}

/// The lines of `s`: split on `'\n'`, the separator not kept, no empty line
/// after a trailing `'\n'`.
pub open spec fn spec_split_lines(s: Seq<char>) -> Seq<Seq<char>> {
    split_from(s, Seq::empty())
}

/// Exec mirror of `spec_split_lines`.
pub fn split_lines(v: &[char]) -> (r: Vec<Vec<char>>)
    ensures
        r.deep_view() == spec_split_lines(v@),
{
    let mut r: Vec<Vec<char>> = Vec::new();
    let mut cur: Vec<char> = Vec::new();
    let mut i: usize = 0;
    proof {
        assert(v@.subrange(0, v@.len() as int) =~= v@);
        assert(r.deep_view() + split_from(v@, Seq::empty()) =~~= split_from(v@, Seq::empty()));
    }
    while i < v.len()
        invariant
            i <= v@.len(),
            spec_split_lines(v@) == r.deep_view() + split_from(
                v@.subrange(i as int, v@.len() as int),
                cur@,
            ),
        decreases v@.len() - i,
    {
        proof {
            let rest = v@.subrange(i as int, v@.len() as int);
            assert(rest.subrange(1, rest.len() as int) =~= v@.subrange(
                i + 1,
                v@.len() as int,
            ));
        }
        if v[i] == '\n' {
            let ghost r0 = r.deep_view();
            let done = cur;
            cur = Vec::new();
            r.push(done);
            proof {
                assert(r.deep_view() =~~= r0.push(done@));
                assert(r.deep_view() + split_from(
                    v@.subrange(i + 1, v@.len() as int),
                    Seq::empty(),
                ) =~~= r0 + split_from(v@.subrange(i as int, v@.len() as int), done@));
            }
        } else {
            cur.push(v[i]);
        }
        i = i + 1;
    }
    proof {
        assert(v@.subrange(v@.len() as int, v@.len() as int) =~= Seq::<char>::empty());
    }
    if cur.len() > 0 {
        let ghost r0 = r.deep_view();
        let done = cur;
        r.push(done);
        proof {
            assert(r.deep_view() =~~= r0.push(done@));
            assert(r0 + seq![done@] =~~= r0.push(done@));
        }
    } else {
        proof {
            assert(r.deep_view() + Seq::<Seq<char>>::empty() =~~= r.deep_view());
        }
    }
    r
}

/// A line with one trailing carriage return removed.
pub open spec fn strip_cr(l: Seq<char>) -> Seq<char> {
    if l.len() > 0 && l.last() == '\r' {
        l.drop_last()
    } else {
        l
    }
}

/// Pieces joined by a single separator character, with none after the last.
pub open spec fn join_char(ls: Seq<Seq<char>>, sep: char) -> Seq<char>
    decreases ls.len(),
{
    if ls.len() == 0 {
        Seq::empty()
    } else if ls.len() == 1 {
        ls[0]
    } else {
        ls[0] + seq![sep] + join_char(ls.subrange(1, ls.len() as int), sep)
    }
}

/// Joining one more piece appends a separator and the piece.
pub proof fn lemma_join_char_snoc(ls: Seq<Seq<char>>, l: Seq<char>, sep: char)
    ensures
        join_char(ls.push(l), sep) == if ls.len() == 0 {
            l
        } else {
            join_char(ls, sep) + seq![sep] + l
        },
    decreases ls.len(),
{
    let whole = ls.push(l);
    if ls.len() == 0 {
        assert(whole.len() == 1);
        assert(join_char(whole, sep) == whole[0]);
    } else {
        assert(whole.subrange(1, whole.len() as int) =~= ls.subrange(1, ls.len() as int).push(l));
        lemma_join_char_snoc(ls.subrange(1, ls.len() as int), l, sep);
        if ls.len() == 1 {
            assert(ls.subrange(1, ls.len() as int) =~= Seq::<Seq<char>>::empty());
            assert(join_char(whole, sep) == whole[0] + seq![sep] + l);
            assert(whole[0] == ls[0]);
            assert(join_char(ls, sep) == ls[0]);
        } else {
            assert(join_char(whole, sep) == whole[0] + seq![sep] + join_char(
                whole.subrange(1, whole.len() as int),
                sep,
            ));
            assert(join_char(whole, sep) =~= join_char(ls, sep) + seq![sep] + l);
        }
    }
}

/// Joins the pieces with the separator into a string.
pub fn join_char_exec(ls: &Vec<Vec<char>>, sep: char) -> (r: String)
    ensures
        r@ == join_char(ls.deep_view(), sep),
{
    let mut r = String::new();
    let mut i: usize = 0;
    while i < ls.len()
        invariant
            i <= ls@.len(),
            r@ == join_char(ls.deep_view().subrange(0, i as int), sep),
        decreases ls@.len() - i,
    {
        if i > 0 {
            push_char(&mut r, sep);
        }
        append_chars(&mut r, ls[i].as_slice());
        proof {
            let dv = ls.deep_view();
            assert(dv.subrange(0, i as int).push(dv[i as int]) =~= dv.subrange(0, i + 1));
            lemma_join_char_snoc(dv.subrange(0, i as int), dv[i as int], sep);
        }
        i = i + 1;
    }
    proof {
        assert(ls.deep_view().subrange(0, ls.deep_view().len() as int) =~= ls.deep_view());
    }
    r
}

/// Value of a run of decimal digits, most significant first.
pub open spec fn digits_val(s: Seq<char>) -> nat
    decreases s.len(),
{
    if s.len() == 0 {
        0
    } else {
        digits_val(s.drop_last()) * 10 + digit_val(s.last())
    }
}

/// Every character of `s` is a decimal digit.
pub open spec fn all_digits(s: Seq<char>) -> bool {
    forall|i: int| 0 <= i < s.len() ==> is_digit(s[i])
}

/// A longer digit run never has a smaller value.
proof fn lemma_digits_val_mono(s: Seq<char>, i: int, j: int)
    requires
        0 <= i <= j <= s.len(),
    ensures
        digits_val(s.subrange(0, j)) >= digits_val(s.subrange(0, i)),
    decreases j - i,
{
    if i < j {
        lemma_digits_val_mono(s, i, j - 1);
        assert(s.subrange(0, j).drop_last() =~= s.subrange(0, j - 1));
        assert(digits_val(s.subrange(0, j)) == digits_val(s.subrange(0, j - 1)) * 10 + digit_val(
            s.subrange(0, j).last(),
        ));
    }
}

/// A position preceded by digits alone and holding no digit is what
/// `digits_end` returns.
pub proof fn lemma_digits_end_is(s: Seq<char>, i: int, j: int)
    requires
        0 <= i <= j <= s.len(),
        forall|k: int| i <= k < j ==> is_digit(s[k]),
        j == s.len() || !is_digit(s[j]),
    ensures
        digits_end(s, i) == j,
    decreases j - i,
{
    if i < j {
        lemma_digits_end_is(s, i + 1, j);
    }
}

/// The decimal rendering holds digits alone, at least one.
pub proof fn lemma_dec_chars_digits(n: nat)
    ensures
        dec_chars(n).len() >= 1,
        all_digits(dec_chars(n)),
    decreases n,
{
    if n >= 10 {
        lemma_dec_chars_digits(n / 10);
        let d = dec_chars(n);
        assert forall|k: int| 0 <= k < d.len() implies is_digit(d[k]) by {
            if k < d.len() - 1 {
                assert(d[k] == dec_chars(n / 10)[k]);
            }
        }
    }
}

/// The decimal rendering denotes the number it was made from.
pub proof fn lemma_dec_chars_val(n: nat)
    ensures
        digits_val(dec_chars(n)) == n,
    decreases n,
{
    if n < 10 {
        let d = dec_chars(n);
        assert(d.len() == 1 && d.last() == digit_char_of(n));
        assert(d.drop_last() =~= Seq::<char>::empty());
        assert(digits_val(Seq::<char>::empty()) == 0);
        assert(digits_val(d) == digit_val(digit_char_of(n)));
    } else {
        lemma_dec_chars_val(n / 10);
        let d = dec_chars(n);
        assert(d.drop_last() =~= dec_chars(n / 10));
        assert(digits_val(d) == digits_val(dec_chars(n / 10)) * 10 + digit_val(
            digit_char_of(n % 10),
        ));
        assert(digit_val(digit_char_of(n % 10)) == n % 10);
        assert(n == (n / 10) * 10 + n % 10) by (nonlinear_arith);
    }
}

/// The number a digit run denotes, or `None` where it exceeds `u32::MAX`.
pub fn parse_u32(v: &[char], from: usize, to: usize) -> (r: Option<u32>)
    requires
        from <= to <= v@.len(),
        all_digits(v@.subrange(from as int, to as int)),
    ensures
        match r {
            Some(n) => n == digits_val(v@.subrange(from as int, to as int)),
            None => digits_val(v@.subrange(from as int, to as int)) > u32::MAX,
        },
{
    let ghost run = v@.subrange(from as int, to as int);
    let mut acc: u32 = 0;
    let mut j: usize = from;
    proof {
        assert(run.subrange(0, 0) =~= Seq::<char>::empty());
    }
    while j < to
        invariant
            from <= j <= to <= v@.len(),
            run == v@.subrange(from as int, to as int),
            all_digits(run),
            acc == digits_val(run.subrange(0, j - from)),
        decreases to - j,
    {
        let c = v[j];
        proof {
            assert(0 <= j - from < run.len());
            assert(run[j - from] == v@[j as int]);
            assert(is_digit(run[j - from]));
        }
        let d: u32 = c as u32 - 48;
        proof {
            assert(run.subrange(0, j + 1 - from).drop_last() =~= run.subrange(0, j - from));
            assert(run.subrange(0, j + 1 - from).last() == v@[j as int]);
        }
        if acc > (u32::MAX - d) / 10 {
            proof {
                assert(acc * 10 + d > u32::MAX) by (nonlinear_arith)
                    requires
                        acc > (u32::MAX - d) / 10,
                        d <= u32::MAX,
                ;
                lemma_digits_val_mono(run, j + 1 - from, run.len() as int);
                assert(run.subrange(0, run.len() as int) =~= run);
            }
            return None;
        }
        proof {
            assert(acc * 10 + d <= u32::MAX) by (nonlinear_arith)
                requires
            acc <= (u32::MAX - d) / 10,
                    d <= u32::MAX,
            ;
        }
        acc = acc * 10 + d;
        j = j + 1;
    }
    proof {
        assert(run.subrange(0, run.len() as int) =~= run);
    }
    Some(acc)
}

/// The decimal digit characters of `n`, most significant first.
pub open spec fn dec_chars(n: nat) -> Seq<char>
    decreases n,
{
    if n < 10 {
        seq![digit_char_of(n)]
    } else {
        dec_chars(n / 10).push(digit_char_of(n % 10))
    }
}

/// The character for one decimal digit.
pub open spec fn digit_char_of(d: nat) -> char {
    if d == 0 {
        '0'
    } else if d == 1 {
        '1'
    } else if d == 2 {
        '2'
    } else if d == 3 {
        '3'
    } else if d == 4 {
        '4'
    } else if d == 5 {
        '5'
    } else if d == 6 {
        '6'
    } else if d == 7 {
        '7'
    } else if d == 8 {
        '8'
    } else {
        '9'
    }
}

/// Exec mirror of `digit_char_of`.
fn dec_digit(d: u32) -> (c: char)
    requires
        d < 10,
    ensures
        c == digit_char_of(d as nat),
{
    if d == 0 {
        '0'
    } else if d == 1 {
        '1'
    } else if d == 2 {
        '2'
    } else if d == 3 {
        '3'
    } else if d == 4 {
        '4'
    } else if d == 5 {
        '5'
    } else if d == 6 {
        '6'
    } else if d == 7 {
        '7'
    } else if d == 8 {
        '8'
    } else {
        '9'
    }
}

/// Exec mirror of `dec_chars`.
pub fn u32_dec_chars(n: u32) -> (v: Vec<char>)
    ensures
        v@ == dec_chars(n as nat),
    decreases n,
{
    if n < 10 {
        let mut v: Vec<char> = Vec::new();
        v.push(dec_digit(n));
        proof {
            assert(v@ =~= seq![digit_char_of(n as nat)]);
        }
        v
    } else {
        let mut v = u32_dec_chars(n / 10);
        v.push(dec_digit(n % 10));
        v
    }
}

/// Appends the characters of `v` to `s`.
pub fn append_chars(s: &mut String, v: &[char])
    ensures
        final(s)@ == old(s)@ + v@,
{
    let mut i: usize = 0;
    while i < v.len()
        invariant
            i <= v@.len(),
            s@ == old(s)@ + v@.subrange(0, i as int),
        decreases v@.len() - i,
    {
        push_char(s, v[i]);
        i = i + 1;
        proof {
            assert(old(s)@ + v@.subrange(0, i - 1).push(v@[i - 1]) =~= old(s)@ + v@.subrange(
                0,
                i as int,
            ));
        }
    }
    proof {
        assert(old(s)@ + v@.subrange(0, 0) =~= old(s)@);
        assert(v@.subrange(0, v@.len() as int) =~= v@);
    }
}

/// Appends the decimal rendering of `n` to `s`.
pub fn append_u32(s: &mut String, n: u32)
    ensures
        final(s)@ == old(s)@ + dec_chars(n as nat),
{
    let digits = u32_dec_chars(n);
    append_chars(s, digits.as_slice());
}

/// First index at or past `i` holding a character that is no space.
pub open spec fn skip_spaces(s: Seq<char>, i: int) -> int
    decreases s.len() - i,
{
    if i < 0 || i >= s.len() {
        i
    } else if is_space(s[i]) {
        skip_spaces(s, i + 1)
    } else {
        i
    }
}

/// Exec mirror of `skip_spaces`.
pub fn skip_spaces_exec(v: &[char], i: usize) -> (r: usize)
    requires
        i <= v@.len(),
    ensures
        r == skip_spaces(v@, i as int),
        i <= r <= v@.len(),
    decreases v@.len() - i,
{
    if i < v.len() && space_char(v[i]) {
        skip_spaces_exec(v, i + 1)
    } else {
        i
    }
}

/// First index at or past `i` holding a character that is no digit.
pub open spec fn digits_end(s: Seq<char>, i: int) -> int
    decreases s.len() - i,
{
    if i < 0 || i >= s.len() {
        i
    } else if is_digit(s[i]) {
        digits_end(s, i + 1)
    } else {
        i
    }
}

/// Every character from `i` up to `digits_end` is a digit.
pub proof fn lemma_digits_end(s: Seq<char>, i: int)
    requires
        0 <= i <= s.len(),
    ensures
        i <= digits_end(s, i) <= s.len(),
        all_digits(s.subrange(i, digits_end(s, i))),
    decreases s.len() - i,
{
    if i < s.len() && is_digit(s[i]) {
        lemma_digits_end(s, i + 1);
        let e = digits_end(s, i);
        assert(e == digits_end(s, i + 1));
        assert forall|j: int| 0 <= j < s.subrange(i, e).len() implies is_digit(
            s.subrange(i, e)[j],
        ) by {
            if j > 0 {
                assert(s.subrange(i, e)[j] == s.subrange(i + 1, e)[j - 1]);
                assert(is_digit(s.subrange(i + 1, e)[j - 1]));
            }
        }
    } else {
        assert(s.subrange(i, i) =~= Seq::<char>::empty());
    }
}

/// Exec mirror of `digits_end`.
pub fn digits_end_exec(v: &[char], i: usize) -> (r: usize)
    requires
        i <= v@.len(),
    ensures
        r == digits_end(v@, i as int),
        i <= r <= v@.len(),
    decreases v@.len() - i,
{
    if i < v.len() && digit_char(v[i]) {
        digits_end_exec(v, i + 1)
    } else {
        i
    }
}

/// Index of the first occurrence of `c` at or past `i`.
pub open spec fn find_char(s: Seq<char>, i: int, c: char) -> Option<int>
    decreases s.len() - i,
{
    if i < 0 || i >= s.len() {
        None
    } else if s[i] == c {
        Some(i)
    } else {
        find_char(s, i + 1, c)
    }
}

/// Exec mirror of `find_char`.
pub fn find_char_exec(v: &[char], i: usize, c: char) -> (r: Option<usize>)
    requires
        i <= v@.len(),
    ensures
        match r {
            Some(j) => find_char(v@, i as int, c) == Some(j as int) && i <= j < v@.len(),
            None => find_char(v@, i as int, c) is None,
        },
    decreases v@.len() - i,
{
    if i >= v.len() {
        None
    } else if v[i] == c {
        Some(i)
    } else {
        find_char_exec(v, i + 1, c)
    }
}

/// What `find_char` returns: the first occurrence, or none at all.
pub proof fn lemma_find_char(s: Seq<char>, i: int, c: char)
    requires
        0 <= i <= s.len(),
    ensures
        match find_char(s, i, c) {
            Some(j) => i <= j < s.len() && s[j] == c && forall|k: int| i <= k < j ==> s[k] != c,
            None => forall|k: int| i <= k < s.len() ==> s[k] != c,
        },
    decreases s.len() - i,
{
    if i < s.len() && s[i] != c {
        lemma_find_char(s, i + 1, c);
    }
}

/// A position that is an occurrence with none before it is what `find_char`
/// returns.
pub proof fn lemma_find_char_is(s: Seq<char>, i: int, c: char, j: int)
    requires
        0 <= i <= j < s.len(),
        s[j] == c,
        forall|k: int| i <= k < j ==> s[k] != c,
    ensures
        find_char(s, i, c) == Some(j),
    decreases j - i,
{
    if i < j {
        lemma_find_char_is(s, i + 1, c, j);
    }
}

/// Without any occurrence, `find_char` returns nothing.
pub proof fn lemma_find_char_none(s: Seq<char>, i: int, c: char)
    requires
        0 <= i <= s.len(),
        forall|k: int| i <= k < s.len() ==> s[k] != c,
    ensures
        find_char(s, i, c) is None,
    decreases s.len() - i,
{
    if i < s.len() {
        lemma_find_char_none(s, i + 1, c);
    }
}

/// What `skip_spaces` returns: spaces up to it, and no space at it.
pub proof fn lemma_skip_spaces(s: Seq<char>, i: int)
    requires
        0 <= i <= s.len(),
    ensures
        i <= skip_spaces(s, i) <= s.len(),
        forall|j: int| i <= j < skip_spaces(s, i) ==> is_space(s[j]),
        skip_spaces(s, i) < s.len() ==> !is_space(s[skip_spaces(s, i)]),
    decreases s.len() - i,
{
    if i < s.len() && is_space(s[i]) {
        lemma_skip_spaces(s, i + 1);
    }
}

/// A position preceded by spaces alone and holding no space is what
/// `skip_spaces` returns.
pub proof fn lemma_skip_spaces_is(s: Seq<char>, i: int, j: int)
    requires
        0 <= i <= j <= s.len(),
        forall|k: int| i <= k < j ==> is_space(s[k]),
        j == s.len() || !is_space(s[j]),
    ensures
        skip_spaces(s, i) == j,
    decreases j - i,
{
    if i < j {
        lemma_skip_spaces_is(s, i + 1, j);
    }
}

/// The keyword `kw` (given lower-case) occurs at `i` in `s`, case-insensitively.
pub open spec fn match_kw_ci(s: Seq<char>, i: int, kw: Seq<char>) -> bool {
    &&& 0 <= i
    &&& i + kw.len() <= s.len()
    &&& forall|j: int| 0 <= j < kw.len() ==> eq_ci(s[i + j], kw[j])
}

/// Exec mirror of `match_kw_ci`.
pub fn match_kw_ci_exec(v: &[char], i: usize, kw: &[char]) -> (r: bool)
    ensures
        r == match_kw_ci(v@, i as int, kw@),
{
    if i > v.len() || kw.len() > v.len() - i {
        return false;
    }
    let n = v.len();
    let mut j: usize = 0;
    while j < kw.len()
        invariant
            n == v@.len(),
            i + kw@.len() <= n,
            j <= kw@.len(),
            forall|k: int| 0 <= k < j ==> eq_ci(v@[i + k], kw@[k]),
        decreases kw@.len() - j,
    {
        if !char_eq_ci(v[i + j], kw[j]) {
            return false;
        }
        j = j + 1;
    }
    true
}

/// A copy of the line without a trailing carriage return.
pub fn stripped_cr(l: &Vec<char>) -> (r: Vec<char>)
    ensures
        r@ == strip_cr(l@),
{
    let n = if l.len() > 0 && l[l.len() - 1] == '\r' {
        l.len() - 1
    } else {
        l.len()
    };
    let mut r: Vec<char> = Vec::new();
    let mut i: usize = 0;
    while i < n
        invariant
            n <= l@.len(),
            i <= n,
            r@ == l@.subrange(0, i as int),
        decreases n - i,
    {
        r.push(l[i]);
        i = i + 1;
        proof {
            assert(r@ =~= l@.subrange(0, i as int));
        }
    }
    proof {
        assert(strip_cr(l@) =~= l@.subrange(0, n as int));
    }
    r
}

} // verus!
