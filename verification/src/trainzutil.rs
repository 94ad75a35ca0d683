//! The external tool's stdout protocol: captured output ends in a summary line
//! `OK (<n> Errors, <n> Warnings)`, and validation output carries diagnostic
//! lines `<prefix> <identity> : <message>` with a severity prefix character.

use vstd::prelude::*;

use crate::textutil::{
    all_digits, append_u32, chars_to_string, dec_chars, digits_end, digits_end_exec, digits_val,
    lemma_digits_end, match_kw_ci, match_kw_ci_exec, parse_u32, push_char, skip_spaces,
    skip_spaces_exec, spec_split_lines, split_lines, str_to_chars, strip_cr, stripped_cr,
};

verus! {

/// The keyword of the summary line, lower-case.
pub open spec fn kw_ok() -> Seq<char> {
    seq!['o', 'k']
}

/// The error-count keyword, lower-case.
pub open spec fn kw_errors() -> Seq<char> {
    seq!['e', 'r', 'r', 'o', 'r', 's']
}

/// The warning-count keyword, lower-case.
pub open spec fn kw_warnings() -> Seq<char> {
    seq!['w', 'a', 'r', 'n', 'i', 'n', 'g', 's']
}

/// The summary grammar matched at position `i` of `s`, case-insensitively:
/// `OK` `\s*` `(` `\s*` digits `\s+` `Errors` `\s*` `,` `\s*` digits `\s+`
/// `Warnings` `\s*` `)`. Returns the two digit runs.
pub open spec fn summary_at(s: Seq<char>, i: int) -> Option<(Seq<char>, Seq<char>)> {
    if !match_kw_ci(s, i, kw_ok()) {
        None
    } else {
        let a = skip_spaces(s, i + 2);
        if !(a < s.len() && s[a] == '(') {
            None
        } else {
            let b = skip_spaces(s, a + 1);
            let c = digits_end(s, b);
            if c == b {
                None
            } else {
                let d = skip_spaces(s, c);
                if d == c || !match_kw_ci(s, d, kw_errors()) {
                    None
                } else {
                    let e = skip_spaces(s, d + 6);
                    if !(e < s.len() && s[e] == ',') {
                        None
                    } else {
                        let f = skip_spaces(s, e + 1);
                        let g = digits_end(s, f);
                        if g == f {
                            None
                        } else {
                            let h = skip_spaces(s, g);
                            if h == g || !match_kw_ci(s, h, kw_warnings()) {
                                None
                            } else {
                                let k = skip_spaces(s, h + 8);
                                if k < s.len() && s[k] == ')' {
                                    Some((s.subrange(b, c), s.subrange(f, g)))
                                } else {
                                    None
                                }
                            }
                        }
                    }
                }
            }
        }
    }
}

/// The first position at or past `i` where the summary grammar matches.
pub open spec fn find_summary(s: Seq<char>, i: int) -> Option<(Seq<char>, Seq<char>)>
    decreases s.len() - i,
{
    if i < 0 || i >= s.len() {
        None
    } else if summary_at(s, i) is Some {
        summary_at(s, i)
    } else {
        find_summary(s, i + 1)
    }
}

/// The error and warning counts the summary line carries, if it matches.
pub open spec fn spec_summary_counts(line: Seq<char>) -> Option<(nat, nat)> {
    match find_summary(line, 0) {
        Some((es, ws)) => Some((digits_val(es), digits_val(ws))),
        None => None,
    }
}

/// What parsing captured stdout yields: the lines split on `'\n'` with one
/// trailing carriage return stripped each, the last of which must match the
/// summary grammar with counts that fit in `u32`; the summary line is removed.
pub open spec fn spec_parse_output(s: Seq<char>) -> Option<(Seq<Seq<char>>, nat, nat)> {
    let ls = spec_split_lines(s).map_values(|l: Seq<char>| strip_cr(l));
    if ls.len() == 0 {
        None
    } else {
        match spec_summary_counts(ls.last()) {
            Some((e, w)) => if e <= u32::MAX && w <= u32::MAX {
                Some((ls.drop_last(), e, w))
            } else {
                None
            },
            None => None,
        }
    }
}

fn kw_ok_exec() -> (v: Vec<char>)
    ensures
        v@ == kw_ok(),
{
    let v = vec!['o', 'k'];
    proof {
        assert(v@ =~= kw_ok());
    }
    v
}

fn kw_errors_exec() -> (v: Vec<char>)
    ensures
        v@ == kw_errors(),
{
    let v = vec!['e', 'r', 'r', 'o', 'r', 's'];
    proof {
        assert(v@ =~= kw_errors());
    }
    v
}

fn kw_warnings_exec() -> (v: Vec<char>)
    ensures
        v@ == kw_warnings(),
{
    let v = vec!['w', 'a', 'r', 'n', 'i', 'n', 'g', 's'];
    proof {
        assert(v@ =~= kw_warnings());
    }
    v
}

/// Exec mirror of `summary_at`; returns the digit-run boundaries.
fn summary_at_exec(v: &[char], i: usize, ok: &[char], errs: &[char], warns: &[char]) -> (r: Option<
    (usize, usize, usize, usize),
>)
    requires
        i <= v@.len(),
        ok@ == kw_ok(),
        errs@ == kw_errors(),
        warns@ == kw_warnings(),
    ensures
        match r {
            Some((b, c, f, g)) => {
                &&& b <= c <= v@.len()
                &&& f <= g <= v@.len()
                &&& all_digits(v@.subrange(b as int, c as int))
                &&& all_digits(v@.subrange(f as int, g as int))
                &&& summary_at(v@, i as int) == Some(
                    (v@.subrange(b as int, c as int), v@.subrange(f as int, g as int)),
                )
            },
            None => summary_at(v@, i as int) is None,
        },
{
    let n = v.len();
    if !match_kw_ci_exec(v, i, ok) {
        return None;
    }
    proof {
        assert(kw_ok().len() == 2);
        assert(i + 2 <= n);
    }
    let a = skip_spaces_exec(v, i + 2);
    if !(a < v.len() && v[a] == '(') {
        return None;
    }
    let b = skip_spaces_exec(v, a + 1);
    let c = digits_end_exec(v, b);
    if c == b {
        return None;
    }
    let d = skip_spaces_exec(v, c);
    if d == c || !match_kw_ci_exec(v, d, errs) {
        return None;
    }
    let e = skip_spaces_exec(v, d + 6);
    if !(e < v.len() && v[e] == ',') {
        return None;
    }
    let f = skip_spaces_exec(v, e + 1);
    let g = digits_end_exec(v, f);
    if g == f {
        return None;
    }
    let h = skip_spaces_exec(v, g);
    if h == g || !match_kw_ci_exec(v, h, warns) {
        return None;
    }
    let k = skip_spaces_exec(v, h + 8);
    if k < v.len() && v[k] == ')' {
        proof {
            lemma_digits_end(v@, b as int);
            lemma_digits_end(v@, f as int);
        }
        Some((b, c, f, g))
    } else {
        None
    }
}

/// Exec mirror of `find_summary` from position 0.
fn find_summary_exec(v: &[char]) -> (r: Option<(usize, usize, usize, usize)>)
    ensures
        match r {
            Some((b, c, f, g)) => {
                &&& b <= c <= v@.len()
                &&& f <= g <= v@.len()
                &&& all_digits(v@.subrange(b as int, c as int))
                &&& all_digits(v@.subrange(f as int, g as int))
                &&& find_summary(v@, 0) == Some(
                    (v@.subrange(b as int, c as int), v@.subrange(f as int, g as int)),
                )
            },
            None => find_summary(v@, 0) is None,
        },
{
    let ok = kw_ok_exec();
    let errs = kw_errors_exec();
    let warns = kw_warnings_exec();
    let mut i: usize = 0;
    while i < v.len()
        invariant
            i <= v@.len(),
            ok@ == kw_ok(),
            errs@ == kw_errors(),
            warns@ == kw_warnings(),
            find_summary(v@, 0) == find_summary(v@, i as int),
        decreases v@.len() - i,
    {
        let r = summary_at_exec(v, i, ok.as_slice(), errs.as_slice(), warns.as_slice());
        if r.is_some() {
            return r;
        }
        i = i + 1;
    }
    None
}

/// Outcome of one external-tool invocation: its output lines (the summary
/// line removed) and the counts the summary line carried.
#[derive(Clone, Debug)]
pub struct Output {
    pub lines: Vec<String>,
    pub errors: u32,
    pub warnings: u32,
}

/// The captured output did not end in a well-formed summary line: a fatal
/// violation of the tool's stdout contract.
#[derive(Clone, Copy, Debug, PartialEq, Eq, Structural)]
pub struct ParseError;

impl Output {
    /// Parses captured stdout text; `Err` exactly when no line is present,
    /// the last line does not match the summary grammar, or a count does not
    /// fit in `u32`.
    pub fn from_stdout(stdout: &str) -> (r: Result<Output, ParseError>)
        ensures
            match r {
                Ok(o) => spec_parse_output(stdout@) == Some(
                    (o.lines.deep_view(), o.errors as nat, o.warnings as nat),
                ),
                Err(_) => spec_parse_output(stdout@) is None,
            },
    {
        let chars = str_to_chars(stdout);
        let raw = split_lines(chars.as_slice());
        let ghost ls = spec_split_lines(stdout@).map_values(|l: Seq<char>| strip_cr(l));
        let mut stripped: Vec<Vec<char>> = Vec::new();
        let mut i: usize = 0;
        while i < raw.len()
            invariant
                i <= raw@.len(),
                raw.deep_view() == spec_split_lines(chars@),
                chars@ == stdout@,
                ls == spec_split_lines(stdout@).map_values(|l: Seq<char>| strip_cr(l)),
                stripped.deep_view() =~= ls.subrange(0, i as int),
            decreases raw@.len() - i,
        {
            let line = stripped_cr(&raw[i]);
            proof {
                assert(raw.deep_view()[i as int] == raw@[i as int]@);
                assert(ls[i as int] == strip_cr(raw.deep_view()[i as int]));
            }
            let ghost s0 = stripped.deep_view();
            stripped.push(line);
            proof {
                assert(stripped.deep_view() =~~= s0.push(line@));
                assert(stripped.deep_view() =~~= ls.subrange(0, i + 1));
            }
            i = i + 1;
        }
        proof {
            assert(stripped.deep_view() =~~= ls);
        }
        let last = match stripped.pop() {
            Some(l) => l,
            None => {
                return Err(ParseError);
            },
        };
        proof {
            assert(last@ == ls.last());
            assert(stripped.deep_view() =~~= ls.drop_last());
        }
        let found = find_summary_exec(last.as_slice());
        let (b, c, f, g) = match found {
            Some(t) => t,
            None => {
                return Err(ParseError);
            },
        };
        let errors = match parse_u32(last.as_slice(), b, c) {
            Some(n) => n,
            None => {
                return Err(ParseError);
            },
        };
        let warnings = match parse_u32(last.as_slice(), f, g) {
            Some(n) => n,
            None => {
                return Err(ParseError);
            },
        };
        let mut lines: Vec<String> = Vec::new();
        let mut j: usize = 0;
        while j < stripped.len()
            invariant
                j <= stripped@.len(),
                lines.deep_view() =~= stripped.deep_view().subrange(0, j as int),
            decreases stripped@.len() - j,
        {
            let ghost l0 = lines.deep_view();
            lines.push(chars_to_string(stripped[j].as_slice()));
            proof {
                assert(lines.deep_view() =~~= l0.push(stripped.deep_view()[j as int]));
                assert(lines.deep_view() =~~= stripped.deep_view().subrange(0, j + 1));
            }
            j = j + 1;
        }
        proof {
            assert(lines.deep_view() =~~= stripped.deep_view());
        }
        Ok(Output { lines, errors, warnings })
    }
}

/// The canonical rendering of a summary line with the given counts.
pub open spec fn spec_summary_line(e: nat, w: nat) -> Seq<char> {
    "OK ("@ + dec_chars(e) + " Errors, "@ + dec_chars(w) + " Warnings)"@
}

/// Each line followed by `'\n'`, in order.
pub open spec fn lines_nl(ls: Seq<Seq<char>>) -> Seq<char>
    decreases ls.len(),
{
    if ls.len() == 0 {
        Seq::empty()
    } else {
        ls[0] + seq!['\n'] + lines_nl(ls.subrange(1, ls.len() as int))
    }
}

/// One more line appends itself and a `'\n'`.
proof fn lemma_lines_nl_snoc(ls: Seq<Seq<char>>, l: Seq<char>)
    ensures
        lines_nl(ls.push(l)) == lines_nl(ls) + l + seq!['\n'],
    decreases ls.len(),
{
    let whole = ls.push(l);
    if ls.len() == 0 {
        assert(lines_nl(whole.subrange(1, 1)) == Seq::<char>::empty());
        assert(whole.subrange(1, whole.len() as int) =~= Seq::<Seq<char>>::empty());
        assert(lines_nl(whole) =~= lines_nl(ls) + l + seq!['\n']);
    } else {
        assert(whole.subrange(1, whole.len() as int) =~= ls.subrange(1, ls.len() as int).push(l));
        lemma_lines_nl_snoc(ls.subrange(1, ls.len() as int), l);
        assert(lines_nl(whole) =~= lines_nl(ls) + l + seq!['\n']);
    }
}

/// The text an `Output` renders to: each line with a terminating newline,
/// then the summary line it was parsed from.
pub open spec fn spec_render(lines: Seq<Seq<char>>, e: nat, w: nat) -> Seq<char> {
    lines_nl(lines) + spec_summary_line(e, w)
}

impl Output {
    /// The canonical text of this output.
    pub fn render(&self) -> (r: String)
        ensures
            r@ == spec_render(self.lines.deep_view(), self.errors as nat, self.warnings as nat),
    {
        let ghost dv = self.lines.deep_view();
        let mut r = String::new();
        let mut i: usize = 0;
        proof {
            assert(dv.subrange(0, 0) =~= Seq::<Seq<char>>::empty());
            assert(r@ =~= lines_nl(dv.subrange(0, 0)));
        }
        while i < self.lines.len()
            invariant
                i <= self.lines@.len(),
                dv == self.lines.deep_view(),
                r@ == lines_nl(dv.subrange(0, i as int)),
            decreases self.lines@.len() - i,
        {
            r.append(self.lines[i].as_str());
            push_char(&mut r, '\n');
            proof {
                assert(dv.subrange(0, i as int).push(dv[i as int]) =~= dv.subrange(0, i + 1));
                lemma_lines_nl_snoc(dv.subrange(0, i as int), dv[i as int]);
                assert(r@ =~= lines_nl(dv.subrange(0, i as int)) + dv[i as int] + seq!['\n']);
            }
            i = i + 1;
        }
        proof {
            assert(dv.subrange(0, dv.len() as int) =~= dv);
        }
        r.append("OK (");
        append_u32(&mut r, self.errors);
        r.append(" Errors, ");
        append_u32(&mut r, self.warnings);
        r.append(" Warnings)");
        proof {
            assert(r@ =~= spec_render(dv, self.errors as nat, self.warnings as nat));
        }
        r
    }
}

/// The summary grammar reads back from a canonical summary line exactly the
/// counts it was rendered from: every line `Output::render` ends with is one
/// that parsing accepts, with the same numbers.
pub proof fn lemma_summary_roundtrip(e: nat, w: nat)
    ensures
        spec_summary_counts(spec_summary_line(e, w)) == Some((e, w)),
{
    reveal_strlit("OK (");
    reveal_strlit(" Errors, ");
    reveal_strlit(" Warnings)");
    crate::textutil::lemma_dec_chars_digits(e);
    crate::textutil::lemma_dec_chars_digits(w);
    crate::textutil::lemma_dec_chars_val(e);
    crate::textutil::lemma_dec_chars_val(w);
    let d1 = dec_chars(e);
    let d2 = dec_chars(w);
    let s = spec_summary_line(e, w);
    let p2 = " Errors, "@;
    let p3 = " Warnings)"@;
    let n1 = d1.len() as int;
    let n2 = d2.len() as int;
    assert(s.len() == 23 + n1 + n2);
    assert(s[0] == 'O' && s[1] == 'K' && s[2] == ' ' && s[3] == '(');
    assert(forall|j: int| 0 <= j < n1 ==> s[4 + j] == d1[j]);
    assert(forall|j: int| 0 <= j < 9 ==> s[4 + n1 + j] == p2[j]);
    assert(forall|j: int| 0 <= j < n2 ==> s[13 + n1 + j] == d2[j]);
    assert(forall|j: int| 0 <= j < 10 ==> s[13 + n1 + n2 + j] == p3[j]);
    assert(forall|c: char| crate::textutil::is_digit(c) ==> !crate::textutil::is_space(c));
    assert(forall|c: char| crate::textutil::is_digit(c) ==> c != '>' && c != ')');

    assert(match_kw_ci(s, 0, kw_ok())) by {
        assert(crate::textutil::eq_ci(s[0], 'o'));
        assert(crate::textutil::eq_ci(s[1], 'k'));
        assert(forall|j: int| 0 <= j < 2 ==> crate::textutil::eq_ci(s[j], kw_ok()[j]));
    }
    crate::textutil::lemma_skip_spaces_is(s, 2, 3);
    assert(skip_spaces(s, 2) == 3 && s[3] == '(');
    assert(!crate::textutil::is_space(s[4]));
    crate::textutil::lemma_skip_spaces_is(s, 4, 4);
    assert(forall|k: int| 4 <= k < 4 + n1 ==> crate::textutil::is_digit(s[k]));
    assert(!crate::textutil::is_digit(s[4 + n1]));
    crate::textutil::lemma_digits_end_is(s, 4, 4 + n1);
    let c = 4 + n1;
    assert(crate::textutil::is_space(s[c]) && !crate::textutil::is_space(s[c + 1]));
    crate::textutil::lemma_skip_spaces_is(s, c, c + 1);
    let d = c + 1;
    assert(match_kw_ci(s, d, kw_errors())) by {
        assert(crate::textutil::eq_ci(s[d + 0], 'e'));
        assert(crate::textutil::eq_ci(s[d + 1], 'r'));
        assert(crate::textutil::eq_ci(s[d + 2], 'r'));
        assert(crate::textutil::eq_ci(s[d + 3], 'o'));
        assert(crate::textutil::eq_ci(s[d + 4], 'r'));
        assert(crate::textutil::eq_ci(s[d + 5], 's'));
        assert(forall|j: int| 0 <= j < 6 ==> crate::textutil::eq_ci(s[d + j], kw_errors()[j]));
    }
    assert(!crate::textutil::is_space(s[d + 6]) && s[d + 6] == ',');
    crate::textutil::lemma_skip_spaces_is(s, d + 6, d + 6);
    let f = d + 8;
    assert(crate::textutil::is_space(s[d + 7]) && !crate::textutil::is_space(s[f]));
    crate::textutil::lemma_skip_spaces_is(s, d + 7, f);
    assert(f == 13 + n1);
    assert(forall|k: int| f <= k < f + n2 ==> crate::textutil::is_digit(s[k]));
    assert(!crate::textutil::is_digit(s[f + n2]));
    crate::textutil::lemma_digits_end_is(s, f, f + n2);
    let g = f + n2;
    assert(crate::textutil::is_space(s[g]) && !crate::textutil::is_space(s[g + 1]));
    crate::textutil::lemma_skip_spaces_is(s, g, g + 1);
    let h = g + 1;
    assert(match_kw_ci(s, h, kw_warnings())) by {
        assert(crate::textutil::eq_ci(s[h + 0], 'w'));
        assert(crate::textutil::eq_ci(s[h + 1], 'a'));
        assert(crate::textutil::eq_ci(s[h + 2], 'r'));
        assert(crate::textutil::eq_ci(s[h + 3], 'n'));
        assert(crate::textutil::eq_ci(s[h + 4], 'i'));
        assert(crate::textutil::eq_ci(s[h + 5], 'n'));
        assert(crate::textutil::eq_ci(s[h + 6], 'g'));
        assert(crate::textutil::eq_ci(s[h + 7], 's'));
        assert(forall|j: int| 0 <= j < 8 ==> crate::textutil::eq_ci(s[h + j], kw_warnings()[j]));
    }
    assert(!crate::textutil::is_space(s[h + 8]) && s[h + 8] == ')');
    crate::textutil::lemma_skip_spaces_is(s, h + 8, h + 8);
    assert(s.subrange(4, 4 + n1) =~= d1);
    assert(s.subrange(f, f + n2) =~= d2);
    assert(summary_at(s, 0) == Some((d1, d2)));
    assert(find_summary(s, 0) == Some((d1, d2)));
}

/// Why one external-tool invocation yielded no usable output.
#[derive(Debug)]
pub enum Error {
    /// The tool ran but exited with a non-success status; carries its parsed
    /// output for diagnostic display.
    Failure(Output),
    /// The tool executable could not be found.
    NotFound,
    /// Any other spawn-level failure, described in text.
    Unknown(String),
}

/// The diagnostic text each error renders to.
pub open spec fn spec_error_message(e: Error) -> Seq<char> {
    match e {
        Error::Failure(o) => "TrainzUtil command failed with following output:\n"@
            + crate::displayprefix::spec_prefixed(
            ">"@,
            spec_render(o.lines.deep_view(), o.errors as nat, o.warnings as nat),
        ),
        Error::NotFound => "TrainzUtil executable was not found"@,
        Error::Unknown(c) => "Unknown error: "@ + c@,
    }
}

impl Error {
    /// The diagnostic text of this error.
    pub fn message(&self) -> (r: String)
        ensures
            r@ == spec_error_message(*self),
    {
        match self {
            Error::Failure(o) => {
                let mut r = String::from_str("TrainzUtil command failed with following output:\n");
                let rendered = o.render();
                let prefixed = crate::displayprefix::with_prefix(">", rendered.as_str());
                let body = prefixed.render();
                r.append(body.as_str());
                r
            },
            Error::NotFound => String::from_str("TrainzUtil executable was not found"),
            Error::Unknown(c) => {
                let mut r = String::from_str("Unknown error: ");
                r.append(c.as_str());
                r
            },
        }
    }
}

/// Candidate closing `'>'` positions for the diagnostic grammar, tried in
/// ascending order from `g`; the identity runs from `lt + 1` to the accepted
/// position, and the message is everything after the colon, with leading
/// spaces dropped but never left empty.
pub open spec fn diag_try(s: Seq<char>, lt: int, g: int) -> Option<(Seq<char>, Seq<char>)>
    decreases s.len() - g,
{
    if g < 0 || g >= s.len() {
        None
    } else if s[g] == '>' {
        let c = skip_spaces(s, g + 1);
        if c < s.len() && s[c] == ':' && c + 1 < s.len() {
            let m0 = skip_spaces(s, c + 1);
            let m = if m0 < s.len() {
                m0
            } else {
                s.len() - 1
            };
            Some((s.subrange(lt + 1, g), s.subrange(m, s.len() as int)))
        } else {
            diag_try(s, lt, g + 1)
        }
    } else {
        diag_try(s, lt, g + 1)
    }
}

/// The diagnostic grammar, anchored at line start: a severity prefix out of
/// `-`, `+`, `!`, `;`, then `\s*`, then `<identity>` with a non-empty
/// identity, then `\s*`, a colon, and a non-empty message.
pub open spec fn spec_diag_line(s: Seq<char>) -> Option<(char, Seq<char>, Seq<char>)> {
    if s.len() == 0 {
        None
    } else {
        let p = s[0];
        if p == '-' || p == '+' || p == '!' || p == ';' {
            let lt = skip_spaces(s, 1);
            if lt < s.len() && s[lt] == '<' {
                match diag_try(s, lt, lt + 2) {
                    Some((k, m)) => Some((p, k, m)),
                    None => None,
                }
            } else {
                None
            }
        } else {
            None
        }
    }
}

/// Exec mirror of `diag_try`.
fn diag_try_exec(v: &[char], lt: usize, g: usize) -> (r: Option<(Vec<char>, Vec<char>)>)
    requires
        lt < v@.len(),
        lt < g,
    ensures
        match r {
            Some((k, m)) => diag_try(v@, lt as int, g as int) == Some((k@, m@)),
            None => diag_try(v@, lt as int, g as int) is None,
        },
    decreases v@.len() - g,
{
    let n = v.len();
    if g >= n {
        return None;
    }
    if v[g] == '>' {
        let c = skip_spaces_exec(v, g + 1);
        if c < n && v[c] == ':' && c + 1 < n {
            let m0 = skip_spaces_exec(v, c + 1);
            let m = if m0 < n {
                m0
            } else {
                n - 1
            };
            let kuid = copy_range(v, lt + 1, g);
            let msg = copy_range(v, m, n);
            Some((kuid, msg))
        } else {
            diag_try_exec(v, lt, g + 1)
        }
    } else {
        diag_try_exec(v, lt, g + 1)
    }
}

/// Exec mirror of `spec_diag_line`.
pub fn diag_line(line: &str) -> (r: Option<(char, String, String)>)
    ensures
        match r {
            Some((p, k, m)) => spec_diag_line(line@) == Some((p, k@, m@)),
            None => spec_diag_line(line@) is None,
        },
{
    let v = str_to_chars(line);
    let s = v.as_slice();
    if s.len() == 0 {
        return None;
    }
    let p = s[0];
    if !(p == '-' || p == '+' || p == '!' || p == ';') {
        return None;
    }
    let lt = skip_spaces_exec(s, 1);
    if !(lt < s.len() && s[lt] == '<') {
        return None;
    }
    if lt + 1 >= s.len() {
        return None;
    }
    match diag_try_exec(s, lt, lt + 2) {
        Some((k, m)) => Some((p, chars_to_string(k.as_slice()), chars_to_string(m.as_slice()))),
        None => None,
    }
}

/// The characters of `v` from `from` up to `to`.
fn copy_range(v: &[char], from: usize, to: usize) -> (r: Vec<char>)
    requires
        from <= to <= v@.len(),
    ensures
        r@ == v@.subrange(from as int, to as int),
{
    let mut r: Vec<char> = Vec::new();
    let mut i: usize = from;
    proof {
        assert(r@ =~= v@.subrange(from as int, from as int));
    }
    while i < to
        invariant
            from <= i <= to <= v@.len(),
            r@ == v@.subrange(from as int, i as int),
        decreases to - i,
    {
        r.push(v[i]);
        i = i + 1;
        proof {
            assert(r@ =~= v@.subrange(from as int, i as int));
        }
    }
    r
}

} // verus!
