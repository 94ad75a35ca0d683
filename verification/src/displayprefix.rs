//! Rendering multi-line text with a fixed prefix before every line, as the
//! verbose log tiers show captured tool output.

use vstd::prelude::*;

use crate::textutil::{
    join_char, spec_split_lines, split_lines, str_to_chars, strip_cr, stripped_cr,
};

verus! {

/// Every line of `t` (one trailing carriage return stripped) preceded by
/// `p`, the results joined by `'\n'`.
pub open spec fn spec_prefixed(p: Seq<char>, t: Seq<char>) -> Seq<char> {
    join_char(spec_split_lines(t).map_values(|l: Seq<char>| p + strip_cr(l)), '\n')
}

/// Text paired with the prefix each of its lines is shown under.
pub struct DisplayPrefix {
    pub prefix: String,
    pub data: String,
}

/// Pairs text with a per-line prefix for rendering.
pub fn with_prefix(prefix: &str, data: &str) -> (d: DisplayPrefix)
    ensures
        d.prefix@ == prefix@,
        d.data@ == data@,
{
    DisplayPrefix { prefix: prefix.to_owned(), data: data.to_owned() }
}

impl DisplayPrefix {
    /// The prefixed rendering of the text.
    pub fn render(&self) -> (r: String)
        ensures
            r@ == spec_prefixed(self.prefix@, self.data@),
    {
        let pc = str_to_chars(self.prefix.as_str());
        let tc = str_to_chars(self.data.as_str());
        let lines = split_lines(tc.as_slice());
        let ghost mapped = spec_split_lines(self.data@).map_values(
            |l: Seq<char>| self.prefix@ + strip_cr(l),
        );
        let mut pieces: Vec<Vec<char>> = Vec::new();
        let mut i: usize = 0;
        while i < lines.len()
            invariant
                i <= lines@.len(),
                pc@ == self.prefix@,
                lines.deep_view() == spec_split_lines(self.data@),
                mapped == spec_split_lines(self.data@).map_values(
                    |l: Seq<char>| self.prefix@ + strip_cr(l),
                ),
                pieces.deep_view() =~= mapped.subrange(0, i as int),
            decreases lines@.len() - i,
        {
            let mut piece = pc.clone();
            let mut rest = stripped_cr(&lines[i]);
            piece.append(&mut rest);
            proof {
                assert(lines.deep_view()[i as int] == lines@[i as int]@);
                assert(piece@ == self.prefix@ + strip_cr(lines.deep_view()[i as int]));
                assert(mapped[i as int] == self.prefix@ + strip_cr(lines.deep_view()[i as int]));
            }
            let ghost p0 = pieces.deep_view();
            pieces.push(piece);
            proof {
                assert(pieces.deep_view() =~~= p0.push(piece@));
                assert(pieces.deep_view() =~~= mapped.subrange(0, i + 1));
            }
            i = i + 1;
        }
        proof {
            assert(pieces.deep_view() =~~= mapped);
        }
        crate::textutil::join_char_exec(&pieces, '\n')
    }
}

} // verus!
