use vstd::prelude::*;

use crate::color::ColorIdent;
use crate::text::{chars_of, string_of};

verus! {

/// The position of the first `c` in `s` at or after `i`, or -1.
pub open spec fn index_of_from(s: Seq<char>, c: char, i: int) -> int
    decreases s.len() - i,
{
    if i < 0 || i >= s.len() {
        -1
    } else if s[i] == c {
        i
    } else {
        index_of_from(s, c, i + 1)
    }
}

/// The part of a type line before its first dash (U+2014), which separates the types from
/// the subtypes; the whole line when there is no dash.
pub open spec fn types_part(type_line: Seq<char>) -> Seq<char> {
    let d = index_of_from(type_line, '\u{2014}', 0);
    if d < 0 {
        type_line
    } else {
        type_line.take(d)
    }
}

/// What the card database tells about a card: its types and its color identity.
pub struct Card {
    pub ty: String,
    pub color_identity: ColorIdent,
}

impl Clone for Card {
    fn clone(&self) -> (r: Self)
        ensures
            r == *self,
    {
        Card { ty: self.ty.clone(), color_identity: self.color_identity }
    }
}

impl Card {
    /// The card with the given database type line, of which only the part before the dash is
    /// kept, and color identity.
    pub fn from_oracle(type_line: &str, color_identity: ColorIdent) -> (r: Card)
        ensures
            r.ty@ == types_part(type_line@),
            r.color_identity == color_identity,
    {
        let s = chars_of(type_line);
        let mut kept: Vec<char> = Vec::new();
        let mut i: usize = 0;
        while i < s.len() && s[i] != '\u{2014}'
            invariant
                s@ == type_line@,
                i <= s@.len(),
                kept@ == s@.take(i as int),
                index_of_from(s@, '\u{2014}', 0) == index_of_from(s@, '\u{2014}', i as int),
            decreases s@.len() - i,
        {
            kept.push(s[i]);
            i = i + 1;
            assert(kept@ =~= s@.take(i as int));
        }
        if i == s.len() {
            assert(kept@ =~= s@);
        }
        Card { ty: string_of(&kept), color_identity }
    }
}

} // verus!
