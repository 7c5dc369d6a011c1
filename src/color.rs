use vstd::prelude::*;

use crate::text::{chars_of, is_ascii_upper, lower_ascii, push_char, to_lower_ascii};

verus! {

/// The letter of each pigment, in the canonical order W, U, B, R, G.
pub open spec fn letter(i: int) -> char {
    if i == 0 {
        'W'
    } else if i == 1 {
        'U'
    } else if i == 2 {
        'B'
    } else if i == 3 {
        'R'
    } else {
        'G'
    }
}

/// The identity with no pigment.
pub open spec fn no_flags() -> Seq<bool> {
    seq![false, false, false, false, false]
}

/// Every pigment set in `candidate` is set in `target`.
pub open spec fn contains_flags(target: Seq<bool>, candidate: Seq<bool>) -> bool {
    forall|i: int| 0 <= i < 5 ==> (#[trigger] candidate[i] ==> target[i])
}

/// No pigment is set.
pub open spec fn is_empty_flags(flags: Seq<bool>) -> bool {
    forall|i: int| 0 <= i < 5 ==> !#[trigger] flags[i]
}

/// The canonical short form from pigment `k` on: the letters of the set pigments, in the
/// canonical order.
pub open spec fn render_from(flags: Seq<bool>, k: int) -> Seq<char>
    decreases 5 - k,
{
    if k < 0 || k >= 5 {
        Seq::empty()
    } else if flags[k] {
        seq![letter(k)] + render_from(flags, k + 1)
    } else {
        render_from(flags, k + 1)
    }
}

/// The canonical short form of an identity ("RG" for red and green, never "GR").
pub open spec fn rendered(flags: Seq<bool>) -> Seq<char> {
    render_from(flags, 0)
}

/// A color identity: one flag for each of the five pigments, in the order W, U, B, R, G.
#[derive(Clone, Copy, Debug, PartialEq, Eq)]
pub struct ColorIdent(pub [bool; 5]);

impl View for ColorIdent {
    type V = Seq<bool>;

    open spec fn view(&self) -> Seq<bool> {
        self.0@
    }
}

impl ColorIdent {
    /// The identity with no pigment.
    pub fn new() -> (r: Self)
        ensures
            r@ == no_flags(),
    {
        let r = ColorIdent([false; 5]);
        assert(r@ =~= no_flags());
        r
    }

    /// The identity with the given flags.
    pub fn from_flags(flags: [bool; 5]) -> (r: Self)
        ensures
            r@ == flags@,
    {
        ColorIdent(flags)
    }

    /// Whether pigment `i` is set.
    pub fn get(&self, i: usize) -> (r: bool)
        requires
            i < 5,
        ensures
            r == self@[i as int],
    {
        self.0[i]
    }

    /// Sets or clears pigment `i`.
    pub fn set(&mut self, i: usize, value: bool)
        requires
            i < 5,
        ensures
            final(self)@ == old(self)@.update(i as int, value),
    {
        self.0[i] = value;
    }

    /// Whether `other` is contained in `self`: every pigment set in `other` is set in `self`.
    /// An empty candidate is contained in everything; a non-empty one is never contained in
    /// the empty identity.
    pub fn contains(&self, other: &Self) -> (r: bool)
        ensures
            r == contains_flags(self@, other@),
    {
        let mut i: usize = 0;
        while i < 5
            invariant
                i <= 5,
                forall|j: int| 0 <= j < i ==> (other@[j] ==> self@[j]),
            decreases 5 - i,
        {
            if other.0[i] && !self.0[i] {
                return false;
            }
            i = i + 1;
        }
        true
    }

    /// Whether no pigment is set.
    pub fn is_empty(&self) -> (r: bool)
        ensures
            r == is_empty_flags(self@),
    {
        let mut i: usize = 0;
        while i < 5
            invariant
                i <= 5,
                forall|j: int| 0 <= j < i ==> !self@[j],
            decreases 5 - i,
        {
            if self.0[i] {
                return false;
            }
            i = i + 1;
        }
        true
    }

    /// The canonical short form: the letters of the set pigments in the order W, U, B, R, G.
    pub fn render(&self) -> (r: String)
        ensures
            r@ == rendered(self@),
    {
        let mut r = String::new();
        let mut k: usize = 0;
        while k < 5
            invariant
                k <= 5,
                r@ + render_from(self@, k as int) == rendered(self@),
            decreases 5 - k,
        {
            let ghost before = r@;
            if self.0[k] {
                let c = if k == 0 {
                    'W'
                } else if k == 1 {
                    'U'
                } else if k == 2 {
                    'B'
                } else if k == 3 {
                    'R'
                } else {
                    'G'
                };
                push_char(&mut r, c);
                assert(before + render_from(self@, k as int) =~= r@ + render_from(self@, k + 1));
            }
            k = k + 1;
        }
        assert(r@ =~= r@ + render_from(self@, 5));
        r
    }
}

impl Default for ColorIdent {
    fn default() -> (r: Self)
        ensures
            r@ == no_flags(),
    {
        ColorIdent::new()
    }
}

// ---------------------------------------------------------------------------
// Parsing
// ---------------------------------------------------------------------------

/// The full name of each pigment, lowercase.
pub open spec fn long_name(i: int) -> Seq<char> {
    if i == 0 {
        seq!['w', 'h', 'i', 't', 'e']
    } else if i == 1 {
        seq!['b', 'l', 'u', 'e']
    } else if i == 2 {
        seq!['b', 'l', 'a', 'c', 'k']
    } else if i == 3 {
        seq!['r', 'e', 'd']
    } else {
        seq!['g', 'r', 'e', 'e', 'n']
    }
}

/// The letter of each pigment, lowercase.
pub open spec fn short_name(i: int) -> char {
    if i == 0 {
        'w'
    } else if i == 1 {
        'u'
    } else if i == 2 {
        'b'
    } else if i == 3 {
        'r'
    } else {
        'g'
    }
}

/// `w` stands in `s` at `pos`, ignoring ASCII case (`w` is lowercase).
pub open spec fn word_at(s: Seq<char>, pos: int, w: Seq<char>) -> bool {
    0 <= pos && pos + w.len() <= s.len() && forall|j: int|
        0 <= j < w.len() ==> lower_ascii(#[trigger] s[pos + j]) == w[j]
}

/// The notation recognised at `pos`, trying the pigments from `i` on in the canonical order,
/// and for each its full name before its letter: the pigment and the length of the notation.
pub open spec fn token_from(s: Seq<char>, pos: int, i: int) -> Option<(int, int)>
    decreases 5 - i,
{
    if i < 0 || i >= 5 {
        None
    } else if word_at(s, pos, long_name(i)) {
        Some((i, long_name(i).len() as int))
    } else if word_at(s, pos, seq![short_name(i)]) {
        Some((i, 1))
    } else {
        token_from(s, pos, i + 1)
    }
}

pub open spec fn token_at(s: Seq<char>, pos: int) -> Option<(int, int)> {
    token_from(s, pos, 0)
}

pub proof fn lemma_token_from_bounds(s: Seq<char>, pos: int, i: int)
    ensures
        token_from(s, pos, i) matches Some((p, n)) ==> 0 <= p < 5 && n >= 1 && pos + n
            <= s.len(),
    decreases 5 - i,
{
    if 0 <= i < 5 {
        lemma_token_from_bounds(s, pos, i + 1);
    }
}

/// The outcome of parsing `s` from `pos` when `count` notations were read so far and `acc`
/// holds the pigments they named: the identity, or the position of the offending character.
/// A notation may be followed by one comma; at most five notations are accepted.
pub open spec fn parse_from(s: Seq<char>, pos: int, count: int, acc: Seq<bool>) -> Result<
    Seq<bool>,
    int,
>
    decreases s.len() - pos,
    via parse_from_decreases
{
    if pos >= s.len() {
        Ok(acc)
    } else if count >= 5 {
        Err(pos)
    } else {
        match token_at(s, pos) {
            None => Err(pos),
            Some((p, n)) => {
                let after = pos + n;
                let next = if after < s.len() && s[after] == ',' {
                    after + 1
                } else {
                    after
                };
                parse_from(s, next, count + 1, acc.update(p, true))
            },
        }
    }
}

#[via_fn]
proof fn parse_from_decreases(s: Seq<char>, pos: int, count: int, acc: Seq<bool>) {
    lemma_token_from_bounds(s, pos, 0);
}

/// The outcome of parsing the whole of `s`.
pub open spec fn parse_text(s: Seq<char>) -> Result<Seq<bool>, int> {
    parse_from(s, 0, 0, no_flags())
}

/// The position of the first ASCII uppercase letter of `s` at or after `i`, or -1.
pub open spec fn first_upper_from(s: Seq<char>, i: int) -> int
    decreases s.len() - i,
{
    if i < 0 || i >= s.len() {
        -1
    } else if is_ascii_upper(s[i]) {
        i
    } else {
        first_upper_from(s, i + 1)
    }
}

/// The two notations of one pigment, both lowercase: its full name and its letter.
pub(crate) struct SingleColorParser {
    pub(crate) long: Vec<char>,
    pub(crate) short: char,
}

impl SingleColorParser {
    /// The notations of the pigment called `name` (ASCII), whose letter is the first
    /// uppercase letter of the name.
    pub(crate) fn new(name: &str) -> (r: Self)
        requires
            first_upper_from(name@, 0) >= 0,
        ensures
            r.long@ == name@.map_values(|c: char| lower_ascii(c)),
            r.short == lower_ascii(name@[first_upper_from(name@, 0)]),
    {
        let chars = chars_of(name);
        let mut long: Vec<char> = Vec::new();
        let mut short: Option<char> = None;
        let mut i: usize = 0;
        while i < chars.len()
            invariant
                chars@ == name@,
                i <= chars@.len(),
                long@ == name@.take(i as int).map_values(|c: char| lower_ascii(c)),
                first_upper_from(name@, 0) >= 0,
                short is None ==> first_upper_from(name@, 0) == first_upper_from(name@, i as int),
                short matches Some(c) ==> c == lower_ascii(name@[first_upper_from(name@, 0)]),
            decreases chars@.len() - i,
        {
            let c = chars[i];
            if short.is_none() && 'A' <= c && c <= 'Z' {
                short = Some(to_lower_ascii(c));
            }
            long.push(to_lower_ascii(c));
            i = i + 1;
            assert(long@ =~= name@.take(i as int).map_values(|c: char| lower_ascii(c)));
        }
        assert(name@.take(i as int) =~= name@);
        SingleColorParser { long, short: short.unwrap() }
    }

    /// The length of the notation of this pigment that stands in `s` at `pos`, ignoring case:
    /// the full name is tried first, then the letter.
    pub(crate) fn match_at(&self, s: &Vec<char>, pos: usize) -> (r: Option<usize>)
        ensures
            r == (if word_at(s@, pos as int, self.long@) {
                Some(self.long@.len() as usize)
            } else if word_at(s@, pos as int, seq![self.short]) {
                Some(1usize)
            } else {
                None
            }),
    {
        if word_at_exec(s, pos, &self.long) {
            return Some(self.long.len());
        }
        if pos < s.len() && to_lower_ascii(s[pos]) == self.short {
            assert(word_at(s@, pos as int, seq![self.short])) by {
                assert(s@[pos + 0] == s@[pos as int]);
            }
            Some(1)
        } else {
            assert(!word_at(s@, pos as int, seq![self.short])) by {
                if pos < s@.len() {
                    assert(s@[pos + 0] == s@[pos as int]);
                }
            }
            None
        }
    }
}

fn word_at_exec(s: &Vec<char>, pos: usize, w: &Vec<char>) -> (r: bool)
    ensures
        r == word_at(s@, pos as int, w@),
{
    let sl = s.len();
    let n = w.len();
    if pos > sl || n > sl - pos {
        return false;
    }
    let mut j: usize = 0;
    while j < n
        invariant
            sl == s@.len(),
            n == w@.len(),
            pos + n <= sl,
            j <= w@.len(),
            forall|k: int| 0 <= k < j ==> lower_ascii(#[trigger] s@[pos + k]) == w@[k],
        decreases w@.len() - j,
    {
        if to_lower_ascii(s[pos + j]) != w[j] {
            return false;
        }
        j = j + 1;
    }
    true
}

/// The notations of the five pigments, in the canonical order.
fn color_parsers() -> (r: Vec<SingleColorParser>)
    ensures
        r@.len() == 5,
        forall|i: int|
            0 <= i < 5 ==> r@[i].long@ == long_name(i) && r@[i].short == short_name(i),
{
    proof {
        reveal_strlit("White");
        reveal_strlit("blUe");
        reveal_strlit("Black");
        reveal_strlit("Red");
        reveal_strlit("Green");
        reveal_with_fuel(first_upper_from, 4);
    }
    let mut r: Vec<SingleColorParser> = Vec::new();
    let p = SingleColorParser::new("White");
    assert(p.long@ =~= long_name(0));
    r.push(p);
    let p = SingleColorParser::new("blUe");
    assert(p.long@ =~= long_name(1));
    r.push(p);
    let p = SingleColorParser::new("Black");
    assert(p.long@ =~= long_name(2));
    r.push(p);
    let p = SingleColorParser::new("Red");
    assert(p.long@ =~= long_name(3));
    r.push(p);
    let p = SingleColorParser::new("Green");
    assert(p.long@ =~= long_name(4));
    r.push(p);
    r
}

/// The pigment and the length of the notation that stands in `s` at `pos`.
fn match_token(parsers: &Vec<SingleColorParser>, s: &Vec<char>, pos: usize) -> (r: Option<
    (usize, usize),
>)
    requires
        parsers@.len() == 5,
        forall|i: int|
            0 <= i < 5 ==> parsers@[i].long@ == long_name(i) && parsers@[i].short == short_name(
                i,
            ),
    ensures
        match token_at(s@, pos as int) {
            Some((p, n)) => r == Some((p as usize, n as usize)),
            None => r is None,
        },
{
    let mut i: usize = 0;
    while i < 5
        invariant
            i <= 5,
            parsers@.len() == 5,
            forall|k: int|
                0 <= k < 5 ==> parsers@[k].long@ == long_name(k) && parsers@[k].short
                    == short_name(k),
            token_at(s@, pos as int) == token_from(s@, pos as int, i as int),
        decreases 5 - i,
    {
        match parsers[i].match_at(s, pos) {
            Some(n) => {
                return Some((i, n));
            },
            None => {},
        }
        i = i + 1;
    }
    None
}

/// Why a text is not a color identity: the character at `position` (counted in characters)
/// starts no notation, or starts a sixth one.
#[derive(Clone, Copy, Debug, PartialEq, Eq)]
pub struct ColorParseError {
    pub position: usize,
    pub found: char,
}

impl ColorIdent {
    /// Reads a color identity from text: up to five notations, each a pigment letter
    /// (W, U, B, R, G) or a full name (White, Blue, Black, Red, Green), in any case and
    /// order, each optionally followed by a comma. The result has the pigments named.
    pub fn parse(text: &str) -> (r: Result<ColorIdent, ColorParseError>)
        ensures
            r is Ok <==> parse_text(text@) is Ok,
            r matches Ok(id) ==> id@ == parse_text(text@)->Ok_0,
            r matches Err(e) ==> e.position == parse_text(text@)->Err_0 && e.found
                == text@[e.position as int],
    {
        let s = chars_of(text);
        let parsers = color_parsers();
        let mut ident = ColorIdent::new();
        let mut pos: usize = 0;
        let mut count: usize = 0;
        while pos < s.len()
            invariant
                s@ == text@,
                pos <= s@.len(),
                count <= 5,
                parsers@.len() == 5,
                forall|k: int|
                    0 <= k < 5 ==> parsers@[k].long@ == long_name(k) && parsers@[k].short
                        == short_name(k),
                parse_from(s@, pos as int, count as int, ident@) == parse_text(text@),
            decreases s@.len() - pos,
        {
            if count == 5 {
                return Err(ColorParseError { position: pos, found: s[pos] });
            }
            proof {
                lemma_token_from_bounds(s@, pos as int, 0);
            }
            match match_token(&parsers, &s, pos) {
                None => {
                    return Err(ColorParseError { position: pos, found: s[pos] });
                },
                Some((p, n)) => {
                    ident.set(p, true);
                    let mut next = pos + n;
                    if next < s.len() && s[next] == ',' {
                        next = next + 1;
                    }
                    pos = next;
                    count = count + 1;
                },
            }
        }
        Ok(ident)
    }
}

/// Containment is reflexive: every identity contains itself.
pub proof fn lemma_contains_reflexive(id: ColorIdent)
    ensures
        contains_flags(id@, id@),
{
}

/// Every identity contains the empty identity.
pub proof fn lemma_contains_empty(id: ColorIdent)
    ensures
        contains_flags(id@, no_flags()),
{
}

/// A candidate with a pigment that the target lacks is not contained in it.
pub proof fn lemma_contains_rejects_extra(target: ColorIdent, candidate: ColorIdent, k: int)
    requires
        0 <= k < 5,
        candidate@[k],
        !target@[k],
    ensures
        !contains_flags(target@, candidate@),
{
}

/// The canonical form from pigment `k` on is empty or starts with the letter of a pigment
/// at `k` or after.
proof fn lemma_render_from_first(flags: Seq<bool>, k: int)
    requires
        0 <= k <= 5,
    ensures
        render_from(flags, k).len() > 0 ==> exists|j: int|
            k <= j < 5 && render_from(flags, k)[0] == letter(j),
    decreases 5 - k,
{
    if k < 5 {
        lemma_render_from_first(flags, k + 1);
        if flags[k] {
            assert(render_from(flags, k)[0] == letter(k));
        }
    }
}

/// A pigment letter followed by nothing, or by the letter of a later pigment, reads as that
/// pigment alone.
proof fn lemma_token_letter(s: Seq<char>, pos: int, k: int)
    requires
        0 <= k < 5,
        0 <= pos < s.len(),
        s[pos] == letter(k),
        pos + 1 < s.len() ==> exists|j: int| k < j < 5 && s[pos + 1] == letter(j),
    ensures
        token_at(s, pos) == Some((k, 1int)),
{
    reveal_with_fuel(token_from, 6);
    assert(s[pos + 0] == s[pos]);
    if pos + 1 < s.len() {
        let j = choose|j: int| k < j < 5 && s[pos + 1] == letter(j);
        assert(s[pos + 1] == letter(j));
    }
    assert(!word_at(s, pos, long_name(k)));
    assert(word_at(s, pos, seq![short_name(k)]));
    assert forall|i: int| 0 <= i < k implies !word_at(s, pos, long_name(i)) && !word_at(
        s,
        pos,
        seq![short_name(i)],
    ) by {
        assert(s[pos + 0] == s[pos]);
    }
}

/// Parsing the canonical form from pigment `k` on, after a prefix that named the pigments
/// before `k`, gives back the whole identity.
proof fn lemma_parse_render_from(
    flags: Seq<bool>,
    k: int,
    prefix: Seq<char>,
    count: int,
    acc: Seq<bool>,
)
    requires
        flags.len() == 5,
        acc.len() == 5,
        0 <= k <= 5,
        0 <= count <= k,
        forall|j: int| 0 <= j < k ==> acc[j] == flags[j],
        forall|j: int| k <= j < 5 ==> !acc[j],
    ensures
        parse_from(prefix + render_from(flags, k), prefix.len() as int, count, acc) == Ok::<
            Seq<bool>,
            int,
        >(flags),
    decreases 5 - k,
{
    let s = prefix + render_from(flags, k);
    if k == 5 {
        assert(acc =~= flags);
    } else if flags[k] {
        let rest = render_from(flags, k + 1);
        let prefix2 = prefix.push(letter(k));
        assert(s =~= prefix2 + rest);
        let pos = prefix.len() as int;
        assert(s[pos] == letter(k));
        lemma_render_from_first(flags, k + 1);
        if pos + 1 < s.len() {
            assert(rest.len() > 0);
            assert(s[pos + 1] == rest[0]);
        }
        lemma_token_letter(s, pos, k);
        lemma_parse_render_from(flags, k + 1, prefix2, count + 1, acc.update(k, true));
    } else {
        assert(render_from(flags, k) == render_from(flags, k + 1));
        lemma_parse_render_from(flags, k + 1, prefix, count, acc);
    }
}

/// Parsing the canonical form of an identity gives back that identity.
pub proof fn lemma_parse_render(id: ColorIdent)
    ensures
        parse_text(rendered(id@)) == Ok::<Seq<bool>, int>(id@),
{
    lemma_parse_render_from(id@, 0, Seq::empty(), 0, no_flags());
    assert(Seq::<char>::empty() + render_from(id@, 0) =~= rendered(id@));
}

} // verus!
