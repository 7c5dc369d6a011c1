use vstd::prelude::*;

use crate::color::{contains_flags, is_empty_flags, ColorIdent};
use crate::entry::{Entry, User};
use crate::text::{
    alpha_terms, alpha_terms_chars, chars_of, lower_of, lowercase, occurs_in, occurs_in_chars,
    split_chars, split_on, string_of, views,
};

verus! {

/// The owner facet: absent, or equal to the record's owner.
pub open spec fn owner_ok(owner: Option<User>, u: User) -> bool {
    owner matches Some(o) ==> o == u
}

/// The color facet. With `colorless` set only the empty identity passes; otherwise, when some
/// pigment is selected, the selection must contain the record's identity; with nothing
/// selected every identity passes.
pub open spec fn color_ok(color: Seq<bool>, colorless: bool, record: Seq<bool>) -> bool {
    if colorless {
        is_empty_flags(record)
    } else if !is_empty_flags(color) {
        contains_flags(color, record)
    } else {
        true
    }
}

/// A text facet: empty, or a substring of the value once both are lowercased.
pub open spec fn text_ok(filter: Seq<char>, value: Seq<char>) -> bool {
    filter.len() == 0 || occurs_in(lower_of(filter), lower_of(value))
}

/// Every alphabetic term of `filter` is a substring of some comma-separated segment of the
/// (lowercased) type line `ty_lower`.
pub open spec fn types_match(filter: Seq<char>, ty_lower: Seq<char>) -> bool {
    let terms = alpha_terms(filter);
    forall|k: int| 0 <= k < terms.len() ==> term_found(#[trigger] terms[k], split_on(ty_lower, ','))
}

/// `term` is a substring of one of `segments`.
pub open spec fn term_found(term: Seq<char>, segments: Seq<Seq<char>>) -> bool {
    exists|j: int| 0 <= j < segments.len() && occurs_in(term, #[trigger] segments[j])
}

/// `p` without one trailing carriage return.
pub open spec fn strip_cr(p: Seq<char>) -> Seq<char> {
    if p.len() > 0 && p.last() == '\r' {
        p.drop_last()
    } else {
        p
    }
}

/// Line `i` of a text split at its newlines: a line ended by a newline loses a carriage
/// return before it.
pub open spec fn line_of(pieces: Seq<Seq<char>>, i: int) -> Seq<char> {
    if i + 1 < pieces.len() {
        strip_cr(pieces[i])
    } else {
        pieces[i]
    }
}

/// Some non-empty line of the (lowercased) wantlist is a substring of the (lowercased) name.
pub open spec fn wanted(list_lower: Seq<char>, name_lower: Seq<char>) -> bool {
    let pieces = split_on(list_lower, '\n');
    exists|i: int|
        0 <= i < pieces.len() && (#[trigger] line_of(pieces, i)).len() > 0 && occurs_in(
            line_of(pieces, i),
            name_lower,
        )
}

/// A search over the records of a collection: either a faceted query or a wantlist.
pub enum Search {
    Single {
        owner: Option<User>,
        color: ColorIdent,
        colorless: bool,
        name: String,
        ty: String,
        set: String,
    },
    Wantlist(String, Option<User>),
}

impl Search {
    /// Whether the search selects record `e`.
    pub open spec fn selects(&self, e: Entry) -> bool {
        match self {
            Search::Single { owner, color, colorless, name, ty, set } => {
                &&& owner_ok(*owner, e.owner)
                &&& color_ok(color@, *colorless, e.color_identity@)
                &&& text_ok(name@, e.name@)
                &&& types_match(ty@, lower_of(e.ty@))
                &&& text_ok(set@, e.set@)
            },
            Search::Wantlist(list, owner) => owner_ok(*owner, e.owner) && wanted(
                lower_of(list@),
                lower_of(e.name@),
            ),
        }
    }

    /// A faceted query whose every facet is empty.
    pub open spec fn is_blank_single(&self) -> bool {
        match self {
            Search::Single { owner, color, colorless, name, ty, set } => {
                &&& owner is None
                &&& is_empty_flags(color@)
                &&& !*colorless
                &&& name@.len() == 0
                &&& ty@.len() == 0
                &&& set@.len() == 0
            },
            Search::Wantlist(..) => false,
        }
    }

    /// The faceted query that selects everything.
    pub fn single() -> (r: Self)
        ensures
            r.is_blank_single(),
    {
        Search::Single {
            owner: None,
            color: ColorIdent::new(),
            colorless: false,
            name: String::new(),
            ty: String::new(),
            set: String::new(),
        }
    }

    /// The empty wantlist, for any owner.
    pub fn wantlist() -> (r: Self)
        ensures
            r matches Search::Wantlist(list, owner) && list@.len() == 0 && owner is None,
    {
        Search::Wantlist(String::new(), None)
    }

    /// Whether the search selects record `data`.
    pub fn apply(&self, data: &Entry) -> (r: bool)
        ensures
            r == self.selects(*data),
    {
        match self {
            Search::Single { owner, color, colorless, name, ty, set } => {
                let match_owner = match owner {
                    None => true,
                    Some(o) => *o == data.owner,
                };
                let match_ident = if *colorless {
                    data.color_identity.is_empty()
                } else if !color.is_empty() {
                    color.contains(&data.color_identity)
                } else {
                    true
                };
                let match_name = text_matches(name.as_str(), data.name.as_str());
                let ty_lower = lowercase(data.ty.as_str());
                let match_types = type_terms_match(ty.as_str(), ty_lower.as_str());
                let match_set = text_matches(set.as_str(), data.set.as_str());
                match_owner && match_ident && match_name && match_types && match_set
            },
            Search::Wantlist(list, owner) => {
                let match_owner = match owner {
                    None => true,
                    Some(o) => *o == data.owner,
                };
                let list_lower = lowercase(list.as_str());
                let name_lower = lowercase(data.name.as_str());
                match_owner && wantlist_matches(list_lower.as_str(), name_lower.as_str())
            },
        }
    }
}

impl PartialEq for Search {
    /// Two searches are equal when they have the same shape, whatever their fields hold.
    fn eq(&self, other: &Self) -> (r: bool) {
        match (self, other) {
            (Search::Single { .. }, Search::Single { .. }) => true,
            (Search::Wantlist(..), Search::Wantlist(..)) => true,
            _ => false,
        }
    }
}

impl vstd::std_specs::cmp::PartialEqSpecImpl for Search {
    open spec fn obeys_eq_spec() -> bool {
        true
    }

    open spec fn eq_spec(&self, other: &Search) -> bool {
        (self is Single && other is Single) || (self is Wantlist && other is Wantlist)
    }
}

/// A text facet on one value: true when `filter` is empty, else whether the lowercased
/// `filter` is a substring of the lowercased `value`.
pub fn text_matches(filter: &str, value: &str) -> (r: bool)
    ensures
        r == text_ok(filter@, value@),
{
    if filter.unicode_len() == 0 {
        return true;
    }
    let f = lowercase(filter);
    let v = lowercase(value);
    crate::text::contains_str(v.as_str(), f.as_str())
}

/// The terms of a type filter: its maximal runs of ASCII letters, lowercased.
pub fn type_terms(filter: &str) -> (r: Vec<String>)
    ensures
        r@.len() == alpha_terms(filter@).len(),
        forall|k: int| 0 <= k < r@.len() ==> (#[trigger] r@[k])@ == alpha_terms(filter@)[k],
{
    let terms = alpha_terms_chars(&chars_of(filter));
    let mut r: Vec<String> = Vec::new();
    let mut k: usize = 0;
    while k < terms.len()
        invariant
            views(terms@) == alpha_terms(filter@),
            k <= terms@.len(),
            r@.len() == k,
            forall|i: int| 0 <= i < k ==> (#[trigger] r@[i])@ == alpha_terms(filter@)[i],
        decreases terms@.len() - k,
    {
        let s = string_of(&terms[k]);
        r.push(s);
        assert(views(terms@)[k as int] == terms@[k as int]@);
        k = k + 1;
    }
    r
}

/// The type facet on a lowercased type line: every term of `filter` is a substring of some
/// comma-separated segment of `ty_lower`.
pub fn type_terms_match(filter: &str, ty_lower: &str) -> (r: bool)
    ensures
        r == types_match(filter@, ty_lower@),
{
    let terms = alpha_terms_chars(&chars_of(filter));
    let segments = split_chars(&chars_of(ty_lower), ',');
    let ghost tv = alpha_terms(filter@);
    let ghost sv = split_on(ty_lower@, ',');
    let mut k: usize = 0;
    while k < terms.len()
        invariant
            views(terms@) == tv,
            views(segments@) == sv,
            tv == alpha_terms(filter@),
            sv == split_on(ty_lower@, ','),
            k <= terms@.len(),
            forall|i: int| 0 <= i < k ==> term_found(#[trigger] tv[i], sv),
        decreases terms@.len() - k,
    {
        let mut found = false;
        let mut j: usize = 0;
        while j < segments.len()
            invariant
                views(terms@) == tv,
                views(segments@) == sv,
                k < terms@.len(),
                j <= segments@.len(),
                found ==> term_found(tv[k as int], sv),
                !found ==> forall|m: int| 0 <= m < j ==> !occurs_in(tv[k as int], #[trigger] sv[m]),
            decreases segments@.len() - j,
        {
            if occurs_in_chars(&terms[k], &segments[j]) {
                assert(views(segments@)[j as int] == segments@[j as int]@);
                assert(views(terms@)[k as int] == terms@[k as int]@);
                found = true;
            } else {
                assert(views(segments@)[j as int] == segments@[j as int]@);
                assert(views(terms@)[k as int] == terms@[k as int]@);
            }
            j = j + 1;
        }
        if !found {
            assert(!term_found(tv[k as int], sv));
            return false;
        }
        k = k + 1;
    }
    true
}

/// The characters of `p` without one trailing carriage return.
fn strip_cr_chars(p: &Vec<char>) -> (r: Vec<char>)
    ensures
        r@ == strip_cr(p@),
{
    let n = if p.len() > 0 && p[p.len() - 1] == '\r' {
        p.len() - 1
    } else {
        p.len()
    };
    let mut r: Vec<char> = Vec::new();
    let mut i: usize = 0;
    while i < n
        invariant
            n <= p@.len(),
            i <= n,
            r@ == p@.take(i as int),
        decreases n - i,
    {
        r.push(p[i]);
        i = i + 1;
        assert(r@ =~= p@.take(i as int));
    }
    assert(r@ =~= strip_cr(p@));
    r
}

/// The wantlist facet on lowercased texts: whether some non-empty line of `list_lower` is a
/// substring of `name_lower`.
pub fn wantlist_matches(list_lower: &str, name_lower: &str) -> (r: bool)
    ensures
        r == wanted(list_lower@, name_lower@),
{
    let name = chars_of(name_lower);
    let pieces = split_chars(&chars_of(list_lower), '\n');
    let ghost pv = split_on(list_lower@, '\n');
    let mut i: usize = 0;
    while i < pieces.len()
        invariant
            views(pieces@) == pv,
            pv == split_on(list_lower@, '\n'),
            name@ == name_lower@,
            i <= pieces@.len(),
            forall|k: int|
                0 <= k < i ==> !((#[trigger] line_of(pv, k)).len() > 0 && occurs_in(
                    line_of(pv, k),
                    name_lower@,
                )),
        decreases pieces@.len() - i,
    {
        assert(views(pieces@)[i as int] == pieces@[i as int]@);
        let line = if i + 1 < pieces.len() {
            strip_cr_chars(&pieces[i])
        } else {
            copy_chars(&pieces[i])
        };
        assert(line@ == line_of(pv, i as int));
        if line.len() > 0 && occurs_in_chars(&line, &name) {
            return true;
        }
        i = i + 1;
    }
    false
}

/// A copy of `p`.
fn copy_chars(p: &Vec<char>) -> (r: Vec<char>)
    ensures
        r@ == p@,
{
    let mut r: Vec<char> = Vec::new();
    let mut i: usize = 0;
    while i < p.len()
        invariant
            i <= p@.len(),
            r@ == p@.take(i as int),
        decreases p@.len() - i,
    {
        r.push(p[i]);
        i = i + 1;
        assert(r@ =~= p@.take(i as int));
    }
    assert(r@ =~= p@);
    r
}

/// The records of `s` that `search` selects, in order.
pub open spec fn selected(search: Search, s: Seq<Entry>) -> Seq<Entry>
    decreases s.len(),
{
    if s.len() == 0 {
        Seq::empty()
    } else {
        let init = selected(search, s.drop_last());
        if search.selects(s.last()) {
            init.push(s.last())
        } else {
            init
        }
    }
}

/// The records of `data` that `search` selects, in their order.
pub fn select(data: &[Entry], search: &Search) -> (r: Vec<Entry>)
    ensures
        r@ == selected(*search, data@),
{
    let mut r: Vec<Entry> = Vec::new();
    let mut i: usize = 0;
    while i < data.len()
        invariant
            i <= data@.len(),
            r@ == selected(*search, data@.take(i as int)),
        decreases data@.len() - i,
    {
        let ghost prev = data@.take(i as int);
        assert(data@.take(i + 1).drop_last() =~= prev);
        if search.apply(&data[i]) {
            r.push(data[i].clone());
        }
        i = i + 1;
    }
    assert(data@.take(data@.len() as int) =~= data@);
    r
}

/// A faceted query whose every facet is empty selects every record.
pub proof fn lemma_blank_single_selects_all(s: Search, e: Entry)
    requires
        s.is_blank_single(),
    ensures
        s.selects(e),
{
}

/// A faceted query with the colorless flag selects only records with the empty identity;
/// when its other facets are empty, it selects exactly those.
pub proof fn lemma_colorless_selects_empty_only(s: Search, e: Entry)
    requires
        s matches Search::Single { colorless, .. } && colorless,
    ensures
        s.selects(e) ==> is_empty_flags(e.color_identity@),
        (s matches Search::Single { owner, name, ty, set, .. } && owner is None && name@.len()
            == 0 && ty@.len() == 0 && set@.len() == 0) ==> (s.selects(e) <==> is_empty_flags(
            e.color_identity@,
        )),
{
}

} // verus!
