use vstd::prelude::*;

use crate::entry::{Entry, MIXED_PRICE};

verus! {

/// Two records are printings of one logical card: same name and same owner.
pub open spec fn same_card(a: Entry, b: Entry) -> bool {
    a.name@ == b.name@ && a.owner == b.owner
}

/// The end of the group that starts at `i`, scanning from `j`: the first position at or after
/// `j` that holds another card than `s[i]`, or the length.
pub open spec fn group_end_from(s: Seq<Entry>, i: int, j: int) -> int
    decreases s.len() - j,
{
    if j >= s.len() || !same_card(s[j], s[i]) {
        j
    } else {
        group_end_from(s, i, j + 1)
    }
}

/// The end of the maximal run of adjacent printings of the card at `i`.
pub open spec fn group_end(s: Seq<Entry>, i: int) -> int {
    group_end_from(s, i, i + 1)
}

/// The groups of `s` from position `i` on, as (start, end) pairs, in order.
pub open spec fn groups_from(s: Seq<Entry>, i: int) -> Seq<(int, int)>
    decreases s.len() - i,
    via groups_from_decreases
{
    if i < 0 || i >= s.len() {
        Seq::empty()
    } else {
        seq![(i, group_end(s, i))] + groups_from(s, group_end(s, i))
    }
}

#[via_fn]
proof fn groups_from_decreases(s: Seq<Entry>, i: int) {
    if 0 <= i < s.len() {
        lemma_group_end_from(s, i, i + 1);
    }
}

/// The groups of adjacent printings of one card in `s`, in order.
pub open spec fn groups(s: Seq<Entry>) -> Seq<(int, int)> {
    groups_from(s, 0)
}

/// The total quantity of `s[i..j]`.
pub open spec fn quantity_sum(s: Seq<Entry>, i: int, j: int) -> int
    decreases j - i,
{
    if j <= i {
        0
    } else {
        quantity_sum(s, i, j - 1) + s[j - 1].quantity
    }
}

/// Every record of `s[i..j]` has the set code of `s[i]`.
pub open spec fn same_set(s: Seq<Entry>, i: int, j: int) -> bool {
    forall|k: int| i <= k < j ==> (#[trigger] s[k]).set@ == s[i].set@
}

/// `m` is the merge of the printings `s[i..j]`: the first record with the total quantity,
/// which keeps its set code and price when all set codes agree, and otherwise has an empty
/// set code and the mixed-price marker.
pub open spec fn merged(m: Entry, s: Seq<Entry>, i: int, j: int) -> bool {
    &&& m.owner == s[i].owner
    &&& m.name == s[i].name
    &&& m.color_identity == s[i].color_identity
    &&& m.ty == s[i].ty
    &&& m.scryfall == s[i].scryfall
    &&& m.quantity == quantity_sum(s, i, j)
    &&& if same_set(s, i, j) {
        m.set == s[i].set && m.price == s[i].price
    } else {
        m.set@.len() == 0 && m.price == MIXED_PRICE
    }
}

/// The merged total of every group fits in a quantity.
pub open spec fn quantities_fit(s: Seq<Entry>) -> bool {
    forall|k: int|
        0 <= k < groups(s).len() ==> quantity_sum(s, (#[trigger] groups(s)[k]).0, groups(s)[k].1)
            <= u8::MAX
}

/// `out` is `s` consolidated: one merged record for each group, in order.
pub open spec fn consolidated(out: Seq<Entry>, s: Seq<Entry>) -> bool {
    &&& out.len() == groups(s).len()
    &&& forall|k: int|
        0 <= k < out.len() ==> merged(#[trigger] out[k], s, groups(s)[k].0, groups(s)[k].1)
}

proof fn lemma_group_end_from(s: Seq<Entry>, i: int, j: int)
    requires
        0 <= i < j <= s.len(),
    ensures
        j <= group_end_from(s, i, j) <= s.len(),
        forall|k: int| j <= k < group_end_from(s, i, j) ==> same_card(#[trigger] s[k], s[i]),
    decreases s.len() - j,
{
    if j < s.len() && same_card(s[j], s[i]) {
        lemma_group_end_from(s, i, j + 1);
    }
}

proof fn lemma_quantity_sum_monotone(s: Seq<Entry>, i: int, j1: int, j2: int)
    requires
        i <= j1 <= j2,
    ensures
        quantity_sum(s, i, j1) <= quantity_sum(s, i, j2),
    decreases j2 - j1,
{
    if j1 < j2 {
        lemma_quantity_sum_monotone(s, i, j1, j2 - 1);
    }
}

/// A stream over a sequence of records that yields, when `on`, one merged record for each
/// group of adjacent printings of one card, and otherwise each record unchanged.
pub struct CardDeduper<'a> {
    on: bool,
    entries: &'a [Entry],
    pos: usize,
}

impl<'a> CardDeduper<'a> {
    pub closed spec fn is_on(&self) -> bool {
        self.on
    }

    pub closed spec fn source(&self) -> Seq<Entry> {
        self.entries@
    }

    /// The position of the next record to read.
    pub closed spec fn position(&self) -> int {
        self.pos as int
    }

    pub closed spec fn wf(&self) -> bool {
        self.pos <= self.entries@.len()
    }

    /// A stream over `entries`, merging when `on`.
    pub fn new(entries: &'a [Entry], on: bool) -> (r: Self)
        ensures
            r.wf(),
            r.is_on() == on,
            r.source() == entries@,
            r.position() == 0,
    {
        CardDeduper { on, entries, pos: 0 }
    }

    /// The next record: when off, the next source record unchanged; when on, the merge of
    /// the group that starts at the current position. `None` once the source is used up.
    pub fn next(&mut self) -> (r: Option<Entry>)
        requires
            old(self).wf(),
            old(self).is_on() && old(self).position() < old(self).source().len() ==> quantity_sum(
                old(self).source(),
                old(self).position(),
                group_end(old(self).source(), old(self).position()),
            ) <= u8::MAX,
        ensures
            final(self).wf(),
            final(self).is_on() == old(self).is_on(),
            final(self).source() == old(self).source(),
            old(self).position() >= old(self).source().len() ==> r is None
                && final(self).position() == old(self).position(),
            old(self).position() < old(self).source().len() && !old(self).is_on() ==> r == Some(
                old(self).source()[old(self).position()],
            ) && final(self).position() == old(self).position() + 1,
            old(self).position() < old(self).source().len() && old(self).is_on() ==> {
                let s = old(self).source();
                let i = old(self).position();
                &&& r matches Some(m) && merged(m, s, i, group_end(s, i))
                &&& final(self).position() == group_end(s, i)
            },
    {
        let s = self.entries;
        let i = self.pos;
        if i >= s.len() {
            return None;
        }
        if !self.on {
            self.pos = i + 1;
            return Some(s[i].clone());
        }
        let ghost sv = s@;
        proof {
            lemma_group_end_from(sv, i as int, i + 1);
        }
        let mut head = s[i].clone();
        let mut j = i + 1;
        assert(quantity_sum(sv, i as int, j as int) == sv[i as int].quantity) by {
            assert(quantity_sum(sv, i as int, i as int) == 0);
        }
        while j < s.len() && s[j].name == head.name && s[j].owner == head.owner
            invariant
                sv == s@,
                i < j <= group_end(sv, i as int),
                group_end(sv, i as int) <= sv.len(),
                group_end(sv, i as int) == group_end_from(sv, i as int, j as int),
                quantity_sum(sv, i as int, group_end(sv, i as int)) <= u8::MAX,
                head.owner == sv[i as int].owner,
                head.name == sv[i as int].name,
                head.color_identity == sv[i as int].color_identity,
                head.ty == sv[i as int].ty,
                head.scryfall == sv[i as int].scryfall,
                head.quantity == quantity_sum(sv, i as int, j as int),
                if same_set(sv, i as int, j as int) {
                    head.set == sv[i as int].set && head.price == sv[i as int].price
                } else {
                    head.set@.len() == 0 && head.price == MIXED_PRICE
                },
            decreases sv.len() - j,
        {
            proof {
                assert(same_card(sv[j as int], sv[i as int]));
                assert(group_end_from(sv, i as int, j as int) == group_end_from(sv, i as int, j + 1));
                lemma_group_end_from(sv, i as int, j + 1);
                lemma_quantity_sum_monotone(sv, i as int, j + 1, group_end(sv, i as int));
            }
            let next = &s[j];
            head.quantity = head.quantity + next.quantity;
            if !(next.set == head.set) {
                head.set = String::new();
                head.price = MIXED_PRICE;
            }
            proof {
                if same_set(sv, i as int, j as int) && next.set@ == sv[i as int].set@ {
                    assert(same_set(sv, i as int, j + 1));
                } else {
                    assert(!same_set(sv, i as int, j + 1)) by {
                        if same_set(sv, i as int, j as int) {
                            assert(sv[j as int].set@ != sv[i as int].set@);
                        } else {
                            let k = choose|k: int|
                                i <= k < j && !((#[trigger] sv[k]).set@ == sv[i as int].set@);
                            assert(sv[k].set@ != sv[i as int].set@);
                        }
                    }
                }
            }
            j = j + 1;
        }
        self.pos = j;
        Some(head)
    }
}

/// The records of `entries`, consolidated when `on`: each maximal run of adjacent printings
/// of one card (same name and owner) becomes one merged record. When off, the output is the
/// input.
pub fn dedup_cards(entries: &[Entry], on: bool) -> (r: Vec<Entry>)
    requires
        on ==> quantities_fit(entries@),
    ensures
        !on ==> r@ == entries@,
        on ==> consolidated(r@, entries@),
{
    let ghost s = entries@;
    let mut it = CardDeduper::new(entries, on);
    let mut r: Vec<Entry> = Vec::new();
    let ghost mut done: Seq<(int, int)> = Seq::empty();
    loop
        invariant
            it.wf(),
            it.is_on() == on,
            it.source() == s,
            s == entries@,
            on ==> quantities_fit(s),
            !on ==> r@ == s.take(it.position()),
            on ==> groups(s) == done + groups_from(s, it.position()),
            on ==> r@.len() == done.len(),
            on ==> forall|k: int|
                0 <= k < done.len() ==> merged(#[trigger] r@[k], s, done[k].0, done[k].1),
        decreases s.len() - it.position(),
    {
        let ghost pos = it.position();
        proof {
            if on && pos < s.len() {
                assert(groups_from(s, pos)[0] == (pos, group_end(s, pos)));
                assert(groups(s)[done.len() as int] == (pos, group_end(s, pos)));
                lemma_group_end_from(s, pos, pos + 1);
            }
        }
        match it.next() {
            None => {
                proof {
                    if !on {
                        assert(s.take(pos) =~= s);
                    } else {
                        assert(groups_from(s, pos) =~= Seq::empty());
                        assert(done + groups_from(s, pos) =~= done);
                    }
                }
                return r;
            },
            Some(e) => {
                r.push(e);
                proof {
                    if !on {
                        assert(r@ =~= s.take(it.position()));
                    } else {
                        let g = (pos, group_end(s, pos));
                        assert(groups_from(s, pos) == seq![g] + groups_from(s, group_end(s, pos)));
                        assert(done + groups_from(s, pos) =~= done.push(g) + groups_from(
                            s,
                            group_end(s, pos),
                        ));
                        done = done.push(g);
                    }
                }
            },
        }
    }
}

/// Whether the merged total of every group of `entries` fits in a quantity, as
/// `dedup_cards` requires when merging.
pub fn group_quantities_fit(entries: &[Entry]) -> (r: bool)
    ensures
        r == quantities_fit(entries@),
{
    let ghost s = entries@;
    let n = entries.len();
    let mut i: usize = 0;
    let ghost mut done: Seq<(int, int)> = Seq::empty();
    while i < n
        invariant
            s == entries@,
            n == s.len(),
            i <= n,
            groups(s) == done + groups_from(s, i as int),
            forall|k: int|
                0 <= k < done.len() ==> quantity_sum(s, (#[trigger] done[k]).0, done[k].1)
                    <= u8::MAX,
        decreases n - i,
    {
        proof {
            lemma_group_end_from(s, i as int, i + 1);
        }
        let mut total: u64 = entries[i].quantity as u64;
        let mut j = i + 1;
        assert(quantity_sum(s, i as int, j as int) == s[i as int].quantity) by {
            assert(quantity_sum(s, i as int, i as int) == 0);
        }
        let ghost g = (i as int, group_end(s, i as int));
        proof {
            assert(groups_from(s, i as int) == seq![g] + groups_from(s, g.1));
            assert(groups(s)[done.len() as int] == g);
        }
        while j < n && entries[j].name == entries[i].name && entries[j].owner == entries[i].owner
            invariant
                s == entries@,
                n == s.len(),
                i < j <= group_end(s, i as int),
                g == (i as int, group_end(s, i as int)),
                groups(s)[done.len() as int] == g,
                done.len() < groups(s).len(),
                group_end(s, i as int) <= n,
                group_end(s, i as int) == group_end_from(s, i as int, j as int),
                total == quantity_sum(s, i as int, j as int),
                total <= 255,
            decreases n - j,
        {
            proof {
                assert(same_card(s[j as int], s[i as int]));
                assert(group_end_from(s, i as int, j as int) == group_end_from(s, i as int, j + 1));
                lemma_group_end_from(s, i as int, j + 1);
            }
            total = total + entries[j].quantity as u64;
            j = j + 1;
            if total > 255 {
                proof {
                    lemma_quantity_sum_monotone(s, i as int, j as int, g.1);
                }
                return false;
            }
        }
        proof {
            assert(groups_from(s, i as int) == seq![g] + groups_from(s, g.1));
            assert(done + groups_from(s, i as int) =~= done.push(g) + groups_from(s, g.1));
        }
        proof {
            done = done.push(g);
        }
        i = j;
    }
    proof {
        assert(groups_from(s, n as int) =~= Seq::empty());
        assert(done + groups_from(s, n as int) =~= done);
    }
    true
}

proof fn lemma_groups_from_elems(s: Seq<Entry>, start: int)
    requires
        0 <= start,
    ensures
        forall|k: int|
            0 <= k < groups_from(s, start).len() ==> {
                let g = #[trigger] groups_from(s, start)[k];
                &&& start <= g.0 < s.len()
                &&& g.1 == group_end(s, g.0)
            },
    decreases s.len() - start,
{
    if start < s.len() {
        lemma_group_end_from(s, start, start + 1);
        let e = group_end(s, start);
        lemma_groups_from_elems(s, e);
        assert forall|k: int| 0 <= k < groups_from(s, start).len() implies {
            let g = #[trigger] groups_from(s, start)[k];
            &&& start <= g.0 < s.len()
            &&& g.1 == group_end(s, g.0)
        } by {
            if k > 0 {
                assert(groups_from(s, start)[k] == groups_from(s, e)[k - 1]);
            }
        }
    }
}

/// Merging is keyed on name and owner together: every record of a group is a printing of
/// the card that starts the group, with the same name and the same owner. Records of
/// different owners are never merged, even when adjacent and of the same name.
pub proof fn lemma_group_members_share_card(s: Seq<Entry>, k: int, m: int)
    requires
        0 <= k < groups(s).len(),
        groups(s)[k].0 <= m < groups(s)[k].1,
    ensures
        s[m].owner == s[groups(s)[k].0].owner,
        s[m].name@ == s[groups(s)[k].0].name@,
{
    lemma_groups_from_elems(s, 0);
    let i = groups(s)[k].0;
    lemma_group_end_from(s, i, i + 1);
    if m > i {
        assert(same_card(s[m], s[i]));
    }
}

} // verus!
