use vstd::prelude::*;

use crate::color::{rendered, ColorIdent, ColorParseError, parse_text};
use crate::text::{push_char, push_str_chars};

verus! {

/// The known owners of collections.
#[derive(Clone, Copy, Debug, PartialEq, Eq, Hash, Structural)]
pub enum User {
    Strosel,
    Amon8808,
    MathIsMath,
    Urgalurga,
    TheColdPanda,
    VikinGG,
    OliverDizz,
}

/// The collection service's account number of each owner.
pub open spec fn user_id(u: User) -> u32 {
    match u {
        User::Strosel => 331139,
        User::Amon8808 => 324351,
        User::MathIsMath => 358259,
        User::Urgalurga => 382090,
        User::TheColdPanda => 418756,
        User::VikinGG => 454044,
        User::OliverDizz => 603907,
    }
}

/// The display name of each owner.
pub open spec fn user_name(u: User) -> Seq<char> {
    match u {
        User::Strosel => "Strosel"@,
        User::Amon8808 => "Amon8808"@,
        User::MathIsMath => "MathIsMath"@,
        User::Urgalurga => "Urgalurga"@,
        User::TheColdPanda => "TheColdPanda"@,
        User::VikinGG => "VikinGG"@,
        User::OliverDizz => "OliverDizz"@,
    }
}

impl User {
    /// Every owner, in declaration order.
    pub fn variants() -> (r: Vec<User>)
        ensures
            r@ == seq![
                User::Strosel,
                User::Amon8808,
                User::MathIsMath,
                User::Urgalurga,
                User::TheColdPanda,
                User::VikinGG,
                User::OliverDizz,
            ],
    {
        let r = vec![
            User::Strosel,
            User::Amon8808,
            User::MathIsMath,
            User::Urgalurga,
            User::TheColdPanda,
            User::VikinGG,
            User::OliverDizz,
        ];
        assert(r@ =~= seq![
            User::Strosel,
            User::Amon8808,
            User::MathIsMath,
            User::Urgalurga,
            User::TheColdPanda,
            User::VikinGG,
            User::OliverDizz,
        ]);
        r
    }

    /// The owner's account number.
    pub fn id(&self) -> (r: u32)
        ensures
            r == user_id(*self),
    {
        match self {
            User::Strosel => 331139,
            User::Amon8808 => 324351,
            User::MathIsMath => 358259,
            User::Urgalurga => 382090,
            User::TheColdPanda => 418756,
            User::VikinGG => 454044,
            User::OliverDizz => 603907,
        }
    }

    /// The owner's display name.
    pub fn name(&self) -> (r: &'static str)
        ensures
            r@ == user_name(*self),
    {
        match self {
            User::Strosel => "Strosel",
            User::Amon8808 => "Amon8808",
            User::MathIsMath => "MathIsMath",
            User::Urgalurga => "Urgalurga",
            User::TheColdPanda => "TheColdPanda",
            User::VikinGG => "VikinGG",
            User::OliverDizz => "OliverDizz",
        }
    }
}

// ---------------------------------------------------------------------------
// Numbers as text
// ---------------------------------------------------------------------------

pub open spec fn digit(d: int) -> char {
    (d + 48) as char
}

/// The decimal digits of `n`, without leading zeros ("0" for zero).
pub open spec fn decimal(n: nat) -> Seq<char>
    decreases n,
{
    if n < 10 {
        seq![digit(n as int)]
    } else {
        decimal(n / 10).push(digit((n % 10) as int))
    }
}

fn digit_char(d: u64) -> (r: char)
    requires
        d < 10,
    ensures
        r == digit(d as int),
{
    ((d as u8) + 48) as char
}

fn push_decimal(s: &mut String, n: u64)
    ensures
        final(s)@ == old(s)@ + decimal(n as nat),
    decreases n,
{
    if n >= 10 {
        push_decimal(s, n / 10);
    }
    push_char(s, digit_char(n % 10));
    assert(final(s)@ =~= old(s)@ + decimal(n as nat));
}

/// The decimal form of `n`.
pub fn decimal_string(n: u64) -> (r: String)
    ensures
        r@ == decimal(n as nat),
{
    let mut r = String::new();
    push_decimal(&mut r, n);
    assert(r@ =~= decimal(n as nat));
    r
}

pub open spec fn abs(x: int) -> nat {
    if x < 0 {
        (-x) as nat
    } else {
        x as nat
    }
}

/// A price given in hundredths, with two decimals and the euro sign ("12.05€", "-1.00€").
pub open spec fn price_text(cents: int) -> Seq<char> {
    let m = abs(cents);
    (if cents < 0 {
        seq!['-']
    } else {
        Seq::empty()
    }) + decimal(m / 100) + seq!['.', digit(((m % 100) / 10) as int), digit((m % 10) as int), '€']
}

/// The price `cents` (hundredths of a euro) as text with two decimals and the euro sign.
pub fn price_string(cents: i64) -> (r: String)
    ensures
        r@ == price_text(cents as int),
{
    let mut r = String::new();
    let m: u64 = if cents < 0 {
        ((-(cents + 1)) as u64) + 1
    } else {
        cents as u64
    };
    if cents < 0 {
        push_char(&mut r, '-');
    }
    push_decimal(&mut r, m / 100);
    push_char(&mut r, '.');
    push_char(&mut r, digit_char((m % 100) / 10));
    push_char(&mut r, digit_char(m % 10));
    push_char(&mut r, '€');
    assert(r@ =~= price_text(cents as int));
    r
}

// ---------------------------------------------------------------------------
// Records
// ---------------------------------------------------------------------------

/// The price marker of a record whose printings were merged and differ: "unknown or mixed".
/// It is -1.00, in hundredths.
pub const MIXED_PRICE: i64 = -100;

/// One printing of a card in an owner's collection.
#[derive(Debug, PartialEq, Eq)]
pub struct Entry {
    pub owner: User,
    pub quantity: u8,
    pub color_identity: ColorIdent,
    pub name: String,
    /// The supertypes and types, joined by commas.
    pub ty: String,
    /// The set code.
    pub set: String,
    /// The card database's identifier of the printing.
    pub scryfall: String,
    /// The price in hundredths of a euro; negative when unknown.
    pub price: i64,
}

impl Clone for Entry {
    fn clone(&self) -> (r: Self)
        ensures
            r == *self,
    {
        Entry {
            owner: self.owner,
            quantity: self.quantity,
            color_identity: self.color_identity,
            name: self.name.clone(),
            ty: self.ty.clone(),
            set: self.set.clone(),
            scryfall: self.scryfall.clone(),
            price: self.price,
        }
    }
}

/// The column labels of a record, in display order.
pub open spec fn header(i: int) -> Seq<char> {
    if i == 0 {
        "Owner"@
    } else if i == 1 {
        "X"@
    } else if i == 2 {
        "Color Id"@
    } else if i == 3 {
        "Name"@
    } else if i == 4 {
        "Type"@
    } else if i == 5 {
        "Set"@
    } else if i == 6 {
        "Scryfall"@
    } else {
        "Price"@
    }
}

/// The text shown in column `i` for record `e`.
pub open spec fn field_text(e: Entry, i: int) -> Seq<char> {
    if i == 0 {
        user_name(e.owner)
    } else if i == 1 {
        decimal(e.quantity as nat)
    } else if i == 2 {
        rendered(e.color_identity@)
    } else if i == 3 {
        e.name@
    } else if i == 4 {
        e.ty@
    } else if i == 5 {
        e.set@
    } else if i == 6 {
        e.scryfall@
    } else {
        price_text(e.price as int)
    }
}

/// The type line of a record: the supertypes and the types joined by a comma, or the types
/// alone when there is no supertype.
pub open spec fn joined_type_line(supertypes: Seq<char>, types: Seq<char>) -> Seq<char> {
    if supertypes.len() == 0 {
        types
    } else {
        supertypes + seq![','] + types
    }
}

/// A row of a collection export, its fields as text and numbers.
pub struct RawRow {
    pub quantity: u8,
    /// The color identity, in any notation that `ColorIdent::parse` reads.
    pub identities: String,
    pub name: String,
    pub supertypes: String,
    pub types: String,
    pub set: String,
    pub scryfall: String,
    /// The price in hundredths of a euro.
    pub price: i64,
}

impl Entry {
    /// The column labels, in display order.
    pub fn headers() -> (r: Vec<&'static str>)
        ensures
            r@.len() == 8,
            forall|i: int| 0 <= i < 8 ==> (#[trigger] r@[i])@ == header(i),
    {
        vec!["Owner", "X", "Color Id", "Name", "Type", "Set", "Scryfall", "Price"]
    }

    /// The columns of this record as (label, text) pairs, in display order.
    pub fn values(&self) -> (r: Vec<(&'static str, String)>)
        ensures
            r@.len() == 8,
            forall|i: int|
                0 <= i < 8 ==> (#[trigger] r@[i]).0@ == header(i) && r@[i].1@ == field_text(
                    *self,
                    i,
                ),
    {
        let mut owner = String::new();
        push_str_chars(&mut owner, self.owner.name());
        let r = vec![
            ("Owner", owner),
            ("X", decimal_string(self.quantity as u64)),
            ("Color Id", self.color_identity.render()),
            ("Name", self.name.clone()),
            ("Type", self.ty.clone()),
            ("Set", self.set.clone()),
            ("Scryfall", self.scryfall.clone()),
            ("Price", price_string(self.price)),
        ];
        assert forall|i: int| 0 <= i < 8 implies (#[trigger] r@[i]).0@ == header(i) && r@[i].1@
            == field_text(*self, i) by {
            if i == 0 {
                assert(owner@ == user_name(self.owner));
            }
        }
        r
    }

    /// The record for one exported row of `owner`'s collection, or the error of its color
    /// identity text.
    pub fn from_row(owner: User, row: RawRow) -> (r: Result<Entry, ColorParseError>)
        ensures
            r is Ok <==> parse_text(row.identities@) is Ok,
            r matches Ok(e) ==> {
                &&& e.owner == owner
                &&& e.quantity == row.quantity
                &&& e.color_identity@ == parse_text(row.identities@)->Ok_0
                &&& e.name == row.name
                &&& e.ty@ == joined_type_line(row.supertypes@, row.types@)
                &&& e.set == row.set
                &&& e.scryfall == row.scryfall
                &&& e.price == row.price
            },
            r matches Err(err) ==> err.position == parse_text(row.identities@)->Err_0 && err.found
                == row.identities@[err.position as int],
    {
        let color_identity = match ColorIdent::parse(row.identities.as_str()) {
            Ok(id) => id,
            Err(e) => {
                return Err(e);
            },
        };
        let ty = type_line(row.supertypes.as_str(), row.types.as_str());
        Ok(Entry {
            owner,
            quantity: row.quantity,
            color_identity,
            name: row.name,
            ty,
            set: row.set,
            scryfall: row.scryfall,
            price: row.price,
        })
    }
}

/// The type line of a record: `supertypes` and `types` joined by a comma, or `types` alone
/// when `supertypes` is empty.
pub fn type_line(supertypes: &str, types: &str) -> (r: String)
    ensures
        r@ == joined_type_line(supertypes@, types@),
{
    let mut r = String::new();
    push_str_chars(&mut r, supertypes);
    if supertypes.unicode_len() > 0 {
        push_char(&mut r, ',');
    }
    push_str_chars(&mut r, types);
    assert(r@ =~= joined_type_line(supertypes@, types@));
    r
}

} // verus!
