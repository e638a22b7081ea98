//! The domain model: members, their chamber, their contact handles, and the
//! party-membership intervals that make up a member's history.
//!
//! Each executable type has a mathematical view: strings become `Seq<char>`
//! and dates are carried as UTC timestamps in seconds.

use vstd::prelude::*;

verus! {

/// Chamber affiliation of a member.
#[derive(Clone, Copy, Debug, PartialEq, Eq, Structural)]
pub enum House {
    Commons,
    Lords,
    Unknown,
}

/// The mathematical value of a `Party`: one contiguous interval of
/// affiliation with a named party. An absent `end_date` means the interval is
/// still open (or its end is unknown).
pub struct PartyView {
    pub name: Seq<char>,
    pub start_date: i64,
    pub end_date: Option<i64>,
}

/// One contiguous interval of affiliation with a named party.
/// `start_date` and `end_date` are UTC timestamps in seconds.
#[derive(Debug)]
pub struct Party {
    pub name: String,
    pub start_date: i64,
    pub end_date: Option<i64>,
}

impl View for Party {
    type V = PartyView;

    open spec fn view(&self) -> PartyView {
        PartyView { name: self.name@, start_date: self.start_date, end_date: self.end_date }
    }
}

impl Clone for Party {
    fn clone(&self) -> (r: Self)
        ensures
            r == *self,
    {
        Party { name: self.name.clone(), start_date: self.start_date, end_date: self.end_date }
    }
}

impl Party {
    /// A fresh scratch interval: empty name, the caller-supplied default
    /// start (the feed's notion of "now"), no end.
    pub fn new(default_start: i64) -> (r: Self)
        ensures
            r@ == (PartyView { name: Seq::<char>::empty(), start_date: default_start, end_date: None }),
    {
        Party { name: String::new(), start_date: default_start, end_date: None }
    }
}

/// The mathematical value of a `Member`.
pub struct MemberView {
    pub id: u32,
    pub name: Seq<char>,
    pub party: Seq<char>,
    pub house: House,
    pub constituency: Seq<char>,
    pub twitter: Option<Seq<char>>,
    pub facebook: Option<Seq<char>>,
    pub parties: Seq<PartyView>,
}

/// One person's parliamentary record for the duration of a document.
#[derive(Debug)]
pub struct Member {
    pub id: u32,
    pub name: String,
    pub party: String,
    pub house: House,
    pub constituency: String,
    pub twitter: Option<String>,
    pub facebook: Option<String>,
    pub parties: Vec<Party>,
}

/// The view of a sequence of party intervals.
pub open spec fn party_views(s: Seq<Party>) -> Seq<PartyView> {
    s.map_values(|p: Party| p@)
}

pub open spec fn opt_string_view(o: Option<String>) -> Option<Seq<char>> {
    match o {
        Some(s) => Some(s@),
        None => None,
    }
}

impl View for Member {
    type V = MemberView;

    open spec fn view(&self) -> MemberView {
        MemberView {
            id: self.id,
            name: self.name@,
            party: self.party@,
            house: self.house,
            constituency: self.constituency@,
            twitter: opt_string_view(self.twitter),
            facebook: opt_string_view(self.facebook),
            parties: party_views(self.parties@),
        }
    }
}

impl Clone for Member {
    fn clone(&self) -> (r: Self)
        ensures
            r@ == self@,
    {
        let parties = self.parties.clone();
        proof {
            assert forall|i: int| 0 <= i < self.parties@.len() implies parties@[i]
                == self.parties@[i] by {
                assert(vstd::pervasive::cloned::<Party>(self.parties[i], parties[i]));
            }
            assert(parties@ =~= self.parties@);
        }
        Member {
            id: self.id,
            name: self.name.clone(),
            party: self.party.clone(),
            house: self.house,
            constituency: self.constituency.clone(),
            twitter: self.twitter.clone(),
            facebook: self.facebook.clone(),
            parties,
        }
    }
}

/// The view of a fresh member record carrying the given id.
pub open spec fn empty_member_view(id: u32) -> MemberView {
    MemberView {
        id,
        name: Seq::<char>::empty(),
        party: Seq::<char>::empty(),
        house: House::Unknown,
        constituency: Seq::<char>::empty(),
        twitter: None,
        facebook: None,
        parties: Seq::<PartyView>::empty(),
    }
}

impl Member {
    /// A fresh member record: id zero, empty fields, unknown chamber, no
    /// handles, no party history.
    pub fn new() -> (r: Self)
        ensures
            r@ == empty_member_view(0),
    {
        let r = Member {
            id: 0,
            name: String::new(),
            party: String::new(),
            house: House::Unknown,
            constituency: String::new(),
            twitter: None,
            facebook: None,
            parties: Vec::new(),
        };
        proof {
            assert(party_views(r.parties@) =~= Seq::<PartyView>::empty());
        }
        r
    }
}

/// The root container: an insertion-ordered sequence of members, one per
/// document.
#[derive(Debug)]
pub struct Members {
    pub members: Vec<Member>,
}

impl View for Members {
    type V = Seq<MemberView>;

    open spec fn view(&self) -> Seq<MemberView> {
        self.members@.map_values(|m: Member| m@)
    }
}

impl Members {
    /// An empty collection.
    pub fn new() -> (r: Self)
        ensures
            r@ == Seq::<MemberView>::empty(),
    {
        let r = Members { members: Vec::new() };
        proof {
            assert(r@ =~= Seq::<MemberView>::empty());
        }
        r
    }
}

/// The mathematical value of an address scratch record.
pub struct AddressView {
    pub addr_type: Seq<char>,
    pub address: Seq<char>,
}

/// A transient record for one `<Address>` block: it is folded into the
/// member's `twitter`/`facebook` fields when the block closes, then
/// discarded.
#[derive(Debug)]
pub struct Address {
    pub addr_type: String,
    pub address: String,
}

impl View for Address {
    type V = AddressView;

    open spec fn view(&self) -> AddressView {
        AddressView { addr_type: self.addr_type@, address: self.address@ }
    }
}

impl Address {
    /// A fresh scratch record with empty fields.
    pub fn new() -> (r: Self)
        ensures
            r@ == (AddressView { addr_type: Seq::<char>::empty(), address: Seq::<char>::empty() }),
    {
        Address { addr_type: String::new(), address: String::new() }
    }
}

/// How a chamber name in the feed maps to a `House`: the exact strings
/// "Commons" and "Lords", anything else is `Unknown`.
pub open spec fn house_of_text(s: Seq<char>) -> House {
    if s == "Commons"@ {
        House::Commons
    } else if s == "Lords"@ {
        House::Lords
    } else {
        House::Unknown
    }
}

} // verus!
