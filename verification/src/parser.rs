//! The streaming parser: a single forward pass over the document's token
//! stream, driving a depth-tracked state machine that builds one `Member`
//! record per member block.
//!
//! The machine keeps a current semantic position and a stack of the
//! positions of the enclosing elements: the same child-tag name appears
//! under several parents, and routing depends on the position, not the tag
//! name alone. Unrecognized elements are routed to the catch-all `Other`
//! position and skipped. Text is committed to the open scratch record of the
//! current position; end tags fold scratch records into their parents.
//!
//! The whole pass is all-or-nothing: a malformed document, a missing or
//! non-numeric `Member_Id`, or a malformed date fails the parse, and an end
//! tag whose scratch record was never allocated reports a state-machine
//! defect; no partial output is ever returned.

use vstd::prelude::*;

use crate::consolidate::{consolidate_parties, consolidate_spec};
use crate::dates::{now_timestamp, parse_utc_timestamp, utc_timestamp_of};
use crate::domain::{
    Address, AddressView, Member, MemberView, Members, Party, PartyView, empty_member_view,
    house_of_text, party_views,
};
use crate::numbers::{parse_u32, parse_u32_spec};
use crate::tokens::{Attr, Token, tokenize_xml, xml_tokens_of};

verus! {

/// The semantic position of the parser inside the document.
#[derive(Clone, Copy, Debug, PartialEq, Eq, Structural)]
pub enum Element {
    /// Outside any recognized element.
    Root,
    /// Inside `<Members>`.
    MembersList,
    /// Inside `<Member>`.
    Member,
    /// Inside `<Addresses>`.
    AddressesList,
    /// Inside `<Address>`.
    Address,
    /// Inside `<Type>` of an address.
    AddrType,
    /// Inside `<Address1>` of an address.
    AddrLine,
    /// Inside `<Parties>`.
    PartiesList,
    /// Inside `<Party>` of the history list.
    Party,
    /// Inside `<Name>` of a history entry.
    PartyName,
    /// Inside `<StartDate>` of a history entry.
    PartyStart,
    /// Inside `<EndDate>` of a history entry.
    PartyEnd,
    /// Inside `<DisplayAs>`: the member's display name.
    DisplayName,
    /// Inside `<Party>` directly under the member: the display affiliation.
    MemberParty,
    /// Inside `<House>`.
    HouseField,
    /// Inside `<MemberFrom>`: the constituency.
    Constituency,
    /// Inside an unrecognized element.
    Other,
}

/// Why a parse failed.
#[derive(Clone, Copy, Debug, PartialEq, Eq, Structural)]
pub enum ParseError {
    /// The document is not well-formed XML.
    Syntax,
    /// A `<Member>` element has no `Member_Id` attribute.
    MissingMemberId,
    /// A `Member_Id` attribute is not a decimal `u32`.
    InvalidMemberId,
    /// A `StartDate` or `EndDate` value is not a well-formed date.
    InvalidDate,
    /// An end tag arrived while its scratch record was never allocated: a
    /// defect of the state machine, not of the document.
    StateInvariant,
    /// The document held no `<Members>` element.
    MissingRoot,
}

/// The mathematical value of the parser state.
pub struct StateView {
    pub current: Element,
    pub stack: Seq<Element>,
    pub members: Option<Seq<MemberView>>,
    pub member: Option<MemberView>,
    pub address: Option<AddressView>,
    pub party: Option<PartyView>,
    pub default_start: i64,
}

/// Enter a child position: the current position is pushed and the child
/// becomes current.
pub open spec fn pushed(st: StateView, next: Element) -> StateView {
    StateView { current: next, stack: st.stack.push(st.current), ..st }
}

/// Leave a position: the parent position is restored from the stack, or
/// `Root` if the stack is empty.
pub open spec fn popped(st: StateView) -> StateView {
    if st.stack.len() > 0 {
        StateView { current: st.stack.last(), stack: st.stack.drop_last(), ..st }
    } else {
        StateView { current: Element::Root, ..st }
    }
}

/// Scan a `<Member>` tag's attributes for `Member_Id`, in order: every
/// `Member_Id` occurrence must parse as a decimal `u32`, and the last
/// occurrence wins.
pub open spec fn scan_member_id(attrs: Seq<Attr>) -> Result<Option<u32>, ParseError>
    decreases attrs.len(),
{
    if attrs.len() == 0 {
        Ok(None)
    } else {
        match scan_member_id(attrs.drop_last()) {
            Err(e) => Err(e),
            Ok(prev) => {
                if attrs.last().name@ == "Member_Id"@ {
                    match parse_u32_spec(attrs.last().value@) {
                        Some(v) => Ok(Some(v)),
                        None => Err(ParseError::InvalidMemberId),
                    }
                } else {
                    Ok(prev)
                }
            },
        }
    }
}

/// The transition for an element-open token: the position table of the state
/// machine. Opening `<Members>` at the root initializes the output
/// collection; opening `<Member>` in the list allocates a member scratch
/// record carrying the required `Member_Id`; opening `<Address>` or
/// `<Party>` allocates the matching scratch record; an `<EndDate>` carrying
/// a `nil` attribute is still entered (the marker is noted and ignored — a
/// nil end date usually has no text, so the end simply stays absent).
/// Anything unrecognized becomes `Other`.
pub open spec fn step_open(st: StateView, name: Seq<char>, attrs: Seq<Attr>) -> Result<
    StateView,
    ParseError,
> {
    if st.current == Element::Root && name == "Members"@ {
        Ok(StateView { members: Some(Seq::<MemberView>::empty()), ..pushed(st, Element::MembersList) })
    } else if st.current == Element::MembersList && name == "Member"@ {
        match scan_member_id(attrs) {
            Err(e) => Err(e),
            Ok(None) => Err(ParseError::MissingMemberId),
            Ok(Some(id)) => Ok(
                StateView { member: Some(empty_member_view(id)), ..pushed(st, Element::Member) },
            ),
        }
    } else if st.current == Element::Member && name == "Addresses"@ {
        Ok(pushed(st, Element::AddressesList))
    } else if st.current == Element::Member && name == "Parties"@ {
        Ok(pushed(st, Element::PartiesList))
    } else if st.current == Element::Member && name == "DisplayAs"@ {
        Ok(pushed(st, Element::DisplayName))
    } else if st.current == Element::Member && name == "Party"@ {
        Ok(pushed(st, Element::MemberParty))
    } else if st.current == Element::Member && name == "House"@ {
        Ok(pushed(st, Element::HouseField))
    } else if st.current == Element::Member && name == "MemberFrom"@ {
        Ok(pushed(st, Element::Constituency))
    } else if st.current == Element::AddressesList && name == "Address"@ {
        Ok(
            StateView {
                address: Some(
                    (AddressView { addr_type: Seq::<char>::empty(), address: Seq::<char>::empty() }),
                ),
                ..pushed(st, Element::Address)
            },
        )
    } else if st.current == Element::Address && name == "Type"@ {
        Ok(pushed(st, Element::AddrType))
    } else if st.current == Element::Address && name == "Address1"@ {
        Ok(pushed(st, Element::AddrLine))
    } else if st.current == Element::PartiesList && name == "Party"@ {
        Ok(
            StateView {
                party: Some(
                    (PartyView {
                        name: Seq::<char>::empty(),
                        start_date: st.default_start,
                        end_date: None,
                    }),
                ),
                ..pushed(st, Element::Party)
            },
        )
    } else if st.current == Element::Party && name == "Name"@ {
        Ok(pushed(st, Element::PartyName))
    } else if st.current == Element::Party && name == "StartDate"@ {
        Ok(pushed(st, Element::PartyStart))
    } else if st.current == Element::Party && name == "EndDate"@ {
        Ok(pushed(st, Element::PartyEnd))
    } else {
        Ok(pushed(st, Element::Other))
    }
}

/// Fold a closed `<Address>` block into the member: a `Type` of exactly
/// "Twitter" fills the twitter handle, exactly "Facebook" the facebook
/// handle (case-sensitive), anything else is dropped.
pub open spec fn classify_address(m: MemberView, a: AddressView) -> MemberView {
    if a.addr_type == "Twitter"@ {
        MemberView { twitter: Some(a.address), ..m }
    } else if a.addr_type == "Facebook"@ {
        MemberView { facebook: Some(a.address), ..m }
    } else {
        m
    }
}

/// Address classification is an exact, case-sensitive string match: the
/// type "Twitter" — and no other, not even another casing — fills the
/// twitter handle, "Facebook" alone fills the facebook handle, and any
/// other type leaves the member unchanged.
pub proof fn lemma_address_classification_exact(m: MemberView, a: AddressView)
    ensures
        a.addr_type == "Twitter"@ ==> classify_address(m, a) == (MemberView {
            twitter: Some(a.address),
            ..m
        }),
        a.addr_type == "Facebook"@ ==> classify_address(m, a) == (MemberView {
            facebook: Some(a.address),
            ..m
        }),
        a.addr_type != "Twitter"@ && a.addr_type != "Facebook"@ ==> classify_address(m, a) == m,
{
    reveal_strlit("Twitter");
    reveal_strlit("Facebook");
    assert("Twitter"@.len() == 7);
    assert("Facebook"@.len() == 8);
}

/// The transition for an element-close token: commit the scratch record the
/// tag closes (a member into the output, an address into the member's
/// handles, a history entry into the member's raw list, the whole `Parties`
/// block through consolidation), then restore the parent position. A commit
/// fires only while the parser stands at the position the tag closes, so an
/// unknown nested element that happens to share a commit tag's name is
/// popped and skipped like any other unknown element. A commit whose
/// scratch record was never allocated is a state-machine defect.
pub open spec fn step_close(st: StateView, name: Seq<char>) -> Result<StateView, ParseError> {
    if name == "Member"@ && st.current == Element::Member {
        match (st.members, st.member) {
            (Some(ms), Some(m)) => Ok(popped(StateView { members: Some(ms.push(m)), ..st })),
            _ => Err(ParseError::StateInvariant),
        }
    } else if name == "Address"@ && st.current == Element::Address {
        match (st.member, st.address) {
            (Some(m), Some(a)) => Ok(
                popped(StateView { member: Some(classify_address(m, a)), ..st }),
            ),
            _ => Err(ParseError::StateInvariant),
        }
    } else if name == "Party"@ && st.current == Element::Party {
        match (st.member, st.party) {
            (Some(m), Some(p)) => Ok(
                popped(
                    StateView {
                        member: Some((MemberView { parties: m.parties.push(p), ..m })),
                        ..st
                    },
                ),
            ),
            _ => Err(ParseError::StateInvariant),
        }
    } else if name == "Parties"@ && st.current == Element::PartiesList {
        match st.member {
            Some(m) => Ok(
                popped(
                    StateView {
                        member: Some((MemberView { parties: consolidate_spec(m.parties), ..m })),
                        ..st
                    },
                ),
            ),
            None => Err(ParseError::StateInvariant),
        }
    } else {
        Ok(popped(st))
    }
}

/// The transition for a text token: the text is committed to the field of
/// the scratch record that the current position designates; positions that
/// carry no text ignore it. Dates must parse; a malformed date fails the
/// whole parse.
pub open spec fn step_text(st: StateView, text: Seq<char>) -> Result<StateView, ParseError> {
    match st.current {
        Element::DisplayName => match st.member {
            Some(m) => Ok(StateView { member: Some((MemberView { name: text, ..m })), ..st }),
            None => Err(ParseError::StateInvariant),
        },
        Element::MemberParty => match st.member {
            Some(m) => Ok(StateView { member: Some((MemberView { party: text, ..m })), ..st }),
            None => Err(ParseError::StateInvariant),
        },
        Element::Constituency => match st.member {
            Some(m) => Ok(
                StateView { member: Some((MemberView { constituency: text, ..m })), ..st },
            ),
            None => Err(ParseError::StateInvariant),
        },
        Element::HouseField => match st.member {
            Some(m) => Ok(
                StateView { member: Some((MemberView { house: house_of_text(text), ..m })), ..st },
            ),
            None => Err(ParseError::StateInvariant),
        },
        Element::AddrType => match st.address {
            Some(a) => Ok(
                StateView { address: Some((AddressView { addr_type: text, ..a })), ..st },
            ),
            None => Err(ParseError::StateInvariant),
        },
        Element::AddrLine => match st.address {
            Some(a) => Ok(StateView { address: Some((AddressView { address: text, ..a })), ..st }),
            None => Err(ParseError::StateInvariant),
        },
        Element::PartyName => match st.party {
            Some(p) => Ok(StateView { party: Some((PartyView { name: text, ..p })), ..st }),
            None => Err(ParseError::StateInvariant),
        },
        Element::PartyStart => match st.party {
            Some(p) => match utc_timestamp_of(text) {
                Some(t) => Ok(
                    StateView { party: Some((PartyView { start_date: t, ..p })), ..st },
                ),
                None => Err(ParseError::InvalidDate),
            },
            None => Err(ParseError::StateInvariant),
        },
        Element::PartyEnd => match st.party {
            Some(p) => match utc_timestamp_of(text) {
                Some(t) => Ok(
                    StateView { party: Some((PartyView { end_date: Some(t), ..p })), ..st },
                ),
                None => Err(ParseError::InvalidDate),
            },
            None => Err(ParseError::StateInvariant),
        },
        _ => Ok(st),
    }
}

/// One step of the state machine.
pub open spec fn step_spec(st: StateView, t: Token) -> Result<StateView, ParseError> {
    match t {
        Token::Open { name, attrs } => step_open(st, name@, attrs@),
        Token::Close { name } => step_close(st, name@),
        Token::Text { content } => step_text(st, content@),
    }
}

/// Run the machine over the tokens from index `i` on.
pub open spec fn run_spec(st: StateView, tokens: Seq<Token>, i: int) -> Result<
    StateView,
    ParseError,
>
    decreases tokens.len() - i,
{
    if i < 0 || i >= tokens.len() {
        Ok(st)
    } else {
        match step_spec(st, tokens[i]) {
            Err(e) => Err(e),
            Ok(st2) => run_spec(st2, tokens, i + 1),
        }
    }
}

/// The machine's starting state: at the root, empty stack, nothing
/// allocated.
pub open spec fn init_state(default_start: i64) -> StateView {
    StateView {
        current: Element::Root,
        stack: Seq::<Element>::empty(),
        members: None,
        member: None,
        address: None,
        party: None,
        default_start,
    }
}

/// What parsing a whole token stream yields: the completed member records,
/// or the first failure; a stream in which no `<Members>` element was seen
/// yields `MissingRoot`.
pub open spec fn parse_tokens_spec(tokens: Seq<Token>, default_start: i64) -> Result<
    Seq<MemberView>,
    ParseError,
> {
    match run_spec(init_state(default_start), tokens, 0) {
        Err(e) => Err(e),
        Ok(st) => match st.members {
            Some(ms) => Ok(ms),
            None => Err(ParseError::MissingRoot),
        },
    }
}

/// Whether an executable parse result carries the value the specification
/// names.
pub open spec fn parse_result_matches(
    r: Result<Members, ParseError>,
    s: Result<Seq<MemberView>, ParseError>,
) -> bool {
    match (r, s) {
        (Ok(ms), Ok(vs)) => ms@ == vs,
        (Err(e1), Err(e2)) => e1 == e2,
        _ => false,
    }
}

/// An element-close token named `Member`: the commit point of one member
/// record.
pub open spec fn is_member_close(t: Token) -> bool {
    match t {
        Token::Close { name } => name@ == "Member"@,
        _ => false,
    }
}

/// An element-open token named `Members`.
pub open spec fn is_members_open(t: Token) -> bool {
    match t {
        Token::Open { name, .. } => name@ == "Members"@,
        _ => false,
    }
}

/// Whether the machine commits a member record on this token: a `Member`
/// element-close arriving while the parser stands at the member position —
/// the close of one `<Member>` open/close pair at the members-list depth.
pub open spec fn commits_member(st: StateView, t: Token) -> bool {
    is_member_close(t) && st.current == Element::Member
}

/// How many member records the machine commits over the run from index `i`
/// on: one per `Member` element-close at the member position.
pub open spec fn count_member_commits(st: StateView, tokens: Seq<Token>, i: int) -> int
    decreases tokens.len() - i,
{
    if i < 0 || i >= tokens.len() {
        0
    } else {
        match step_spec(st, tokens[i]) {
            Err(_) => 0,
            Ok(st2) => (if commits_member(st, tokens[i]) {
                1int
            } else {
                0int
            }) + count_member_commits(st2, tokens, i + 1),
        }
    }
}

/// How many `Members` element-open tokens stand at index `i` or later.
pub open spec fn count_members_opens(tokens: Seq<Token>, i: int) -> int
    decreases tokens.len() - i,
{
    if i < 0 || i >= tokens.len() {
        0
    } else {
        (if is_members_open(tokens[i]) {
            1int
        } else {
            0int
        }) + count_members_opens(tokens, i + 1)
    }
}

/// The number of completed member records held by a state.
pub open spec fn members_len(st: StateView) -> int {
    match st.members {
        Some(ms) => ms.len() as int,
        None => 0,
    }
}

proof fn lemma_opens_count_nonneg(tokens: Seq<Token>, i: int)
    ensures
        count_members_opens(tokens, i) >= 0,
    decreases tokens.len() - i,
{
    if 0 <= i < tokens.len() {
        lemma_opens_count_nonneg(tokens, i + 1);
    }
}

/// Along a successful run that opens no further `Members` element, the
/// output collection grows by exactly one record per member commit.
proof fn lemma_run_member_count(st: StateView, tokens: Seq<Token>, i: int)
    requires
        0 <= i <= tokens.len(),
        run_spec(st, tokens, i) is Ok,
        count_members_opens(tokens, i) == 0,
    ensures
        members_len(run_spec(st, tokens, i)->Ok_0) == members_len(st) + count_member_commits(
            st,
            tokens,
            i,
        ),
    decreases tokens.len() - i,
{
    if i < tokens.len() {
        lemma_opens_count_nonneg(tokens, i + 1);
        let st2 = step_spec(st, tokens[i])->Ok_0;
        lemma_run_member_count(st2, tokens, i + 1);
    }
}

/// A successful run that starts before any output collection exists and
/// sees at most one `Members` element-open completes exactly one member
/// record per member commit: a commit while no collection exists would
/// have failed the run instead.
proof fn lemma_run_member_count_uninit(st: StateView, tokens: Seq<Token>, i: int)
    requires
        0 <= i <= tokens.len(),
        run_spec(st, tokens, i) is Ok,
        st.members is None,
        count_members_opens(tokens, i) <= 1,
    ensures
        members_len(run_spec(st, tokens, i)->Ok_0) == count_member_commits(st, tokens, i),
    decreases tokens.len() - i,
{
    if i < tokens.len() {
        lemma_opens_count_nonneg(tokens, i + 1);
        let st2 = step_spec(st, tokens[i])->Ok_0;
        if is_members_open(tokens[i]) && st.current == Element::Root {
            lemma_run_member_count(st2, tokens, i + 1);
        } else {
            lemma_run_member_count_uninit(st2, tokens, i + 1);
        }
    }
}

/// For every token stream holding at most one `Members` element-open (a
/// well-formed document has exactly one), a successful parse yields exactly
/// one completed member record per `Member` element-close at the member
/// position — one per `<Member>` open/close pair at the members-list depth
/// — whatever other elements, known or unknown, the stream holds. A close
/// named `Member` at any other position is skipped and commits nothing.
pub proof fn lemma_member_count(tokens: Seq<Token>, default_start: i64)
    requires
        parse_tokens_spec(tokens, default_start) is Ok,
        count_members_opens(tokens, 0) <= 1,
    ensures
        parse_tokens_spec(tokens, default_start)->Ok_0.len() == count_member_commits(
            init_state(default_start),
            tokens,
            0,
        ),
{
    if tokens.len() == 0 {
    } else {
        lemma_run_member_count_uninit(init_state(default_start), tokens, 0);
    }
}

/// A successful run succeeds on every prefix, and the rest of the run
/// continues from the prefix's final state.
pub proof fn lemma_run_split(st: StateView, tokens: Seq<Token>, i: int, j: int)
    requires
        0 <= i <= j <= tokens.len(),
        run_spec(st, tokens, i) is Ok,
    ensures
        run_spec(st, tokens.take(j), i) is Ok,
        run_spec(st, tokens, i) == run_spec(run_spec(st, tokens.take(j), i)->Ok_0, tokens, j),
    decreases j - i,
{
    if i < j {
        assert(tokens.take(j)[i] == tokens[i]);
        let st2 = step_spec(st, tokens[i])->Ok_0;
        lemma_run_split(st2, tokens, i + 1, j);
    }
}

/// A malformed date is never silently skipped: wherever a successful parse
/// stands at a party start- or end-date position, the token it reads there
/// cannot be text that fails to parse as a date — a document carrying such
/// a date fails as a whole instead.
pub proof fn lemma_bad_date_fails(tokens: Seq<Token>, default_start: i64, j: int)
    requires
        0 <= j < tokens.len(),
        parse_tokens_spec(tokens, default_start) is Ok,
    ensures
        ({
            let mid = run_spec(init_state(default_start), tokens.take(j), 0)->Ok_0;
            (mid.current == Element::PartyStart || mid.current == Element::PartyEnd)
                ==> match tokens[j] {
                Token::Text { content } => mid.party is Some && utc_timestamp_of(content@)
                    is Some,
                _ => true,
            }
        }),
{
    let st = init_state(default_start);
    lemma_run_split(st, tokens, 0, j);
    let mid = run_spec(st, tokens.take(j), 0)->Ok_0;
    assert(run_spec(mid, tokens, j) is Ok);
    assert(step_spec(mid, tokens[j]) is Ok);
}

/// A member's contact handles change in exactly two ways: allocating a
/// fresh member record leaves both absent, and closing an `<Address>`
/// block at the address position classifies that block's scratch record.
/// No other step touches them — so a member whose block holds no
/// `<Addresses>` content carries `twitter == None` and `facebook == None`
/// through to its commit.
pub proof fn lemma_handles_only_from_address_commit(st: StateView, t: Token)
    requires
        step_spec(st, t) is Ok,
    ensures
        ({
            let st2 = step_spec(st, t)->Ok_0;
            match st2.member {
                Some(m2) => match st.member {
                    Some(m1) => (m2.twitter == m1.twitter && m2.facebook == m1.facebook) || (
                    m2.twitter is None && m2.facebook is None) || (match (t, st.address) {
                        (Token::Close { name }, Some(a)) => name@ == "Address"@ && st.current
                            == Element::Address && m2 == classify_address(m1, a),
                        _ => false,
                    }),
                    None => m2.twitter is None && m2.facebook is None,
                },
                None => true,
            }
        }),
{
}

/// Character-for-character string equality.
pub fn str_eq(a: &str, b: &str) -> (r: bool)
    ensures
        r == (a@ == b@),
{
    let n = a.unicode_len();
    if n != b.unicode_len() {
        return false;
    }
    let mut i: usize = 0;
    while i < n
        invariant
            0 <= i <= n,
            n == a@.len(),
            n == b@.len(),
            forall|j: int| 0 <= j < i ==> a@[j] == b@[j],
        decreases n - i,
    {
        if a.get_char(i) != b.get_char(i) {
            return false;
        }
        i += 1;
    }
    proof {
        assert(a@ =~= b@);
    }
    true
}

/// Find the member id among a `<Member>` tag's attributes, as
/// `scan_member_id` says: every `Member_Id` value must parse, the last one
/// wins.
fn scan_attrs(attrs: &Vec<Attr>) -> (r: Result<Option<u32>, ParseError>)
    ensures
        r == scan_member_id(attrs@),
{
    let mut id: Option<u32> = None;
    let mut k: usize = 0;
    while k < attrs.len()
        invariant
            0 <= k <= attrs@.len(),
            scan_member_id(attrs@.take(k as int)) == Ok::<Option<u32>, ParseError>(id),
        decreases attrs@.len() - k,
    {
        proof {
            assert(attrs@.take(k + 1).drop_last() =~= attrs@.take(k as int));
            assert(attrs@.take(k + 1).last() == attrs@[k as int]);
        }
        if str_eq(attrs[k].name.as_str(), "Member_Id") {
            match parse_u32(attrs[k].value.as_str()) {
                Some(v) => {
                    id = Some(v);
                },
                None => {
                    proof {
                        lemma_scan_err(attrs@, k as int);
                    }
                    return Err(ParseError::InvalidMemberId);
                },
            }
        }
        k += 1;
    }
    proof {
        assert(attrs@.take(attrs@.len() as int) =~= attrs@);
    }
    Ok(id)
}

/// One bad `Member_Id` value anywhere fails the whole attribute scan.
proof fn lemma_scan_err(attrs: Seq<Attr>, k: int)
    requires
        0 <= k < attrs.len(),
        attrs[k].name@ == "Member_Id"@,
        parse_u32_spec(attrs[k].value@) is None,
    ensures
        scan_member_id(attrs) == Err::<Option<u32>, ParseError>(ParseError::InvalidMemberId),
    decreases attrs.len(),
{
    lemma_scan_err_value(attrs);
    if k < attrs.len() - 1 {
        assert(attrs.drop_last()[k] == attrs[k]);
        lemma_scan_err(attrs.drop_last(), k);
    } else {
        lemma_scan_err_value(attrs.drop_last());
    }
}

/// The attribute scan fails only with `InvalidMemberId`.
proof fn lemma_scan_err_value(attrs: Seq<Attr>)
    ensures
        scan_member_id(attrs) is Err ==> scan_member_id(attrs) == Err::<Option<u32>, ParseError>(
            ParseError::InvalidMemberId,
        ),
    decreases attrs.len(),
{
    if attrs.len() > 0 {
        lemma_scan_err_value(attrs.drop_last());
    }
}

/// How a chamber name in the feed is read, as `house_of_text` says.
pub fn house_from_text(s: &str) -> (h: crate::domain::House)
    ensures
        h == house_of_text(s@),
{
    if str_eq(s, "Commons") {
        crate::domain::House::Commons
    } else if str_eq(s, "Lords") {
        crate::domain::House::Lords
    } else {
        crate::domain::House::Unknown
    }
}

/// The parser: the current position, the stack of enclosing positions, the
/// output collection, and the scratch records of the open member, address
/// and party blocks. `default_start` is the start date a party interval
/// carries until its `StartDate` element is seen.
pub struct ParseState {
    pub current: Element,
    pub stack: Vec<Element>,
    pub members: Option<Members>,
    pub member: Option<Member>,
    pub address: Option<Address>,
    pub party: Option<Party>,
    pub default_start: i64,
}

impl View for ParseState {
    type V = StateView;

    open spec fn view(&self) -> StateView {
        StateView {
            current: self.current,
            stack: self.stack@,
            members: match self.members {
                Some(ms) => Some(ms@),
                None => None,
            },
            member: match self.member {
                Some(m) => Some(m@),
                None => None,
            },
            address: match self.address {
                Some(a) => Some(a@),
                None => None,
            },
            party: match self.party {
                Some(p) => Some(p@),
                None => None,
            },
            default_start: self.default_start,
        }
    }
}

impl ParseState {
    /// The starting state.
    pub fn new(default_start: i64) -> (r: Self)
        ensures
            r@ == init_state(default_start),
    {
        let r = ParseState {
            current: Element::Root,
            stack: Vec::new(),
            members: None,
            member: None,
            address: None,
            party: None,
            default_start,
        };
        proof {
            assert(r.stack@ =~= Seq::<Element>::empty());
        }
        r
    }

    /// Enter a child position.
    fn enter(&mut self, next: Element)
        ensures
            final(self)@ == pushed(old(self)@, next),
    {
        let cur = self.current;
        self.stack.push(cur);
        self.current = next;
    }

    /// Restore the parent position from the stack.
    fn leave(&mut self)
        ensures
            final(self)@ == popped(old(self)@),
    {
        proof {
            if self.stack@.len() > 0 {
                assert(self.stack@.subrange(0, self.stack@.len() - 1) =~= self.stack@.drop_last());
            }
        }
        match self.stack.pop() {
            Some(e) => {
                self.current = e;
            },
            None => {
                self.current = Element::Root;
            },
        }
    }

    fn handle_open(&mut self, name: &str, attrs: &Vec<Attr>) -> (r: Result<(), ParseError>)
        ensures
            match r {
                Ok(()) => step_open(old(self)@, name@, attrs@) == Ok::<StateView, ParseError>(
                    final(self)@,
                ),
                Err(e) => step_open(old(self)@, name@, attrs@) == Err::<StateView, ParseError>(e),
            },
    {
        if self.current == Element::Root && str_eq(name, "Members") {
            self.members = Some(Members::new());
            self.enter(Element::MembersList);
            Ok(())
        } else if self.current == Element::MembersList && str_eq(name, "Member") {
            match scan_attrs(attrs) {
                Err(e) => Err(e),
                Ok(None) => Err(ParseError::MissingMemberId),
                Ok(Some(id)) => {
                    let mut m = Member::new();
                    m.id = id;
                    self.member = Some(m);
                    self.enter(Element::Member);
                    Ok(())
                },
            }
        } else if self.current == Element::Member && str_eq(name, "Addresses") {
            self.enter(Element::AddressesList);
            Ok(())
        } else if self.current == Element::Member && str_eq(name, "Parties") {
            self.enter(Element::PartiesList);
            Ok(())
        } else if self.current == Element::Member && str_eq(name, "DisplayAs") {
            self.enter(Element::DisplayName);
            Ok(())
        } else if self.current == Element::Member && str_eq(name, "Party") {
            self.enter(Element::MemberParty);
            Ok(())
        } else if self.current == Element::Member && str_eq(name, "House") {
            self.enter(Element::HouseField);
            Ok(())
        } else if self.current == Element::Member && str_eq(name, "MemberFrom") {
            self.enter(Element::Constituency);
            Ok(())
        } else if self.current == Element::AddressesList && str_eq(name, "Address") {
            self.address = Some(Address::new());
            self.enter(Element::Address);
            Ok(())
        } else if self.current == Element::Address && str_eq(name, "Type") {
            self.enter(Element::AddrType);
            Ok(())
        } else if self.current == Element::Address && str_eq(name, "Address1") {
            self.enter(Element::AddrLine);
            Ok(())
        } else if self.current == Element::PartiesList && str_eq(name, "Party") {
            let ds = self.default_start;
            self.party = Some(Party::new(ds));
            self.enter(Element::Party);
            Ok(())
        } else if self.current == Element::Party && str_eq(name, "Name") {
            self.enter(Element::PartyName);
            Ok(())
        } else if self.current == Element::Party && str_eq(name, "StartDate") {
            self.enter(Element::PartyStart);
            Ok(())
        } else if self.current == Element::Party && str_eq(name, "EndDate") {
            self.enter(Element::PartyEnd);
            Ok(())
        } else {
            self.enter(Element::Other);
            Ok(())
        }
    }

    fn handle_close(&mut self, name: &str) -> (r: Result<(), ParseError>)
        ensures
            match r {
                Ok(()) => step_close(old(self)@, name@) == Ok::<StateView, ParseError>(
                    final(self)@,
                ),
                Err(e) => step_close(old(self)@, name@) == Err::<StateView, ParseError>(e),
            },
    {
        if str_eq(name, "Member") && self.current == Element::Member {
            match self.members.take() {
                Some(mut ms) => match self.member.take() {
                    Some(m) => {
                        let ghost ms0 = ms@;
                        ms.members.push(m.clone());
                        proof {
                            assert(ms@ =~= ms0.push(m@));
                        }
                        self.members = Some(ms);
                        self.member = Some(m);
                        self.leave();
                        Ok(())
                    },
                    None => Err(ParseError::StateInvariant),
                },
                None => Err(ParseError::StateInvariant),
            }
        } else if str_eq(name, "Address") && self.current == Element::Address {
            match self.member.take() {
                Some(mut m) => match self.address.take() {
                    Some(a) => {
                        if str_eq(a.addr_type.as_str(), "Twitter") {
                            m.twitter = Some(a.address.clone());
                        } else if str_eq(a.addr_type.as_str(), "Facebook") {
                            m.facebook = Some(a.address.clone());
                        }
                        self.member = Some(m);
                        self.address = Some(a);
                        self.leave();
                        Ok(())
                    },
                    None => Err(ParseError::StateInvariant),
                },
                None => Err(ParseError::StateInvariant),
            }
        } else if str_eq(name, "Party") && self.current == Element::Party {
            match self.member.take() {
                Some(mut m) => match self.party.take() {
                    Some(p) => {
                        let ghost ps0 = party_views(m.parties@);
                        m.parties.push(p.clone());
                        proof {
                            assert(party_views(m.parties@) =~= ps0.push(p@));
                        }
                        self.member = Some(m);
                        self.party = Some(p);
                        self.leave();
                        Ok(())
                    },
                    None => Err(ParseError::StateInvariant),
                },
                None => Err(ParseError::StateInvariant),
            }
        } else if str_eq(name, "Parties") && self.current == Element::PartiesList {
            match self.member.take() {
                Some(mut m) => {
                    let consolidated = consolidate_parties(&m.parties);
                    m.parties = consolidated;
                    self.member = Some(m);
                    self.leave();
                    Ok(())
                },
                None => Err(ParseError::StateInvariant),
            }
        } else {
            self.leave();
            Ok(())
        }
    }

    fn handle_text(&mut self, content: &String) -> (r: Result<(), ParseError>)
        ensures
            match r {
                Ok(()) => step_text(old(self)@, content@) == Ok::<StateView, ParseError>(
                    final(self)@,
                ),
                Err(e) => step_text(old(self)@, content@) == Err::<StateView, ParseError>(e),
            },
    {
        match self.current {
            Element::DisplayName => match self.member.take() {
                Some(mut m) => {
                    m.name = content.clone();
                    self.member = Some(m);
                    Ok(())
                },
                None => Err(ParseError::StateInvariant),
            },
            Element::MemberParty => match self.member.take() {
                Some(mut m) => {
                    m.party = content.clone();
                    self.member = Some(m);
                    Ok(())
                },
                None => Err(ParseError::StateInvariant),
            },
            Element::Constituency => match self.member.take() {
                Some(mut m) => {
                    m.constituency = content.clone();
                    self.member = Some(m);
                    Ok(())
                },
                None => Err(ParseError::StateInvariant),
            },
            Element::HouseField => match self.member.take() {
                Some(mut m) => {
                    m.house = house_from_text(content.as_str());
                    self.member = Some(m);
                    Ok(())
                },
                None => Err(ParseError::StateInvariant),
            },
            Element::AddrType => match self.address.take() {
                Some(mut a) => {
                    a.addr_type = content.clone();
                    self.address = Some(a);
                    Ok(())
                },
                None => Err(ParseError::StateInvariant),
            },
            Element::AddrLine => match self.address.take() {
                Some(mut a) => {
                    a.address = content.clone();
                    self.address = Some(a);
                    Ok(())
                },
                None => Err(ParseError::StateInvariant),
            },
            Element::PartyName => match self.party.take() {
                Some(mut p) => {
                    p.name = content.clone();
                    self.party = Some(p);
                    Ok(())
                },
                None => Err(ParseError::StateInvariant),
            },
            Element::PartyStart => match self.party.take() {
                Some(mut p) => match parse_utc_timestamp(content.as_str()) {
                    Some(t) => {
                        p.start_date = t;
                        self.party = Some(p);
                        Ok(())
                    },
                    None => Err(ParseError::InvalidDate),
                },
                None => Err(ParseError::StateInvariant),
            },
            Element::PartyEnd => match self.party.take() {
                Some(mut p) => match parse_utc_timestamp(content.as_str()) {
                    Some(t) => {
                        p.end_date = Some(t);
                        self.party = Some(p);
                        Ok(())
                    },
                    None => Err(ParseError::InvalidDate),
                },
                None => Err(ParseError::StateInvariant),
            },
            _ => Ok(()),
        }
    }

    /// One step of the machine, as `step_spec` says.
    fn step(&mut self, t: &Token) -> (r: Result<(), ParseError>)
        ensures
            match r {
                Ok(()) => step_spec(old(self)@, *t) == Ok::<StateView, ParseError>(final(self)@),
                Err(e) => step_spec(old(self)@, *t) == Err::<StateView, ParseError>(e),
            },
    {
        match t {
            Token::Open { name, attrs } => self.handle_open(name.as_str(), attrs),
            Token::Close { name } => self.handle_close(name.as_str()),
            Token::Text { content } => self.handle_text(content),
        }
    }
}

/// Run the state machine over a whole token stream, as `parse_tokens_spec`
/// says: the completed member records in document order, or the first
/// failure, with no partial output.
pub fn parse_tokens(tokens: &Vec<Token>, default_start: i64) -> (r: Result<Members, ParseError>)
    ensures
        parse_result_matches(r, parse_tokens_spec(tokens@, default_start)),
{
    let mut st = ParseState::new(default_start);
    let mut i: usize = 0;
    while i < tokens.len()
        invariant
            0 <= i <= tokens@.len(),
            run_spec(init_state(default_start), tokens@, 0) == run_spec(st@, tokens@, i as int),
        decreases tokens@.len() - i,
    {
        let ghost pre = st@;
        match st.step(&tokens[i]) {
            Ok(()) => {
                proof {
                    assert(run_spec(pre, tokens@, i as int) == run_spec(st@, tokens@, i + 1));
                }
                i += 1;
            },
            Err(e) => {
                proof {
                    assert(run_spec(pre, tokens@, i as int) == Err::<StateView, ParseError>(e));
                }
                return Err(e);
            },
        }
    }
    match st.members {
        Some(ms) => Ok(ms),
        None => Err(ParseError::MissingRoot),
    }
}

/// What parsing a whole document promises: a document the tokenizer refuses
/// fails with `Syntax`; otherwise the result is what `parse_tokens_spec`
/// names for the document's tokens and some clock value (the default start
/// date of party intervals is taken from the clock).
pub open spec fn parse_document_post(r: Result<Members, ParseError>, text: Seq<char>) -> bool {
    match xml_tokens_of(text) {
        None => parse_result_matches(r, Err(ParseError::Syntax)),
        Some(ts) => exists|d: i64| parse_result_matches(r, #[trigger] parse_tokens_spec(ts, d)),
    }
}

/// Parse one whole document: tokenize it, then run the state machine with
/// the current time as the default start date of party intervals.
pub fn parse_addresses_xml(data: &str) -> (r: Result<Members, ParseError>)
    ensures
        parse_document_post(r, data@),
{
    match tokenize_xml(data) {
        None => {
            let r = Err(ParseError::Syntax);
            proof {
                assert(parse_result_matches(r, Err(ParseError::Syntax)));
            }
            r
        },
        Some(tokens) => {
            let now = now_timestamp();
            let r = parse_tokens(&tokens, now);
            proof {
                assert(xml_tokens_of(data@) == Some(tokens@));
                assert(exists|d: i64|
                    parse_result_matches(r, #[trigger] parse_tokens_spec(tokens@, d))) by {
                    assert(parse_result_matches(r, parse_tokens_spec(tokens@, now)));
                }
            }
            r
        },
    }
}

} // verus!
