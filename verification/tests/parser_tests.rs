use member_loader::domain::House;
use member_loader::parser::{parse_addresses_xml, ParseError};

// Seconds since the epoch for midnight UTC of the named days.
const TS_2001_01_01: i64 = 978307200;
const TS_2005_01_01: i64 = 1104537600;
const TS_2010_01_01: i64 = 1262304000;

#[test]
fn parses_member_identity_fields() {
    let doc = "<Members>\
        <Member Member_Id=\"172\">\
        <DisplayAs>Ms Diane Abbott</DisplayAs>\
        <Party>Labour</Party>\
        <House>Commons</House>\
        <MemberFrom>Hackney North and Stoke Newington</MemberFrom>\
        </Member>\
        </Members>";
    let members = parse_addresses_xml(doc).unwrap();
    assert_eq!(members.members.len(), 1);
    let m = &members.members[0];
    assert_eq!(m.id, 172);
    assert_eq!(m.name, "Ms Diane Abbott");
    assert_eq!(m.party, "Labour");
    assert_eq!(m.house, House::Commons);
    assert_eq!(m.constituency, "Hackney North and Stoke Newington");
    assert!(m.twitter.is_none());
    assert!(m.facebook.is_none());
    assert!(m.parties.is_empty());
}

#[test]
fn house_mapping_is_exact() {
    let doc = "<Members>\
        <Member Member_Id=\"1\"><House>Lords</House></Member>\
        <Member Member_Id=\"2\"><House>commons</House></Member>\
        </Members>";
    let members = parse_addresses_xml(doc).unwrap();
    assert_eq!(members.members[0].house, House::Lords);
    assert_eq!(members.members[1].house, House::Unknown);
}

#[test]
fn twitter_address_is_classified() {
    let doc = "<Members>\
        <Member Member_Id=\"172\">\
        <Addresses>\
        <Address><Type>Twitter</Type><Address1>@HackneyAbbott</Address1></Address>\
        <Address><Type>Facebook</Type><Address1>fb.example/abbott</Address1></Address>\
        <Address><Type>Constituency office</Type><Address1>123 Some Road</Address1></Address>\
        </Addresses>\
        </Member>\
        </Members>";
    let members = parse_addresses_xml(doc).unwrap();
    let m = &members.members[0];
    assert_eq!(m.twitter.as_deref(), Some("@HackneyAbbott"));
    assert_eq!(m.facebook.as_deref(), Some("fb.example/abbott"));
}

#[test]
fn address_classification_is_case_sensitive() {
    // A lowercase "twitter" type must not populate the twitter handle.
    let doc = "<Members>\
        <Member Member_Id=\"9\">\
        <Addresses>\
        <Address><Type>twitter</Type><Address1>@nobody</Address1></Address>\
        </Addresses>\
        </Member>\
        </Members>";
    let members = parse_addresses_xml(doc).unwrap();
    let m = &members.members[0];
    assert!(m.twitter.is_none());
    assert!(m.facebook.is_none());
}

#[test]
fn member_without_addresses_has_no_handles() {
    let doc = "<Members>\
        <Member Member_Id=\"5\"><DisplayAs>Someone</DisplayAs></Member>\
        </Members>";
    let members = parse_addresses_xml(doc).unwrap();
    let m = &members.members[0];
    assert!(m.twitter.is_none());
    assert!(m.facebook.is_none());
}

#[test]
fn party_dates_are_parsed_as_utc_seconds() {
    let doc = "<Members>\
        <Member Member_Id=\"7\">\
        <Parties>\
        <Party><Name>Labour</Name>\
        <StartDate>2001-01-01T00:00:00</StartDate>\
        <EndDate>2005-01-01T00:00:00</EndDate></Party>\
        </Parties>\
        </Member>\
        </Members>";
    let members = parse_addresses_xml(doc).unwrap();
    let m = &members.members[0];
    assert_eq!(m.parties.len(), 1);
    assert_eq!(m.parties[0].name, "Labour");
    assert_eq!(m.parties[0].start_date, TS_2001_01_01);
    assert_eq!(m.parties[0].end_date, Some(TS_2005_01_01));
}

#[test]
fn same_name_intervals_merge_on_parties_close() {
    // Two Labour intervals, latest delivered first: after the Parties block
    // closes they are sorted and merged into one interval with the earlier
    // start and the later (absent) end.
    let doc = "<Members>\
        <Member Member_Id=\"7\">\
        <Parties>\
        <Party><Name>Labour</Name>\
        <StartDate>2010-01-01T00:00:00</StartDate></Party>\
        <Party><Name>Labour</Name>\
        <StartDate>2001-01-01T00:00:00</StartDate>\
        <EndDate>2005-01-01T00:00:00</EndDate></Party>\
        </Parties>\
        </Member>\
        </Members>";
    let members = parse_addresses_xml(doc).unwrap();
    let m = &members.members[0];
    assert_eq!(m.parties.len(), 1);
    assert_eq!(m.parties[0].name, "Labour");
    assert_eq!(m.parties[0].start_date, TS_2001_01_01);
    assert_eq!(m.parties[0].end_date, None);
}

#[test]
fn nil_end_date_without_text_stays_absent() {
    // The nil marker is noted and ignored; the empty element carries no
    // text, so the end date simply stays absent.
    let doc = "<Members>\
        <Member Member_Id=\"7\">\
        <Parties>\
        <Party><Name>Labour</Name>\
        <StartDate>2001-01-01T00:00:00</StartDate>\
        <EndDate nil=\"true\"/></Party>\
        </Parties>\
        </Member>\
        </Members>";
    let members = parse_addresses_xml(doc).unwrap();
    let m = &members.members[0];
    assert_eq!(m.parties.len(), 1);
    assert_eq!(m.parties[0].end_date, None);
}

#[test]
fn unparsable_start_date_fails_the_whole_parse() {
    let doc = "<Members>\
        <Member Member_Id=\"7\">\
        <Parties>\
        <Party><Name>Labour</Name><StartDate>banana</StartDate></Party>\
        </Parties>\
        </Member>\
        </Members>";
    assert!(matches!(parse_addresses_xml(doc), Err(ParseError::InvalidDate)));
}

#[test]
fn unparsable_end_date_fails_the_whole_parse() {
    let doc = "<Members>\
        <Member Member_Id=\"7\">\
        <Parties>\
        <Party><Name>Labour</Name>\
        <StartDate>2010-01-01T00:00:00</StartDate>\
        <EndDate>later</EndDate></Party>\
        </Parties>\
        </Member>\
        </Members>";
    assert!(matches!(parse_addresses_xml(doc), Err(ParseError::InvalidDate)));
}

#[test]
fn missing_member_id_fails_the_whole_parse() {
    let doc = "<Members><Member><DisplayAs>Nameless</DisplayAs></Member></Members>";
    assert!(matches!(parse_addresses_xml(doc), Err(ParseError::MissingMemberId)));
}

#[test]
fn non_numeric_member_id_fails_the_whole_parse() {
    let doc = "<Members><Member Member_Id=\"abc\"></Member></Members>";
    assert!(matches!(parse_addresses_xml(doc), Err(ParseError::InvalidMemberId)));
}

#[test]
fn malformed_document_fails_with_syntax() {
    let doc = "<Members><Member Member_Id=\"1\"></Members>";
    assert!(matches!(parse_addresses_xml(doc), Err(ParseError::Syntax)));
}

#[test]
fn document_without_members_root_is_refused() {
    let doc = "<Feed><Item>nothing here</Item></Feed>";
    assert!(matches!(parse_addresses_xml(doc), Err(ParseError::MissingRoot)));
}

#[test]
fn member_element_outside_members_list_is_skipped() {
    // A Member element outside any Members list is unrecognized at its
    // position: it is skipped, commits nothing, and the document still has
    // no Members root.
    let doc = "<Feed><Member Member_Id=\"1\"/></Feed>";
    assert!(matches!(parse_addresses_xml(doc), Err(ParseError::MissingRoot)));
}

#[test]
fn nested_unknown_member_element_commits_nothing() {
    // An unknown nested element that happens to be named Member must not
    // commit a record: one direct Member child means one record.
    let doc = "<Members>\
        <Member Member_Id=\"1\">\
        <Addresses><Member></Member></Addresses>\
        </Member>\
        </Members>";
    let members = parse_addresses_xml(doc).unwrap();
    assert_eq!(members.members.len(), 1);
    assert_eq!(members.members[0].id, 1);
}

#[test]
fn nested_unknown_member_inside_parties_keeps_consolidation() {
    // An unknown nested element named Member inside a Parties block must
    // not commit the member early: the record is committed once, after the
    // Parties block closed and its intervals were consolidated.
    let doc = "<Members>\
        <Member Member_Id=\"4\">\
        <Parties>\
        <Party><Name>Labour</Name>\
        <StartDate>2010-01-01T00:00:00</StartDate></Party>\
        <Member></Member>\
        <Party><Name>Labour</Name>\
        <StartDate>2001-01-01T00:00:00</StartDate>\
        <EndDate>2005-01-01T00:00:00</EndDate></Party>\
        </Parties>\
        </Member>\
        </Members>";
    let members = parse_addresses_xml(doc).unwrap();
    assert_eq!(members.members.len(), 1);
    let m = &members.members[0];
    assert_eq!(m.parties.len(), 1);
    assert_eq!(m.parties[0].start_date, TS_2001_01_01);
    assert_eq!(m.parties[0].end_date, None);
}

#[test]
fn stray_address_close_inside_unknown_element_commits_nothing() {
    // An unknown nested element named Address inside a real Address block
    // must not commit the partial scratch: only the block's final state
    // counts, and its Type ends up neither Twitter nor Facebook.
    let doc = "<Members>\
        <Member Member_Id=\"6\">\
        <Addresses>\
        <Address><Type>Twitter</Type><Address1>@stray</Address1>\
        <Junk><Address></Address></Junk>\
        <Type>Constituency office</Type>\
        </Address>\
        </Addresses>\
        </Member>\
        </Members>";
    let members = parse_addresses_xml(doc).unwrap();
    let m = &members.members[0];
    assert!(m.twitter.is_none());
    assert!(m.facebook.is_none());
}

#[test]
fn unknown_nested_elements_are_skipped() {
    // One completed record per member block, whatever unknown elements the
    // document nests.
    let doc = "<Members>\
        <Member Member_Id=\"1\">\
        <Unknown><Deeply><Nested>noise</Nested></Deeply></Unknown>\
        <DisplayAs>First</DisplayAs>\
        </Member>\
        <Member Member_Id=\"2\"><DisplayAs>Second</DisplayAs></Member>\
        </Members>";
    let members = parse_addresses_xml(doc).unwrap();
    assert_eq!(members.members.len(), 2);
    assert_eq!(members.members[0].id, 1);
    assert_eq!(members.members[0].name, "First");
    assert_eq!(members.members[1].id, 2);
    assert_eq!(members.members[1].name, "Second");
}

#[test]
fn display_party_is_distinct_from_history_entries() {
    let doc = "<Members>\
        <Member Member_Id=\"3\">\
        <Party>Conservative</Party>\
        <Parties>\
        <Party><Name>Conservative</Name>\
        <StartDate>2010-01-01T00:00:00</StartDate></Party>\
        </Parties>\
        </Member>\
        </Members>";
    let members = parse_addresses_xml(doc).unwrap();
    let m = &members.members[0];
    assert_eq!(m.party, "Conservative");
    assert_eq!(m.parties.len(), 1);
    assert_eq!(m.parties[0].start_date, TS_2010_01_01);
}
