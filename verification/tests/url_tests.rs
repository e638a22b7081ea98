use member_loader::api_url::{get_api_url, AdditionalData};
use member_loader::domain::House;

#[test]
fn commons_url_with_both_sections() {
    let url = get_api_url(
        House::Commons,
        vec![AdditionalData::Addresses, AdditionalData::Parties],
    );
    assert_eq!(
        url,
        "https://data.parliament.uk/membersdataplatform/services/mnisv1.0/Members/Query/house=Commons|isEligible=true/Addresses|Parties/"
    );
}

#[test]
fn lords_url_with_no_sections() {
    let url = get_api_url(House::Lords, vec![]);
    assert_eq!(
        url,
        "https://data.parliament.uk/membersdataplatform/services/mnisv1.0/Members/Query/house=Lords|isEligible=true//"
    );
}

#[test]
fn single_section_has_no_delimiter() {
    let url = get_api_url(House::Commons, vec![AdditionalData::Parties]);
    assert!(url.ends_with("|isEligible=true/Parties/"));
}
