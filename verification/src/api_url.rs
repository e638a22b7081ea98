//! The query URL for the members data platform: it encodes the house
//! filter, an eligibility filter, and the pipe-delimited list of requested
//! supplemental sections.

use vstd::prelude::*;

use crate::domain::House;
use vstd::string::StringExecFns;

verus! {

/// A supplemental section of the feed that can be requested.
#[derive(Clone, Copy, Debug, PartialEq, Eq, Structural)]
pub enum AdditionalData {
    Addresses,
    Parties,
}

/// The house filter value written into the query.
pub open spec fn house_query_str(h: House) -> Seq<char> {
    match h {
        House::Commons => "Commons"@,
        House::Lords => "Lords"@,
        House::Unknown => Seq::<char>::empty(),
    }
}

impl House {
    /// The house filter value. An unknown house has none, so it is left
    /// out by precondition.
    pub fn as_str(&self) -> (r: &'static str)
        requires
            *self != House::Unknown,
        ensures
            r@ == house_query_str(*self),
    {
        match self {
            House::Commons => "Commons",
            House::Lords => "Lords",
            House::Unknown => {
                proof {
                    assert(false);
                }
                ""
            },
        }
    }
}

/// The section name written into the query.
pub open spec fn data_query_str(d: AdditionalData) -> Seq<char> {
    match d {
        AdditionalData::Addresses => "Addresses"@,
        AdditionalData::Parties => "Parties"@,
    }
}

impl AdditionalData {
    /// The section name written into the query.
    pub fn as_str(&self) -> (r: &'static str)
        ensures
            r@ == data_query_str(*self),
    {
        match self {
            AdditionalData::Addresses => "Addresses",
            AdditionalData::Parties => "Parties",
        }
    }
}

/// The requested sections, pipe-delimited.
pub open spec fn joined_sections(ds: Seq<AdditionalData>) -> Seq<char>
    decreases ds.len(),
{
    if ds.len() == 0 {
        Seq::<char>::empty()
    } else if ds.len() == 1 {
        data_query_str(ds[0])
    } else {
        joined_sections(ds.drop_last()) + "|"@ + data_query_str(ds.last())
    }
}

/// The whole query URL: the service base, the house and eligibility
/// filters, then the requested sections.
pub open spec fn api_url_spec(house: House, ds: Seq<AdditionalData>) -> Seq<char> {
    "https://data.parliament.uk/membersdataplatform/services/mnisv1.0/Members/Query/"@ + "house="@
        + house_query_str(house) + "|isEligible=true/"@ + joined_sections(ds) + "/"@
}

/// Build the query URL for one house and a list of requested sections.
pub fn get_api_url(house: House, additional_data: Vec<AdditionalData>) -> (r: String)
    requires
        house != House::Unknown,
    ensures
        r@ == api_url_spec(house, additional_data@),
{
    let ghost ds = additional_data@;
    let mut url = String::new();
    url.append("https://data.parliament.uk/membersdataplatform/services/mnisv1.0/Members/Query/");
    url.append("house=");
    url.append(house.as_str());
    url.append("|isEligible=true/");
    let ghost prefix = url@;
    let mut i: usize = 0;
    while i < additional_data.len()
        invariant
            0 <= i <= ds.len(),
            ds == additional_data@,
            url@ == prefix + joined_sections(ds.take(i as int)),
        decreases ds.len() - i,
    {
        proof {
            assert(ds.take(i + 1).drop_last() =~= ds.take(i as int));
            assert(ds.take(i + 1).last() == ds[i as int]);
        }
        if i > 0 {
            url.append("|");
        } else {
            proof {
                assert(prefix + joined_sections(ds.take(0)) =~= prefix);
            }
        }
        let d = additional_data[i];
        url.append(d.as_str());
        proof {
            if i == 0 {
                assert(prefix + Seq::<char>::empty() + data_query_str(ds[0]) =~= prefix
                    + joined_sections(ds.take(1)));
            }
        }
        i += 1;
    }
    url.append("/");
    proof {
        assert(ds.take(ds.len() as int) =~= ds);
    }
    url
}

} // verus!
