//! The regions of addresses.

use vstd::prelude::*;

use super::domain::text_views;
use crate::address::IpAddress;

verus! {

/// A MaxMind database that holds a `maxminddb::Reader`.
#[verifier::external_body]
pub struct RegionDatabase {
    reader: maxminddb::Reader<Vec<u8>>,
}

/// What a country database says of an address.
#[derive(Debug, PartialEq, Eq)]
pub struct CountryRecord {
    /// The country that the address is in.
    pub country: Option<String>,
    /// The country that the network is registered in.
    pub registered_country: Option<String>,
    pub continent: Option<String>,
}

/// The codes of country, registered country and continent.
pub type CountryCodes = (Option<Seq<char>>, Option<Seq<char>>, Option<Seq<char>>);

/// The characters of a text that may be missing.
pub open spec fn optional_text(text: Option<String>) -> Option<Seq<char>> {
    match text {
        Some(text) => Some(text@),
        None => None,
    }
}

impl View for CountryRecord {
    type V = CountryCodes;

    open spec fn view(&self) -> CountryCodes {
        (
            optional_text(self.country),
            optional_text(self.registered_country),
            optional_text(self.continent),
        )
    }
}

/// Whether `maxminddb::Reader::from_source` opens a database.
pub uninterp spec fn database_opens(bytes: Seq<u8>) -> bool;

/// The bytes of an open database.
pub uninterp spec fn database_bytes(database: RegionDatabase) -> Seq<u8>;

/// What a database says of the address with these octets (`maxminddb::Reader::lookup`): the codes
/// of country, registered country and continent.
pub uninterp spec fn country_record(bytes: Seq<u8>, octets: Seq<u8>) -> Option<
    (Option<Seq<char>>, Option<Seq<char>>, Option<Seq<char>>),
>;

/// The view of a record that may be missing.
pub open spec fn optional_record(record: Option<CountryRecord>) -> Option<CountryCodes> {
    match record {
        Some(record) => Some(record@),
        None => None,
    }
}

/// `maxminddb::Reader::from_source`: an open database keeps its bytes. Which bytes are a database
/// is not stated.
#[verifier::external_body]
fn open_database(bytes: Vec<u8>) -> (database: Option<RegionDatabase>)
    ensures
        database is Some <==> database_opens(bytes@),
        database matches Some(database) ==> database_bytes(database) == bytes@,
{
    let reader = maxminddb::Reader::from_source(bytes).ok()?;
    Some(RegionDatabase { reader })
}

/// `maxminddb::Reader::lookup` with the record decoded as `maxminddb::geoip2::Country`: three of
/// its codes, or `None` where there is no record or it cannot be decoded. The result depends on
/// the bytes of the database and the address alone; what it is, is not stated.
#[verifier::external_body]
fn lookup_country(database: &RegionDatabase, ip: IpAddress) -> (record: Option<CountryRecord>)
    ensures
        optional_record(record) == country_record(database_bytes(*database), ip@),
{
    let found = match ip {
        IpAddress::V4(octets) => database.reader.lookup(octets.into()),
        IpAddress::V6(octets) => database.reader.lookup(octets.into()),
    };
    let record = found.ok()?.decode::<maxminddb::geoip2::Country>().ok()??;
    Some(CountryRecord {
        country: record.country.iso_code.map(str::to_owned),
        registered_country: record.registered_country.iso_code.map(str::to_owned),
        continent: record.continent.code.map(str::to_owned),
    })
}

/// The codes by which rules know the region of an address: its country, or else the country that
/// the network is registered in, then its continent.
pub open spec fn codes_of(record: CountryCodes) -> Option<Seq<Seq<char>>> {
    let country = match (record.0, record.1) {
        (Some(code), _) => seq![code],
        (None, Some(code)) => seq![code],
        (None, None) => Seq::empty(),
    };
    let codes = match record.2 {
        Some(code) => country.push(code),
        None => country,
    };
    if codes.len() == 0 {
        None
    } else {
        Some(codes)
    }
}

/// The views of texts that may be missing.
pub open spec fn optional_texts(texts: Option<Vec<String>>) -> Option<Seq<Seq<char>>> {
    match texts {
        Some(texts) => Some(text_views(texts@)),
        None => None,
    }
}

/// The codes by which rules know the region of an address.
pub fn region_codes(record: &CountryRecord) -> (codes: Option<Vec<String>>)
    ensures
        optional_texts(codes) == codes_of(record@),
{
    let mut codes: Vec<String> = Vec::new();
    assert(text_views(codes@) =~= Seq::empty());
    match (&record.country, &record.registered_country) {
        (Some(code), _) => {
            codes.push(code.clone());
            assert(text_views(codes@) =~= seq![code@]);
        },
        (None, Some(code)) => {
            codes.push(code.clone());
            assert(text_views(codes@) =~= seq![code@]);
        },
        (None, None) => {},
    }
    let ghost country = text_views(codes@);
    match &record.continent {
        Some(code) => {
            codes.push(code.clone());
            assert(text_views(codes@) =~= country.push(code@));
        },
        None => {},
    }
    if codes.len() == 0 {
        assert(text_views(codes@).len() == 0);
        None
    } else {
        assert(text_views(codes@).len() > 0);
        Some(codes)
    }
}

/// Downloaded bytes are not a database.
#[derive(Clone, Copy, Debug, PartialEq, Eq, Structural)]
pub struct InvalidDatabase;

/// The regions of addresses, where a database is there.
pub struct GeoLite2 {
    database: Option<RegionDatabase>,
}

impl View for GeoLite2 {
    type V = Option<Seq<u8>>;

    closed spec fn view(&self) -> Option<Seq<u8>> {
        match self.database {
            Some(database) => Some(database_bytes(database)),
            None => None,
        }
    }
}

/// The codes of the region of an address, where a database says something of it.
pub open spec fn codes_at(database: Option<Seq<u8>>, octets: Seq<u8>) -> Option<Seq<Seq<char>>> {
    match database {
        Some(bytes) => match country_record(bytes, octets) {
            Some(record) => codes_of(record),
            None => None,
        },
        None => None,
    }
}

impl GeoLite2 {
    /// The database that a node starts with. Bytes that are none count as missing.
    pub fn new(bytes: Option<Vec<u8>>) -> (geolite2: Self)
        ensures
            geolite2@ == match bytes {
                Some(bytes) => if database_opens(bytes@) {
                    Some(bytes@)
                } else {
                    None
                },
                None => None,
            },
    {
        let database = match bytes {
            Some(bytes) => open_database(bytes),
            None => None,
        };
        GeoLite2 { database }
    }

    /// Whether a database is there.
    pub fn is_ready(&self) -> (result: bool)
        ensures
            result == (self@ is Some),
    {
        self.database.is_some()
    }

    /// Replaces the database by downloaded bytes. Where they are none, the old one stays.
    pub fn install(&mut self, bytes: Vec<u8>) -> (result: Result<(), InvalidDatabase>)
        ensures
            result is Ok <==> database_opens(bytes@),
            final(self)@ == if database_opens(bytes@) {
                Some(bytes@)
            } else {
                old(self)@
            },
    {
        match open_database(bytes) {
            Some(database) => {
                self.database = Some(database);
                Ok(())
            },
            None => Err(InvalidDatabase),
        }
    }

    /// The codes of the region of an address.
    pub fn lookup(&self, ip: IpAddress) -> (codes: Option<Vec<String>>)
        ensures
            optional_texts(codes) == codes_at(self@, ip@),
    {
        match &self.database {
            Some(database) => match lookup_country(database, ip) {
                Some(record) => region_codes(&record),
                None => None,
            },
            None => None,
        }
    }
}

/// The codes of an address are that of its country, or where it has none that of the country that
/// it is registered in, and then that of its continent; without any code the region is unknown.
pub proof fn law_codes_name_country_and_continent(record: CountryCodes)
    ensures
        codes_of(record) is None <==> record.0 is None && record.1 is None && record.2 is None,
        record.0 matches Some(country) ==> codes_of(record)->Some_0[0] == country,
        record.0 is None && record.1 is Some ==> codes_of(record)->Some_0[0] == record.1->Some_0,
        record.2 matches Some(continent) ==> codes_of(record)->Some_0.last() == continent,
        codes_of(record) matches Some(codes) ==> codes.len() == (if record.0 is Some || record.1
            is Some {
            1int
        } else {
            0int
        }) + (if record.2 is Some {
            1int
        } else {
            0int
        }),
{
}

/// A database that cannot be opened leaves the one before it in place; without one no region is
/// known.
pub proof fn law_broken_databases_change_nothing(
    regions: &mut GeoLite2,
    bytes: Vec<u8>,
    result: Result<(), InvalidDatabase>,
    ip: IpAddress,
    empty: GeoLite2,
    codes: Option<Vec<String>>,
)
    requires
        call_ensures(GeoLite2::install, (regions, bytes), result),
        call_ensures(GeoLite2::new, (None,), empty),
        call_ensures(GeoLite2::lookup, (&empty, ip), codes),
    ensures
        result is Err ==> final(regions)@ == old(regions)@,
        result is Ok ==> final(regions)@ == Some(bytes@),
        codes is None,
{
}

/// Regions are ready once a database that opens is there.
pub proof fn law_regions_are_ready_with_a_database(
    bytes: Option<Vec<u8>>,
    geolite2: GeoLite2,
    ready: bool,
)
    requires
        call_ensures(GeoLite2::new, (bytes,), geolite2),
        call_ensures(GeoLite2::is_ready, (&geolite2,), ready),
    ensures
        ready <==> bytes is Some && database_opens(bytes->Some_0@),
        ready ==> geolite2@ == Some(bytes->Some_0@),
{
}

} // verus!
