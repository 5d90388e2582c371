//! The dynamic-DNS updater's decision logic.
//!
//! On each cycle the updater learns the current public IP address and
//! compares the DNS record it wants with the record the zone currently
//! holds: a missing record is created, a differing one is updated, and
//! a matching one is left alone. The network calls around this
//! decision live outside the library.

use vstd::prelude::*;

verus! {

/// A DNS record as the updater writes it.
pub struct DnsRecordRequest {
    pub name: String,
    pub content: String,
    pub record_type: String,
    pub ttl: u32,
    pub proxied: bool,
}

impl View for DnsRecordRequest {
    type V = (Seq<char>, Seq<char>, Seq<char>, u32, bool);

    open spec fn view(&self) -> (Seq<char>, Seq<char>, Seq<char>, u32, bool) {
        (self.name@, self.content@, self.record_type@, self.ttl, self.proxied)
    }
}

/// A DNS record as the zone currently holds it.
pub struct DnsRecordResponse {
    pub name: String,
    pub content: String,
    pub record_type: String,
    pub id: String,
    pub ttl: u32,
    pub proxied: bool,
}

impl View for DnsRecordResponse {
    type V = (Seq<char>, Seq<char>, Seq<char>, Seq<char>, u32, bool);

    open spec fn view(&self) -> (Seq<char>, Seq<char>, Seq<char>, Seq<char>, u32, bool) {
        (self.name@, self.content@, self.record_type@, self.id@, self.ttl, self.proxied)
    }
}

/// What one update cycle decides to do.
pub enum UpdateAction {
    /// No record exists: create the desired one.
    Create,
    /// The record with this identifier differs in content, time to
    /// live, proxying or type: rewrite it.
    Update { id: String },
    /// The record already matches: leave it alone.
    Keep,
}

/// Whether the held record already matches the desired one in the
/// fields the updater cares about: content, time to live, proxying and
/// record type.
pub open spec fn spec_record_matches(
    current: (Seq<char>, Seq<char>, Seq<char>, Seq<char>, u32, bool),
    desired: (Seq<char>, Seq<char>, Seq<char>, u32, bool),
) -> bool {
    current.1 == desired.1 && current.4 == desired.3 && current.5 == desired.4 && current.2
        == desired.2
}

/// Decides one update cycle: create when no record is held, rewrite
/// the held record when any compared field differs, keep it otherwise.
pub fn plan_update(current: &Option<DnsRecordResponse>, desired: &DnsRecordRequest) -> (r:
    UpdateAction)
    ensures
        match current {
            Option::None => r is Create,
            Option::Some(rec) => if spec_record_matches(rec@, desired@) {
                r is Keep
            } else {
                r matches UpdateAction::Update { id } && id@ == rec@.3
            },
        },
{
    match current {
        None => UpdateAction::Create,
        Some(rec) => {
            let differs = !rec.content.eq(&desired.content) || rec.ttl != desired.ttl
                || rec.proxied != desired.proxied || !rec.record_type.eq(&desired.record_type);
            if differs {
                UpdateAction::Update { id: rec.id.clone() }
            } else {
                UpdateAction::Keep
            }
        },
    }
}

/// The dynamic-DNS updater's configuration: the zone's credentials, the
/// record to keep pointed at the current address, and the cycle's time
/// to live in seconds.
pub struct DdnsCloudflare {
    pub api_token: String,
    pub email: String,
    pub domain: String,
    pub record: String,
    pub ttl_secs: u64,
}

impl DdnsCloudflare {
    /// A new updater configuration.
    pub fn new(
        api_token: String,
        email: String,
        domain: String,
        record: String,
        ttl_secs: u64,
    ) -> (r: DdnsCloudflare)
        ensures
            r.api_token@ == api_token@,
            r.email@ == email@,
            r.domain@ == domain@,
            r.record@ == record@,
            r.ttl_secs == ttl_secs,
    {
        DdnsCloudflare { api_token, email, domain, record, ttl_secs }
    }

    /// The record this cycle wants the zone to hold: an unproxied
    /// address record for the configured name, carrying the given
    /// address text, with the configured time to live truncated to 32
    /// bits.
    pub fn desired_record(&self, ip: String) -> (r: DnsRecordRequest)
        ensures
            r@.0 == self.record@,
            r@.1 == ip@,
            r@.2 == "A"@,
            r@.3 == self.ttl_secs % 0x1_0000_0000,
            r@.4 == false,
    {
        let ttl: u32 = (self.ttl_secs % 0x1_0000_0000) as u32;
        DnsRecordRequest {
            name: self.record.clone(),
            content: ip,
            record_type: String::from_str("A"),
            ttl,
            proxied: false,
        }
    }
}

/// The first zone identifier of a zone listing, which is the zone the
/// updater works in; an empty listing means the zone was not found.
pub fn first_zone_id(zone_ids: Vec<String>) -> (r: Option<String>)
    ensures
        match r {
            Some(id) => zone_ids@.len() > 0 && id@ == zone_ids@[0]@,
            None => zone_ids@.len() == 0,
        },
{
    let mut zone_ids = zone_ids;
    if zone_ids.len() == 0 {
        None
    } else {
        let id = zone_ids.remove(0);
        Some(id)
    }
}

} // verus!
