//! DNS records as the registrar reports them, and the locator that
//! scans a zone's record set for the A-record to track.

use vstd::prelude::*;

verus! {

/// The type of a DNS resource record, as the registrar labels it.
/// Only `A` records are ever selected for tracking.
#[derive(Clone, Copy, PartialEq, Eq, Structural, Debug)]
pub enum RecordKind {
    A,
    Aaaa,
    Caa,
    Cname,
    Mx,
    Spf,
    Srv,
    Txt,
    Ns,
    Tlsa,
    Sshfp,
    Soa,
}

/// One DNS record of a zone: its type, its name (the registrar's
/// local-label form, where the zone apex is the empty string), and
/// its value (for an A-record, an IPv4 address as text).
#[derive(Debug, PartialEq, Eq)]
pub struct DnsRecord {
    pub kind: RecordKind,
    pub name: String,
    pub value: String,
}

/// Mathematical model of a record: the same fields with the strings
/// as character sequences.
pub struct DnsRecordModel {
    pub kind: RecordKind,
    pub name: Seq<char>,
    pub value: Seq<char>,
}

impl View for DnsRecord {
    type V = DnsRecordModel;

    open spec fn view(&self) -> DnsRecordModel {
        DnsRecordModel { kind: self.kind, name: self.name@, value: self.value@ }
    }
}

impl Clone for DnsRecord {
    fn clone(&self) -> (copy: Self)
        ensures
            copy == *self,
    {
        DnsRecord { kind: self.kind, name: self.name.clone(), value: self.value.clone() }
    }
}

/// The models of a sequence of records.
pub open spec fn records_model(records: Seq<DnsRecord>) -> Seq<DnsRecordModel> {
    records.map_values(|record: DnsRecord| record@)
}

/// The model of an optional record.
pub open spec fn option_model(state: Option<DnsRecord>) -> Option<DnsRecordModel> {
    match state {
        None => None,
        Some(record) => Some(record@),
    }
}

/// A record is selected when it is an A-record whose name equals the
/// target subdomain.
pub open spec fn record_matches(record: DnsRecordModel, target: Seq<char>) -> bool {
    record.kind == RecordKind::A && record.name == target
}

/// The working copy taken of a matching record: an apex record (one
/// named by the zone itself) has its name rewritten to the empty
/// string, the registrar's convention for referring to the apex in
/// update calls.
pub open spec fn apex_adjusted(record: DnsRecordModel, zone: Seq<char>) -> DnsRecordModel {
    if record.name == zone {
        DnsRecordModel { name: Seq::<char>::empty(), ..record }
    } else {
        record
    }
}

/// First match wins, in listing order: the working copy of the first
/// record that matches `target`, or `None` when no record matches.
pub open spec fn locate_a_record(
    records: Seq<DnsRecordModel>,
    target: Seq<char>,
    zone: Seq<char>,
) -> Option<DnsRecordModel>
    decreases records.len(),
{
    if records.len() == 0 {
        None
    } else if record_matches(records[0], target) {
        Some(apex_adjusted(records[0], zone))
    } else {
        locate_a_record(records.skip(1), target, zone)
    }
}

proof fn lemma_locate_none(records: Seq<DnsRecordModel>, target: Seq<char>, zone: Seq<char>)
    requires
        forall|j: int| 0 <= j < records.len() ==> !record_matches(#[trigger] records[j], target),
    ensures
        locate_a_record(records, target, zone) is None,
    decreases records.len(),
{
    if records.len() == 0 {
    } else {
        assert(forall|j: int|
            0 <= j < records.skip(1).len() ==> #[trigger] records.skip(1)[j] == records[j + 1]);
        lemma_locate_none(records.skip(1), target, zone);
    }
}

proof fn lemma_locate_first(
    records: Seq<DnsRecordModel>,
    target: Seq<char>,
    zone: Seq<char>,
    i: int,
)
    requires
        0 <= i < records.len(),
        record_matches(records[i], target),
        forall|j: int| 0 <= j < i ==> !record_matches(#[trigger] records[j], target),
    ensures
        locate_a_record(records, target, zone) == Some(apex_adjusted(records[i], zone)),
    decreases i,
{
    if i == 0 {
    } else {
        assert(forall|j: int|
            0 <= j < records.skip(1).len() ==> #[trigger] records.skip(1)[j] == records[j + 1]);
        lemma_locate_first(records.skip(1), target, zone, i - 1);
    }
}

/// The position of the record the locator selects: the first record,
/// in listing order, that is an A-record named by `target_subdomain`;
/// `None` when no record matches.
pub fn find_a_record_index(records: &Vec<DnsRecord>, target_subdomain: &String) -> (found: Option<
    usize,
>)
    ensures
        ({
            let all = records_model(records@);
            match found {
                Some(i) => i < all.len() && record_matches(all[i as int], target_subdomain@)
                    && forall|j: int|
                    0 <= j < i ==> !record_matches(#[trigger] all[j], target_subdomain@),
                None => forall|j: int|
                    0 <= j < all.len() ==> !record_matches(#[trigger] all[j], target_subdomain@),
            }
        }),
{
    let ghost all = records_model(records@);
    let mut idx: usize = 0;
    while idx < records.len()
        invariant
            idx <= records@.len(),
            all == records_model(records@),
            forall|j: int| 0 <= j < idx ==> !record_matches(#[trigger] all[j], target_subdomain@),
        decreases records@.len() - idx,
    {
        let record = &records[idx];
        if record.kind == RecordKind::A && record.name == *target_subdomain {
            return Some(idx);
        }
        idx += 1;
    }
    None
}

/// Scans a zone's record set for the A-record named by
/// `target_subdomain` and returns a working copy of the first match,
/// with the apex rewrite applied; `None` when no record matches.
pub fn find_a_record(records: &Vec<DnsRecord>, target_subdomain: &String, zone: &String) -> (found:
    Option<DnsRecord>)
    ensures
        option_model(found) == locate_a_record(
            records_model(records@),
            target_subdomain@,
            zone@,
        ),
{
    let ghost all = records_model(records@);
    match find_a_record_index(records, target_subdomain) {
        None => {
            proof {
                lemma_locate_none(all, target_subdomain@, zone@);
            }
            None
        },
        Some(i) => {
            let record = &records[i];
            let mut working = record.clone();
            if record.name == *zone {
                working.name = String::new();
            }
            proof {
                lemma_locate_first(all, target_subdomain@, zone@, i as int);
            }
            Some(working)
        },
    }
}

} // verus!
