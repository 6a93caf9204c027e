//! The reconciliation cycle: deciding, from the tracked record and
//! the currently observed IP, whether the registrar must be called,
//! and advancing the tracked state after a successful replacement.

use vstd::prelude::*;
use crate::record::{DnsRecord, DnsRecordModel, option_model};

verus! {

/// What one reconciliation cycle does, beyond resolving the IP:
/// report the permanently missing record, report that the record is
/// up to date, or replace `previous` by `replacement` at the
/// registrar.
#[derive(Debug, PartialEq, Eq)]
pub enum CycleAction {
    ReportMissing,
    UpToDate,
    Update { previous: DnsRecord, replacement: DnsRecord },
}

/// Mathematical model of a cycle's action.
pub enum CycleActionModel {
    ReportMissing,
    UpToDate,
    Update { previous: DnsRecordModel, replacement: DnsRecordModel },
}

impl View for CycleAction {
    type V = CycleActionModel;

    open spec fn view(&self) -> CycleActionModel {
        match self {
            CycleAction::ReportMissing => CycleActionModel::ReportMissing,
            CycleAction::UpToDate => CycleActionModel::UpToDate,
            CycleAction::Update { previous, replacement } => CycleActionModel::Update {
                previous: previous@,
                replacement: replacement@,
            },
        }
    }
}

/// The tracked record with its value replaced by `ip`.
pub open spec fn with_value(record: DnsRecordModel, ip: Seq<char>) -> DnsRecordModel {
    DnsRecordModel { value: ip, ..record }
}

/// The decision of one cycle: no tracked record means the missing
/// record is reported and nothing else happens; a tracked record
/// whose value already equals the observed IP is up to date; any
/// other value calls for exactly one replacement, whose old side is
/// the tracked record and whose new side carries the observed IP.
pub open spec fn plan_spec(state: Option<DnsRecordModel>, ip: Seq<char>) -> CycleActionModel {
    match state {
        None => CycleActionModel::ReportMissing,
        Some(record) => if record.value == ip {
            CycleActionModel::UpToDate
        } else {
            CycleActionModel::Update { previous: record, replacement: with_value(record, ip) }
        },
    }
}

/// The tracked state after a cycle whose remote call (if any)
/// succeeded: only a replacement changes it, to the replacement
/// record; it is never cleared.
pub open spec fn next_state_spec(state: Option<DnsRecordModel>, ip: Seq<char>) -> Option<
    DnsRecordModel,
> {
    match plan_spec(state, ip) {
        CycleActionModel::Update { previous, replacement } => Some(replacement),
        _ => state,
    }
}

/// Decides what the current cycle must do, given the tracked record
/// and the IP observed this cycle.
pub fn plan_cycle(state: &Option<DnsRecord>, resolved_ip: &String) -> (action: CycleAction)
    ensures
        action@ == plan_spec(option_model(*state), resolved_ip@),
{
    match state {
        None => CycleAction::ReportMissing,
        Some(record) => {
            if record.value == *resolved_ip {
                CycleAction::UpToDate
            } else {
                let mut replacement = record.clone();
                replacement.value = resolved_ip.clone();
                CycleAction::Update { previous: record.clone(), replacement }
            }
        },
    }
}

/// Installs the replacement record as the tracked state, after the
/// registrar accepted it.
pub fn commit_update(state: &mut Option<DnsRecord>, replacement: DnsRecord)
    ensures
        option_model(*final(state)) == Some(replacement@),
{
    *state = Some(replacement);
}

/// The tracked state after any number of cycles, each observing the
/// next IP of `ips` and succeeding in its remote call, if it makes
/// one.
pub open spec fn run_cycles(state: Option<DnsRecordModel>, ips: Seq<Seq<char>>) -> Option<
    DnsRecordModel,
>
    decreases ips.len(),
{
    if ips.len() == 0 {
        state
    } else {
        run_cycles(next_state_spec(state, ips[0]), ips.skip(1))
    }
}

/// Idempotence: a cycle that observes the value the tracked record
/// already carries issues no update and leaves the state unchanged.
pub proof fn lemma_idempotent_cycle(record: DnsRecordModel, ip: Seq<char>)
    requires
        record.value == ip,
    ensures
        plan_spec(Some(record), ip) is UpToDate,
        next_state_spec(Some(record), ip) == Some(record),
{
}

/// State transition: a cycle that observes a different value issues
/// exactly one update, whose old side is the pre-cycle record and
/// whose new side is that record carrying the observed IP; the
/// post-cycle state is the new side.
pub proof fn lemma_update_transition(record: DnsRecordModel, ip: Seq<char>)
    requires
        record.value != ip,
    ensures
        plan_spec(Some(record), ip) == (CycleActionModel::Update {
            previous: record,
            replacement: with_value(record, ip),
        }),
        next_state_spec(Some(record), ip) == Some(with_value(record, ip)),
{
}

proof fn lemma_none_stays_none(ips: Seq<Seq<char>>)
    ensures
        run_cycles(None, ips) is None,
    decreases ips.len(),
{
    if ips.len() == 0 {
    } else {
        assert(next_state_spec(None, ips[0]) is None);
        lemma_none_stays_none(ips.skip(1));
    }
}

/// Degraded mode: when no record was found at startup, no update is
/// ever issued, however many cycles run — every cycle still reports
/// the missing record, and the state stays absent forever.
pub proof fn lemma_degraded_mode(ips: Seq<Seq<char>>)
    ensures
        run_cycles(None, ips) is None,
        forall|i: int|
            0 <= i < ips.len() ==> #[trigger] plan_spec(
                run_cycles(None, ips.take(i)),
                ips[i],
            ) is ReportMissing,
{
    lemma_none_stays_none(ips);
    assert forall|i: int| 0 <= i < ips.len() implies #[trigger] plan_spec(
        run_cycles(None, ips.take(i)),
        ips[i],
    ) is ReportMissing by {
        lemma_none_stays_none(ips.take(i));
    }
}

} // verus!
