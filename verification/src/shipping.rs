//! What the shipping client decides without touching the network: where a
//! batch is posted, which headers go with it, and whether the answer of the
//! backend counts as delivered.

use crate::vecs::push_all;
use vstd::prelude::*;
use vstd::string::StringSliceAdditionalSpecFns;

verus! {

/// Header that carries the authentication key.
pub const API_KEY_HEADER: &'static str = "DD-API-KEY";

/// Header that names the protocol of a logs payload.
pub const PROTOCOL_HEADER: &'static str = "DD-PROTOCOL";

/// Value of the protocol header.
pub const PROTOCOL: &'static str = "agent-json";

/// Header that names the content type of a payload.
pub const CONTENT_TYPE_HEADER: &'static str = "Content-Type";

/// Value of the content type header.
pub const CONTENT_TYPE: &'static str = "application/json";

/// The one status with which the backend accepts a payload.
pub const ACCEPTED: u16 = 202;

/// The intake to which a batch goes.
#[derive(Clone, Copy, Debug, PartialEq, Eq, Structural)]
pub enum Intake {
    Logs,
    Series,
    Distributions,
}

/// Why a batch was not delivered. Such a failure is never fatal: the batch
/// is discarded.
#[derive(Clone, Copy, Debug, PartialEq, Eq, Structural)]
pub enum ShipError {
    /// The backend answered with a status other than 202.
    Status(u16),
    /// No answer arrived.
    Transport,
}

/// What comes before the site in the address of an intake.
pub open spec fn url_prefix(intake: Intake) -> Seq<u8> {
    match intake {
        Intake::Logs => "https://http-intake.logs.".spec_bytes(),
        Intake::Series => "https://api.".spec_bytes(),
        Intake::Distributions => "https://api.".spec_bytes(),
    }
}

/// What comes after the site in the address of an intake.
pub open spec fn url_suffix(intake: Intake) -> Seq<u8> {
    match intake {
        Intake::Logs => "/api/v2/logs".spec_bytes(),
        Intake::Series => "/api/v2/series".spec_bytes(),
        Intake::Distributions => "/api/beta/sketches".spec_bytes(),
    }
}

/// The address of an intake for a site, as bytes.
pub open spec fn intake_url_spec(intake: Intake, site: Seq<char>) -> Seq<u8> {
    url_prefix(intake) + vstd::utf8::encode_utf8(site) + url_suffix(intake)
}

/// The address to which a batch for `intake` is posted at `site`.
pub fn intake_url(intake: Intake, site: &str) -> (url: Vec<u8>)
    ensures
        url@ == intake_url_spec(intake, site@),
{
    let (prefix, suffix) = match intake {
        Intake::Logs => ("https://http-intake.logs.", "/api/v2/logs"),
        Intake::Series => ("https://api.", "/api/v2/series"),
        Intake::Distributions => ("https://api.", "/api/beta/sketches"),
    };
    let mut url: Vec<u8> = Vec::new();
    push_all(&mut url, prefix.as_bytes());
    push_all(&mut url, site.as_bytes());
    push_all(&mut url, suffix.as_bytes());
    assert(url@ =~= intake_url_spec(intake, site@));
    url
}

/// Reads the status of an answer: 202 is a delivery, every other status a
/// failure that carries the status.
pub fn check_status(status: u16) -> (outcome: Result<(), ShipError>)
    ensures
        outcome == if status == ACCEPTED {
            Ok::<(), ShipError>(())
        } else {
            Err::<(), ShipError>(ShipError::Status(status))
        },
{
    if status == ACCEPTED {
        Ok(())
    } else {
        Err(ShipError::Status(status))
    }
}

/// Reads the answer to one post: the status where one arrived, `None` where
/// the request itself failed. Only status 202 is a delivery.
pub fn check_response(response: Option<u16>) -> (outcome: Result<(), ShipError>)
    ensures
        outcome == match response {
            Some(status) => if status == ACCEPTED {
                Ok::<(), ShipError>(())
            } else {
                Err::<(), ShipError>(ShipError::Status(status))
            },
            None => Err::<(), ShipError>(ShipError::Transport),
        },
{
    match response {
        Some(status) => check_status(status),
        None => Err(ShipError::Transport),
    }
}

/// The number of deliveries among the outcomes.
pub open spec fn delivered_spec(outcomes: Seq<Result<(), ShipError>>) -> nat
    decreases outcomes.len(),
{
    if outcomes.len() == 0 {
        0
    } else {
        delivered_spec(outcomes.drop_last()) + if outcomes.last() is Ok {
            1nat
        } else {
            0nat
        }
    }
}

/// The books of one flush cycle as plain numbers: how many posts were
/// dispatched, and how many of them have ended in a delivery and how many
/// in a failure.
pub struct CycleView {
    pub dispatched: nat,
    pub delivered: nat,
    pub discarded: nat,
}

/// The books after one more dispatch has ended. Once every dispatch has
/// ended, nothing more is counted.
pub open spec fn recorded(cycle: CycleView, outcome: Result<(), ShipError>) -> CycleView {
    if cycle.delivered + cycle.discarded >= cycle.dispatched {
        cycle
    } else if outcome is Ok {
        CycleView { delivered: cycle.delivered + 1, ..cycle }
    } else {
        CycleView { discarded: cycle.discarded + 1, ..cycle }
    }
}

/// The books after the dispatches have ended with the given outcomes, in
/// the order in which they ended.
pub open spec fn recorded_all(
    cycle: CycleView,
    outcomes: Seq<Result<(), ShipError>>,
) -> CycleView
    decreases outcomes.len(),
{
    if outcomes.len() == 0 {
        cycle
    } else {
        recorded(recorded_all(cycle, outcomes.drop_last()), outcomes.last())
    }
}

/// The books of one flush cycle. Every dispatch ends once, in a delivery
/// or in a failure; a failure is counted and otherwise forgotten. The cycle
/// is complete when every dispatch has ended, whatever the outcomes.
pub struct FlushCycle {
    dispatched: usize,
    delivered: usize,
    discarded: usize,
}

impl FlushCycle {
    /// The books as plain numbers.
    pub closed spec fn view(&self) -> CycleView {
        CycleView {
            dispatched: self.dispatched as nat,
            delivered: self.delivered as nat,
            discarded: self.discarded as nat,
        }
    }

    /// No more dispatches have ended than were made.
    pub open spec fn wf(&self) -> bool {
        self@.delivered + self@.discarded <= self@.dispatched
    }

    /// Every dispatch has ended.
    pub open spec fn complete(&self) -> bool {
        self@.delivered + self@.discarded == self@.dispatched
    }

    /// The books of a cycle in which `dispatched` posts were dispatched and
    /// none has ended yet.
    pub fn begin(dispatched: usize) -> (cycle: FlushCycle)
        ensures
            cycle.wf(),
            cycle@ == (CycleView { dispatched: dispatched as nat, delivered: 0, discarded: 0 }),
    {
        FlushCycle { dispatched, delivered: 0, discarded: 0 }
    }

    /// Counts the end of one dispatch. The result says whether it was
    /// counted: it is not once the cycle is complete.
    pub fn record(&mut self, outcome: &Result<(), ShipError>) -> (counted: bool)
        requires
            old(self).wf(),
        ensures
            final(self).wf(),
            final(self)@ == recorded(old(self)@, *outcome),
            counted == !old(self).complete(),
    {
        if self.delivered + self.discarded >= self.dispatched {
            false
        } else {
            if outcome.is_ok() {
                self.delivered = self.delivered + 1;
            } else {
                self.discarded = self.discarded + 1;
            }
            true
        }
    }

    /// Whether every dispatch has ended, so that the flush may return.
    pub fn is_complete(&self) -> (done: bool)
        requires
            self.wf(),
        ensures
            done == self.complete(),
    {
        self.delivered + self.discarded == self.dispatched
    }

    /// The number of dispatches that have not ended yet.
    pub fn pending(&self) -> (left: usize)
        requires
            self.wf(),
        ensures
            left == self@.dispatched - self@.delivered - self@.discarded,
    {
        self.dispatched - self.delivered - self.discarded
    }

    /// The number of dispatches that ended in a delivery.
    pub fn delivered(&self) -> (n: usize)
        ensures
            n == self@.delivered,
    {
        self.delivered
    }

    /// The number of dispatches that ended in a failure and were discarded.
    pub fn discarded(&self) -> (n: usize)
        ensures
            n == self@.discarded,
    {
        self.discarded
    }
}

/// A flush cycle ends whatever the outcomes are: once as many dispatches
/// have ended as were made, the cycle is complete, with one delivery counted
/// for each success and one discard for each failure, be it every one.
pub proof fn lemma_cycle_completes(dispatched: nat, outcomes: Seq<Result<(), ShipError>>)
    requires
        outcomes.len() <= dispatched,
    ensures
        ({
            let cycle = recorded_all(
                CycleView { dispatched, delivered: 0, discarded: 0 },
                outcomes,
            );
            &&& cycle.dispatched == dispatched
            &&& cycle.delivered == delivered_spec(outcomes)
            &&& cycle.delivered + cycle.discarded == outcomes.len()
            &&& (outcomes.len() == dispatched ==> cycle.delivered + cycle.discarded
                == cycle.dispatched)
        }),
    decreases outcomes.len(),
{
    if outcomes.len() > 0 {
        lemma_cycle_completes(dispatched, outcomes.drop_last());
    }
}

} // verus!
