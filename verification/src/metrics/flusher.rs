//! The metrics flusher: empties the metric aggregator and describes the
//! post that ships each batch, series first and distributions after them.

use crate::metrics::aggregator::{batch_views, chunks, select, Aggregator, Series};
use crate::metrics::datadog::DdApi;
use crate::vecs::reversed;
use crate::shipping::{intake_url_spec, Intake};
use vstd::prelude::*;

verus! {

/// One post to a metrics intake: the whole batch in one body.
pub struct Request {
    /// The intake that the batch is for: series or distributions.
    pub intake: Intake,
    /// The address of that intake, as bytes.
    pub url: Vec<u8>,
    /// The authentication key for the key header.
    pub api_key: String,
    /// The series of the batch.
    pub batch: Vec<Series>,
}

/// The batches of the requests as plain values.
pub open spec fn request_batches(requests: Seq<Request>) -> Seq<Vec<Series>> {
    Seq::new(requests.len(), |i: int| requests[i].batch)
}

/// The metrics flusher. It holds the shipping client; the aggregator is
/// lent to it for the time of the extraction only.
pub struct Flusher {
    dd_api: DdApi,
}

impl Flusher {
    /// The authentication key.
    pub closed spec fn api_key(&self) -> Seq<char> {
        self.dd_api.api_key()
    }

    /// The destination site.
    pub closed spec fn site(&self) -> Seq<char> {
        self.dd_api.site()
    }

    /// A flusher for `site` that authenticates with `api_key`.
    pub fn new(api_key: String, site: String) -> (flusher: Flusher)
        ensures
            flusher.api_key() == api_key@,
            flusher.site() == site@,
    {
        Flusher { dd_api: DdApi::new(api_key, site) }
    }

    /// Turns batches into posts to one intake, in order.
    fn requests_for(&self, intake: Intake, batches: Vec<Vec<Series>>, requests: &mut Vec<Request>)
        ensures
            final(requests)@.len() == old(requests)@.len() + batches@.len(),
            forall|i: int|
                0 <= i < old(requests)@.len() ==> final(requests)@[i] == old(requests)@[i],
            forall|i: int|
                0 <= i < batches@.len() ==> {
                    let request = #[trigger] final(requests)@[old(requests)@.len() + i];
                    &&& request.intake == intake
                    &&& request.url@ == intake_url_spec(intake, self.site())
                    &&& request.api_key@ == self.api_key()
                    &&& request.batch == batches@[i]
                },
    {
        let ghost all = batches@;
        let ghost first = requests@.len();
        let mut stack = reversed(batches);
        while stack.len() > 0
            invariant
                stack@.len() <= all.len(),
                requests@.len() == first + all.len() - stack@.len(),
                first == old(requests)@.len(),
                forall|i: int| 0 <= i < first ==> requests@[i] == old(requests)@[i],
                forall|i: int| 0 <= i < stack@.len() ==> stack@[i] == all[all.len() - 1 - i],
                forall|i: int|
                    0 <= i < all.len() - stack@.len() ==> {
                        let request = #[trigger] requests@[first + i];
                        &&& request.intake == intake
                        &&& request.url@ == intake_url_spec(intake, self.site())
                        &&& request.api_key@ == self.api_key()
                        &&& request.batch == all[i]
                    },
            decreases stack@.len(),
        {
            let batch = stack.pop().unwrap();
            let request = self.dd_api.request(intake, batch);
            requests.push(request);
        }
    }

    /// Empties the aggregator and returns one post for each batch: the
    /// series batches in order, then the distribution batches in order.
    /// The aggregator is not needed for the posts.
    pub fn flush(&mut self, aggregator: &mut Aggregator) -> (requests: Vec<Request>)
        requires
            old(aggregator).wf(),
        ensures
            final(aggregator).wf(),
            final(aggregator).capacity() == old(aggregator).capacity(),
            final(aggregator).batch_size() == old(aggregator).batch_size(),
            final(aggregator)@.len() == 0,
            final(self).api_key() == old(self).api_key(),
            final(self).site() == old(self).site(),
            batch_views(request_batches(requests@)) == chunks(
                select(old(aggregator)@, false),
                old(aggregator).batch_size(),
            ) + chunks(select(old(aggregator)@, true), old(aggregator).batch_size()),
            forall|i: int|
                0 <= i < requests@.len() ==> {
                    let request = #[trigger] requests@[i];
                    &&& request.intake == if i < chunks(
                        select(old(aggregator)@, false),
                        old(aggregator).batch_size(),
                    ).len() {
                        Intake::Series
                    } else {
                        Intake::Distributions
                    }
                    &&& request.url@ == intake_url_spec(request.intake, old(self).site())
                    &&& request.api_key@ == old(self).api_key()
                    &&& 1 <= request.batch@.len() <= old(aggregator).batch_size()
                },
    {
        let ghost table = aggregator@;
        let all_series = aggregator.consume_metrics();
        let all_distributions = aggregator.consume_distributions();
        proof {
            crate::metrics::aggregator::lemma_select_other_is_empty(table, false);
            crate::metrics::aggregator::lemma_select_idempotent(table, true);
        }
        let mut requests: Vec<Request> = Vec::new();
        self.requests_for(Intake::Series, all_series, &mut requests);
        let ghost mid = requests@;
        let ghost ns = all_series@.len() as int;
        proof {
            assert forall|i: int| 0 <= i < ns implies {
                &&& (#[trigger] mid[i]).intake == Intake::Series
                &&& mid[i].url@ == intake_url_spec(Intake::Series, self.site())
                &&& mid[i].api_key@ == self.api_key()
                &&& mid[i].batch == all_series@[i]
            } by {
                let request = mid[0 + i];
            }
        }
        self.requests_for(Intake::Distributions, all_distributions, &mut requests);
        proof {
            assert forall|i: int| 0 <= i < requests@.len() implies {
                &&& (#[trigger] requests@[i]).intake == if i < ns {
                    Intake::Series
                } else {
                    Intake::Distributions
                }
                &&& requests@[i].url@ == intake_url_spec(requests@[i].intake, self.site())
                &&& requests@[i].api_key@ == self.api_key()
                &&& requests@[i].batch == if i < ns {
                    all_series@[i]
                } else {
                    all_distributions@[i - ns]
                }
                &&& 1 <= requests@[i].batch@.len() <= aggregator.batch_size()
            } by {
                if i < ns {
                    assert(requests@[i] == mid[i]);
                } else {
                    let request = requests@[ns + (i - ns)];
                }
            }
            assert(batch_views(request_batches(requests@)) =~= batch_views(all_series@)
                + batch_views(all_distributions@));
        }
        requests
    }
}

} // verus!
