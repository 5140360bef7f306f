//! The logs flusher: drains the log aggregator and describes the post that
//! ships each batch.

use crate::logs::aggregator::{
    all_admissible, empty_encoding, encode, encode_all, groups, next_batch_len, Aggregator,
};
use crate::shipping::{intake_url, intake_url_spec, Intake};
use vstd::prelude::*;

verus! {

/// One post to the logs intake: the whole batch in one body.
pub struct Request {
    /// The address of the logs intake, as bytes.
    pub url: Vec<u8>,
    /// The authentication key for the key header.
    pub api_key: String,
    /// The batch, a JSON array of log records.
    pub body: Vec<u8>,
}

/// The logs flusher. It holds the destination site and the authentication
/// key; the aggregator is lent to it for the time of a drain only.
pub struct Flusher {
    api_key: String,
    site: String,
}

/// The bodies of the posts.
pub open spec fn bodies(requests: Seq<Request>) -> Seq<Seq<u8>> {
    Seq::new(requests.len(), |i: int| requests[i].body@)
}

/// A batch is worth a post when it is longer than the empty array.
pub open spec fn is_shippable(data: Seq<u8>) -> bool {
    data.len() > 2
}

impl Flusher {
    /// The authentication key.
    pub closed spec fn api_key(&self) -> Seq<char> {
        self.api_key@
    }

    /// The destination site.
    pub closed spec fn site(&self) -> Seq<char> {
        self.site@
    }

    /// A flusher for `site` that authenticates with `api_key`.
    pub fn new(api_key: String, site: String) -> (flusher: Flusher)
        ensures
            flusher.api_key() == api_key@,
            flusher.site() == site@,
    {
        Flusher { api_key, site }
    }

    /// Whether `send` posts the data: everything but the empty array.
    pub fn should_send(data: &Vec<u8>) -> (shippable: bool)
        ensures
            shippable == is_shippable(data@),
    {
        data.len() > 2
    }

    /// The post that ships `data`, or `None` for data that is not worth one.
    pub fn send(&self, data: Vec<u8>) -> (request: Option<Request>)
        ensures
            request is Some <==> is_shippable(data@),
            request is Some ==> {
                &&& request->0.url@ == intake_url_spec(Intake::Logs, self.site())
                &&& request->0.api_key@ == self.api_key()
                &&& request->0.body == data
            },
    {
        if Self::should_send(&data) {
            Some(
                Request {
                    url: intake_url(Intake::Logs, self.site.as_str()),
                    api_key: self.api_key.clone(),
                    body: data,
                },
            )
        } else {
            None
        }
    }

    /// Takes batches from the aggregator until the empty array comes and
    /// returns one post for each batch, in the order of extraction. The
    /// aggregator is empty afterwards, and it is not needed for the posts:
    /// they can be made, in any order and at the same time, after it has
    /// been handed back.
    pub fn flush(&self, aggregator: &mut Aggregator) -> (requests: Vec<Request>)
        requires
            old(aggregator).wf(),
        ensures
            final(aggregator).wf(),
            final(aggregator).limit() == old(aggregator).limit(),
            final(aggregator)@.len() == 0,
            bodies(requests@) == encode_all(groups(old(aggregator)@, old(aggregator).limit())),
            forall|i: int|
                0 <= i < requests@.len() ==> {
                    &&& (#[trigger] requests@[i]).url@ == intake_url_spec(
                        Intake::Logs,
                        self.site(),
                    )
                    &&& requests@[i].api_key@ == self.api_key()
                    &&& 2 < requests@[i].body@.len() <= old(aggregator).limit()
                },
    {
        let ghost all = aggregator@;
        let ghost limit = aggregator.limit();
        let mut requests: Vec<Request> = Vec::new();
        let ghost mut rest = aggregator@;
        let mut logs = aggregator.get_batch();
        proof {
            assert(bodies(requests@) + encode_all(groups(rest, limit)) =~= encode_all(
                groups(all, limit),
            ));
        }
        while logs.len() > 2
            invariant
                aggregator.wf(),
                aggregator.limit() == limit,
                all_admissible(rest, limit),
                logs@ == encode(rest.take(next_batch_len(rest, limit))),
                aggregator@ == rest.skip(next_batch_len(rest, limit)),
                rest.len() == 0 <==> logs@ == empty_encoding(),
                rest.len() > 0 ==> 1 <= next_batch_len(rest, limit) <= rest.len(),
                bodies(requests@) + encode_all(groups(rest, limit)) =~= encode_all(
                    groups(all, limit),
                ),
                forall|i: int|
                    0 <= i < requests@.len() ==> {
                        &&& (#[trigger] requests@[i]).url@ == intake_url_spec(
                            Intake::Logs,
                            self.site(),
                        )
                        &&& requests@[i].api_key@ == self.api_key()
                        &&& 2 < requests@[i].body@.len() <= limit
                    },
                rest.len() > 0 ==> 2 < logs@.len() <= limit,
            decreases rest.len(),
        {
            let request = Request {
                url: intake_url(Intake::Logs, self.site.as_str()),
                api_key: self.api_key.clone(),
                body: logs,
            };
            proof {
                let k = next_batch_len(rest, limit);
                assert(groups(rest, limit) == seq![rest.take(k)] + groups(rest.skip(k), limit));
                assert(bodies(requests@.push(request)) + encode_all(
                    groups(rest.skip(k), limit),
                ) =~= bodies(requests@) + encode_all(groups(rest, limit)));
                rest = aggregator@;
            }
            requests.push(request);
            logs = aggregator.get_batch();
        }
        proof {
            assert(aggregator@ =~= Seq::<Seq<u8>>::empty());
            assert(bodies(requests@) =~= encode_all(groups(all, limit)));
        }
        requests
    }
}

} // verus!
