//! The shipping client for metrics: the destination site and the
//! authentication key, and the posts that they give.

use crate::metrics::aggregator::Series;
use crate::metrics::flusher::Request;
use crate::shipping::{intake_url, intake_url_spec, Intake};
use vstd::prelude::*;

verus! {

/// The shipping client. It holds nothing that changes.
pub struct DdApi {
    api_key: String,
    site: String,
}

impl DdApi {
    /// The authentication key.
    pub closed spec fn api_key(&self) -> Seq<char> {
        self.api_key@
    }

    /// The destination site.
    pub closed spec fn site(&self) -> Seq<char> {
        self.site@
    }

    /// A client for `site` that authenticates with `api_key`.
    pub fn new(api_key: String, site: String) -> (api: DdApi)
        ensures
            api.api_key() == api_key@,
            api.site() == site@,
    {
        DdApi { api_key, site }
    }

    /// The post that ships one batch to an intake.
    pub fn request(&self, intake: Intake, batch: Vec<Series>) -> (request: Request)
        ensures
            request.intake == intake,
            request.url@ == intake_url_spec(intake, self.site()),
            request.api_key@ == self.api_key(),
            request.batch == batch,
    {
        Request {
            intake,
            url: intake_url(intake, self.site.as_str()),
            api_key: self.api_key.clone(),
            batch,
        }
    }

    /// The post that ships one batch of series.
    pub fn ship_series(&self, batch: Vec<Series>) -> (request: Request)
        ensures
            request.intake == Intake::Series,
            request.url@ == intake_url_spec(Intake::Series, self.site()),
            request.api_key@ == self.api_key(),
            request.batch == batch,
    {
        self.request(Intake::Series, batch)
    }

    /// The post that ships one batch of distributions.
    pub fn ship_distributions(&self, batch: Vec<Series>) -> (request: Request)
        ensures
            request.intake == Intake::Distributions,
            request.url@ == intake_url_spec(Intake::Distributions, self.site()),
            request.api_key@ == self.api_key(),
            request.batch == batch,
    {
        self.request(Intake::Distributions, batch)
    }
}

} // verus!
