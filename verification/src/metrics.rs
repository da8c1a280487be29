use vstd::prelude::*;
use crate::text::text_owned;

verus! {

/// What is recorded of one request: its protocol, rule, backend and status,
/// how long it took, and the bytes each way.
#[derive(Debug)]
pub struct RequestMetrics {
    pub protocol: String,
    pub rule: String,
    pub backend: String,
    pub status: String,
    pub duration: core::time::Duration,
    pub request_size: u64,
    pub response_size: u64,
}

impl RequestMetrics {
    pub fn new(
        protocol: &str,
        rule: &str,
        backend: &str,
        status: &str,
        duration: core::time::Duration,
        request_size: u64,
        response_size: u64,
    ) -> (r: Self)
        ensures
            r.protocol@ == protocol@,
            r.rule@ == rule@,
            r.backend@ == backend@,
            r.status@ == status@,
            r.duration == duration,
            r.request_size == request_size,
            r.response_size == response_size,
    {
        RequestMetrics {
            protocol: text_owned(protocol),
            rule: text_owned(rule),
            backend: text_owned(backend),
            status: text_owned(status),
            duration,
            request_size,
            response_size,
        }
    }
}

} // verus!
