//! A member of a call queue, as the messaging provider's REST API reports it.
use vstd::prelude::*;

verus! {

/// A member of a call queue. Each field is absent, explicitly null, or set.
#[derive(Clone, Debug, PartialEq)]
pub struct ApiPeriodV2010PeriodAccountPeriodQueuePeriodMember {
    /// The identifier of the call the member belongs to.
    pub call_sid: Option<Option<String>>,
    /// When the member was enqueued, in RFC 2822 format.
    pub date_enqueued: Option<Option<String>>,
    /// The member's current position in the queue.
    pub position: Option<Option<i32>>,
    /// The resource's URI, relative to the API's host.
    pub uri: Option<Option<String>>,
    /// How many seconds the member has been waiting.
    pub wait_time: Option<Option<i32>>,
    /// The identifier of the queue the member is in.
    pub queue_sid: Option<Option<String>>,
}

impl ApiPeriodV2010PeriodAccountPeriodQueuePeriodMember {
    /// A member with every field absent.
    pub fn new() -> (r: ApiPeriodV2010PeriodAccountPeriodQueuePeriodMember)
        ensures
            r.call_sid is None,
            r.date_enqueued is None,
            r.position is None,
            r.uri is None,
            r.wait_time is None,
            r.queue_sid is None,
    {
        ApiPeriodV2010PeriodAccountPeriodQueuePeriodMember {
            call_sid: None,
            date_enqueued: None,
            position: None,
            uri: None,
            wait_time: None,
            queue_sid: None,
        }
    }
}

} // verus!
