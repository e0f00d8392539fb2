//! The analytics service, as far as it goes: it keeps no dataset yet.
//! Requests that make, drop, connect or disconnect something are
//! acknowledged, and every query succeeds without a row.

use vstd::prelude::*;
use vstd::string::StringExecFns;
use crate::ack::{done, framed, framed_pair, not_yet, Ack, Unimplemented};

verus! {

/// The closing word on an analytics query.
#[derive(Debug, PartialEq, Eq)]
pub struct AnalyticsStatus {
    pub status: String,
}

/// The analytics service.
#[derive(Debug, Default)]
pub struct AnalyticsServiceImpl {}

impl AnalyticsServiceImpl {
    pub fn create_dataverse(&self, dataverse: &str) -> (response: Ack)
        ensures
            response.success,
            response.message@ == "Dataverse '"@ + dataverse@ + "' created"@,
    {
        done(framed("Dataverse '", dataverse, "' created"))
    }

    pub fn drop_dataverse(&self, dataverse: &str) -> (response: Ack)
        ensures
            response.success,
            response.message@ == "Dataverse '"@ + dataverse@ + "' dropped"@,
    {
        done(framed("Dataverse '", dataverse, "' dropped"))
    }

    pub fn create_dataset(&self, dataverse: &str, dataset_name: &str) -> (response: Ack)
        ensures
            response.success,
            response.message@ == "Dataset '"@ + dataverse@ + "."@ + dataset_name@ + "' created"@,
    {
        done(framed_pair("Dataset '", dataverse, dataset_name, "' created"))
    }

    pub fn drop_dataset(&self, dataverse: &str, dataset_name: &str) -> (response: Ack)
        ensures
            response.success,
            response.message@ == "Dataset '"@ + dataverse@ + "."@ + dataset_name@ + "' dropped"@,
    {
        done(framed_pair("Dataset '", dataverse, dataset_name, "' dropped"))
    }

    pub fn connect_link(&self, dataverse: &str, link_name: &str) -> (response: Ack)
        ensures
            response.success,
            response.message@ == "Link '"@ + dataverse@ + "."@ + link_name@ + "' connected"@,
    {
        done(framed_pair("Link '", dataverse, link_name, "' connected"))
    }

    pub fn disconnect_link(&self, dataverse: &str, link_name: &str) -> (response: Ack)
        ensures
            response.success,
            response.message@ == "Link '"@ + dataverse@ + "."@ + link_name@ + "' disconnected"@,
    {
        done(framed_pair("Link '", dataverse, link_name, "' disconnected"))
    }

    /// Runs a statement. The messages of its result, in order: one, the
    /// status `success`.
    pub fn query(&self, statement: &str) -> (messages: Vec<AnalyticsStatus>)
        ensures
            messages@.len() == 1,
            messages@[0].status@ == "success"@,
    {
        let mut messages: Vec<AnalyticsStatus> = Vec::new();
        messages.push(AnalyticsStatus { status: String::from_str("success") });
        messages
    }

    /// The statistics of a dataset: not served yet.
    pub fn get_dataset_stats(&self, dataverse: &str, dataset_name: &str) -> (answer: Unimplemented)
        ensures
            answer.message@ == "Dataset stats not yet implemented"@,
    {
        not_yet("Dataset stats not yet implemented")
    }
}

} // verus!
