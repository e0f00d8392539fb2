//! Where each service listens.

use vstd::prelude::*;
use vstd::string::StringExecFns;
use crate::text::{decimal, push_decimal};

verus! {

/// The services of a node.
#[derive(Clone, Copy, Debug, PartialEq, Eq, Structural)]
pub enum ServiceKind {
    Data,
    Query,
    Search,
    Analytics,
    Index,
}

impl ServiceKind {
    /// The port a service listens on unless told otherwise.
    pub open spec fn spec_default_port(self) -> u16 {
        match self {
            ServiceKind::Data => 11210,
            ServiceKind::Query => 8093,
            ServiceKind::Search => 8094,
            ServiceKind::Analytics => 8095,
            ServiceKind::Index => 9102,
        }
    }

    /// The name a service goes by.
    pub open spec fn spec_name(self) -> Seq<char> {
        match self {
            ServiceKind::Data => "data"@,
            ServiceKind::Query => "query"@,
            ServiceKind::Search => "search"@,
            ServiceKind::Analytics => "analytics"@,
            ServiceKind::Index => "index"@,
        }
    }

    pub fn name(self) -> (name: &'static str)
        ensures
            name@ == self.spec_name(),
    {
        match self {
            ServiceKind::Data => "data",
            ServiceKind::Query => "query",
            ServiceKind::Search => "search",
            ServiceKind::Analytics => "analytics",
            ServiceKind::Index => "index",
        }
    }

    /// The service that goes by a name, if one does.
    pub open spec fn spec_from_name(name: Seq<char>) -> Option<ServiceKind> {
        if name == ServiceKind::Data.spec_name() {
            Some(ServiceKind::Data)
        } else if name == ServiceKind::Query.spec_name() {
            Some(ServiceKind::Query)
        } else if name == ServiceKind::Search.spec_name() {
            Some(ServiceKind::Search)
        } else if name == ServiceKind::Analytics.spec_name() {
            Some(ServiceKind::Analytics)
        } else if name == ServiceKind::Index.spec_name() {
            Some(ServiceKind::Index)
        } else {
            None
        }
    }

    pub fn from_name(name: &str) -> (kind: Option<ServiceKind>)
        ensures
            kind == ServiceKind::spec_from_name(name@),
    {
        let wanted = String::from_str(name);
        if wanted == String::from_str(ServiceKind::Data.name()) {
            Some(ServiceKind::Data)
        } else if wanted == String::from_str(ServiceKind::Query.name()) {
            Some(ServiceKind::Query)
        } else if wanted == String::from_str(ServiceKind::Search.name()) {
            Some(ServiceKind::Search)
        } else if wanted == String::from_str(ServiceKind::Analytics.name()) {
            Some(ServiceKind::Analytics)
        } else if wanted == String::from_str(ServiceKind::Index.name()) {
            Some(ServiceKind::Index)
        } else {
            None
        }
    }

    /// Every service is the one that goes by its name.
    pub proof fn lemma_name_names_the_service(self)
        ensures
            ServiceKind::spec_from_name(self.spec_name()) == Some(self),
    {
        reveal_strlit("data");
        reveal_strlit("query");
        reveal_strlit("search");
        reveal_strlit("analytics");
        reveal_strlit("index");
        assert("data"@.len() == 4 && "query"@.len() == 5 && "search"@.len() == 6
            && "analytics"@.len() == 9 && "index"@.len() == 5);
        assert("query"@[0] == 'q' && "index"@[0] == 'i');
    }

    pub fn default_port(self) -> (port: u16)
        ensures
            port == self.spec_default_port(),
    {
        match self {
            ServiceKind::Data => 11210,
            ServiceKind::Query => 8093,
            ServiceKind::Search => 8094,
            ServiceKind::Analytics => 8095,
            ServiceKind::Index => 9102,
        }
    }
}

/// The address a service binds to: the one it was configured with, or every
/// interface at its default port where it was configured with none.
pub open spec fn bind_address_spec(kind: ServiceKind, configured: Option<Seq<char>>) -> Seq<char> {
    match configured {
        Some(address) => address,
        None => "0.0.0.0:"@ + decimal(kind.spec_default_port() as nat),
    }
}

/// The address a service binds to, given what it was configured with.
pub fn bind_address(kind: ServiceKind, configured: Option<String>) -> (address: String)
    ensures
        address@ == bind_address_spec(
            kind,
            match configured {
                Some(a) => Some(a@),
                None => None,
            },
        ),
{
    match configured {
        Some(address) => address,
        None => {
            let mut address = String::from_str("0.0.0.0:");
            push_decimal(&mut address, kind.default_port() as u64);
            address
        },
    }
}

} // verus!
