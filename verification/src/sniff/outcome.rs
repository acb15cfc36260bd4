//! What sniffing finds.

use vstd::prelude::*;

use super::domain::{domain_of, normalize_domain};
use crate::text::{ascii_text, same_text};

verus! {

/// The application protocol that a flow was recognised as.
#[derive(Clone, Copy, Debug, PartialEq, Eq, Structural)]
pub enum SniffedProtocol {
    Tls,
    Http,
    Quic,
    Ssh,
}

/// The protocol of a name, as configurations write it.
pub open spec fn protocol_named(name: Seq<char>) -> Option<SniffedProtocol> {
    if name == "tls"@ {
        Some(SniffedProtocol::Tls)
    } else if name == "http"@ {
        Some(SniffedProtocol::Http)
    } else if name == "quic"@ {
        Some(SniffedProtocol::Quic)
    } else if name == "ssh"@ {
        Some(SniffedProtocol::Ssh)
    } else {
        None
    }
}

impl SniffedProtocol {
    /// The protocol of a name in lower case.
    pub fn named(name: &str) -> (protocol: Option<Self>)
        ensures
            protocol == protocol_named(name@),
    {
        if same_text(name, "tls") {
            Some(SniffedProtocol::Tls)
        } else if same_text(name, "http") {
            Some(SniffedProtocol::Http)
        } else if same_text(name, "quic") {
            Some(SniffedProtocol::Quic)
        } else if same_text(name, "ssh") {
            Some(SniffedProtocol::Ssh)
        } else {
            None
        }
    }
}

/// A domain in normal form and the protocol that named it.
#[derive(Clone, Debug, PartialEq, Eq)]
pub struct SniffedDomain {
    pub protocol: SniffedProtocol,
    pub domain: String,
}

/// The result of looking at the bytes seen so far.
#[derive(Clone, Debug, PartialEq, Eq)]
pub enum SniffOutcome {
    NeedMoreData,
    Domain(SniffedDomain),
    NoDomain,
}

/// The mathematical form of a `SniffOutcome`.
pub enum Finding {
    NeedMoreData,
    Domain(SniffedProtocol, Seq<char>),
    NoDomain,
}

impl View for SniffedDomain {
    type V = (SniffedProtocol, Seq<char>);

    open spec fn view(&self) -> (SniffedProtocol, Seq<char>) {
        (self.protocol, self.domain@)
    }
}

impl View for SniffOutcome {
    type V = Finding;

    open spec fn view(&self) -> Finding {
        match self {
            SniffOutcome::NeedMoreData => Finding::NeedMoreData,
            SniffOutcome::Domain(sniffed) => Finding::Domain(sniffed.protocol, sniffed.domain@),
            SniffOutcome::NoDomain => Finding::NoDomain,
        }
    }
}

/// What an authority given by `protocol` amounts to.
pub open spec fn domain_finding(protocol: SniffedProtocol, authority: Seq<u8>) -> Finding {
    match domain_of(authority) {
        Some(name) => Finding::Domain(protocol, ascii_text(name)),
        None => Finding::NoDomain,
    }
}

impl SniffOutcome {
    /// The domain that `authority` names, or `NoDomain` where it names none.
    pub fn domain(protocol: SniffedProtocol, authority: &[u8]) -> (outcome: Self)
        ensures
            outcome@ == domain_finding(protocol, authority@),
    {
        match normalize_domain(authority) {
            Some(domain) => SniffOutcome::Domain(SniffedDomain { protocol, domain }),
            None => SniffOutcome::NoDomain,
        }
    }
}

/// A domain is found exactly where the authority names one, with the protocol that named it, in
/// lower case.
pub proof fn law_findings_name_the_domain(protocol: SniffedProtocol, authority: Seq<u8>)
    ensures
        domain_finding(protocol, authority) is Domain <==> domain_of(authority) is Some,
        domain_finding(protocol, authority) is NoDomain <==> domain_of(authority) is None,
        domain_finding(protocol, authority) matches Finding::Domain(named, text) ==> named
            == protocol && text.len() == domain_of(authority)->Some_0.len() && forall|i: int|
            0 <= i < text.len() ==> #[trigger] text[i] as int == domain_of(authority)->Some_0[i],
{
}

} // verus!
