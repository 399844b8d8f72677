//! How the listeners of a configuration are opened.
use crate::config::internal::{ListenerConfig, ListenerKind, ListenerV};
use vstd::prelude::*;

verus! {

/// A listener to open.
#[derive(Debug)]
#[allow(inconsistent_fields)]
pub enum ListenerAction {
    /// With a certificate and its key; `offer_h2` says whether HTTP/2 is offered.
    Tls { addr: String, cert_path: String, key_path: String, offer_h2: bool },
    /// Without encryption.
    Tcp { addr: String },
    /// On a socket in the file system.
    Uds { path: String },
}

/// The contents of a `ListenerAction`.
pub enum ListenerActionV {
    Tls { addr: Seq<char>, cert_path: Seq<char>, key_path: Seq<char>, offer_h2: bool },
    Tcp { addr: Seq<char> },
    Uds { path: Seq<char> },
}

impl View for ListenerAction {
    type V = ListenerActionV;

    open spec fn view(&self) -> ListenerActionV {
        match self {
            ListenerAction::Tls { addr, cert_path, key_path, offer_h2 } => ListenerActionV::Tls {
                addr: addr@,
                cert_path: cert_path@,
                key_path: key_path@,
                offer_h2: *offer_h2,
            },
            ListenerAction::Tcp { addr } => ListenerActionV::Tcp { addr: addr@ },
            ListenerAction::Uds { path } => ListenerActionV::Uds { path: path@ },
        }
    }
}

/// How a listener is opened; the address of one that offers HTTP/2 without encryption, which is not
/// supported.
pub open spec fn action_of(l: ListenerV) -> Result<ListenerActionV, Seq<char>> {
    match l {
        ListenerV::Tcp { addr, tls, offer_h2 } => match tls {
            Some(t) => Ok(
                ListenerActionV::Tls {
                    addr,
                    cert_path: t.cert_path,
                    key_path: t.key_path,
                    offer_h2,
                },
            ),
            None => if offer_h2 {
                Err(addr)
            } else {
                Ok(ListenerActionV::Tcp { addr })
            },
        },
        ListenerV::Uds(path) => Ok(ListenerActionV::Uds { path }),
    }
}

/// How the listener is opened, or the address of one that cannot be.
pub fn listener_action(listener: ListenerConfig) -> (r: Result<ListenerAction, String>)
    ensures
        match action_of(listener@) {
            Ok(a) => r matches Ok(x) && x@ == a,
            Err(e) => r matches Err(x) && x@ == e,
        },
{
    match listener.source {
        ListenerKind::Tcp { addr, tls, offer_h2 } => match tls {
            Some(t) => Ok(
                ListenerAction::Tls {
                    addr,
                    cert_path: t.cert_path,
                    key_path: t.key_path,
                    offer_h2,
                },
            ),
            None => if offer_h2 {
                Err(addr)
            } else {
                Ok(ListenerAction::Tcp { addr })
            },
        },
        ListenerKind::Uds(path) => Ok(ListenerAction::Uds { path }),
    }
}

} // verus!
