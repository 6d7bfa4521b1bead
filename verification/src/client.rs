//! A client shell around the negotiator: it owns the negotiation state, the
//! conversation buffers, and the fixed set of capabilities this client
//! supports.

use vstd::prelude::*;

use crate::buffer::{Buffer, BufferModel};
use crate::cap_negotiator::{
    negotiator_wf, spec_ls_message, CapNegotiator, CapNegotiatorModel,
};
use crate::capability::{Capability, CapabilityModel};
use crate::message::Message;

verus! {

/// Where the client stands in the capability handshake.
pub enum ClientStateModel {
    PreCapLs,
    CapLs,
}

#[derive(Debug, PartialEq, Clone)]
enum ClientState {
    PreCapLs,
    CapLs,
}

/// A client-level error. No operation raises one yet.
#[derive(Debug, Clone, PartialEq)]
pub struct Error {}

/// The model of a client.
pub struct ClientModel {
    pub state: ClientStateModel,
    pub cap_negotiator: CapNegotiatorModel,
    pub buffers: Seq<BufferModel>,
}

/// A client: handshake state, the negotiator, and the buffers.
#[derive(Debug, Clone, PartialEq)]
pub struct Client {
    state: ClientState,
    cap_negotiator: CapNegotiator,
    pub buffers: Vec<Buffer>,
}

impl View for Client {
    type V = ClientModel;

    closed spec fn view(&self) -> ClientModel {
        ClientModel {
            state: match self.state {
                ClientState::PreCapLs => ClientStateModel::PreCapLs,
                ClientState::CapLs => ClientStateModel::CapLs,
            },
            cap_negotiator: self.cap_negotiator@,
            buffers: self.buffers.deep_view(),
        }
    }
}

impl Client {
    /// The capabilities this client supports: `sasl` alone.
    pub fn supported_capabilities() -> (r: Vec<Capability>)
        ensures
            r.deep_view() == seq![CapabilityModel::Single("sasl"@)],
    {
        let mut r: Vec<Capability> = Vec::new();
        r.push(Capability::new("sasl"));
        proof {
            assert(r.deep_view() =~= seq![CapabilityModel::Single("sasl"@)]);
        }
        r
    }

    /// A fresh client: before the handshake, desiring the supported
    /// capabilities, with no buffers.
    pub fn new() -> (r: Self)
        ensures
            r@.state is PreCapLs,
            r@.cap_negotiator.requested == seq![CapabilityModel::Single("sasl"@)],
            r@.cap_negotiator.acknowledged == Seq::<CapabilityModel>::empty(),
            r@.cap_negotiator.not_acknowledged == Seq::<CapabilityModel>::empty(),
            r@.buffers == Seq::<BufferModel>::empty(),
            negotiator_wf(r@.cap_negotiator),
    {
        let buffers: Vec<Buffer> = Vec::new();
        let r = Client {
            state: ClientState::PreCapLs,
            cap_negotiator: CapNegotiator::request(Self::supported_capabilities()),
            buffers,
        };
        proof {
            assert(r@.buffers =~= Seq::<BufferModel>::empty());
            assert(seq![CapabilityModel::Single("sasl"@)].len() == 1);
        }
        r
    }

    /// Opens the handshake: marks the client as probing and returns the
    /// `CAP LS 302` message to send.
    pub fn request_capabilities(&mut self) -> (r: Message)
        ensures
            final(self)@.state is CapLs,
            final(self)@.cap_negotiator == old(self)@.cap_negotiator,
            final(self)@.buffers == old(self)@.buffers,
            r@ == spec_ls_message(Some("302"@)),
    {
        self.state = ClientState::CapLs;
        self.cap_negotiator.ls(Some("302"))
    }

    /// Takes note of an incoming message. No message changes the client yet.
    pub fn handle(&mut self, message: &Message) -> (r: Result<(), Error>)
        ensures
            final(self)@ == old(self)@,
            r is Ok,
    {
        let _ = message;
        Ok(())
    }
}

} // verus!
