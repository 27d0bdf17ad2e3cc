//! Finding the car on the network, and the one Telnet connection to it.

use vstd::prelude::*;

use crate::error::ApiError;
use crate::text::{joined, starts_with};

verus! {

/// The gateway of the network, out of what looking it up gave.
pub fn get_gateway(lookup: Option<String>) -> (r: Result<String, ApiError>)
    ensures
        r == match lookup {
            Some(gateway) => Ok(gateway),
            None => Err(ApiError::GatewayNotFound),
        },
{
    match lookup {
        Some(gateway) => Ok(gateway),
        None => Err(ApiError::GatewayNotFound),
    }
}

/// Whether the network is the car's hotspot: its gateway's address begins with `192.168.33.`.
pub fn is_haval_hotspot(lookup: Option<String>) -> (r: Result<(), ApiError>)
    ensures
        r == match lookup {
            Some(gateway) => if "192.168.33."@.is_prefix_of(gateway@) {
                Ok(())
            } else {
                Err(ApiError::NotHavalHotspot(gateway))
            },
            None => Err(ApiError::GatewayNotFound),
        },
{
    match get_gateway(lookup) {
        Ok(gateway) => {
            if !starts_with(gateway.as_str(), "192.168.33.") {
                return Err(ApiError::NotHavalHotspot(gateway));
            }
            Ok(())
        },
        Err(e) => Err(e),
    }
}

/// The address to dial: Telnet's port on the gateway.
pub fn telnet_address(gateway: &str) -> (r: String)
    ensures
        r@ == gateway@ + ":23"@,
{
    joined(gateway, ":23")
}

/// The connection to the car, where there is one.
pub struct ConnectionState<S> {
    stream: Option<S>,
}

impl<S> View for ConnectionState<S> {
    type V = Option<S>;

    closed spec fn view(&self) -> Option<S> {
        self.stream
    }
}

/// Whether a connection may be opened, given the one that is held.
pub open spec fn connect_allowed<S>(held: Option<S>) -> Result<(), ApiError> {
    match held {
        Some(_) => Err(ApiError::AlreadyConnected),
        None => Ok(()),
    }
}

/// What is held after dialling, and what is answered.
pub open spec fn connect_result<S>(held: Option<S>, dialled: Result<S, String>) -> (
    Option<S>,
    Result<(), ApiError>,
) {
    match (connect_allowed(held), dialled) {
        (Err(e), _) => (held, Err(e)),
        (Ok(_), Ok(stream)) => (Some(stream), Ok(())),
        (Ok(_), Err(reason)) => (None, Err(ApiError::Io(reason))),
    }
}

impl<S> ConnectionState<S> {
    /// No connection yet.
    pub fn new() -> (r: Self)
        ensures
            r@ is None,
    {
        ConnectionState { stream: None }
    }

    /// Whether there is a connection.
    pub fn is_connected(&self) -> (r: bool)
        ensures
            r == (self@ is Some),
    {
        self.stream.is_some()
    }

    /// Whether a connection may be opened: not while there is one.
    pub fn begin_connect(&self) -> (r: Result<(), ApiError>)
        ensures
            r == connect_allowed(self@),
    {
        if self.is_connected() {
            return Err(ApiError::AlreadyConnected);
        }
        Ok(())
    }

    /// Takes what dialling gave: keeps the new connection, or reports why there is none.
    pub fn finish_connect(&mut self, dialled: Result<S, String>) -> (r: Result<(), ApiError>)
        ensures
            (final(self)@, r) == connect_result(old(self)@, dialled),
    {
        match self.begin_connect() {
            Ok(_) => match dialled {
                Ok(stream) => {
                    self.stream = Some(stream);
                    Ok(())
                },
                Err(reason) => Err(ApiError::Io(reason)),
            },
            Err(e) => Err(e),
        }
    }

    /// Drops the connection, which closes it, and tells whether there was one.
    pub fn disconnect(&mut self) -> (r: bool)
        ensures
            final(self)@ is None,
            r == (old(self)@ is Some),
    {
        let held = self.is_connected();
        if held {
            self.stream = None;
        }
        held
    }

    /// The connection, to read from or write to.
    pub fn stream(&mut self) -> (r: Result<&mut S, ApiError>)
        ensures
            match r {
                Ok(stream) => {
                    &&& old(self)@ == Some(*stream)
                    &&& final(self)@ == Some(*final(stream))
                },
                Err(e) => {
                    &&& old(self)@ is None
                    &&& final(self)@ is None
                    &&& e == ApiError::NotConnected
                },
            },
    {
        match &mut self.stream {
            Some(stream) => Ok(stream),
            None => Err(ApiError::NotConnected),
        }
    }
}

/// There is one connection at a time: while one is held a second is refused, whatever dialling
/// gave, and the one that is held stays.
pub proof fn law_one_connection_at_a_time<S>(held: S, dialled: Result<S, String>)
    ensures
        connect_allowed(Some(held)) == Err::<(), ApiError>(ApiError::AlreadyConnected),
        connect_result(Some(held), dialled) == (
            Some(held),
            Err::<(), ApiError>(ApiError::AlreadyConnected),
        ),
{
}

/// A connection is held exactly where opening it succeeded; a failed attempt leaves none.
pub proof fn law_connected_iff_connecting_succeeded<S>(dialled: Result<S, String>)
    ensures
        connect_result(None, dialled).0 is Some <==> connect_result(None, dialled).1 is Ok,
        connect_result(None, dialled).1 is Ok <==> dialled is Ok,
{
}

} // verus!
