//! The TCP client's configuration, its builder, and the encoding of a
//! request. The connection itself is made by the application.
pub mod types;

use crate::lib_old::{duration_from_secs, secs_duration, NanonisError, NanonisValue};
use crate::nanonis::protocol::{
    first_refused, header_bytes, request_body, serialized, type_codes, unsupported_text, views, Protocol,
};
use vstd::utf8::encode_utf8;
use vstd::prelude::*;
use vstd::string::*;

verus! {

/// Connection configuration for the Nanonis TCP client.
///
/// Contains timeout settings for different phases of the TCP connection
/// lifecycle. All timeouts have sensible defaults but can be customized for
/// specific network conditions.
#[derive(Debug, Clone, Copy)]
pub struct ConnectionConfig {
    /// Timeout for establishing the initial TCP connection
    pub connect_timeout: std::time::Duration,
    /// Timeout for reading data from the Nanonis server
    pub read_timeout: std::time::Duration,
    /// Timeout for writing data to the Nanonis server
    pub write_timeout: std::time::Duration,
}

impl ConnectionConfig {
    /// The default timeouts: 5 s to connect, 10 s to read, 5 s to write.
    pub open spec fn is_default(self) -> bool {
        &&& self.connect_timeout == secs_duration(5)
        &&& self.read_timeout == secs_duration(10)
        &&& self.write_timeout == secs_duration(5)
    }
}

impl Default for ConnectionConfig {
    fn default() -> (r: Self)
        ensures
            r.is_default(),
    {
        Self {
            connect_timeout: duration_from_secs(5),
            read_timeout: duration_from_secs(10),
            write_timeout: duration_from_secs(5),
        }
    }
}

/// Builder for constructing Nanonis client instances with flexible
/// configuration.
pub struct NanonisClientBuilder {
    address: Option<String>,
    port: Option<u16>,
    config: ConnectionConfig,
    debug: bool,
}

impl NanonisClientBuilder {
    /// The address set so far.
    pub closed spec fn address_view(&self) -> Option<Seq<char>> {
        match self.address {
            Some(a) => Some(a@),
            None => None,
        }
    }

    /// The port set so far.
    pub closed spec fn port_view(&self) -> Option<u16> {
        self.port
    }

    /// The connection configuration set so far.
    pub closed spec fn config_view(&self) -> ConnectionConfig {
        self.config
    }

    /// Whether debug logging is on.
    pub closed spec fn debug_view(&self) -> bool {
        self.debug
    }

    pub fn address(self, addr: &str) -> (r: Self)
        ensures
            r.address_view() == Some(addr@),
            r.port_view() == self.port_view(),
            r.config_view() == self.config_view(),
            r.debug_view() == self.debug_view(),
    {
        NanonisClientBuilder { address: Some(String::from_str(addr)), ..self }
    }

    pub fn port(self, port: u16) -> (r: Self)
        ensures
            r.address_view() == self.address_view(),
            r.port_view() == Some(port),
            r.config_view() == self.config_view(),
            r.debug_view() == self.debug_view(),
    {
        NanonisClientBuilder { port: Some(port), ..self }
    }

    /// Enable or disable debug logging
    pub fn debug(self, debug: bool) -> (r: Self)
        ensures
            r.address_view() == self.address_view(),
            r.port_view() == self.port_view(),
            r.config_view() == self.config_view(),
            r.debug_view() == debug,
    {
        NanonisClientBuilder { debug, ..self }
    }

    /// Set the full connection configuration
    pub fn config(self, config: ConnectionConfig) -> (r: Self)
        ensures
            r.address_view() == self.address_view(),
            r.port_view() == self.port_view(),
            r.config_view() == config,
            r.debug_view() == self.debug_view(),
    {
        NanonisClientBuilder { config, ..self }
    }

    /// Set connect timeout
    pub fn connect_timeout(self, timeout: std::time::Duration) -> (r: Self)
        ensures
            r.address_view() == self.address_view(),
            r.port_view() == self.port_view(),
            r.config_view() == (ConnectionConfig {
                connect_timeout: timeout,
                ..self.config_view()
            }),
            r.debug_view() == self.debug_view(),
    {
        let config = ConnectionConfig { connect_timeout: timeout, ..self.config };
        NanonisClientBuilder { config, ..self }
    }

    /// Set read timeout
    pub fn read_timeout(self, timeout: std::time::Duration) -> (r: Self)
        ensures
            r.address_view() == self.address_view(),
            r.port_view() == self.port_view(),
            r.config_view() == (ConnectionConfig { read_timeout: timeout, ..self.config_view() }),
            r.debug_view() == self.debug_view(),
    {
        let config = ConnectionConfig { read_timeout: timeout, ..self.config };
        NanonisClientBuilder { config, ..self }
    }

    /// Set write timeout
    pub fn write_timeout(self, timeout: std::time::Duration) -> (r: Self)
        ensures
            r.address_view() == self.address_view(),
            r.port_view() == self.port_view(),
            r.config_view() == (ConnectionConfig { write_timeout: timeout, ..self.config_view() }),
            r.debug_view() == self.debug_view(),
    {
        let config = ConnectionConfig { write_timeout: timeout, ..self.config };
        NanonisClientBuilder { config, ..self }
    }

    /// What a connection is made from: the address, the port, the
    /// configuration and the debug flag. An address or a port that was never
    /// set is an invalid command, the address checked first.
    pub fn into_parts(self) -> (r: Result<(String, u16, ConnectionConfig, bool), NanonisError>)
        ensures
            self.address_view() is None ==> (r matches Err(NanonisError::InvalidCommand(m)) && m@
                == "Address must be specified"@),
            self.address_view() is Some && self.port_view() is None ==> (r matches Err(
                NanonisError::InvalidCommand(m),
            ) && m@ == "Port must be specified"@),
            self.address_view() is Some && self.port_view() is Some ==> (r matches Ok(
                (a, p, c, d),
            ) && Some(a@) == self.address_view() && Some(p) == self.port_view() && c
                == self.config_view() && d == self.debug_view()),
    {
        let address = match self.address {
            Some(a) => a,
            None => {
                return Err(
                    NanonisError::InvalidCommand(String::from_str("Address must be specified")),
                );
            },
        };
        let port = match self.port {
            Some(p) => p,
            None => {
                return Err(NanonisError::InvalidCommand(String::from_str("Port must be specified")));
            },
        };
        Ok((address, port, self.config, self.debug))
    }
}

impl Default for NanonisClientBuilder {
    fn default() -> (r: Self)
        ensures
            r.address_view() is None,
            r.port_view() is None,
            r.config_view().is_default(),
            !r.debug_view(),
    {
        NanonisClientBuilder {
            address: None,
            port: None,
            config: ConnectionConfig::default(),
            debug: false,
        }
    }
}

/// Encode a request: the arguments serialized in order under their type
/// codes (pairs beyond the shorter of the two lists are ignored), and the
/// header that announces that body. The first argument that its code does
/// not take makes it a type error naming that value and that code.
pub fn encode_request(command: &str, args: &[NanonisValue], argument_types: &[&str]) -> (r:
    Result<(Vec<u8>, Vec<u8>), NanonisError>)
    ensures
        match request_body(views(args@), type_codes(argument_types@)) {
            Some(body) => r matches Ok((header, b)) && b@ == body && header@ == header_bytes(
                command.spec_bytes(),
                body.len() as u32,
            ),
            None => r matches Err(NanonisError::Type(m)) && exists|k: int|
                first_refused(views(args@), type_codes(argument_types@), k) && m@
                    == unsupported_text(views(args@)[k], type_codes(argument_types@)[k]),
        },
{
    let mut body: Vec<u8> = Vec::new();
    let n = if args.len() < argument_types.len() {
        args.len()
    } else {
        argument_types.len()
    };
    let mut i: usize = 0;
    let ghost vs = views(args@);
    let ghost ts = type_codes(argument_types@);
    proof {
        assert(vs.take(0) =~= Seq::<crate::lib_old::ValueView>::empty());
    }
    while i < n
        invariant
            n <= args@.len(),
            n <= argument_types@.len(),
            vs == views(args@),
            ts == type_codes(argument_types@),
            i <= n,
            request_body(vs.take(i as int), ts.take(i as int)) == Some(body@),
            forall|j: int| 0 <= j < i ==> (#[trigger] serialized(vs[j], encode_utf8(ts[j]))) is Some,
        decreases n - i,
    {
        proof {
            assert(vs.take(i + 1).drop_last() =~= vs.take(i as int));
            assert(ts.take(i + 1).drop_last() =~= ts.take(i as int));
        }
        match Protocol::serialize_value(&args[i], argument_types[i], &mut body) {
            Ok(()) => {
                proof {
                    assert(vs[i as int] == args@[i as int]@);
                    assert(ts[i as int] == argument_types@[i as int]@);
                }
            },
            Err(e) => {
                proof {
                    assert(vs[i as int] == args@[i as int]@);
                    assert(ts[i as int] == argument_types@[i as int]@);
                    crate::nanonis::protocol::lemma_request_body_fail_stays(vs, ts, (i + 1) as nat);
                    assert(first_refused(vs, ts, i as int));
                }
                return Err(e);
            },
        }
        i = i + 1;
    }
    proof {
        crate::nanonis::protocol::lemma_request_body_prefix(vs, ts, n as nat);
    }
    let header = Protocol::create_command_header(command, body.len() as u32);
    Ok((header, body))
}

} // verus!
