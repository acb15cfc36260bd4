//! Connections through another SOCKS5 proxy: target parsing and the client side of the handshake.

use vstd::prelude::*;
use vstd::string::*;
use vstd::utf8::*;

use super::error::{OutputError, OutputFault};
use crate::address::{
    groups_of, ipv4_octets, ipv6_groups, lemma_groups_are_numbers, lemma_octets_are_bytes,
    parse_ipv4, parse_ipv6, SocketAddress,
};
use crate::text::{
    chars_of, decimal_text, find_char, find_last_char, last_position,
    law_decimal_text_spells_its_number, lemma_position_is, number_text, parse_u16, position,
    u16_of,
};

verus! {

/// What a target names.
pub enum TargetFinding {
    Target(Seq<char>, u16),
    Invalid(Seq<char>),
}

/// The host and the port that follows it, if the port is one.
pub open spec fn host_and_port(host: Seq<char>, port: Seq<char>) -> TargetFinding {
    match u16_of(port) {
        Some(number) => TargetFinding::Target(host, number),
        None => TargetFinding::Invalid("invalid port: "@ + port),
    }
}

/// What a target names: `host:port`, or `[host]:port` where the host holds colons.
pub open spec fn target_finding(target: Seq<char>) -> TargetFinding {
    if target.len() > 0 && target[0] == '[' {
        match position(target, ']') {
            Some(end) => if end + 1 < target.len() && target[end + 1] == ':' {
                host_and_port(target.subrange(1, end), target.skip(end + 2))
            } else {
                TargetFinding::Invalid("invalid IPv6 address format: "@ + target)
            },
            None => TargetFinding::Invalid("invalid IPv6 address format: "@ + target),
        }
    } else {
        match last_position(target, ':') {
            Some(colon) => host_and_port(target.take(colon), target.skip(colon + 1)),
            None => TargetFinding::Invalid("missing port in target: "@ + target),
        }
    }
}

fn invalid_target(prefix: &str, rest: &str) -> (error: OutputError)
    ensures
        error@ == OutputFault::InvalidTarget(prefix@ + rest@),
{
    let mut message = prefix.to_owned();
    message.append(rest);
    OutputError::InvalidTarget(message)
}

/// Splits a target into host and port.
pub fn parse_target(target: &str) -> (result: Result<(&str, u16), OutputError>)
    ensures
        match target_finding(target@) {
            TargetFinding::Target(host, port) => result matches Ok((found, number)) && found@
                == host && number == port,
            TargetFinding::Invalid(message) => result matches Err(error) && error@
                == OutputFault::InvalidTarget(message),
        },
{
    let chars = chars_of(target);
    let length: usize = chars.len();
    if length > 0 && chars[0] == '[' {
        if let Some(end) = find_char(&chars, ']') {
            if end + 1 < length && chars[end + 1] == ':' {
                proof {
                    crate::text::lemma_position(chars@, ']');
                }
                let port = target.substring_char(end + 2, length);
                assert(port@ =~= target@.skip(end + 2));
                return match parse_u16(&chars, end + 2) {
                    Some(number) => Ok((target.substring_char(1, end), number)),
                    None => Err(invalid_target("invalid port: ", port)),
                };
            }
        }
        return Err(invalid_target("invalid IPv6 address format: ", target));
    }
    match find_last_char(&chars, ':') {
        Some(colon) => {
            let host = target.substring_char(0, colon);
            let port = target.substring_char(colon + 1, length);
            assert(host@ =~= target@.take(colon as int));
            assert(port@ =~= target@.skip(colon + 1));
            match parse_u16(&chars, colon + 1) {
                Some(number) => Ok((host, number)),
                None => Err(invalid_target("invalid port: ", port)),
            }
        },
        None => Err(invalid_target("missing port in target: ", target)),
    }
}

/// A length in one byte, as far as it fits.
pub open spec fn length_byte(bytes: Seq<u8>) -> u8 {
    (bytes.len() % 256) as u8
}

/// The octets that eight groups stand for.
pub open spec fn octets_of_groups(groups: Seq<int>) -> Seq<u8> {
    Seq::new(
        16,
        |i: int|
            if i % 2 == 0 {
                (groups[i / 2] / 256) as u8
            } else {
                (groups[i / 2] % 256) as u8
            },
    )
}

/// The address part of a connect request: an IPv4 address, an IPv6 address, or a name.
pub open spec fn request_address(host: Seq<u8>) -> Seq<u8> {
    match ipv4_octets(host) {
        Some(octets) => seq![1u8] + octets.map_values(|octet: int| octet as u8),
        None => match ipv6_groups(host) {
            Some(groups) => seq![4u8] + octets_of_groups(groups),
            None => seq![3u8, length_byte(host)] + host,
        },
    }
}

/// A connect request.
pub open spec fn connect_request(host: Seq<char>, port: u16) -> Seq<u8> {
    seq![5u8, 1u8, 0u8] + request_address(encode_utf8(host)) + seq![
        (port / 256) as u8,
        (port % 256) as u8,
    ]
}

/// A request for authentication with a user name and a password.
pub open spec fn auth_request(username: Seq<char>, password: Seq<char>) -> Seq<u8> {
    seq![1u8, length_byte(encode_utf8(username))] + encode_utf8(username) + seq![
        length_byte(encode_utf8(password)),
    ] + encode_utf8(password)
}

/// The greeting: authentication is offered only where there is something to authenticate with.
pub open spec fn greeting(with_auth: bool) -> Seq<u8> {
    if with_auth {
        seq![5u8, 2u8, 0u8, 2u8]
    } else {
        seq![5u8, 1u8, 0u8]
    }
}

/// What a refused connect request says.
pub open spec fn reply_message(code: u8) -> Seq<char> {
    if code == 1 {
        "general SOCKS server failure"@
    } else if code == 2 {
        "connection not allowed by ruleset"@
    } else if code == 3 {
        "network unreachable"@
    } else if code == 4 {
        "host unreachable"@
    } else if code == 5 {
        "connection refused"@
    } else if code == 6 {
        "TTL expired"@
    } else if code == 7 {
        "command not supported"@
    } else if code == 8 {
        "address type not supported"@
    } else {
        "unknown error"@
    }
}

/// What the client waits for.
#[derive(Clone, Copy, Debug, PartialEq, Eq, Structural)]
pub enum HandshakeStage {
    /// The choice of an authentication method.
    Method,
    /// The result of the authentication.
    Auth,
    /// The head of the answer to the connect request.
    Response,
    /// The address that the proxy connects from, with its port: so many bytes.
    BoundAddress(usize),
    /// The length of the name that the proxy connects from.
    BoundNameLength,
    /// The connection is made.
    Connected,
}

impl HandshakeStage {
    /// The number of bytes that the client waits for.
    pub open spec fn expected(self) -> int {
        match self {
            HandshakeStage::Method => 2,
            HandshakeStage::Auth => 2,
            HandshakeStage::Response => 4,
            HandshakeStage::BoundAddress(length) => length as int,
            HandshakeStage::BoundNameLength => 1,
            HandshakeStage::Connected => 0,
        }
    }
}

/// What the handshake is about.
pub struct HandshakeModel {
    pub host: Seq<char>,
    pub port: u16,
    pub auth: Option<(Seq<char>, Seq<char>)>,
    pub stage: HandshakeStage,
}

/// What follows from an answer of the proxy: the next stage and the bytes to send before it, or
/// an error.
pub enum HandshakeFinding {
    Next(HandshakeStage, Seq<u8>),
    Failed(Seq<char>),
}

impl HandshakeModel {
    /// What follows when the proxy has answered `bytes`.
    pub open spec fn after(self, bytes: Seq<u8>) -> HandshakeFinding {
        let request = connect_request(self.host, self.port);
        match self.stage {
            HandshakeStage::Method => if bytes[0] != 5 {
                HandshakeFinding::Failed("invalid SOCKS version"@)
            } else if bytes[1] == 0 {
                HandshakeFinding::Next(HandshakeStage::Response, request)
            } else if bytes[1] == 2 {
                match self.auth {
                    Some((username, password)) => HandshakeFinding::Next(
                        HandshakeStage::Auth,
                        auth_request(username, password),
                    ),
                    None => HandshakeFinding::Failed("auth required but not provided"@),
                }
            } else if bytes[1] == 255 {
                HandshakeFinding::Failed("no acceptable auth method"@)
            } else {
                HandshakeFinding::Failed(
                    "unsupported auth method: "@ + decimal_text(bytes[1] as nat),
                )
            },
            HandshakeStage::Auth => if bytes[1] != 0 {
                HandshakeFinding::Failed("authentication failed"@)
            } else {
                HandshakeFinding::Next(HandshakeStage::Response, request)
            },
            HandshakeStage::Response => if bytes[0] != 5 {
                HandshakeFinding::Failed("invalid SOCKS version in response"@)
            } else if bytes[1] != 0 {
                HandshakeFinding::Failed(reply_message(bytes[1]))
            } else if bytes[3] == 1 {
                HandshakeFinding::Next(HandshakeStage::BoundAddress(6), Seq::empty())
            } else if bytes[3] == 4 {
                HandshakeFinding::Next(HandshakeStage::BoundAddress(18), Seq::empty())
            } else if bytes[3] == 3 {
                HandshakeFinding::Next(HandshakeStage::BoundNameLength, Seq::empty())
            } else {
                HandshakeFinding::Failed("invalid address type: "@ + decimal_text(bytes[3] as nat))
            },
            HandshakeStage::BoundNameLength => HandshakeFinding::Next(
                HandshakeStage::BoundAddress((bytes[0] + 2) as usize),
                Seq::empty(),
            ),
            HandshakeStage::BoundAddress(_) => HandshakeFinding::Next(
                HandshakeStage::Connected,
                Seq::empty(),
            ),
            HandshakeStage::Connected => HandshakeFinding::Next(
                HandshakeStage::Connected,
                Seq::empty(),
            ),
        }
    }
}

/// The client side of a SOCKS5 handshake.
pub struct Socks5Handshake {
    host: String,
    port: u16,
    auth: Option<(String, String)>,
    stage: HandshakeStage,
}

impl View for Socks5Handshake {
    type V = HandshakeModel;

    closed spec fn view(&self) -> HandshakeModel {
        HandshakeModel {
            host: self.host@,
            port: self.port,
            auth: match self.auth {
                Some((username, password)) => Some((username@, password@)),
                None => None,
            },
            stage: self.stage,
        }
    }
}

/// An output that goes through another SOCKS5 proxy.
pub struct Socks5Output {
    pub proxy_addr: SocketAddress,
    pub auth: Option<(String, String)>,
}

impl Socks5Output {
    pub fn new(proxy_addr: SocketAddress) -> (output: Self)
        ensures
            output.proxy_addr == proxy_addr,
            output.auth is None,
    {
        Socks5Output { proxy_addr, auth: None }
    }

    pub fn with_auth(self, username: String, password: String) -> (output: Self)
        ensures
            output.proxy_addr == self.proxy_addr,
            output.auth == Some((username, password)),
    {
        Socks5Output { proxy_addr: self.proxy_addr, auth: Some((username, password)) }
    }

    /// Starts a handshake with the proxy: the state of it and the greeting to send.
    pub fn connect(&self, target: &str) -> (result: Result<(Socks5Handshake, Vec<u8>), OutputError>)
        ensures
            match target_finding(target@) {
                TargetFinding::Target(host, port) => result matches Ok((handshake, bytes))
                    && handshake@ == (HandshakeModel {
                    host,
                    port,
                    auth: match self.auth {
                        Some((username, password)) => Some((username@, password@)),
                        None => None,
                    },
                    stage: HandshakeStage::Method,
                }) && bytes@ == greeting(self.auth is Some),
                TargetFinding::Invalid(message) => result matches Err(error) && error@
                    == OutputFault::InvalidTarget(message),
            },
    {
        let (host, port) = match parse_target(target) {
            Ok(parts) => parts,
            Err(error) => return Err(error),
        };
        let auth = match &self.auth {
            Some((username, password)) => Some((username.clone(), password.clone())),
            None => None,
        };
        let bytes: Vec<u8> = if self.auth.is_some() {
            vec![5, 2, 0, 2]
        } else {
            vec![5, 1, 0]
        };
        assert(bytes@ =~= greeting(self.auth is Some));
        Ok(
            (
                Socks5Handshake {
                    host: host.to_owned(),
                    port,
                    auth,
                    stage: HandshakeStage::Method,
                },
                bytes,
            ),
        )
    }
}

fn socks5_error(message: &str) -> (error: OutputError)
    ensures
        error@ == OutputFault::Socks5(message@),
{
    OutputError::Socks5(message.to_owned())
}

fn numbered_error(message: &str, number: u8) -> (error: OutputError)
    ensures
        error@ == OutputFault::Socks5(message@ + decimal_text(number as nat)),
{
    let mut text = message.to_owned();
    text.append(number_text(number as u128).as_str());
    OutputError::Socks5(text)
}

fn reply_error(code: u8) -> (error: OutputError)
    ensures
        error@ == OutputFault::Socks5(reply_message(code)),
{
    if code == 1 {
        socks5_error("general SOCKS server failure")
    } else if code == 2 {
        socks5_error("connection not allowed by ruleset")
    } else if code == 3 {
        socks5_error("network unreachable")
    } else if code == 4 {
        socks5_error("host unreachable")
    } else if code == 5 {
        socks5_error("connection refused")
    } else if code == 6 {
        socks5_error("TTL expired")
    } else if code == 7 {
        socks5_error("command not supported")
    } else if code == 8 {
        socks5_error("address type not supported")
    } else {
        socks5_error("unknown error")
    }
}

fn encode_request_address(host: &[u8]) -> (bytes: Vec<u8>)
    ensures
        bytes@ == request_address(host@),
{
    if let Some(octets) = parse_ipv4(host) {
        let mut bytes: Vec<u8> = vec![1];
        bytes.extend_from_slice(octets.as_slice());
        assert(bytes@ =~= request_address(host@)) by {
            let numbers = octets@.map_values(|o: u8| o as int);
            assert(numbers.map_values(|octet: int| octet as u8) =~= octets@);
        }
        return bytes;
    }
    if let Some(octets) = parse_ipv6(host) {
        let mut bytes: Vec<u8> = vec![4];
        bytes.extend_from_slice(octets.as_slice());
        proof {
            let groups = groups_of(octets@);
            assert forall|i: int| 0 <= i < 16 implies octets_of_groups(groups)[i] == octets@[i] by {
                let half = i / 2;
                assert(groups[half] == octets@[2 * half] * 256 + octets@[2 * half + 1]);
                if i % 2 == 0 {
                    assert(2 * half == i);
                } else {
                    assert(2 * half + 1 == i);
                }
            }
            assert(octets_of_groups(groups) =~= octets@);
            assert(bytes@ =~= request_address(host@));
        }
        return bytes;
    }
    let mut bytes: Vec<u8> = vec![3, (host.len() % 256) as u8];
    bytes.extend_from_slice(host);
    assert(bytes@ =~= request_address(host@));
    bytes
}

impl Socks5Handshake {
    fn encode_connect_request(&self) -> (bytes: Vec<u8>)
        ensures
            bytes@ == connect_request(self@.host, self@.port),
    {
        let mut address = encode_request_address(self.host.as_str().as_bytes());
        let mut bytes: Vec<u8> = vec![5, 1, 0];
        bytes.append(&mut address);
        bytes.push((self.port / 256) as u8);
        bytes.push((self.port % 256) as u8);
        assert(bytes@ =~= connect_request(self@.host, self@.port));
        bytes
    }

    /// The number of bytes to read from the proxy next.
    pub fn expected(&self) -> (length: usize)
        ensures
            length == self@.stage.expected(),
    {
        match self.stage {
            HandshakeStage::Method => 2,
            HandshakeStage::Auth => 2,
            HandshakeStage::Response => 4,
            HandshakeStage::BoundAddress(length) => length,
            HandshakeStage::BoundNameLength => 1,
            HandshakeStage::Connected => 0,
        }
    }

    pub fn is_connected(&self) -> (result: bool)
        ensures
            result == (self@.stage == HandshakeStage::Connected),
    {
        matches!(self.stage, HandshakeStage::Connected)
    }

    /// Takes in what the proxy answered. Returns the bytes to send before the next answer.
    pub fn on_reply(&mut self, bytes: &[u8]) -> (result: Result<Vec<u8>, OutputError>)
        requires
            bytes@.len() == old(self)@.stage.expected(),
        ensures
            match old(self)@.after(bytes@) {
                HandshakeFinding::Next(stage, request) => {
                    &&& result matches Ok(sent)
                    &&& sent@ == request
                    &&& final(self)@ == (HandshakeModel { stage, ..old(self)@ })
                },
                HandshakeFinding::Failed(message) => {
                    &&& result matches Err(error)
                    &&& error@ == OutputFault::Socks5(message)
                    &&& final(self)@ == old(self)@
                },
            },
    {
        match self.stage {
            HandshakeStage::Method => {
                if bytes[0] != 5 {
                    return Err(socks5_error("invalid SOCKS version"));
                }
                if bytes[1] == 0 {
                    self.stage = HandshakeStage::Response;
                    return Ok(self.encode_connect_request());
                }
                if bytes[1] == 2 {
                    let request: Vec<u8> = match &self.auth {
                        Some((username, password)) => {
                            let name = username.as_str().as_bytes();
                            let secret = password.as_str().as_bytes();
                            let mut request: Vec<u8> = vec![1, (name.len() % 256) as u8];
                            request.extend_from_slice(name);
                            request.push((secret.len() % 256) as u8);
                            request.extend_from_slice(secret);
                            assert(request@ =~= auth_request(username@, password@));
                            request
                        },
                        None => {
                            return Err(socks5_error("auth required but not provided"));
                        },
                    };
                    self.stage = HandshakeStage::Auth;
                    return Ok(request);
                }
                if bytes[1] == 255 {
                    return Err(socks5_error("no acceptable auth method"));
                }
                Err(numbered_error("unsupported auth method: ", bytes[1]))
            },
            HandshakeStage::Auth => {
                if bytes[1] != 0 {
                    return Err(socks5_error("authentication failed"));
                }
                self.stage = HandshakeStage::Response;
                Ok(self.encode_connect_request())
            },
            HandshakeStage::Response => {
                if bytes[0] != 5 {
                    return Err(socks5_error("invalid SOCKS version in response"));
                }
                if bytes[1] != 0 {
                    return Err(reply_error(bytes[1]));
                }
                if bytes[3] == 1 {
                    self.stage = HandshakeStage::BoundAddress(6);
                } else if bytes[3] == 4 {
                    self.stage = HandshakeStage::BoundAddress(18);
                } else if bytes[3] == 3 {
                    self.stage = HandshakeStage::BoundNameLength;
                } else {
                    return Err(numbered_error("invalid address type: ", bytes[3]));
                }
                Ok(Vec::new())
            },
            HandshakeStage::BoundNameLength => {
                self.stage = HandshakeStage::BoundAddress(bytes[0] as usize + 2);
                Ok(Vec::new())
            },
            HandshakeStage::BoundAddress(_) => {
                self.stage = HandshakeStage::Connected;
                Ok(Vec::new())
            },
            HandshakeStage::Connected => Ok(Vec::new()),
        }
    }
}

/// The host that a connect request carries.
pub enum RequestHost {
    Ipv4(Seq<u8>),
    Ipv6(Seq<u8>),
    Name(Seq<u8>),
}

/// How a proxy reads an address: a type byte, then four octets for type 1, sixteen for type 4, or
/// for type 3 the length of a name and the name; then the port. What follows is left over.
pub open spec fn address_read(bytes: Seq<u8>) -> Option<(RequestHost, int, Seq<u8>)> {
    if bytes.len() >= 7 && bytes[0] == 1 {
        Some(
            (RequestHost::Ipv4(bytes.subrange(1, 5)), bytes[5] * 256 + bytes[6], bytes.skip(7)),
        )
    } else if bytes.len() >= 19 && bytes[0] == 4 {
        Some(
            (
                RequestHost::Ipv6(bytes.subrange(1, 17)),
                bytes[17] * 256 + bytes[18],
                bytes.skip(19),
            ),
        )
    } else if bytes.len() >= 2 && bytes[0] == 3 && bytes.len() >= 4 + bytes[1] {
        let end = 2 + bytes[1];
        Some(
            (
                RequestHost::Name(bytes.subrange(2, end)),
                bytes[end] * 256 + bytes[end + 1],
                bytes.skip(end + 2),
            ),
        )
    } else {
        None
    }
}

/// How a proxy reads a connect request: version 5, command 1, a reserved byte, the address.
pub open spec fn request_read(bytes: Seq<u8>) -> Option<(RequestHost, int, Seq<u8>)> {
    if bytes.len() >= 3 && bytes[0] == 5 && bytes[1] == 1 && bytes[2] == 0 {
        address_read(bytes.skip(3))
    } else {
        None
    }
}

/// A proxy that reads a connect request gets the host and the port that were asked for, and what
/// follows the request is left: an IPv4 address by its octets, an IPv6 address by its groups, any
/// other host of at most 255 bytes by its name.
pub proof fn law_connect_request_is_understood(host: Seq<char>, port: u16, rest: Seq<u8>)
    ensures
        ({
            let text = encode_utf8(host);
            let read = request_read(connect_request(host, port) + rest);
            match (ipv4_octets(text), ipv6_groups(text)) {
                (Some(octets), _) => {
                    &&& read matches Some((RequestHost::Ipv4(sent), number, left))
                    &&& sent.len() == 4
                    &&& forall|i: int| 0 <= i < 4 ==> #[trigger] sent[i] == octets[i]
                    &&& number == port
                    &&& left == rest
                },
                (None, Some(groups)) => {
                    &&& read matches Some((RequestHost::Ipv6(sent), number, left))
                    &&& sent.len() == 16
                    &&& groups.len() == 8
                    &&& forall|i: int|
                        0 <= i < 8 ==> sent[2 * i] * 256 + sent[2 * i + 1] == #[trigger] groups[i]
                    &&& number == port
                    &&& left == rest
                },
                (None, None) => text.len() <= 255 ==> {
                    &&& read matches Some((RequestHost::Name(sent), number, left))
                    &&& sent == text
                    &&& number == port
                    &&& left == rest
                },
            }
        }),
{
    let text = encode_utf8(host);
    let all = connect_request(host, port) + rest;
    let tail = seq![(port / 256) as u8, (port % 256) as u8];
    assert(all.skip(3) =~= request_address(text) + tail + rest);
    let bytes = request_address(text) + tail + rest;
    lemma_octets_are_bytes(text);
    lemma_groups_are_numbers(text);
    match (ipv4_octets(text), ipv6_groups(text)) {
        (Some(octets), _) => {
            assert(bytes.skip(7) =~= rest);
            let sent = bytes.subrange(1, 5);
            assert forall|i: int| 0 <= i < 4 implies #[trigger] sent[i] == octets[i] by {
                assert(sent[i] == octets[i] as u8);
            }
        },
        (None, Some(groups)) => {
            assert(bytes.skip(19) =~= rest);
            let sent = bytes.subrange(1, 17);
            assert forall|i: int| 0 <= i < 8 implies sent[2 * i] * 256 + sent[2 * i + 1]
                == #[trigger] groups[i] by {
                assert(sent[2 * i] == octets_of_groups(groups)[2 * i]);
                assert(sent[2 * i + 1] == octets_of_groups(groups)[2 * i + 1]);
                assert((2 * i) / 2 == i && (2 * i + 1) / 2 == i);
            }
        },
        (None, None) => {
            if text.len() <= 255 {
                let end = 2 + text.len() as int;
                assert(bytes[1] == text.len());
                assert(bytes.subrange(2, end) =~= text);
                assert(bytes.skip(end + 2) =~= rest);
            }
        },
    }
}

/// How a proxy reads a request for authentication: version 1, then the length of the name, the
/// name, the length of the password and the password.
pub open spec fn auth_read(bytes: Seq<u8>) -> Option<(Seq<u8>, Seq<u8>, Seq<u8>)> {
    if bytes.len() >= 2 && bytes[0] == 1 && bytes.len() >= 3 + bytes[1] {
        let middle = 2 + bytes[1];
        let end = middle + 1 + bytes[middle];
        if bytes.len() >= end {
            Some(
                (bytes.subrange(2, middle), bytes.subrange(middle + 1, end), bytes.skip(end)),
            )
        } else {
            None
        }
    } else {
        None
    }
}

/// A proxy that reads a request for authentication gets the name and the password, each of at most
/// 255 bytes.
pub proof fn law_auth_request_is_understood(
    username: Seq<char>,
    password: Seq<char>,
    rest: Seq<u8>,
)
    requires
        encode_utf8(username).len() <= 255,
        encode_utf8(password).len() <= 255,
    ensures
        auth_read(auth_request(username, password) + rest) == Some(
            (encode_utf8(username), encode_utf8(password), rest),
        ),
{
    let name = encode_utf8(username);
    let secret = encode_utf8(password);
    let bytes = auth_request(username, password) + rest;
    let middle = 2 + name.len() as int;
    let end = middle + 1 + secret.len() as int;
    assert(bytes[1] == name.len());
    assert(bytes[middle] == secret.len());
    assert(bytes.subrange(2, middle) =~= name);
    assert(bytes.subrange(middle + 1, end) =~= secret);
    assert(bytes.skip(end) =~= rest);
}

/// The greeting lists as many methods as it says: no authentication always, authentication by name
/// and password exactly where there is something to authenticate with.
pub proof fn law_greeting_offers_what_can_be_done(with_auth: bool)
    ensures
        greeting(with_auth)[0] == 5,
        greeting(with_auth)[1] == greeting(with_auth).len() - 2,
        greeting(with_auth).skip(2).contains(0),
        greeting(with_auth).skip(2).contains(2) <==> with_auth,
{
    let methods = greeting(with_auth).skip(2);
    assert(methods[0] == 0);
    if with_auth {
        assert(methods[1] == 2);
    }
}

/// The connect request is sent exactly when the proxy wants no authentication or has accepted it;
/// name and password are sent exactly when the proxy asks for them and there are some.
pub proof fn law_requests_follow_the_replies(model: HandshakeModel, reply: Seq<u8>)
    requires
        reply.len() == 2,
    ensures
        model.stage is Method ==> (model.after(reply) == HandshakeFinding::Next(
            HandshakeStage::Response,
            connect_request(model.host, model.port),
        ) <==> reply[0] == 5 && reply[1] == 0),
        model.stage is Method && reply[0] == 5 && reply[1] == 2 ==> (match model.auth {
            Some((username, password)) => model.after(reply) == HandshakeFinding::Next(
                HandshakeStage::Auth,
                auth_request(username, password),
            ),
            None => model.after(reply) is Failed,
        }),
        model.stage is Method && (reply[0] != 5 || (reply[1] != 0 && reply[1] != 2))
            ==> model.after(reply) is Failed,
        model.stage is Auth ==> (if reply[1] == 0 {
            model.after(reply) == HandshakeFinding::Next(
                HandshakeStage::Response,
                connect_request(model.host, model.port),
            )
        } else {
            model.after(reply) is Failed
        }),
{
}

impl HandshakeModel {
    /// The handshake waits for `length` bytes and is over with them.
    pub open spec fn ends_with(self, bytes: Seq<u8>, length: int) -> bool {
        &&& self.stage.expected() == length
        &&& self.after(bytes) matches HandshakeFinding::Next(stage, sent)
        &&& stage is Connected
        &&& sent.len() == 0
    }
}

/// The handshake takes in the answer to the connect request to its last byte and no further,
/// whichever kind of address it holds, and sends nothing more.
pub proof fn law_answers_are_taken_in_whole(
    model: HandshakeModel,
    reserved: u8,
    name_length: u8,
    address: Seq<u8>,
)
    requires
        model.stage is Response,
    ensures
        model.stage.expected() == 4,
        ({
            &&& model.after(seq![5u8, 0u8, reserved, 1u8]) matches HandshakeFinding::Next(stage, sent)
            &&& sent.len() == 0
            &&& (HandshakeModel { stage, ..model }).ends_with(address, 6)
        }),
        ({
            &&& model.after(seq![5u8, 0u8, reserved, 4u8]) matches HandshakeFinding::Next(stage, sent)
            &&& sent.len() == 0
            &&& (HandshakeModel { stage, ..model }).ends_with(address, 18)
        }),
        ({
            let first = model.after(seq![5u8, 0u8, reserved, 3u8]);
            let named = HandshakeModel { stage: first->Next_0, ..model };
            let second = named.after(seq![name_length]);
            &&& first matches HandshakeFinding::Next(stage, sent)
            &&& sent.len() == 0
            &&& stage.expected() == 1
            &&& second matches HandshakeFinding::Next(last, more)
            &&& more.len() == 0
            &&& (HandshakeModel { stage: last, ..model }).ends_with(address, name_length + 2)
        }),
{
}

/// An answer to the connect request with another version, with an error code or with an unknown
/// kind of address fails.
pub proof fn law_refusals_fail(model: HandshakeModel, answer: Seq<u8>)
    requires
        model.stage is Response,
        answer.len() == 4,
    ensures
        model.after(answer) is Failed <==> answer[0] != 5 || answer[1] != 0 || (answer[3] != 1
            && answer[3] != 3 && answer[3] != 4),
{
}

/// A host and a port are read out of a target: behind the last colon stands the port, and brackets
/// hold a host that has colons of its own.
pub proof fn law_targets_name_host_and_port(host: Seq<char>, port: u16)
    ensures
        host.len() == 0 || host[0] != '[' ==> target_finding(
            host + seq![':'] + decimal_text(port as nat),
        ) == TargetFinding::Target(host, port),
        !host.contains(']') ==> target_finding(
            seq!['['] + host + seq![']', ':'] + decimal_text(port as nat),
        ) == TargetFinding::Target(host, port),
{
    let digits = decimal_text(port as nat);
    law_decimal_text_spells_its_number(port as nat);
    let plain = host + seq![':'] + digits;
    lemma_last_position_is(plain, ':', host.len() as int);
    assert(plain.take(host.len() as int) =~= host);
    assert(plain.skip(host.len() as int + 1) =~= digits);
    if host.len() == 0 {
        assert(plain[0] == ':');
    } else {
        assert(plain[0] == host[0]);
    }
    if !host.contains(']') {
        let bracketed = seq!['['] + host + seq![']', ':'] + digits;
        let end = host.len() as int + 1;
        assert forall|i: int| 0 <= i < end implies bracketed[i] != ']' by {
            if i > 0 {
                assert(bracketed[i] == host[i - 1]);
                assert(host.contains(host[i - 1]));
            }
        }
        lemma_position_is(bracketed, ']', end);
        assert(bracketed.subrange(1, end) =~= host);
        assert(bracketed.skip(end + 2) =~= digits);
    }
}

proof fn lemma_last_position_is(text: Seq<char>, item: char, index: int)
    requires
        0 <= index < text.len(),
        text[index] == item,
        forall|i: int| index < i < text.len() ==> #[trigger] text[i] != item,
    ensures
        last_position(text, item) == Some(index),
    decreases text.len(),
{
    if index < text.len() - 1 {
        assert(text.last() != item) by {
            assert(text[text.len() - 1] != item);
        }
        let front = text.drop_last();
        assert forall|i: int| index < i < front.len() implies #[trigger] front[i] != item by {
            assert(text[i] != item);
        }
        lemma_last_position_is(front, item, index);
    }
}

/// A target without a port, with a port that is no number of 16 bits, or with a bracket that is not
/// closed in front of a colon is refused.
pub proof fn law_malformed_targets_are_refused(target: Seq<char>, host: Seq<char>, port: Seq<char>)
    ensures
        !target.contains(':') ==> target_finding(target) is Invalid,
        target.len() > 0 && target[0] == '[' && !target.contains(']') ==> target_finding(
            target,
        ) is Invalid,
        (host.len() == 0 || host[0] != '[') && !port.contains(':') && u16_of(port) is None
            ==> target_finding(host + seq![':'] + port) is Invalid,
{
    if !target.contains(':') {
        lemma_no_last_position(target, ':');
        if target.len() > 0 && target[0] == '[' {
            crate::text::lemma_position(target, ']');
            if let Some(end) = position(target, ']') {
                if end + 1 < target.len() {
                    assert(target.contains(target[end + 1]));
                }
            }
        }
    }
    if target.len() > 0 && target[0] == '[' && !target.contains(']') {
        crate::text::lemma_position(target, ']');
        if let Some(end) = position(target, ']') {
            assert(target.contains(target[end]));
        }
    }
    let whole = host + seq![':'] + port;
    if (host.len() == 0 || host[0] != '[') && !port.contains(':') && u16_of(port) is None {
        assert forall|i: int| host.len() < i < whole.len() implies #[trigger] whole[i] != ':' by {
            assert(whole[i] == port[i - host.len() - 1]);
            assert(port.contains(port[i - host.len() - 1]));
        }
        lemma_last_position_is(whole, ':', host.len() as int);
        assert(whole.skip(host.len() as int + 1) =~= port);
        if host.len() == 0 {
            assert(whole[0] == ':');
        } else {
            assert(whole[0] == host[0]);
        }
    }
}

proof fn lemma_no_last_position(text: Seq<char>, item: char)
    requires
        !text.contains(item),
    ensures
        last_position(text, item) is None,
    decreases text.len(),
{
    if text.len() > 0 {
        assert(text.contains(text[text.len() - 1]));
        assert forall|i: int| 0 <= i < text.drop_last().len() implies text.drop_last()[i]
            != item by {
            assert(text.contains(text[i]));
        }
        lemma_no_last_position(text.drop_last(), item);
    }
}

/// A refused request fails with what the proxy's code means.
pub proof fn law_refusals_tell_their_reason(model: HandshakeModel, answer: Seq<u8>)
    requires
        model.stage is Response,
        answer.len() == 4,
        answer[0] == 5,
        answer[1] != 0,
    ensures
        model.after(answer) == HandshakeFinding::Failed(
            match answer[1] {
                1 => "general SOCKS server failure"@,
                2 => "connection not allowed by ruleset"@,
                3 => "network unreachable"@,
                4 => "host unreachable"@,
                5 => "connection refused"@,
                6 => "TTL expired"@,
                7 => "command not supported"@,
                8 => "address type not supported"@,
                _ => "unknown error"@,
            },
        ),
{
}

/// A connection begins with the greeting, which offers a password where one is configured; the host
/// and port of the target are asked for later.
pub proof fn law_connections_begin_with_the_greeting(
    output: Socks5Output,
    target: &str,
    result: Result<(Socks5Handshake, Vec<u8>), OutputError>,
)
    requires
        call_ensures(Socks5Output::connect, (&output, target), result),
    ensures
        result is Ok <==> target_finding(target@) is Target,
        result matches Ok((handshake, bytes)) ==> handshake@.stage is Method && (
        output.auth is None ==> bytes@ == seq![5u8, 1u8, 0u8]) && (output.auth is Some ==> bytes@
            == seq![5u8, 2u8, 0u8, 2u8]) && (handshake@.auth is Some <==> output.auth is Some)
            && target_finding(target@) == TargetFinding::Target(
            handshake@.host,
            handshake@.port,
        ),
        result matches Err(error) ==> error@ is InvalidTarget,
{
}

} // verus!
