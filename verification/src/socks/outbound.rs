//! The SOCKS client: how it authenticates, what it asks for, and what it makes of the answers.

use std::sync::Arc;
use vstd::prelude::*;
use vstd::slice::slice_to_vec;
use vstd::utf8;

use crate::addr::{IpAddr, SocketAddr};
use crate::error::{SError, SResult};
use crate::msgs::socks5::{
    AddrOrDomain, AuthReply, AuthReq, CmdReply, CmdReq, PasswordAuthReply, PasswordAuthReq,
    SocksAddr, VarVec, SOCKS5_AUTH_METHOD_NONE, SOCKS5_AUTH_METHOD_PASSWORD,
    SOCKS5_CMD_TCP_CONNECT, SOCKS5_CMD_UDP_ASSOCIATE, SOCKS5_PASSWORD_AUTH_VERSION,
    SOCKS5_REPLY_SUCCEEDED, SOCKS5_RESERVE, SOCKS5_VERSION,
};
use crate::text;
use crate::text::{decimal_string, join};

verus! {

/// Options for the sockets that are opened.
pub struct SocketOpt {
    pub bind_interface: Option<String>,
    pub fw_mark: Option<u32>,
}

/// How to reach a SOCKS server.
pub struct SocksClientCfg {
    pub addr: String,
    pub username: Option<String>,
    pub password: Option<String>,
    pub socket_opt: SocketOpt,
}

/// What a TCP socket is opened with.
pub struct TcpSocketFactory {
    pub addr: String,
    pub interface: Option<String>,
    pub fw_mark: Option<u32>,
    pub protect_path: Option<String>,
}

/// What a UDP socket is opened with.
pub struct UdpSocketFactory {
    pub addr: String,
    pub interface: Option<String>,
    pub fw_mark: Option<u32>,
    pub protect_path: Option<String>,
    pub try_dual_stack: bool,
}

/// A client of a SOCKS server.
pub struct SocksClient {
    pub cfg: SocksClientCfg,
    pub tcp_socket_factory: Arc<TcpSocketFactory>,
}

/// The characters of a string that may be missing.
pub open spec fn text_of(s: Option<String>) -> Option<Seq<char>> {
    match s {
        Some(s) => Some(s@),
        None => None,
    }
}

/// A copy of a string that may be missing.
fn copy_text(s: &Option<String>) -> (r: Option<String>)
    ensures
        text_of(r) == text_of(*s),
{
    match s {
        Some(s) => Some(s.clone()),
        None => None,
    }
}

/// The bytes of a user name or a password with their count in front, unless they are too many.
fn credential(s: &String) -> (r: Option<VarVec>)
    ensures
        utf8::encode_utf8(s@).len() > 255 ==> r is None,
        utf8::encode_utf8(s@).len() <= 255 ==> (r matches Some(v) && v.contents@
            == utf8::encode_utf8(s@) && v.len == v.contents@.len()),
{
    let contents = slice_to_vec(s.as_str().as_bytes());
    assert(contents@ =~= utf8::encode_utf8(s@));
    if contents.len() > 255 {
        None
    } else {
        Some(VarVec { len: contents.len() as u8, contents })
    }
}

/// The message that sends a user name and a password.
pub open spec fn password_message(username: Seq<char>, password: Seq<char>) -> Seq<u8> {
    let user = utf8::encode_utf8(username);
    let pass = utf8::encode_utf8(password);
    seq![SOCKS5_PASSWORD_AUTH_VERSION, user.len() as u8] + user + seq![pass.len() as u8] + pass
}

/// What comes of the server's choice of a method.
pub enum AuthOutcome {
    /// The client is accepted.
    Done,
    /// The client sends these bytes next.
    Send(Seq<u8>),
    /// The client gives up for this reason.
    Fail(Seq<char>),
}

impl SocksClientCfg {
    /// The method that the client offers.
    pub open spec fn method(self) -> u8 {
        if self.username is Some {
            SOCKS5_AUTH_METHOD_PASSWORD
        } else {
            SOCKS5_AUTH_METHOD_NONE
        }
    }

    /// What comes of the server's choice of a method.
    pub open spec fn auth_outcome(self, rep: AuthReply) -> AuthOutcome {
        if rep.version != SOCKS5_VERSION {
            AuthOutcome::Fail("version not supported"@)
        } else if rep.method != self.method() {
            AuthOutcome::Fail("authenticate method not supported"@)
        } else {
            match (self.username, self.password) {
                (None, _) => AuthOutcome::Done,
                (Some(_), None) => AuthOutcome::Fail("password not provided"@),
                (Some(username), Some(password)) => if utf8::encode_utf8(username@).len() > 255 {
                    AuthOutcome::Fail("username exceeds 255 bytes"@)
                } else if utf8::encode_utf8(password@).len() > 255 {
                    AuthOutcome::Fail("password exceeds 255 bytes"@)
                } else {
                    AuthOutcome::Send(password_message(username@, password@))
                },
            }
        }
    }
}

impl SocksClient {
    pub fn new(cfg: SocksClientCfg) -> (r: SocksClient)
        ensures
            r.cfg == cfg,
            r.tcp_socket_factory.addr@ == cfg.addr@,
            text_of(r.tcp_socket_factory.interface) == text_of(cfg.socket_opt.bind_interface),
            r.tcp_socket_factory.fw_mark == cfg.socket_opt.fw_mark,
            r.tcp_socket_factory.protect_path is None,
    {
        let tcp_socket_factory = Arc::new(
            TcpSocketFactory {
                addr: cfg.addr.clone(),
                interface: copy_text(&cfg.socket_opt.bind_interface),
                fw_mark: cfg.socket_opt.fw_mark,
                protect_path: None,
            },
        );
        SocksClient { cfg, tcp_socket_factory }
    }

    /// What the client says first: the one method that it offers.
    pub fn auth_request(&self) -> (r: AuthReq)
        ensures
            r.version == SOCKS5_VERSION,
            r.methods.len == 1,
            r.methods.contents@ == seq![self.cfg.method()],
    {
        let method: u8 = if self.cfg.username.is_some() {
            SOCKS5_AUTH_METHOD_PASSWORD
        } else {
            SOCKS5_AUTH_METHOD_NONE
        };
        let mut contents: Vec<u8> = Vec::new();
        contents.push(method);
        assert(contents@ == seq![self.cfg.method()]);
        AuthReq { version: SOCKS5_VERSION, methods: VarVec { len: 1, contents } }
    }

    /// What the client makes of the server's choice: it is accepted, or it sends a user name
    /// and a password, or it gives up.
    pub fn on_auth_reply(&self, rep: AuthReply) -> (r: SResult<Option<PasswordAuthReq>>)
        ensures
            match self.cfg.auth_outcome(rep) {
                AuthOutcome::Done => r matches Ok(None),
                AuthOutcome::Send(bytes) => r matches Ok(Some(message)) && message.bytes()
                    == bytes,
                AuthOutcome::Fail(reason) => r matches Err(SError::SocksError(m)) && m@ == reason,
            },
    {
        if rep.version != SOCKS5_VERSION {
            return Err(SError::socks("version not supported"));
        }
        let method: u8 = if self.cfg.username.is_some() {
            SOCKS5_AUTH_METHOD_PASSWORD
        } else {
            SOCKS5_AUTH_METHOD_NONE
        };
        if rep.method != method {
            return Err(SError::socks("authenticate method not supported"));
        }
        let name = match &self.cfg.username {
            Some(name) => name,
            None => {
                return Ok(None);
            },
        };
        let pass = match &self.cfg.password {
            Some(pass) => pass,
            None => {
                return Err(SError::socks("password not provided"));
            },
        };
        let username = match credential(name) {
            Some(username) => username,
            None => {
                return Err(SError::socks("username exceeds 255 bytes"));
            },
        };
        let password = match credential(pass) {
            Some(password) => password,
            None => {
                return Err(SError::socks("password exceeds 255 bytes"));
            },
        };
        let message = PasswordAuthReq { version: SOCKS5_PASSWORD_AUTH_VERSION, username, password };
        assert(message.bytes() == password_message(name@, pass@));
        Ok(Some(message))
    }

    /// What the client makes of the server's answer to a user name and a password.
    pub fn on_password_reply(&self, rep: PasswordAuthReply) -> (r: SResult<()>)
        ensures
            rep.status == SOCKS5_REPLY_SUCCEEDED ==> r is Ok,
            rep.status != SOCKS5_REPLY_SUCCEEDED ==> (r matches Err(SError::SocksError(m)) && m@
                == "authenticate failed"@),
    {
        if rep.status != SOCKS5_REPLY_SUCCEEDED {
            return Err(SError::socks("authenticate failed"));
        }
        Ok(())
    }

    /// What a UDP socket towards the server's relay is opened with.
    pub fn udp_socket_factory(&self, peer_addr: String) -> (r: UdpSocketFactory)
        ensures
            r.addr == peer_addr,
            text_of(r.interface) == text_of(self.cfg.socket_opt.bind_interface),
            r.fw_mark == self.cfg.socket_opt.fw_mark,
            r.protect_path is None,
            !r.try_dual_stack,
    {
        UdpSocketFactory {
            addr: peer_addr,
            interface: copy_text(&self.cfg.socket_opt.bind_interface),
            fw_mark: self.cfg.socket_opt.fw_mark,
            protect_path: None,
            try_dual_stack: false,
        }
    }
}

/// Asks for a TCP connection to `dst`.
pub fn connect_request(dst: SocksAddr) -> (r: CmdReq)
    ensures
        r == (CmdReq {
            version: SOCKS5_VERSION,
            cmd: SOCKS5_CMD_TCP_CONNECT,
            rsv: SOCKS5_RESERVE,
            dst,
        }),
{
    CmdReq { version: SOCKS5_VERSION, cmd: SOCKS5_CMD_TCP_CONNECT, rsv: SOCKS5_RESERVE, dst }
}

/// Asks for a UDP association with the client's `bind_addr`.
pub fn associate_request(bind_addr: SocksAddr) -> (r: CmdReq)
    ensures
        r == (CmdReq {
            version: SOCKS5_VERSION,
            cmd: SOCKS5_CMD_UDP_ASSOCIATE,
            rsv: SOCKS5_RESERVE,
            dst: bind_addr,
        }),
{
    CmdReq {
        version: SOCKS5_VERSION,
        cmd: SOCKS5_CMD_UDP_ASSOCIATE,
        rsv: SOCKS5_RESERVE,
        dst: bind_addr,
    }
}

/// Whether the server did what it was asked for.
pub fn validate_command_reply(reply: &CmdReply) -> (r: SResult<()>)
    ensures
        reply.version == SOCKS5_VERSION && reply.rep == SOCKS5_REPLY_SUCCEEDED <==> r is Ok,
        r matches Err(e) ==> (e matches SError::SocksError(m) && m@
            == "SOCKS command failed with reply code "@ + text::decimal(reply.rep as nat)),
{
    if reply.version != SOCKS5_VERSION || reply.rep != SOCKS5_REPLY_SUCCEEDED {
        let code = decimal_string(reply.rep as u32);
        return Err(
            SError::SocksError(join("SOCKS command failed with reply code ", code.as_str())),
        );
    }
    Ok(())
}

/// Where to send UDP packets for the server's relay: to the address that the server gave, or,
/// where that is unspecified, to the server's own.
pub fn relay_addr(bind_addr: SocketAddr, server: SocketAddr) -> (r: SocketAddr)
    ensures
        r == if bind_addr.spec_ip().unspecified() {
            bind_addr.with_ip(server.spec_ip())
        } else {
            bind_addr
        },
        r.spec_port() == bind_addr.spec_port(),
        bind_addr.spec_ip() == IpAddr::V4(0) || bind_addr.spec_ip() == IpAddr::V6(0)
            ==> r.spec_ip() == server.spec_ip(),
        bind_addr.spec_ip() != IpAddr::V4(0) && bind_addr.spec_ip() != IpAddr::V6(0) ==> r
            == bind_addr,
{
    let mut peer_addr = bind_addr;
    if peer_addr.ip().is_unspecified() {
        peer_addr.set_ip(server.ip());
    }
    peer_addr
}

/// What the end of the control stream means: `read` is what reading a byte from it came to, if
/// there is such a stream.
pub fn control_stream_end(read: Option<Result<(), String>>) -> (r: SResult<()>)
    ensures
        match read {
            None => r is Ok,
            Some(Err(reason)) => r matches Err(SError::UDPSessionClosed(m)) && m@ == reason@,
            Some(Ok(())) => r matches Err(SError::UDPSessionClosed(m)) && m@
                == "unexpected data received from socks control stream"@,
        },
{
    match read {
        None => Ok(()),
        Some(Err(reason)) => Err(SError::UDPSessionClosed(reason)),
        Some(Ok(())) => Err(
            SError::UDPSessionClosed(
                String::from_str("unexpected data received from socks control stream"),
            ),
        ),
    }
}

/// The address that looking up `address` comes to: the first that was found.
pub fn resolve_address(address: &str, found: &Vec<SocketAddr>) -> (r: SResult<SocketAddr>)
    ensures
        found@.len() > 0 ==> r == Ok::<SocketAddr, SError>(found@[0]),
        found@.len() == 0 ==> (r matches Err(SError::DomainResolveFailed(m)) && m@ == address@),
{
    if found.len() > 0 {
        Ok(found[0])
    } else {
        Err(SError::DomainResolveFailed(String::from_str(address)))
    }
}

/// How a destination is resolved.
pub enum Resolution {
    /// It is an address already.
    Addr(SocketAddr),
    /// By looking up this host and port.
    Lookup(String),
}

/// What is wrong with bytes that are not UTF-8.
#[verifier::external_type_specification]
#[verifier::external_body]
pub struct ExUtf8Error(core::str::Utf8Error);

/// `core::str::from_utf8` gives the string whose UTF-8 encoding the bytes are, and fails where
/// they are the encoding of no string.
pub assume_specification[ core::str::from_utf8 ](v: &[u8]) -> (r: Result<
    &str,
    core::str::Utf8Error,
>)
    ensures
        r is Ok <==> utf8::valid_utf8(v@),
        r matches Ok(s) ==> s@ == utf8::decode_utf8(v@),
;

/// `message` is how the error of `core::str::from_utf8` on `bytes` reads.
pub open spec fn explains_utf8_error(bytes: Seq<u8>, message: String) -> bool {
    exists|v: &[u8], error: core::str::Utf8Error|
        v@ == bytes && #[trigger] call_ensures(core::str::from_utf8, (v,), Err(error))
            && vstd::string::to_string_from_display_ensures(&error, message)
}

/// What to look up for a name, which must be text, and a port.
fn lookup_text(name: &VarVec, port: u16) -> (r: SResult<String>)
    ensures
        utf8::valid_utf8(name.contents@) ==> (r matches Ok(host) && host@ == utf8::decode_utf8(
            name.contents@,
        ) + ":"@ + text::decimal(port as nat)),
        !utf8::valid_utf8(name.contents@) ==> (r matches Err(SError::SocksError(m))
            && explains_utf8_error(name.contents@, m)),
{
    match core::str::from_utf8(name.contents.as_slice()) {
        Ok(domain) => {
            let digits = decimal_string(port as u32);
            let head = join(domain, ":");
            Ok(join(head.as_str(), digits.as_str()))
        },
        Err(error) => Err(SError::SocksError(error.to_string())),
    }
}

/// `lookup` is `host`, a colon, and decimal digits, without a needless zero in front, whose
/// value is `port`.
pub open spec fn names_host_and_port(lookup: Seq<char>, host: Seq<char>, port: u16) -> bool {
    let n = host.len() as int;
    let digits = lookup.skip(n + 1);
    &&& lookup.len() > n + 1
    &&& lookup.take(n) == host
    &&& lookup[n] == ':'
    &&& text::all_digits(digits, 10)
    &&& text::numeral(digits, 10) == port
    &&& port > 0 ==> digits[0] != '0'
    &&& port == 0 ==> digits == seq!['0']
}

/// How a destination is resolved: a name must be text, and is looked up together with the port.
pub fn resolve_socks_address(address: &SocksAddr) -> (r: SResult<Resolution>)
    ensures
        address.addr matches AddrOrDomain::V4(ip) ==> r == Ok::<Resolution, SError>(
            Resolution::Addr(SocketAddr::V4 { ip, port: address.port }),
        ),
        address.addr matches AddrOrDomain::V6(ip) ==> r == Ok::<Resolution, SError>(
            Resolution::Addr(
                SocketAddr::V6 { ip, port: address.port, flowinfo: 0, scope_id: 0 },
            ),
        ),
        address.addr matches AddrOrDomain::Domain(name) ==> {
            &&& utf8::valid_utf8(name.contents@) ==> (r matches Ok(Resolution::Lookup(host))
                && host@ == utf8::decode_utf8(name.contents@) + ":"@ + text::decimal(
                address.port as nat,
            ))
            &&& !utf8::valid_utf8(name.contents@) ==> (r matches Err(SError::SocksError(m))
                && explains_utf8_error(name.contents@, m))
            &&& r matches Ok(resolution) ==> (resolution matches Resolution::Lookup(host)
                && names_host_and_port(host@, utf8::decode_utf8(name.contents@), address.port))
        },
{
    match &address.addr {
        AddrOrDomain::V4(ip) => Ok(
            Resolution::Addr(SocketAddr::V4 { ip: *ip, port: address.port }),
        ),
        AddrOrDomain::V6(ip) => Ok(
            Resolution::Addr(
                SocketAddr::V6 { ip: *ip, port: address.port, flowinfo: 0, scope_id: 0 },
            ),
        ),
        AddrOrDomain::Domain(name) => match lookup_text(name, address.port) {
            Ok(host) => {
                proof {
                    law_lookups_name_host_and_port(
                        utf8::decode_utf8(name.contents@),
                        address.port,
                    );
                }
                Ok(Resolution::Lookup(host))
            },
            Err(e) => Err(e),
        },
    }
}

/// The client is never accepted by a server that chose another method than it offered.
pub proof fn law_only_the_offered_method_is_taken(cfg: SocksClientCfg, rep: AuthReply)
    requires
        rep.version != SOCKS5_VERSION || rep.method != cfg.method(),
    ensures
        cfg.auth_outcome(rep) is Fail,
{
}

/// A client with a user name is accepted only after it sent its password, and a client without
/// one sends none.
pub proof fn law_passwords_are_sent_for_users_only(cfg: SocksClientCfg, rep: AuthReply)
    ensures
        cfg.username is Some ==> !(cfg.auth_outcome(rep) is Done),
        cfg.username is None ==> !(cfg.auth_outcome(rep) is Send),
{
}

/// What is looked up for a name ends in a colon and the digits of the port.
pub proof fn law_lookups_name_host_and_port(host: Seq<char>, port: u16)
    ensures
        names_host_and_port(host + ":"@ + text::decimal(port as nat), host, port),
        ({
            let lookup = host + ":"@ + text::decimal(port as nat);
            let digits = lookup.skip(host.len() as int + 1);
            &&& lookup.take(host.len() as int) == host
            &&& lookup[host.len() as int] == ':'
            &&& digits.len() > 0
            &&& text::all_digits(digits, 10)
            &&& text::numeral(digits, 10) == port
            &&& port > 0 ==> digits[0] != '0'
        }),
{
    reveal_strlit(":");
    text::law_decimal_text_reads_back(port as nat);
    let lookup = host + ":"@ + text::decimal(port as nat);
    assert(lookup.skip(host.len() as int + 1) == text::decimal(port as nat));
    assert(lookup.take(host.len() as int) == host);
    assert(port == 0 ==> text::decimal(0) == seq!['0']);
}

/// A client with a user name offers to send it with a password, which has the number 2; a
/// client without one offers to send nothing, which has the number 0.
pub proof fn law_offered_methods(cfg: SocksClientCfg)
    ensures
        cfg.username is Some ==> cfg.method() == 2,
        cfg.username is None ==> cfg.method() == 0,
{
}

/// A client is accepted at once exactly where it has no user name and the server agrees to
/// that.
pub proof fn law_clients_without_a_user_are_accepted(cfg: SocksClientCfg, rep: AuthReply)
    ensures
        cfg.auth_outcome(rep) is Done <==> rep.version == 5 && rep.method == 0
            && cfg.username is None,
{
}

/// A user name and a password are sent exactly where the client has both, neither has more than
/// 255 bytes, and the server agrees. The message is the number 1, and then the bytes of the user
/// name and those of the password, each behind their number.
pub proof fn law_users_send_their_password(
    cfg: SocksClientCfg,
    rep: AuthReply,
    username: String,
    password: String,
)
    requires
        cfg.username == Some(username),
        cfg.password == Some(password),
    ensures
        ({
            let user = utf8::encode_utf8(username@);
            let pass = utf8::encode_utf8(password@);
            let (m, n) = (user.len() as int, pass.len() as int);
            &&& cfg.auth_outcome(rep) is Send <==> rep.version == 5 && rep.method == 2 && m <= 255
                && n <= 255
            &&& cfg.auth_outcome(rep) matches AuthOutcome::Send(bytes) ==> {
                &&& bytes.len() == m + n + 3
                &&& bytes[0] == 1
                &&& bytes[1] == m
                &&& bytes.subrange(2, 2 + m) == user
                &&& bytes[2 + m] == n
                &&& bytes.skip(3 + m) == pass
            }
        }),
{
    let user = utf8::encode_utf8(username@);
    let pass = utf8::encode_utf8(password@);
    let bytes = password_message(username@, password@);
    assert(bytes.subrange(2, 2 + user.len() as int) == user);
    assert(bytes.skip(3 + user.len() as int) == pass);
}

/// Why a client gives up: the first of these reasons that holds.
pub proof fn law_reasons_to_give_up(cfg: SocksClientCfg, rep: AuthReply)
    ensures
        rep.version != 5 ==> cfg.auth_outcome(rep) == AuthOutcome::Fail("version not supported"@),
        rep.version == 5 && rep.method != cfg.method() ==> cfg.auth_outcome(rep)
            == AuthOutcome::Fail("authenticate method not supported"@),
        rep.version == 5 && rep.method == 2 ==> (cfg.username matches Some(username) ==> {
            &&& cfg.password is None ==> cfg.auth_outcome(rep) == AuthOutcome::Fail(
                "password not provided"@,
            )
            &&& cfg.password matches Some(password) ==> {
                &&& utf8::encode_utf8(username@).len() > 255 ==> cfg.auth_outcome(rep)
                    == AuthOutcome::Fail("username exceeds 255 bytes"@)
                &&& utf8::encode_utf8(username@).len() <= 255 && utf8::encode_utf8(password@).len()
                    > 255 ==> cfg.auth_outcome(rep) == AuthOutcome::Fail(
                    "password exceeds 255 bytes"@,
                )
            }
        }),
{
}

/// A string that is there is known by its characters.
pub proof fn law_optional_texts(s: String)
    ensures
        text_of(Some(s)) == Some(s@),
        text_of(None) is None,
{
}

} // verus!
