//! Dial planning: from one bridge descriptor and the session identifier to
//! the exact arguments of the pipe constructor — protocol dispatch, key-blob
//! decoding, the pinned TLS configuration and the generated server name.

use vstd::prelude::*;
use vstd::string::StringExecFns;
use crate::addr::SockAddr;
use crate::bridge::{
    BridgeDescriptor, UDP_TAG, TLS_TAG, blob_transport_key, string_is, decode_udp_blob,
};
use crate::chars::{str_to_chars, chars_to_string};
use crate::num::{dec_digits, push_dec};
use crate::rng::{random_short_word, random_large_word};

verus! {

/// Seconds allowed for one dial attempt before it fails with a timeout.
pub const DIAL_TIMEOUT_SECS: u64 = 10;

/// The TLS client configuration of obfuscated-TLS pipes. The TLS layer only
/// obfuscates traffic; authentication happens end to end in the multiplex,
/// so certificate and hostname validation are off by design.
#[derive(Clone, Copy, Debug, PartialEq, Eq, Structural)]
pub struct TlsConfig {
    pub accept_invalid_certs: bool,
    pub accept_invalid_hostnames: bool,
    pub min_version_tls12: bool,
    pub max_version_tls12: bool,
    pub use_sni: bool,
}

/// The one configuration obfuscated-TLS pipes are dialed with: validation
/// off, both protocol versions pinned to TLS 1.2, SNI on.
pub open spec fn obfs_tls_config() -> TlsConfig {
    TlsConfig {
        accept_invalid_certs: true,
        accept_invalid_hostnames: true,
        min_version_tls12: true,
        max_version_tls12: true,
        use_sni: true,
    }
}

/// Builds the pinned TLS configuration.
pub fn make_tls_config() -> (r: TlsConfig)
    ensures
        r == obfs_tls_config(),
{
    TlsConfig {
        accept_invalid_certs: true,
        accept_invalid_hostnames: true,
        min_version_tls12: true,
        max_version_tls12: true,
        use_sni: true,
    }
}

/// Why no dial plan could be made for a bridge.
#[derive(Clone, Copy, Debug, PartialEq, Eq, Structural)]
pub enum DialError {
    /// The protocol tag is outside the closed set.
    UnknownProtocol,
    /// An obfuscated-UDP key blob is not the 64-byte pair encoding.
    BadKeyBlob,
}

/// Everything a pipe constructor needs for one dial.
#[derive(Debug, PartialEq, Eq)]
pub enum DialPlan {
    Udp { endpoint: SockAddr, transport_key: Vec<u8>, sess_id: String },
    Tls { endpoint: SockAddr, sni: String, config: TlsConfig, key_blob: Vec<u8>, sess_id: String },
}

impl DialPlan {
    /// The session identifier this plan dials with.
    pub open spec fn spec_sess_id(&self) -> Seq<char> {
        match self {
            DialPlan::Udp { sess_id, .. } => sess_id@,
            DialPlan::Tls { sess_id, .. } => sess_id@,
        }
    }

    /// The endpoint this plan dials.
    pub open spec fn spec_endpoint(&self) -> SockAddr {
        match self {
            DialPlan::Udp { endpoint, .. } => *endpoint,
            DialPlan::Tls { endpoint, .. } => *endpoint,
        }
    }

    /// The wire-visible protocol tag this plan dials over.
    pub open spec fn spec_protocol(&self) -> Seq<char> {
        match self {
            DialPlan::Udp { .. } => UDP_TAG@,
            DialPlan::Tls { .. } => TLS_TAG@,
        }
    }
}

/// Turns one bridge descriptor into the arguments of its pipe constructor:
/// obfuscated UDP gets the decoded transport key, obfuscated TLS gets the
/// raw cookie, the pinned configuration and the given server name; any other
/// tag fails closed.
pub fn plan_dial(bridge: &BridgeDescriptor, sess_id: &String, sni: &String) -> (r: Result<
    DialPlan,
    DialError,
>)
    ensures
        match r {
            Ok(p) => match p {
                DialPlan::Udp { endpoint, transport_key, sess_id: sid } => {
                    &&& bridge@.protocol == UDP_TAG@
                    &&& bridge@.key.len() == 64
                    &&& endpoint == bridge@.endpoint
                    &&& transport_key@ == blob_transport_key(bridge@.key)
                    &&& sid@ == sess_id@
                },
                DialPlan::Tls { endpoint, sni: plan_sni, config, key_blob, sess_id: sid } => {
                    &&& bridge@.protocol == TLS_TAG@
                    &&& endpoint == bridge@.endpoint
                    &&& plan_sni@ == sni@
                    &&& config == obfs_tls_config()
                    &&& key_blob@ == bridge@.key
                    &&& sid@ == sess_id@
                },
            },
            Err(DialError::BadKeyBlob) => bridge@.protocol == UDP_TAG@ && bridge@.key.len()
                != 64,
            Err(DialError::UnknownProtocol) => bridge@.protocol != UDP_TAG@ && bridge@.protocol
                != TLS_TAG@,
        },
{
    if string_is(&bridge.protocol, UDP_TAG) {
        match decode_udp_blob(bridge.sosistab_key.as_slice()) {
            Some(keys) => Ok(DialPlan::Udp {
                endpoint: bridge.endpoint,
                transport_key: keys.0,
                sess_id: sess_id.clone(),
            }),
            None => Err(DialError::BadKeyBlob),
        }
    } else if string_is(&bridge.protocol, TLS_TAG) {
        let blob = bridge.sosistab_key.clone();
        proof {
            assert(blob@ =~= bridge.sosistab_key@);
        }
        Ok(DialPlan::Tls {
            endpoint: bridge.endpoint,
            sni: sni.clone(),
            config: make_tls_config(),
            key_blob: blob,
            sess_id: sess_id.clone(),
        })
    } else {
        Err(DialError::UnknownProtocol)
    }
}

/// A plausible-looking server name from three dictionary words:
/// `{first}.{second}{third}.com`.
pub fn fake_sni(w1: &str, w2: &str, w3: &str) -> (r: String)
    ensures
        r@ == w1@ + "."@ + w2@ + w3@ + ".com"@,
{
    let mut s = w1.to_owned();
    s.append(".");
    s.append(w2);
    s.append(w3);
    s.append(".com");
    proof {
        assert(s@ =~= w1@ + "."@ + w2@ + w3@ + ".com"@);
    }
    s
}

/// A randomly drawn fake server name. Whatever words come out, the name is
/// at least eight characters and ends in `.com`.
pub fn random_sni() -> (r: String)
    ensures
        r@.len() >= 8,
        r@.subrange(r@.len() - 4, r@.len() as int) == ".com"@,
{
    let w1 = random_short_word();
    let w2 = random_large_word();
    let w3 = random_large_word();
    let r = fake_sni(w1, w2, w3);
    proof {
        reveal_strlit(".");
        reveal_strlit(".com");
        assert("."@.len() == 1);
        assert(".com"@.len() == 4);
        assert(r@.len() >= 8);
        assert(r@.subrange(r@.len() - 4, r@.len() as int) =~= ".com"@);
    }
    r
}

/// The wire form of a session identifier: `sess-` then the decimal value.
pub open spec fn spec_sess_id(n: u128) -> Seq<char> {
    "sess-"@ + dec_digits(n as nat)
}

/// Formats the session identifier drawn once per session.
pub fn format_sess_id(n: u128) -> (r: String)
    ensures
        r@ == spec_sess_id(n),
{
    let mut out = str_to_chars("sess-");
    push_dec(n, &mut out);
    chars_to_string(&out)
}

} // verus!
