//! Errors of the device's own rules.

use crate::text::{decimal_text, push_number};
use vstd::prelude::*;

verus! {

/// What can go wrong.
#[derive(Debug)]
pub enum Error {
    /// NVS storage not yet initialized
    NvsNotInitialized,
    /// No configuration blob stored in NVS
    NvsConfigNotFound,
    /// Static IP address string could not be parsed
    InvalidStaticIp(String),
    /// OTA upload contained zero bytes
    OtaZeroBytes,
    /// OTA firmware download got a non-200 HTTP status
    OtaHttpStatus(u16),
    /// OTA firmware response lacked a Content-Length header
    OtaMissingContentLength,
    /// Cache manager mpsc channel was closed
    CacheManagerChannelClosed,
    /// Failed to register with the cache manager
    CacheManagerRegistrationFailed,
}

/// What an error says.
pub open spec fn error_text(e: Error) -> Seq<char> {
    match e {
        Error::NvsNotInitialized => "NVS not initialized"@,
        Error::NvsConfigNotFound => "no config found in NVS"@,
        Error::InvalidStaticIp(ip) => "invalid static IP: "@ + ip@,
        Error::OtaZeroBytes => "OTA: received 0 bytes"@,
        Error::OtaHttpStatus(status) => "HTTP "@ + decimal_text(status as nat)
            + " from firmware URL"@,
        Error::OtaMissingContentLength => "no Content-Length in firmware response"@,
        Error::CacheManagerChannelClosed => "cache manager channel closed"@,
        Error::CacheManagerRegistrationFailed => "failed to register with cache manager"@,
    }
}

impl Error {
    /// The message of this error.
    pub fn message(&self) -> (r: String)
        ensures
            r@ == error_text(*self),
    {
        match self {
            Error::NvsNotInitialized => "NVS not initialized".to_owned(),
            Error::NvsConfigNotFound => "no config found in NVS".to_owned(),
            Error::InvalidStaticIp(ip) => {
                let mut out: String = "invalid static IP: ".to_owned();
                out.push_str(ip.as_str());
                out
            },
            Error::OtaZeroBytes => "OTA: received 0 bytes".to_owned(),
            Error::OtaHttpStatus(status) => {
                let mut out: String = "HTTP ".to_owned();
                push_number(&mut out, *status as u64);
                out.push_str(" from firmware URL");
                out
            },
            Error::OtaMissingContentLength => "no Content-Length in firmware response".to_owned(),
            Error::CacheManagerChannelClosed => "cache manager channel closed".to_owned(),
            Error::CacheManagerRegistrationFailed => {
                "failed to register with cache manager".to_owned()
            },
        }
    }
}

// ---------------------------------------------------------------------------
// Laws
// ---------------------------------------------------------------------------

/// An error names what was wrong: the address that is none, or the status that came.
pub proof fn law_errors_name_their_cause(ip: String, status: u16)
    ensures
        ip@.is_suffix_of(error_text(Error::InvalidStaticIp(ip))),
        error_text(Error::InvalidStaticIp(ip)).len() == ip@.len() + 19,
        (seq!['H', 'T', 'T', 'P', ' '] + decimal_text(status as nat)).is_prefix_of(
            error_text(Error::OtaHttpStatus(status)),
        ),
{
    reveal_strlit("invalid static IP: ");
    reveal_strlit("HTTP ");
    let text = error_text(Error::InvalidStaticIp(ip));
    assert("invalid static IP: "@.len() == 19);
    assert(text.subrange(text.len() - ip@.len(), text.len() as int) =~= ip@);
    let head = seq!['H', 'T', 'T', 'P', ' '] + decimal_text(status as nat);
    assert("HTTP "@ + decimal_text(status as nat) =~= head);
    assert(error_text(Error::OtaHttpStatus(status)).subrange(0, head.len() as int) =~= head);
}

/// The errors without a cause to name differ in what they say.
pub proof fn law_errors_differ()
    ensures
        error_text(Error::NvsNotInitialized) != error_text(Error::NvsConfigNotFound),
        error_text(Error::OtaZeroBytes) != error_text(Error::OtaMissingContentLength),
        error_text(Error::CacheManagerChannelClosed) != error_text(
            Error::CacheManagerRegistrationFailed,
        ),
{
    reveal_strlit("NVS not initialized");
    reveal_strlit("no config found in NVS");
    reveal_strlit("OTA: received 0 bytes");
    reveal_strlit("no Content-Length in firmware response");
    reveal_strlit("cache manager channel closed");
    reveal_strlit("failed to register with cache manager");
    assert("NVS not initialized"@.len() == 19 && "no config found in NVS"@.len() == 22);
    assert("OTA: received 0 bytes"@[0] == 'O');
    assert("no Content-Length in firmware response"@[0] == 'n');
    assert("cache manager channel closed"@[0] == 'c');
    assert("failed to register with cache manager"@[0] == 'f');
}

} // verus!
