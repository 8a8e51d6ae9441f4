//! Addresses and headers for talking to a relay under test.

use crate::text::{decimal, decimal_string};
use vstd::prelude::*;

verus! {

/// The host and port that a relay listens on.
#[derive(Debug, Clone, PartialEq, Eq)]
pub struct ServerAddress {
    pub host: String,
    pub port: u16,
}

/// The value of the authentication header that identifies the client by
/// `dsn_key`.
pub open spec fn auth_header_text(dsn_key: Seq<char>) -> Seq<char> {
    "Sentry sentry_version=5, sentry_timestamp=1535376240291, sentry_client=rust-node/2.6.3, sentry_key="@
        + dsn_key
}

/// The value of the authentication header of a client that sends at
/// `timestamp`, in seconds since the Unix epoch.
pub open spec fn timed_auth_header_text(dsn_key: Seq<char>, timestamp: nat) -> Seq<char> {
    "Sentry sentry_version=7,sentry_timestamp="@ + decimal(timestamp)
        + ",sentry_client=my-rust-client/1.0.0,sentry_key="@ + dsn_key
}

impl ServerAddress {
    /// The URL of the relay: `http://`, the host, a colon and the port.
    pub open spec fn url_text(&self) -> Seq<char> {
        "http://"@ + self.host@ + ":"@ + decimal(self.port as nat)
    }

    /// The DSN of project 42 under `public_key`.
    pub open spec fn dsn_text(&self, public_key: Seq<char>) -> Seq<char> {
        "http://"@ + public_key + ":@"@ + self.host@ + ":"@ + decimal(self.port as nat) + "/42"@
    }

    /// The URL that envelopes of the project are sent to.
    pub open spec fn envelope_url_text(&self, project_id: nat) -> Seq<char> {
        self.url_text() + ("/api/"@ + decimal(project_id) + "/envelope/"@)
    }

    /// Returns the URL of the relay.
    pub fn url(&self) -> (url: String)
        ensures
            url@ == self.url_text(),
    {
        let mut url = String::from_str("http://");
        url.append(self.host.as_str());
        url.append(":");
        url.append(decimal_string(self.port as u64).as_str());
        url
    }

    /// Returns the DSN under which project 42 reaches the relay with
    /// `public_key`.
    pub fn get_dsn(&self, public_key: &str) -> (dsn: String)
        ensures
            dsn@ == self.dsn_text(public_key@),
    {
        let mut dsn = String::from_str("http://");
        dsn.append(public_key);
        dsn.append(":@");
        dsn.append(self.host.as_str());
        dsn.append(":");
        dsn.append(decimal_string(self.port as u64).as_str());
        dsn.append("/42");
        dsn
    }

    /// Returns the value of the authentication header for `dsn_key`.
    pub fn get_auth_header(&self, dsn_key: &str) -> (header: String)
        ensures
            header@ == auth_header_text(dsn_key@),
    {
        let mut header = String::from_str(
            "Sentry sentry_version=5, sentry_timestamp=1535376240291, sentry_client=rust-node/2.6.3, sentry_key=",
        );
        header.append(dsn_key);
        header
    }

    /// Returns the URL that envelopes of the project `project_id` are sent
    /// to.
    pub fn envelope_url(&self, project_id: u64) -> (url: String)
        ensures
            url@ == self.envelope_url_text(project_id as nat),
    {
        let mut endpoint = String::from_str("/api/");
        endpoint.append(decimal_string(project_id).as_str());
        endpoint.append("/envelope/");
        let mut url = self.url();
        url.append(endpoint.as_str());
        url
    }
}

/// Returns the value of the authentication header of a client that sends
/// at `timestamp`, in seconds since the Unix epoch, and is identified by
/// `dsn_key`.
pub fn get_auth_header(dsn_key: &str, timestamp: u64) -> (header: String)
    ensures
        header@ == timed_auth_header_text(dsn_key@, timestamp as nat),
{
    let client_name = "my-rust-client/1.0.0";
    let sentry_version = "7";  // or "5", depending on your Sentry server version
    proof {
        reveal_strlit("Sentry sentry_version=");
        reveal_strlit("7");
        reveal_strlit(",sentry_timestamp=");
        reveal_strlit("Sentry sentry_version=7,sentry_timestamp=");
        reveal_strlit(",sentry_client=");
        reveal_strlit("my-rust-client/1.0.0");
        reveal_strlit(",sentry_key=");
        reveal_strlit(",sentry_client=my-rust-client/1.0.0,sentry_key=");
    }
    let mut header = String::from_str("Sentry sentry_version=");
    header.append(sentry_version);
    header.append(",sentry_timestamp=");
    assert(header@ =~= "Sentry sentry_version=7,sentry_timestamp="@);
    header.append(decimal_string(timestamp).as_str());
    let ghost timed = header@;
    header.append(",sentry_client=");
    header.append(client_name);
    header.append(",sentry_key=");
    assert(header@ =~= timed + ",sentry_client=my-rust-client/1.0.0,sentry_key="@);
    header.append(dsn_key);
    header
}

} // verus!
