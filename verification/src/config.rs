//! Service configuration: defaults, the values read from the environment,
//! and what is derived from them.

use vstd::prelude::*;
use vstd::utf8::encode_utf8;
use crate::text::{dec, parse_bounded, parse_unsigned_bounded, push_decimal};

verus! {

#[derive(Clone, Debug)]
pub struct AppConfig {
    pub jwt_secret: String,
    pub host: String,
    pub port: u16,
    pub rate_limit_max_requests: usize,
    pub rate_limit_window_secs: u64,
    pub metrics_error_threshold: u64,
    pub log_dir: String,
    pub log_file: String,
    pub tls_cert_path: Option<String>,
    pub tls_key_path: Option<String>,
}

/// The raw settings as found in the environment (`None` where a variable is unset
/// or not valid Unicode).
#[derive(Clone, Debug)]
pub struct EnvValues {
    pub jwt_secret: Option<String>,
    pub host: Option<String>,
    pub port: Option<String>,
    pub rate_limit_max_requests: Option<String>,
    pub rate_limit_window_secs: Option<String>,
    pub metrics_error_threshold: Option<String>,
    pub log_dir: Option<String>,
    pub log_file: Option<String>,
    pub tls_cert_path: Option<String>,
    pub tls_key_path: Option<String>,
}

/// A text setting, or its default when unset.
pub open spec fn text_or(v: Option<String>, default: Seq<char>) -> Seq<char> {
    match v {
        Some(s) => s@,
        None => default,
    }
}

/// A numeric setting: its value when it parses as an unsigned integer not above
/// `max`, else the default.
pub open spec fn number_or(v: Option<String>, max: nat, default: nat) -> nat {
    match v {
        Some(s) => match parse_bounded(s@, max) {
            Some(n) => n,
            None => default,
        },
        None => default,
    }
}

pub open spec fn opt_view(v: Option<String>) -> Option<Seq<char>> {
    match v {
        Some(s) => Some(s@),
        None => None,
    }
}

impl AppConfig {
    /// The configuration that `Default` gives.
    pub open spec fn is_default(self) -> bool {
        &&& self.jwt_secret@ == "dev-secret-change-me"@
        &&& self.host@ == "127.0.0.1"@
        &&& self.port == 3000
        &&& self.rate_limit_max_requests == 60
        &&& self.rate_limit_window_secs == 60
        &&& self.metrics_error_threshold == 5
        &&& self.log_dir@ == "logs"@
        &&& self.log_file@ == "auth.log"@
        &&& self.tls_cert_path is None
        &&& self.tls_key_path is None
    }

    /// The configuration built from environment values `e`: each setting that
    /// is unset (or, for a number, does not parse) takes its default.
    pub open spec fn from_values_spec(self, e: EnvValues) -> bool {
        &&& self.jwt_secret@ == text_or(e.jwt_secret, "dev-secret-change-me"@)
        &&& self.host@ == text_or(e.host, "127.0.0.1"@)
        &&& self.port == number_or(e.port, u16::MAX as nat, 3000)
        &&& self.rate_limit_max_requests == number_or(
            e.rate_limit_max_requests,
            usize::MAX as nat,
            60,
        )
        &&& self.rate_limit_window_secs == number_or(e.rate_limit_window_secs, u64::MAX as nat, 60)
        &&& self.metrics_error_threshold == number_or(
            e.metrics_error_threshold,
            u64::MAX as nat,
            5,
        )
        &&& self.log_dir@ == text_or(e.log_dir, "logs"@)
        &&& self.log_file@ == text_or(e.log_file, "auth.log"@)
        &&& opt_view(self.tls_cert_path) == opt_view(e.tls_cert_path)
        &&& opt_view(self.tls_key_path) == opt_view(e.tls_key_path)
    }

    /// Builds the configuration from the values found in the environment.
    pub fn from_env_values(e: EnvValues) -> (c: AppConfig)
        ensures
            c.from_values_spec(e),
    {
        let jwt_secret = match e.jwt_secret {
            Some(s) => s,
            None => String::from_str("dev-secret-change-me"),
        };
        let host = match e.host {
            Some(s) => s,
            None => String::from_str("127.0.0.1"),
        };
        let port = number_setting(&e.port, 65535, 3000) as u16;
        let rate_limit_max_requests = number_setting(
            &e.rate_limit_max_requests,
            usize::MAX as u64,
            60,
        ) as usize;
        let rate_limit_window_secs = number_setting(&e.rate_limit_window_secs, u64::MAX, 60);
        let metrics_error_threshold = number_setting(&e.metrics_error_threshold, u64::MAX, 5);
        let log_dir = match e.log_dir {
            Some(s) => s,
            None => String::from_str("logs"),
        };
        let log_file = match e.log_file {
            Some(s) => s,
            None => String::from_str("auth.log"),
        };
        AppConfig {
            jwt_secret,
            host,
            port,
            rate_limit_max_requests,
            rate_limit_window_secs,
            metrics_error_threshold,
            log_dir,
            log_file,
            tls_cert_path: e.tls_cert_path,
            tls_key_path: e.tls_key_path,
        }
    }

    /// The JWT signing secret as bytes (its UTF-8 encoding).
    pub fn jwt_secret_bytes(&self) -> (b: Vec<u8>)
        ensures
            b@ == encode_utf8(self.jwt_secret@),
    {
        vstd::slice::slice_to_vec(self.jwt_secret.as_str().as_bytes())
    }

    /// The address the server listens on: `host:port`.
    pub fn listen_addr(&self) -> (a: String)
        ensures
            a@ == self.host@ + seq![':'] + dec(self.port as nat),
    {
        let mut a = self.host.clone();
        proof {
            reveal_strlit(":");
        }
        a.append(":");
        push_decimal(&mut a, self.port as u64);
        a
    }
}

/// A numeric setting, or `default` when it is unset or does not parse within `max`.
fn number_setting(v: &Option<String>, max: u64, default: u64) -> (n: u64)
    requires
        default <= max,
    ensures
        n == number_or(*v, max as nat, default as nat),
        n <= max,
{
    match v {
        Some(s) => match parse_unsigned_bounded(s.as_str(), max) {
            Some(n) => n,
            None => default,
        },
        None => default,
    }
}

/// With no setting in the environment, the configuration is the default one.
pub proof fn lemma_empty_environment_gives_defaults(c: AppConfig, e: EnvValues)
    requires
        e.jwt_secret is None,
        e.host is None,
        e.port is None,
        e.rate_limit_max_requests is None,
        e.rate_limit_window_secs is None,
        e.metrics_error_threshold is None,
        e.log_dir is None,
        e.log_file is None,
        e.tls_cert_path is None,
        e.tls_key_path is None,
        c.from_values_spec(e),
    ensures
        c.is_default(),
{
}

impl Default for AppConfig {
    fn default() -> (c: AppConfig)
        ensures
            c.is_default(),
    {
        AppConfig {
            jwt_secret: String::from_str("dev-secret-change-me"),
            host: String::from_str("127.0.0.1"),
            port: 3000,
            rate_limit_max_requests: 60,
            rate_limit_window_secs: 60,
            metrics_error_threshold: 5,
            log_dir: String::from_str("logs"),
            log_file: String::from_str("auth.log"),
            tls_cert_path: None,
            tls_key_path: None,
        }
    }
}

} // verus!
