//! The settings of the three daemons, with their defaults.

use crate::errors::NsqError;
use crate::text::{join3, str_equal};
use crate::validation::{valid_address, validate_address};
use vstd::prelude::*;
use vstd::string::*;
use vstd::utf8::encode_utf8;

verus! {

/// Settings shared by every daemon.
#[derive(Debug, Clone)]
pub struct BaseConfig {
    /// `trace`, `debug`, `info`, `warn` or `error`.
    pub log_level: String,
    /// `text` or `json`.
    pub log_format: String,
    pub statsd_address: Option<String>,
    pub statsd_prefix: String,
}

impl Default for BaseConfig {
    fn default() -> (c: BaseConfig)
        ensures
            c.log_level@ == "info"@,
            c.log_format@ == "text"@,
            c.statsd_address is None,
            c.statsd_prefix@ == "nsq"@,
    {
        BaseConfig {
            log_level: String::from_str("info"),
            log_format: String::from_str("text"),
            statsd_address: None,
            statsd_prefix: String::from_str("nsq"),
        }
    }
}

/// The settings of the broker.
#[derive(Debug, Clone)]
pub struct NsqdConfig {
    pub base: BaseConfig,
    pub tcp_address: String,
    pub http_address: String,
    pub https_address: Option<String>,
    pub tcp_socket_path: Option<String>,
    pub http_socket_path: Option<String>,
    pub https_socket_path: Option<String>,
    pub data_path: String,
    /// How many messages each queue holds in memory.
    pub mem_queue_size: usize,
    /// The largest body of one message, in bytes.
    pub max_msg_size: usize,
    /// The largest payload of one request, in bytes.
    pub max_body_size: usize,
    /// The longest delay of a requeue or a deferred publish, in milliseconds.
    pub max_req_timeout: u64,
    /// The longest message timeout a client can negotiate, in milliseconds.
    pub max_msg_timeout: u64,
    /// The message timeout of a client that negotiates none.
    pub msg_timeout: u64,
    pub max_output_buffer_size: usize,
    pub max_output_buffer_timeout: u64,
    /// The largest credit a client can announce.
    pub max_rdy_count: u32,
    /// The largest segment file of a disk backing, in bytes.
    pub max_file_size: u64,
    pub tls_cert: Option<String>,
    pub tls_key: Option<String>,
    pub tls_root_ca_file: Option<String>,
    pub tls_min_version: String,
    pub lookupd_tcp_addresses: Vec<String>,
    pub disable_http: bool,
    pub disable_https: bool,
}

impl Default for NsqdConfig {
    fn default() -> (c: NsqdConfig)
        ensures
            c.tcp_address@ == "0.0.0.0:4150"@,
            c.http_address@ == "0.0.0.0:4151"@,
            c.https_address is None,
            c.data_path@ == "./data"@,
            c.mem_queue_size == 10000,
            c.max_msg_size == 1048576,
            c.max_body_size == 5242880,
            c.max_req_timeout == 60000,
            c.max_msg_timeout == 900000,
            c.msg_timeout == 60000,
            c.max_output_buffer_size == 16384,
            c.max_output_buffer_timeout == 250,
            c.max_rdy_count == 2500,
            c.max_file_size == 104857600,
            c.tls_min_version@ == "1.2"@,
            c.lookupd_tcp_addresses@.len() == 0,
            !c.disable_http,
            !c.disable_https,
    {
        NsqdConfig {
            base: BaseConfig::default(),
            tcp_address: String::from_str("0.0.0.0:4150"),
            http_address: String::from_str("0.0.0.0:4151"),
            https_address: None,
            tcp_socket_path: None,
            http_socket_path: None,
            https_socket_path: None,
            data_path: String::from_str("./data"),
            mem_queue_size: 10000,
            max_msg_size: 1048576,
            max_body_size: 5242880,
            max_req_timeout: 60000,
            max_msg_timeout: 900000,
            msg_timeout: 60000,
            max_output_buffer_size: 16384,
            max_output_buffer_timeout: 250,
            max_rdy_count: 2500,
            max_file_size: 104857600,
            tls_cert: None,
            tls_key: None,
            tls_root_ca_file: None,
            tls_min_version: String::from_str("1.2"),
            lookupd_tcp_addresses: Vec::new(),
            disable_http: false,
            disable_https: false,
        }
    }
}

/// The settings of the discovery service.
#[derive(Debug, Clone)]
pub struct NsqlookupdConfig {
    pub base: BaseConfig,
    pub tcp_address: String,
    pub http_address: String,
    pub tcp_socket_path: Option<String>,
    pub http_socket_path: Option<String>,
    /// How long a producer may be silent before it is removed, in
    /// milliseconds.
    pub inactive_producer_timeout: u64,
    /// How long a tombstone excludes a producer, in milliseconds.
    pub tombstone_lifetime: u64,
}

impl Default for NsqlookupdConfig {
    fn default() -> (c: NsqlookupdConfig)
        ensures
            c.tcp_address@ == "0.0.0.0:4160"@,
            c.http_address@ == "0.0.0.0:4161"@,
            c.tcp_socket_path is None,
            c.http_socket_path is None,
            c.inactive_producer_timeout == 300000,
            c.tombstone_lifetime == 45000,
    {
        NsqlookupdConfig {
            base: BaseConfig::default(),
            tcp_address: String::from_str("0.0.0.0:4160"),
            http_address: String::from_str("0.0.0.0:4161"),
            tcp_socket_path: None,
            http_socket_path: None,
            inactive_producer_timeout: 300000,
            tombstone_lifetime: 45000,
        }
    }
}

/// The settings of the admin service.
#[derive(Debug, Clone)]
pub struct NsqadminConfig {
    pub base: BaseConfig,
    pub http_address: String,
    pub lookupd_http_addresses: Vec<String>,
    pub nsqd_http_addresses: Vec<String>,
    pub template_dir: Option<String>,
    pub static_dir: Option<String>,
    pub dev_static_dir: Option<String>,
    pub graphite_url: Option<String>,
    pub proxy_graphite: bool,
    pub notification_http_endpoint: Option<String>,
}

impl Default for NsqadminConfig {
    fn default() -> (c: NsqadminConfig)
        ensures
            c.http_address@ == "0.0.0.0:4171"@,
            c.lookupd_http_addresses@.len() == 1,
            c.lookupd_http_addresses@[0]@ == "127.0.0.1:4161"@,
            c.nsqd_http_addresses@.len() == 0,
            !c.proxy_graphite,
    {
        let mut lookupd: Vec<String> = Vec::new();
        lookupd.push(String::from_str("127.0.0.1:4161"));
        NsqadminConfig {
            base: BaseConfig::default(),
            http_address: String::from_str("0.0.0.0:4171"),
            lookupd_http_addresses: lookupd,
            nsqd_http_addresses: Vec::new(),
            template_dir: None,
            static_dir: None,
            dev_static_dir: None,
            graphite_url: None,
            proxy_graphite: false,
            notification_http_endpoint: None,
        }
    }
}

/// A log level the daemons know.
pub open spec fn known_log_level(level: Seq<char>) -> bool {
    level == "trace"@ || level == "debug"@ || level == "info"@ || level == "warn"@ || level
        == "error"@
}

/// A log format the daemons know.
pub open spec fn known_log_format(format: Seq<char>) -> bool {
    format == "text"@ || format == "json"@
}

/// Whether `level` is a log level the daemons know.
pub fn is_log_level(level: &str) -> (yes: bool)
    ensures
        yes == known_log_level(level@),
{
    str_equal(level, "trace") || str_equal(level, "debug") || str_equal(level, "info")
        || str_equal(level, "warn") || str_equal(level, "error")
}

/// Whether `format` is a log format the daemons know.
pub fn is_log_format(format: &str) -> (yes: bool)
    ensures
        yes == known_log_format(format@),
{
    str_equal(format, "text") || str_equal(format, "json")
}

impl NsqlookupdConfig {
    /// Settings that the discovery service can start with: both timeouts are
    /// positive, the log level and format are known, and each listen address
    /// that is given is well-formed.
    pub open spec fn valid(self) -> bool {
        &&& self.inactive_producer_timeout > 0
        &&& self.tombstone_lifetime > 0
        &&& known_log_level(self.base.log_level@)
        &&& known_log_format(self.base.log_format@)
        &&& (self.tcp_address@.len() > 0 ==> valid_address(encode_utf8(self.tcp_address@)))
        &&& (self.http_address@.len() > 0 ==> valid_address(encode_utf8(self.http_address@)))
    }

    /// The text of the error for the first setting that is wrong, if any is:
    /// the listen addresses come first, then the timeouts, then the log level
    /// and the log format.
    pub open spec fn fault(self) -> Option<Seq<char>> {
        if self.tcp_address@.len() > 0 && !valid_address(encode_utf8(self.tcp_address@)) {
            Some("Invalid TCP address '"@ + self.tcp_address@ + "'"@)
        } else if self.http_address@.len() > 0 && !valid_address(encode_utf8(self.http_address@)) {
            Some("Invalid HTTP address '"@ + self.http_address@ + "'"@)
        } else if self.inactive_producer_timeout == 0 {
            Some("inactive_producer_timeout must be greater than 0"@)
        } else if self.tombstone_lifetime == 0 {
            Some("tombstone_lifetime must be greater than 0"@)
        } else if !known_log_level(self.base.log_level@) {
            Some(
                "Invalid log level '"@ + self.base.log_level@
                    + "'. Must be one of: trace, debug, info, warn, error"@,
            )
        } else if !known_log_format(self.base.log_format@) {
            Some(
                "Invalid log format '"@ + self.base.log_format@
                    + "'. Must be one of: text, json"@,
            )
        } else {
            None
        }
    }

    /// Checks the settings; the error names the first setting that is wrong.
    pub fn validate(&self) -> (res: Result<(), NsqError>)
        ensures
            res is Ok <==> self.valid(),
            match self.fault() {
                Some(text) => res matches Err(NsqError::Config(m)) && m@ == text,
                None => res is Ok,
            },
    {
        if self.tcp_address.as_str().unicode_len() > 0 {
            if validate_address(self.tcp_address.as_str()).is_err() {
                let text = join3("Invalid TCP address '", self.tcp_address.as_str(), "'");
                return Err(NsqError::Config(text));
            }
        }
        if self.http_address.as_str().unicode_len() > 0 {
            if validate_address(self.http_address.as_str()).is_err() {
                let text = join3("Invalid HTTP address '", self.http_address.as_str(), "'");
                return Err(NsqError::Config(text));
            }
        }
        if self.inactive_producer_timeout == 0 {
            return Err(
                NsqError::Config(
                    String::from_str("inactive_producer_timeout must be greater than 0"),
                ),
            );
        }
        if self.tombstone_lifetime == 0 {
            return Err(
                NsqError::Config(String::from_str("tombstone_lifetime must be greater than 0")),
            );
        }
        if !is_log_level(self.base.log_level.as_str()) {
            let text = join3(
                "Invalid log level '",
                self.base.log_level.as_str(),
                "'. Must be one of: trace, debug, info, warn, error",
            );
            return Err(NsqError::Config(text));
        }
        if !is_log_format(self.base.log_format.as_str()) {
            let text = join3(
                "Invalid log format '",
                self.base.log_format.as_str(),
                "'. Must be one of: text, json",
            );
            return Err(NsqError::Config(text));
        }
        Ok(())
    }
}

} // verus!
