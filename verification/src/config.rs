//! Validated configuration values. The file itself is read and parsed by
//! the callers; the rules for which fields must be present, in which
//! order they are checked, and how they are converted live here.

use vstd::prelude::*;

verus! {

/// A required configuration field is missing or has the wrong type.
#[derive(Debug)]
pub struct ConfigParseError {
    msg: String,
}

impl ConfigParseError {
    /// Wraps a description.
    pub fn new(msg: &str) -> (r: ConfigParseError)
        ensures
            r.spec_msg() == msg@,
    {
        ConfigParseError { msg: msg.to_owned() }
    }

    /// The stored description.
    pub closed spec fn spec_msg(&self) -> Seq<char> {
        self.msg@
    }

    /// The human-readable description of the failure.
    pub fn message(&self) -> (r: String)
        ensures
            r@ == self.spec_msg(),
    {
        self.msg.clone()
    }
}

/// The scout's configuration.
#[derive(Debug)]
pub struct Config {
    receive_timeout: u64,
    job_size: u64,
    send_rate: u64,
    dispatcher_base: String,
}

impl Config {
    /// The stored quiet period.
    pub closed spec fn spec_receive_timeout(&self) -> u64 {
        self.receive_timeout
    }

    /// The stored batch size.
    pub closed spec fn spec_job_size(&self) -> u64 {
        self.job_size
    }

    /// The stored send rate.
    pub closed spec fn spec_send_rate(&self) -> u64 {
        self.send_rate
    }

    /// The stored dispatcher base URL.
    pub closed spec fn spec_dispatcher_base(&self) -> Seq<char> {
        self.dispatcher_base@
    }

    /// Validates the fields read from the configuration file, in file
    /// order: the stop timeout, the batch size, the send rate and the
    /// dispatcher base URL must all be present; integers are reinterpreted
    /// as unsigned, as the file loader stores them.
    pub fn from_fields(
        stop_timeout: Option<i64>,
        job_size: Option<i64>,
        send_rate: Option<i64>,
        dispatcher_base: Option<String>,
    ) -> (r: Result<Config, ConfigParseError>)
        ensures
            match r {
                Ok(c) => {
                    &&& stop_timeout matches Some(t) && c.spec_receive_timeout() == t as u64
                    &&& job_size matches Some(j) && c.spec_job_size() == j as u64
                    &&& send_rate matches Some(s) && c.spec_send_rate() == s as u64
                    &&& dispatcher_base matches Some(b) && c.spec_dispatcher_base() == b@
                },
                Err(_) => {
                    ||| stop_timeout is None
                    ||| job_size is None
                    ||| send_rate is None
                    ||| dispatcher_base is None
                },
            },
            r is Ok <==> (stop_timeout is Some && job_size is Some && send_rate is Some
                && dispatcher_base is Some),
    {
        let receive_timeout = match stop_timeout {
            Some(t) => #[verifier::truncate] (t as u64),
            None => {
                return Err(ConfigParseError::new("stop_timeout field missing or invalid."));
            },
        };
        let job_size = match job_size {
            Some(j) => #[verifier::truncate] (j as u64),
            None => {
                return Err(ConfigParseError::new("job_size field is missing or invalid."));
            },
        };
        let send_rate = match send_rate {
            Some(s) => #[verifier::truncate] (s as u64),
            None => {
                return Err(ConfigParseError::new("send_rate field is missing or invalid."));
            },
        };
        let dispatcher_base = match dispatcher_base {
            Some(b) => b,
            None => {
                return Err(ConfigParseError::new("dispatcher_base field is missing or invalid."));
            },
        };
        Ok(Config { receive_timeout, job_size, send_rate, dispatcher_base })
    }

    /// The seconds of quiet the receiver waits through before stopping.
    pub fn get_receive_timeout(&self) -> (r: u64)
        ensures
            r == self.spec_receive_timeout(),
    {
        self.receive_timeout
    }

    /// The number of addresses per scout job.
    pub fn get_job_size(&self) -> (r: u64)
        ensures
            r == self.spec_job_size(),
    {
        self.job_size
    }

    /// The probe send rate in packets per second.
    pub fn get_send_rate(&self) -> (r: u64)
        ensures
            r == self.spec_send_rate(),
    {
        self.send_rate
    }

    /// The dispatcher's base URL.
    pub fn get_dispatcher_base(&self) -> (r: String)
        ensures
            r@ == self.spec_dispatcher_base(),
    {
        self.dispatcher_base.clone()
    }
}

/// The client's configuration: only the dispatcher base URL.
#[derive(Debug)]
pub struct ClientConfig {
    dispatcher_base: String,
}

impl ClientConfig {
    /// The stored dispatcher base URL.
    pub closed spec fn spec_dispatcher_base(&self) -> Seq<char> {
        self.dispatcher_base@
    }

    /// Validates the field read from the configuration file: the
    /// dispatcher base URL must be present.
    pub fn from_fields(dispatcher_base: Option<String>) -> (r: Result<
        ClientConfig,
        ConfigParseError,
    >)
        ensures
            match r {
                Ok(c) => dispatcher_base matches Some(b) && c.spec_dispatcher_base() == b@,
                Err(_) => dispatcher_base is None,
            },
    {
        match dispatcher_base {
            Some(b) => Ok(ClientConfig { dispatcher_base: b }),
            None => Err(
                ConfigParseError::new("dispatcher_base field is missing or invalid."),
            ),
        }
    }

    /// The dispatcher's base URL.
    pub fn get_dispatcher_base(&self) -> (r: String)
        ensures
            r@ == self.spec_dispatcher_base(),
    {
        self.dispatcher_base.clone()
    }
}

} // verus!
