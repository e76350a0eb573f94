//! Limits and reports of listeners that serve a finite number of connections.

use vstd::prelude::*;
use crate::http::reading::HttpQueryLimits;
use crate::http::response::HttpQueryError;
use crate::text::{concat4, int_text, usize_text};

verus! {

/// Default time in which a request must be read, in nanoseconds.
pub const DEFAULT_HTTP_CONNECTION_READ_TIMEOUT: u128 = 30_000_000_000;

/// Default time in which a response must be written, in nanoseconds.
pub const DEFAULT_HTTP_CONNECTION_WRITE_TIMEOUT: u128 = 30_000_000_000;

/// Bounds of a listener and of each exchange.
#[derive(Debug, Clone, Copy, PartialEq, Eq)]
pub struct HttpListenerLimits {
    /// Maximum number of accepted connections before the listener returns.
    pub max_connections: usize,
    /// Nanoseconds from acceptance in which the request must be read.
    pub read_timeout: u128,
    /// Nanoseconds from acceptance in which the response must be written.
    pub write_timeout: u128,
    /// Limits applied to every accepted connection.
    pub query_limits: HttpQueryLimits,
}

impl HttpListenerLimits {
    /// Makes bounds with the default times.
    pub fn new(max_connections: usize, query_limits: HttpQueryLimits) -> (r: HttpListenerLimits)
        ensures
            r == (HttpListenerLimits {
                max_connections,
                read_timeout: DEFAULT_HTTP_CONNECTION_READ_TIMEOUT,
                write_timeout: DEFAULT_HTTP_CONNECTION_WRITE_TIMEOUT,
                query_limits,
            }),
    {
        HttpListenerLimits {
            max_connections,
            read_timeout: DEFAULT_HTTP_CONNECTION_READ_TIMEOUT,
            write_timeout: DEFAULT_HTTP_CONNECTION_WRITE_TIMEOUT,
            query_limits,
        }
    }
}

/// A connection whose exchange failed in transport.
#[derive(Debug)]
pub struct HttpConnectionFailure {
    /// One-based position of this connection in the listener run.
    pub connection: usize,
    /// The failure.
    pub source: HttpQueryError,
}

impl HttpConnectionFailure {
    /// The text of the failure.
    pub fn message(&self) -> (s: String)
        ensures
            s@ == "HTTP connection "@ + int_text(self.connection as int) + " failed: "@
                + self.source.text(),
    {
        concat4(
            "HTTP connection ",
            usize_text(self.connection).as_str(),
            " failed: ",
            self.source.message().as_str(),
        )
    }
}

/// Outcome of a listener run.
#[derive(Debug)]
pub struct HttpListenerReport {
    /// Number of connections accepted from the listener.
    pub accepted_connections: usize,
    /// Number of exchanges that completed without a transport failure.
    pub successful_exchanges: usize,
    /// Failures in acceptance order.
    pub connection_failures: Vec<HttpConnectionFailure>,
}

impl Default for HttpListenerReport {
    fn default() -> (r: HttpListenerReport)
        ensures
            r.accepted_connections == 0,
            r.successful_exchanges == 0,
            r.connection_failures@ == Seq::<HttpConnectionFailure>::empty(),
    {
        HttpListenerReport {
            accepted_connections: 0,
            successful_exchanges: 0,
            connection_failures: Vec::new(),
        }
    }
}

/// Whether failures stand in acceptance order.
pub open spec fn in_acceptance_order(failures: Seq<HttpConnectionFailure>) -> bool {
    forall|i: int, j: int|
        #![trigger failures[i], failures[j]]
        0 <= i < j < failures.len() ==> failures[i].connection < failures[j].connection
}

/// The number of failures of earlier connections, where the first `i` are such.
pub open spec fn earlier(failures: Seq<HttpConnectionFailure>, connection: usize, i: int) -> int
    decreases failures.len() - i,
{
    if 0 <= i < failures.len() && failures[i].connection < connection {
        earlier(failures, connection, i + 1)
    } else {
        i
    }
}

impl HttpListenerReport {
    /// Whether every accepted connection is accounted for at most once.
    pub open spec fn wf(&self) -> bool {
        &&& in_acceptance_order(self.connection_failures@)
        &&& self.successful_exchanges + self.connection_failures.len() <= self.accepted_connections
    }

    /// Counts one more accepted connection and returns its position.
    pub fn accept(&mut self) -> (connection: usize)
        requires
            old(self).wf(),
            old(self).accepted_connections < usize::MAX,
        ensures
            final(self).wf(),
            connection == old(self).accepted_connections + 1,
            final(self).accepted_connections == connection,
            final(self).successful_exchanges == old(self).successful_exchanges,
            final(self).connection_failures == old(self).connection_failures,
    {
        self.accepted_connections = self.accepted_connections + 1;
        self.accepted_connections
    }

    /// Records how the exchange of a connection ended.
    pub fn record_http_listener_exchange(
        &mut self,
        connection: usize,
        exchange: Result<(), HttpQueryError>,
    )
        requires
            old(self).wf(),
            old(self).successful_exchanges + old(self).connection_failures.len()
                < old(self).accepted_connections,
            forall|i: int|
                0 <= i < old(self).connection_failures.len()
                    ==> #[trigger] old(self).connection_failures[i].connection != connection,
        ensures
            final(self).wf(),
            final(self).accepted_connections == old(self).accepted_connections,
            match exchange {
                Ok(()) => {
                    &&& final(self).successful_exchanges == old(self).successful_exchanges + 1
                    &&& final(self).connection_failures == old(self).connection_failures
                },
                Err(source) => {
                    let at = earlier(old(self).connection_failures@, connection, 0);
                    &&& final(self).successful_exchanges == old(self).successful_exchanges
                    &&& final(self).connection_failures@ == old(self).connection_failures@.insert(
                        at,
                        HttpConnectionFailure { connection, source },
                    )
                },
            },
    {
        match exchange {
            Ok(()) => {
                self.successful_exchanges = self.successful_exchanges + 1;
            },
            Err(source) => {
                let ghost before = self.connection_failures@;
                let mut at: usize = 0;
                while at < self.connection_failures.len()
                    && self.connection_failures[at].connection < connection
                    invariant
                        at <= self.connection_failures.len(),
                        self.connection_failures@ == before,
                        self.successful_exchanges == old(self).successful_exchanges,
                        self.accepted_connections == old(self).accepted_connections,
                        earlier(before, connection, 0) == earlier(before, connection, at as int),
                        forall|i: int| 0 <= i < at ==> #[trigger] before[i].connection < connection,
                    decreases self.connection_failures.len() - at,
                {
                    at = at + 1;
                }
                let failure = HttpConnectionFailure { connection, source };
                self.connection_failures.insert(at, failure);
                proof {
                    let after = self.connection_failures@;
                    assert(after == before.insert(at as int, failure));
                    if at < before.len() {
                        assert(before[at as int].connection != connection) by {
                            assert(old(self).connection_failures[at as int].connection != connection);
                        }
                    }
                    assert forall|i: int, j: int|
                        #![trigger after[i], after[j]]
                        0 <= i < j < after.len() implies after[i].connection < after[j].connection by {
                        let a = if i < at { i } else { i - 1 };
                        let b = if j < at { j } else { j - 1 };
                        if i != at {
                            assert(after[i] == before[a]);
                        }
                        if j != at {
                            assert(after[j] == before[b]);
                        }
                        if i != at && j != at {
                            assert(before[a].connection < before[b].connection);
                        } else if i == at && b > at {
                            assert(before[at as int].connection < before[b].connection);
                        }
                    }
                }
            },
        }
    }
}

/// A failure of the listener itself.
#[derive(Debug)]
pub enum HttpListenerError {
    /// Accepting the next connection failed.
    Accept {
        /// Work completed before the accept failure.
        report: HttpListenerReport,
        /// The error of the operating system.
        source: String,
    },
}

impl HttpListenerError {
    /// The text of the error.
    pub fn message(&self) -> (s: String)
        ensures
            ({
                let HttpListenerError::Accept { report, source } = *self;
                s@ == "could not accept HTTP connection after "@ + int_text(
                    report.accepted_connections as int,
                ) + " accepted connections: "@ + source@
            }),
    {
        match self {
            HttpListenerError::Accept { report, source } => concat4(
                "could not accept HTTP connection after ",
                usize_text(report.accepted_connections).as_str(),
                " accepted connections: ",
                source.as_str(),
            ),
        }
    }
}

} // verus!
