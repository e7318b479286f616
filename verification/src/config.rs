//! The configuration of a server: made once at startup and only read after.

use vstd::prelude::*;

verus! {

/// The number of workers of a server that was not told another.
pub const DEFAULT_WORKERS: usize = 8;

/// How long a read may wait, in milliseconds, where nothing else was asked
/// for. Every wait for the next request on a connection is such a read, so a
/// server that keeps connections open for slow clients wants far more.
pub const DEFAULT_READ_TIMEOUT_MS: u64 = 100;

/// The size of the buffer that one read fills. A request is read in one
/// read, so this is also the largest request that is understood in full.
pub const READ_BUFFER_SIZE: usize = 1024;

/// The address that a server listens on where it was not told another.
pub open spec fn default_bind_address() -> Seq<char> {
    "127.0.0.1:4221"@
}

/// What a server is started with.
#[derive(Debug)]
pub struct ServerConfig {
    bind_address: String,
    files_root: Vec<u8>,
    worker_count: usize,
    read_timeout_ms: u64,
}

/// A configuration, as plain values.
pub struct ConfigView {
    pub bind_address: Seq<char>,
    pub files_root: Seq<u8>,
    pub worker_count: nat,
    pub read_timeout_ms: nat,
}

impl View for ServerConfig {
    type V = ConfigView;

    closed spec fn view(&self) -> ConfigView {
        ConfigView {
            bind_address: self.bind_address@,
            files_root: self.files_root@,
            worker_count: self.worker_count as nat,
            read_timeout_ms: self.read_timeout_ms as nat,
        }
    }
}

impl ServerConfig {
    /// The configuration that serves files from `files_root` and is otherwise
    /// the default one.
    pub fn new(files_root: Vec<u8>) -> (c: ServerConfig)
        ensures
            c@ == (ConfigView {
                bind_address: default_bind_address(),
                files_root: files_root@,
                worker_count: DEFAULT_WORKERS as nat,
                read_timeout_ms: DEFAULT_READ_TIMEOUT_MS as nat,
            }),
    {
        ServerConfig {
            bind_address: "127.0.0.1:4221".to_owned(),
            files_root,
            worker_count: DEFAULT_WORKERS,
            read_timeout_ms: DEFAULT_READ_TIMEOUT_MS,
        }
    }

    /// The same configuration, listening on `bind_address`.
    pub fn with_bind_address(self, bind_address: String) -> (c: ServerConfig)
        ensures
            c@ == (ConfigView { bind_address: bind_address@, ..self@ }),
    {
        ServerConfig { bind_address, ..self }
    }

    /// The same configuration, with `worker_count` workers.
    pub fn with_worker_count(self, worker_count: usize) -> (c: ServerConfig)
        ensures
            c@ == (ConfigView { worker_count: worker_count as nat, ..self@ }),
    {
        ServerConfig { worker_count, ..self }
    }

    /// The same configuration, with reads that wait `read_timeout_ms` milliseconds.
    pub fn with_read_timeout_ms(self, read_timeout_ms: u64) -> (c: ServerConfig)
        ensures
            c@ == (ConfigView { read_timeout_ms: read_timeout_ms as nat, ..self@ }),
    {
        ServerConfig { read_timeout_ms, ..self }
    }

    /// The address to listen on.
    pub fn bind_address(&self) -> (r: &str)
        ensures
            r@ == self@.bind_address,
    {
        self.bind_address.as_str()
    }

    /// The directory that files are read from and written to.
    pub fn files_root(&self) -> (r: &[u8])
        ensures
            r@ == self@.files_root,
    {
        self.files_root.as_slice()
    }

    /// The number of workers.
    pub fn worker_count(&self) -> (r: usize)
        ensures
            r == self@.worker_count,
    {
        self.worker_count
    }

    /// How long a read may wait, in milliseconds.
    pub fn read_timeout_ms(&self) -> (r: u64)
        ensures
            r == self@.read_timeout_ms,
    {
        self.read_timeout_ms
    }
}

} // verus!
