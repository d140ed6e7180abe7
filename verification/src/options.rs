//! Starting and stopping a server: the settings given at the start, the runtime
//! that it gets, and the slot that keeps it the only one in its process.

use vstd::prelude::*;

verus! {

/// The settings given at the start. `F` is how a number of seconds is given.
pub struct ServerOptions<F> {
    pub config: Option<String>,
    pub port: Option<u16>,
    pub host: Option<String>,
    pub model_repo: Option<String>,
    pub threads: Option<usize>,
    pub timeout: Option<F>,
    pub log_level: Option<String>,
    pub log_info_output: Option<String>,
    pub log_error_output: Option<String>,
    pub log_rotation: Option<String>,
    pub metrics_port: Option<u16>,
    pub no_metrics: Option<bool>,
    pub grpc_port: Option<u16>,
    pub no_grpc: Option<bool>,
    pub no_streaming_metrics: Option<bool>,
    pub max_queue_size: Option<usize>,
    pub max_requests: Option<usize>,
    pub max_requests_jitter: Option<usize>,
    pub request_timeout: Option<F>,
    pub health_check_interval: Option<F>,
    pub graceful_timeout: Option<F>,
    pub keepalive_timeout: Option<F>,
    pub ejection_error_threshold: Option<usize>,
    pub ejection_timeout: Option<F>,
    pub ejection_max_percent: Option<usize>,
    pub ejection_max_timeout: Option<F>,
    pub max_retries: Option<usize>,
    pub startup_timeout: Option<F>,
    pub health_check_timeout: Option<F>,
    pub health_check_kill_threshold: Option<usize>,
    pub worker_kill_timeout: Option<F>,
    pub hook_http_timeout: Option<F>,
}

/// The settings of all models. What is not given keeps its value.
pub struct ModelTunables<F> {
    pub max_queue_size: Option<usize>,
    pub max_requests: Option<usize>,
    pub max_requests_jitter: Option<usize>,
    pub request_timeout: Option<F>,
    pub health_check_interval: Option<F>,
    pub ejection_error_threshold: Option<usize>,
    pub ejection_timeout: Option<F>,
    pub ejection_max_percent: Option<usize>,
    pub ejection_max_timeout: Option<F>,
    pub max_retries: Option<usize>,
    pub startup_timeout: Option<F>,
    pub health_check_timeout: Option<F>,
    pub health_check_kill_threshold: Option<usize>,
    pub worker_kill_timeout: Option<F>,
    pub hook_http_timeout: Option<F>,
    pub recycle_max_percent: Option<usize>,
}

/// The settings that take the place of those in the configuration. What is not
/// given keeps its value.
pub struct CliOverrides<F> {
    pub port: Option<u16>,
    pub host: Option<String>,
    pub model_repo: Option<String>,
    pub threads: Option<usize>,
    pub timeout: Option<F>,
    pub log_level: Option<String>,
    pub log_info_output: Option<String>,
    pub log_error_output: Option<String>,
    pub log_rotation: Option<String>,
    pub metrics_port: Option<u16>,
    pub grpc_port: Option<u16>,
    pub graceful_timeout: Option<F>,
    pub keepalive_timeout: Option<F>,
    pub no_metrics: bool,
    pub no_grpc: bool,
    pub no_streaming_metrics: bool,
    pub tunables: ModelTunables<F>,
}

/// The path of the configuration file, where one was given, and the settings
/// that take the place of those in it. Something is switched off only where
/// that was asked for.
pub fn overrides<F>(opts: ServerOptions<F>) -> (r: (Option<String>, CliOverrides<F>))
    ensures
        r.0 == opts.config,
        r.1.port == opts.port,
        r.1.host == opts.host,
        r.1.model_repo == opts.model_repo,
        r.1.threads == opts.threads,
        r.1.timeout == opts.timeout,
        r.1.log_level == opts.log_level,
        r.1.log_info_output == opts.log_info_output,
        r.1.log_error_output == opts.log_error_output,
        r.1.log_rotation == opts.log_rotation,
        r.1.metrics_port == opts.metrics_port,
        r.1.grpc_port == opts.grpc_port,
        r.1.graceful_timeout == opts.graceful_timeout,
        r.1.keepalive_timeout == opts.keepalive_timeout,
        r.1.no_metrics == (opts.no_metrics == Some(true)),
        r.1.no_grpc == (opts.no_grpc == Some(true)),
        r.1.no_streaming_metrics == (opts.no_streaming_metrics == Some(true)),
        r.1.tunables.max_queue_size == opts.max_queue_size,
        r.1.tunables.max_requests == opts.max_requests,
        r.1.tunables.max_requests_jitter == opts.max_requests_jitter,
        r.1.tunables.request_timeout == opts.request_timeout,
        r.1.tunables.health_check_interval == opts.health_check_interval,
        r.1.tunables.ejection_error_threshold == opts.ejection_error_threshold,
        r.1.tunables.ejection_timeout == opts.ejection_timeout,
        r.1.tunables.ejection_max_percent == opts.ejection_max_percent,
        r.1.tunables.ejection_max_timeout == opts.ejection_max_timeout,
        r.1.tunables.max_retries == opts.max_retries,
        r.1.tunables.startup_timeout == opts.startup_timeout,
        r.1.tunables.health_check_timeout == opts.health_check_timeout,
        r.1.tunables.health_check_kill_threshold == opts.health_check_kill_threshold,
        r.1.tunables.worker_kill_timeout == opts.worker_kill_timeout,
        r.1.tunables.hook_http_timeout == opts.hook_http_timeout,
        r.1.tunables.recycle_max_percent is None,
{
    let o = CliOverrides {
        port: opts.port,
        host: opts.host,
        model_repo: opts.model_repo,
        threads: opts.threads,
        timeout: opts.timeout,
        log_level: opts.log_level,
        log_info_output: opts.log_info_output,
        log_error_output: opts.log_error_output,
        log_rotation: opts.log_rotation,
        metrics_port: opts.metrics_port,
        grpc_port: opts.grpc_port,
        graceful_timeout: opts.graceful_timeout,
        keepalive_timeout: opts.keepalive_timeout,
        no_metrics: is_set(opts.no_metrics),
        no_grpc: is_set(opts.no_grpc),
        no_streaming_metrics: is_set(opts.no_streaming_metrics),
        tunables: ModelTunables {
            max_queue_size: opts.max_queue_size,
            max_requests: opts.max_requests,
            max_requests_jitter: opts.max_requests_jitter,
            request_timeout: opts.request_timeout,
            health_check_interval: opts.health_check_interval,
            ejection_error_threshold: opts.ejection_error_threshold,
            ejection_timeout: opts.ejection_timeout,
            ejection_max_percent: opts.ejection_max_percent,
            ejection_max_timeout: opts.ejection_max_timeout,
            max_retries: opts.max_retries,
            startup_timeout: opts.startup_timeout,
            health_check_timeout: opts.health_check_timeout,
            health_check_kill_threshold: opts.health_check_kill_threshold,
            worker_kill_timeout: opts.worker_kill_timeout,
            hook_http_timeout: opts.hook_http_timeout,
            recycle_max_percent: None,
        },
    };
    (opts.config, o)
}

fn is_set(flag: Option<bool>) -> (r: bool)
    ensures
        r == (flag == Some(true)),
{
    match flag {
        Some(b) => b,
        None => false,
    }
}

/// What runs the tasks of a server.
#[derive(Debug, Clone, Copy, PartialEq, Eq, Structural)]
pub enum RuntimeKind {
    /// The thread that starts the server.
    CurrentThread,
    /// Several threads: as many as given, or one for each processor.
    MultiThread { workers: Option<usize> },
}

/// What runs the tasks of a server that is given so many threads.
pub fn runtime_kind(threads: Option<usize>) -> (k: RuntimeKind)
    requires
        threads != Some(0usize),
    ensures
        k == if threads == Some(1usize) {
            RuntimeKind::CurrentThread
        } else {
            RuntimeKind::MultiThread { workers: threads }
        },
{
    match threads {
        Some(n) => if n == 1 {
            RuntimeKind::CurrentThread
        } else {
            RuntimeKind::MultiThread { workers: Some(n) }
        },
        None => RuntimeKind::MultiThread { workers: None },
    }
}

/// The slot of the one server that may run in a process. It holds what the
/// server is stopped with.
pub struct ServeSlot<T> {
    stop: Option<T>,
}

impl<T> ServeSlot<T> {
    /// What the running server is stopped with, where one runs that was not
    /// told to stop.
    pub closed spec fn holder(&self) -> Option<T> {
        self.stop
    }

    pub fn new() -> (s: Self)
        ensures
            s.holder() is None,
    {
        ServeSlot { stop: None }
    }

    /// Takes the slot for a server that starts. Gives `stop` back where another
    /// server has it.
    pub fn claim(&mut self, stop: T) -> (r: Result<(), T>)
        ensures
            match old(self).holder() {
                Some(_) => r == Err::<(), T>(stop) && final(self).holder() == old(self).holder(),
                None => r is Ok && final(self).holder() == Some(stop),
            },
    {
        if self.stop.is_some() {
            return Err(stop);
        }
        self.stop = Some(stop);
        Ok(())
    }

    /// Gives out what the running server is stopped with, once.
    pub fn take_stop(&mut self) -> (r: Option<T>)
        ensures
            r == old(self).holder(),
            final(self).holder() is None,
    {
        self.stop.take()
    }

    /// Clears the slot of a server that has ended, in whatever way.
    pub fn clear(&mut self)
        ensures
            final(self).holder() is None,
    {
        self.stop = None;
    }
}

/// Why a server cannot start beside another.
pub fn already_running_message() -> (r: String)
    ensures
        r@
            == "lite-server is already running; call stop_server() or wait for the running instance to finish"@,
{
    "lite-server is already running; call stop_server() or wait for the running instance to finish".to_string()
}

} // verus!
