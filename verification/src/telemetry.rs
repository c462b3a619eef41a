//! Decisions and integer conversions for telemetry export.

use vstd::prelude::*;

verus! {

/// Whether telemetry is exported: only where the endpoint is set and not empty.
pub fn export_enabled(endpoint: Option<&str>) -> (r: bool)
    ensures
        r == (endpoint matches Some(e) && e@.len() > 0),
{
    match endpoint {
        Some(e) => !e.is_empty(),
        None => false,
    }
}

/// One step of setting telemetry export up.
#[derive(Debug, Clone, Copy, PartialEq, Eq, Structural)]
pub enum ExportStep {
    /// Build the exporter of spans.
    BuildSpans,
    /// Build the exporter of logs.
    BuildLogs,
    /// Build the exporter of metrics.
    BuildMetrics,
    /// Activate all three.
    Activate,
    /// Leave all three off.
    Off,
}

/// The next step of setting telemetry export up, when `built` exporters are
/// built and the last one may have failed: without an endpoint, or where one of
/// them cannot be built, all three stay off.
pub fn export_step(endpoint: Option<&str>, built: usize, failed: bool) -> (r: ExportStep)
    ensures
        r == (if !(endpoint matches Some(e) && e@.len() > 0) || failed {
            ExportStep::Off
        } else if built == 0 {
            ExportStep::BuildSpans
        } else if built == 1 {
            ExportStep::BuildLogs
        } else if built == 2 {
            ExportStep::BuildMetrics
        } else {
            ExportStep::Activate
        }),
{
    if !export_enabled(endpoint) || failed {
        ExportStep::Off
    } else if built == 0 {
        ExportStep::BuildSpans
    } else if built == 1 {
        ExportStep::BuildLogs
    } else if built == 2 {
        ExportStep::BuildMetrics
    } else {
        ExportStep::Activate
    }
}

/// The service name to report: that of the variable, or the given default.
pub fn service_name(configured: Option<String>, default_name: &str) -> (r: String)
    ensures
        r@ == (match configured {
            Some(name) => name@,
            None => default_name@,
        }),
{
    match configured {
        Some(name) => name,
        None => default_name.to_owned(),
    }
}

/// One step of shutting telemetry down.
#[derive(Debug, Clone, Copy, PartialEq, Eq, Structural)]
pub enum ShutdownStep {
    /// Shut the tracer provider down.
    StopTracer,
    /// Flush the meter provider.
    FlushMeter,
    /// Shut the meter provider down.
    StopMeter,
    /// Shut the logger provider down.
    StopLogger,
}

/// The steps by which the providers that are active are shut down: the tracer,
/// then the meter, which is flushed first, then the logger.
pub open spec fn shutdown_steps(tracer: bool, meter: bool, logger: bool) -> Seq<ShutdownStep> {
    (if tracer {
        seq![ShutdownStep::StopTracer]
    } else {
        seq![]
    }) + (if meter {
        seq![ShutdownStep::FlushMeter, ShutdownStep::StopMeter]
    } else {
        seq![]
    }) + (if logger {
        seq![ShutdownStep::StopLogger]
    } else {
        seq![]
    })
}

/// The order in which to shut the active providers down.
///
/// The logger is last, so that errors of the others still reach the log.
pub fn shutdown_order(tracer: bool, meter: bool, logger: bool) -> (r: Vec<ShutdownStep>)
    ensures
        r@ == shutdown_steps(tracer, meter, logger),
{
    let mut steps: Vec<ShutdownStep> = Vec::new();
    if tracer {
        steps.push(ShutdownStep::StopTracer);
    }
    if meter {
        steps.push(ShutdownStep::FlushMeter);
        steps.push(ShutdownStep::StopMeter);
    }
    if logger {
        steps.push(ShutdownStep::StopLogger);
    }
    assert(steps@ =~= shutdown_steps(tracer, meter, logger));
    steps
}

/// The logger is shut down after everything else.
pub proof fn law_logger_stops_last(tracer: bool, meter: bool, logger: bool, i: int)
    requires
        0 <= i < shutdown_steps(tracer, meter, logger).len(),
        shutdown_steps(tracer, meter, logger)[i] == ShutdownStep::StopLogger,
    ensures
        i == shutdown_steps(tracer, meter, logger).len() - 1,
{
}

/// The meter is flushed before it is shut down.
pub proof fn law_meter_flushed_before_stop(tracer: bool, meter: bool, logger: bool, i: int)
    requires
        0 <= i < shutdown_steps(tracer, meter, logger).len(),
        shutdown_steps(tracer, meter, logger)[i] == ShutdownStep::StopMeter,
    ensures
        i > 0,
        shutdown_steps(tracer, meter, logger)[i - 1] == ShutdownStep::FlushMeter,
{
}

/// The number of logical CPUs by which utilization is divided: 1 where it is
/// not known or does not fit.
pub fn cpu_count(parallelism: Option<usize>) -> (r: u32)
    ensures
        r == (match parallelism {
            Some(n) => if n <= u32::MAX {
                n as int
            } else {
                1
            },
            None => 1,
        }),
{
    match parallelism {
        Some(n) => if n <= u32::MAX as usize {
            n as u32
        } else {
            1
        },
        None => 1,
    }
}

/// A number of bytes as an observation; none where the process could not be
/// read or the number does not fit.
pub fn bytes_observation(bytes: Option<u64>) -> (r: Option<i64>)
    ensures
        match bytes {
            Some(n) => if n <= i64::MAX {
                r matches Some(v) && v == n
            } else {
                r is None
            },
            None => r is None,
        },
{
    match bytes {
        Some(n) => if n <= i64::MAX as u64 {
            Some(n as i64)
        } else {
            None
        },
        None => None,
    }
}

/// The number of threads as an observation: 1 where the process could not be
/// read or does not list its tasks, none where the number does not fit.
pub fn thread_observation(tasks: Option<Option<usize>>) -> (r: Option<i64>)
    ensures
        match tasks {
            Some(Some(n)) => if n <= i64::MAX {
                r matches Some(v) && v == n
            } else {
                r is None
            },
            _ => r == Some(1i64),
        },
{
    match tasks {
        Some(Some(n)) => bytes_observation(Some(n as u64)),
        _ => Some(1),
    }
}

/// The number of open files as an observation; none where the process could
/// not be read, the platform does not count them or the number does not fit.
pub fn open_files_observation(open_files: Option<Option<usize>>) -> (r: Option<i64>)
    ensures
        match open_files {
            Some(Some(n)) => if n <= i64::MAX {
                r matches Some(v) && v == n
            } else {
                r is None
            },
            _ => r is None,
        },
{
    match open_files {
        Some(Some(n)) => bytes_observation(Some(n as u64)),
        _ => None,
    }
}

/// Every active provider is shut down, and no other: each step is there exactly
/// where its provider is active, once, in the order tracer, meter, logger, and
/// the meter is flushed right before it is shut down.
pub proof fn law_active_providers_shut_down(
    tracer: bool,
    meter: bool,
    logger: bool,
    r: Vec<ShutdownStep>,
)
    requires
        call_ensures(shutdown_order, (tracer, meter, logger), r),
    ensures
        ({
            let before_meter: int = if tracer {
                1
            } else {
                0
            };
            let before_logger: int = before_meter + if meter {
                2int
            } else {
                0int
            };
            &&& r@.len() == before_logger + if logger {
                1int
            } else {
                0int
            }
            &&& tracer ==> r@[0] == ShutdownStep::StopTracer
            &&& meter ==> r@[before_meter] == ShutdownStep::FlushMeter
            &&& meter ==> r@[before_meter + 1] == ShutdownStep::StopMeter
            &&& logger ==> r@[before_logger] == ShutdownStep::StopLogger
        }),
{
}

/// Telemetry is exported only where the endpoint is set and not empty.
pub proof fn law_export_needs_endpoint(endpoint: Option<&str>, r: bool)
    requires
        call_ensures(export_enabled, (endpoint,), r),
    ensures
        endpoint is None ==> !r,
        endpoint is Some ==> (r <==> endpoint->0@ != Seq::<char>::empty()),
{
    if endpoint is Some && endpoint->0@.len() == 0 {
        assert(endpoint->0@ =~= Seq::<char>::empty());
    }
}

/// Export is all or nothing: it is activated only after the exporters of spans,
/// logs and metrics were built, one after the other, and without an endpoint or
/// after a failure everything stays off.
pub proof fn law_export_all_or_nothing(
    endpoint: Option<&str>,
    built: usize,
    failed: bool,
    enabled: bool,
    r: ExportStep,
)
    requires
        call_ensures(export_enabled, (endpoint,), enabled),
        call_ensures(export_step, (endpoint, built, failed), r),
    ensures
        r is Off <==> !enabled || failed,
        r is Activate <==> enabled && !failed && built >= 3,
        r is BuildSpans <==> enabled && !failed && built == 0,
        r is BuildLogs <==> enabled && !failed && built == 1,
        r is BuildMetrics <==> enabled && !failed && built == 2,
{
}

/// The service name is that of the variable wherever it is set, and otherwise
/// the default.
pub proof fn law_service_name(configured: Option<String>, default_name: &str, r: String)
    requires
        call_ensures(service_name, (configured, default_name), r),
    ensures
        configured is Some ==> r@ == configured->0@,
        configured is None ==> r@ == default_name@,
{
}

/// Numbers are observed as they are, where they fit: memory and open files not
/// at all where they are unknown, threads as one and processors as one.
pub proof fn law_observations(
    n: u64,
    m: usize,
    memory: Option<i64>,
    threads: Option<i64>,
    open_files: Option<i64>,
    processors: u32,
)
    requires
        call_ensures(bytes_observation, (Some(n),), memory),
        call_ensures(thread_observation, (Some(Some(m)),), threads),
        call_ensures(open_files_observation, (Some(Some(m)),), open_files),
        call_ensures(cpu_count, (Some(m),), processors),
    ensures
        n <= i64::MAX ==> memory is Some && memory->0 == n,
        n > i64::MAX ==> memory is None,
        m <= i64::MAX ==> threads is Some && threads->0 == m,
        m > i64::MAX ==> threads is None,
        m <= i64::MAX ==> open_files is Some && open_files->0 == m,
        m > i64::MAX ==> open_files is None,
        m <= u32::MAX ==> processors == m,
        m > u32::MAX ==> processors == 1,
{
}

/// What is not known is not observed, but for one thread and one processor.
pub proof fn law_unknown_observations(
    threads: Option<Option<usize>>,
    files: Option<Option<usize>>,
    memory: Option<i64>,
    thread_count: Option<i64>,
    open_files: Option<i64>,
    processors: u32,
)
    requires
        threads is None || threads->0 is None,
        files is None || files->0 is None,
        call_ensures(bytes_observation, (None::<u64>,), memory),
        call_ensures(thread_observation, (threads,), thread_count),
        call_ensures(open_files_observation, (files,), open_files),
        call_ensures(cpu_count, (None::<usize>,), processors),
    ensures
        memory is None,
        thread_count == Some(1i64),
        open_files is None,
        processors == 1,
{
}

} // verus!
