use chezmage::telemetry::{
    bytes_observation, cpu_count, export_enabled, export_step, open_files_observation,
    service_name, shutdown_order, thread_observation, ExportStep, ShutdownStep,
};

#[test]
fn export_needs_an_endpoint() {
    assert!(!export_enabled(None));
    assert!(!export_enabled(Some("")));
    assert!(export_enabled(Some("http://localhost:4318")));
}

#[test]
fn the_service_name_has_a_default() {
    assert_eq!(service_name(None, "chezmage"), "chezmage");
    assert_eq!(service_name(Some(String::from("x")), "chezmage"), "x");
}

#[test]
fn providers_stop_in_order() {
    assert_eq!(
        shutdown_order(true, true, true),
        vec![
            ShutdownStep::StopTracer,
            ShutdownStep::FlushMeter,
            ShutdownStep::StopMeter,
            ShutdownStep::StopLogger,
        ]
    );
    assert_eq!(
        shutdown_order(false, true, false),
        vec![ShutdownStep::FlushMeter, ShutdownStep::StopMeter]
    );
    assert!(shutdown_order(false, false, false).is_empty());
}

#[test]
fn cpu_counts_fit() {
    assert_eq!(cpu_count(None), 1);
    assert_eq!(cpu_count(Some(8)), 8);
    assert_eq!(cpu_count(Some(usize::MAX)), 1);
}

#[test]
fn observations_fit() {
    assert_eq!(bytes_observation(None), None);
    assert_eq!(bytes_observation(Some(4096)), Some(4096));
    assert_eq!(bytes_observation(Some(i64::MAX as u64)), Some(i64::MAX));
    assert_eq!(bytes_observation(Some(u64::MAX)), None);
    assert_eq!(thread_observation(None), Some(1));
    assert_eq!(thread_observation(Some(None)), Some(1));
    assert_eq!(thread_observation(Some(Some(5))), Some(5));
    assert_eq!(thread_observation(Some(Some(usize::MAX))), None);
    assert_eq!(open_files_observation(None), None);
    assert_eq!(open_files_observation(Some(None)), None);
    assert_eq!(open_files_observation(Some(Some(3))), Some(3));
    assert_eq!(open_files_observation(Some(Some(usize::MAX))), None);
}

#[test]
fn one_exporter_that_fails_leaves_all_off() {
    let endpoint = Some("http://localhost:4318");
    assert_eq!(export_step(endpoint, 0, false), ExportStep::BuildSpans);
    assert_eq!(export_step(endpoint, 1, false), ExportStep::BuildLogs);
    assert_eq!(export_step(endpoint, 2, false), ExportStep::BuildMetrics);
    assert_eq!(export_step(endpoint, 3, false), ExportStep::Activate);
    for built in 1..4 {
        assert_eq!(export_step(endpoint, built, true), ExportStep::Off);
    }
    assert_eq!(export_step(None, 0, false), ExportStep::Off);
    assert_eq!(export_step(Some(""), 3, false), ExportStep::Off);
}
