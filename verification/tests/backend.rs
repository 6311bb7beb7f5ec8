use pw_graph::metering::{meter_description, meter_plan, meter_stream_name, meter_target, nodes_to_meter, MeterPolicy};
use pw_graph::pipewire::{classify_port_type, dsp_frames, validate_pipewire_text, MAX_DSP_FRAMES};
use pw_graph::graph::{Direction, PortType};
use pw_graph::ids::{backend_for_node, backend_for_port, BackendKind, NodeId, PortId};
use pw_graph::router::diagnostics::{RouteDiagnostics, RouteFault, UNITY_RATIO_BITS};
use pw_graph::router::format::AudioFormat;
use pw_graph::backend::BackendError;

#[test]
fn meter_policy_round_trips_and_defaults_safely() {
    for policy in MeterPolicy::ALL {
        assert_eq!(MeterPolicy::parse(policy.as_str()), policy);
    }
    assert_eq!(MeterPolicy::parse("OFF"), MeterPolicy::Disabled);
    assert_eq!(MeterPolicy::parse("all"), MeterPolicy::Always);
    assert_eq!(MeterPolicy::parse("nonsense"), MeterPolicy::default());
    assert_eq!(MeterPolicy::default(), MeterPolicy::OnDemand);
}

#[test]
fn classifies_media_types_without_case_sensitive_metadata() {
    assert_eq!(classify_port_type("Audio", None), PortType::Audio);
    assert_eq!(classify_port_type("video/raw", None), PortType::Video);
    assert_eq!(classify_port_type("", Some("Midi/Source")), PortType::MidiJack);
}

#[test]
fn prefers_explicit_port_media_metadata() {
    assert_eq!(classify_port_type("audio/raw", Some("Video/Source")), PortType::Audio);
    assert_eq!(classify_port_type("midi/raw", Some("Audio/Source")), PortType::MidiJack);
    assert_eq!(classify_port_type("", Some("Stream/Output")), PortType::Unknown);
}

#[test]
fn an_unknown_fault_code_degrades_to_none_instead_of_panicking() {
    assert_eq!(RouteFault::from_code(9_999), RouteFault::NoFault);
}

#[test]
fn a_format_converts_between_frames_and_samples() {
    let stereo = AudioFormat::new(48_000, 2);
    assert_eq!(stereo.samples(128), 256);
    assert_eq!(stereo.frames(256), 128);
    assert_eq!(stereo.frames(257), 128);
}

#[test]
fn a_zero_channel_format_is_rejected_rather_than_dividing_by_zero() {
    let broken = AudioFormat::new(48_000, 0);
    assert!(!broken.is_valid());
    assert_eq!(broken.frames(64), 0);
}

#[test]
fn resampled_capacity_rounds_up_and_leaves_room_for_the_fractional_phase() {
    let source = AudioFormat::new(44_100, 2);
    let target = AudioFormat::new(48_000, 2);
    assert_eq!(source.resampled_capacity(target, 480), 523 + 1);
    assert_eq!(target.resampled_capacity(source, 480), 441 + 1);
}

#[test]
fn a_fresh_route_reports_no_faults_and_a_unity_ratio() {
    let diagnostics = RouteDiagnostics::new();
    let metrics = diagnostics.snapshot();
    assert_eq!(metrics.fault, RouteFault::NoFault);
    assert_eq!(metrics.fault_message(), None);
    assert_eq!(f64::from_bits(metrics.resampler_ratio_bits), 1.0);
    assert_eq!(metrics.resampler_ratio_bits, UNITY_RATIO_BITS);
}

#[test]
fn counters_accumulate_rather_than_overwrite() {
    let mut diagnostics = RouteDiagnostics::new();
    diagnostics.note_source_underrun(64);
    diagnostics.note_source_underrun(32);
    diagnostics.note_sink_overrun(16);
    let metrics = diagnostics.snapshot();
    assert_eq!(metrics.source_underruns, 96);
    assert_eq!(metrics.sink_overruns, 16);
}

#[test]
fn every_fault_a_route_can_record_renders_a_message() {
    for fault in [
        RouteFault::SourceStarved,
        RouteFault::SinkBackedUp,
        RouteFault::DeviceLost,
        RouteFault::ProcessorFailed,
        RouteFault::FormatChanged,
    ] {
        let mut diagnostics = RouteDiagnostics::new();
        diagnostics.set_fault(fault);
        let metrics = diagnostics.snapshot();
        assert_eq!(metrics.fault, fault);
        assert!(metrics.fault_message().is_some());
    }
}

#[test]
fn a_fault_can_be_cleared_once_the_condition_passes() {
    let mut diagnostics = RouteDiagnostics::new();
    diagnostics.set_fault(RouteFault::DeviceLost);
    diagnostics.clear_fault();
    assert_eq!(diagnostics.snapshot().fault, RouteFault::NoFault);
}

#[test]
fn floating_point_diagnostics_survive_the_trip_through_atomics_exactly() {
    let mut diagnostics = RouteDiagnostics::new();
    diagnostics.set_conversion_bits((48_000.0f64 / 44_100.0).to_bits(), (-37.5f64).to_bits());
    let metrics = diagnostics.snapshot();
    assert_eq!(f64::from_bits(metrics.resampler_ratio_bits), 48_000.0 / 44_100.0);
    assert_eq!(f64::from_bits(metrics.clock_drift_ppm_bits), -37.5);
}

#[test]
fn fault_codes_read_back_as_the_fault_recorded() {
    for fault in [
        RouteFault::NoFault,
        RouteFault::SourceStarved,
        RouteFault::SinkBackedUp,
        RouteFault::DeviceLost,
        RouteFault::ProcessorFailed,
        RouteFault::FormatChanged,
    ] {
        assert_eq!(RouteFault::from_code(fault.code()), fault);
    }
}

#[test]
fn counters_wrap_at_sixty_four_bits() {
    let mut diagnostics = RouteDiagnostics::new();
    diagnostics.note_frames(u64::MAX);
    diagnostics.note_frames(2);
    assert_eq!(diagnostics.frames_processed, 1);
}

#[test]
fn formats_compute_exact_sizes() {
    assert_eq!(AudioFormat::new(44_100, 6).samples(10), 60);
    assert_eq!(AudioFormat::new(44_100, 6).frames(61), 10);
    assert!(AudioFormat::new(44_100, 6).is_valid());
    assert!(!AudioFormat::new(0, 2).is_valid());
    assert_eq!(AudioFormat::new(48_000, 2).resampled_capacity(AudioFormat::new(48_000, 2), 480), 481);
}

#[test]
fn policies_choose_which_nodes_to_meter() {
    let measurable = [NodeId(1), NodeId(2), NodeId(3)];
    let requested = [NodeId(3), NodeId(9)];
    assert!(nodes_to_meter(MeterPolicy::Disabled, &measurable, &requested).is_empty());
    assert_eq!(nodes_to_meter(MeterPolicy::OnDemand, &measurable, &requested), vec![NodeId(3)]);
    assert_eq!(nodes_to_meter(MeterPolicy::Always, &measurable, &requested).len(), 3);
}

#[test]
fn pipewire_text_may_not_hold_a_nul() {
    assert!(validate_pipewire_text("effect id", "builtin.noise-gate").is_ok());
    match validate_pipewire_text("effect id", "bad\0id") {
        Err(BackendError::Native(message)) => {
            assert_eq!(message, "effect id contains a NUL byte and cannot be passed to PipeWire")
        }
        other => panic!("expected a native error, got {other:?}"),
    }
}

#[test]
fn ids_name_their_backend() {
    assert_eq!(backend_for_node(NodeId(42)), Some(BackendKind::PipeWire));
    let encoded = pw_graph::ids::encode_backend_id(pw_graph::ids::BackendNamespace::AlsaMidi, 7);
    assert_eq!(encoded, 0x0100_0000_0000_0007);
    assert_eq!(backend_for_port(PortId(encoded)), Some(BackendKind::AlsaMidi));
    assert_eq!(pw_graph::ids::local_id(encoded), 7);
    assert_eq!(pw_graph::ids::backend_for_id(0x0900_0000_0000_0000), None);
    assert_eq!(Direction::Source.is_source(), true);
}

#[test]
fn a_meter_reports_nothing_until_it_publishes_and_then_its_age() {
    let mut reading = pw_graph::metering::MeterReading::new();
    assert_eq!(reading.levels(1_000), None);
    reading.store_levels(0.25f32.to_bits(), 0.5f32.to_bits(), 900);
    let (rms, peak, age) = reading.levels(1_000).unwrap();
    assert_eq!((f32::from_bits(rms), f32::from_bits(peak), age), (0.25, 0.5, 100));
    // A clock that went backwards reads as fresh, and a huge gap is capped.
    assert_eq!(reading.levels(10).unwrap().2, 0);
    assert_eq!(reading.levels(u64::MAX).unwrap().2, u32::MAX);
}

#[test]
fn the_diagnostic_signal_generator_steps_as_xorshift() {
    assert_eq!(pw_graph::pipewire::xorshift32(1), 270_369);
    let mut state = 0x6d2b_79f5u32;
    let mut seen = Vec::new();
    for _ in 0..32 {
        state = pw_graph::pipewire::xorshift32(state);
        assert_ne!(state, 0);
        assert!(!seen.contains(&state));
        seen.push(state);
    }
}

#[test]
fn meter_plan_releases_unwanted_streams_and_opens_missing_ones() {
    let wanted = [NodeId(3), NodeId(1), NodeId(7)];
    let live = [NodeId(1), NodeId(2), NodeId(9)];
    let (release, create) = meter_plan(&wanted, &live);
    assert_eq!(release, vec![NodeId(2), NodeId(9)]);
    assert_eq!(create, vec![NodeId(3), NodeId(7)]);
}

#[test]
fn an_empty_wanted_set_releases_every_meter() {
    let live = [NodeId(4), NodeId(5)];
    let (release, create) = meter_plan(&[], &live);
    assert_eq!(release, vec![NodeId(4), NodeId(5)]);
    assert!(create.is_empty());
    let (release, create) = meter_plan(&live, &live);
    assert!(release.is_empty());
    assert!(create.is_empty());
}

#[test]
fn meter_streams_are_named_by_node_and_aimed_by_serial() {
    assert_eq!(meter_stream_name(NodeId(42)), "qpwgraph-rs meter 42");
    assert_eq!(meter_target(Some(1234), "alsa_output.pci"), "1234");
    assert_eq!(meter_target(None, "alsa_output.pci"), "alsa_output.pci");
    assert_eq!(meter_description("Speakers"), "Level meter: Speakers");
}

#[test]
fn effect_callbacks_process_only_sane_cycle_lengths() {
    assert_eq!(dsp_frames(0), None);
    assert_eq!(dsp_frames(1), Some(1));
    assert_eq!(dsp_frames(256), Some(256));
    assert_eq!(dsp_frames(u64::from(MAX_DSP_FRAMES)), Some(MAX_DSP_FRAMES));
    assert_eq!(dsp_frames(u64::from(MAX_DSP_FRAMES) + 1), None);
}
