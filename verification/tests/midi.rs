use lattice_core::framework::control::midi_controls::{CcDecoder, CcEvent, CcRoute};
use lattice_core::framework::midi::{
    channel_of, control_change, is_control_change, ConnectionType, InputsOrOutputs, PortIndexAndName,
};

fn route(name: &str, channel: u8, cc: u8) -> CcRoute {
    CcRoute { name: name.to_string(), channel, cc }
}

fn decoder() -> CcDecoder {
    CcDecoder::new(vec![route("hi", 2, 5), route("plain", 2, 40), route("other", 0, 5)])
}

#[test]
fn control_change_status_bytes() {
    assert!(is_control_change(0xB0));
    assert!(is_control_change(0xBF));
    assert!(!is_control_change(0x90));
    assert!(!is_control_change(0xC0));
    assert_eq!(channel_of(0xB7), 7);
    assert_eq!(control_change(3, 74, 127), [179, 74, 127]);
}

#[test]
fn connection_type_names() {
    assert_eq!(ConnectionType::Clock.name(), "Clock");
    assert_eq!(ConnectionType::Control.name(), "Control");
    assert_eq!(ConnectionType::GlobalStartStop.name(), "GlobalStartStop");
    let port: PortIndexAndName = (0, "IAC".to_string());
    assert_eq!(port.0, 0);
    assert!(InputsOrOutputs::Inputs != InputsOrOutputs::Outputs);
}

#[test]
fn standard_mode_routes_by_channel_and_controller() {
    let d = decoder();
    match d.decode_standard(&[0xB2, 40, 100]) {
        CcEvent::Value7 { name, value } => {
            assert_eq!(name, "plain");
            assert_eq!(value, 100);
        },
        _ => panic!("expected a 7-bit value"),
    }
    match d.decode_standard(&[0xB0, 5, 1]) {
        CcEvent::Value7 { name, .. } => assert_eq!(name, "other"),
        _ => panic!("expected a 7-bit value"),
    }
    assert!(matches!(d.decode_standard(&[0xB3, 40, 100]), CcEvent::Ignored));
    assert!(matches!(d.decode_standard(&[0x92, 40, 100]), CcEvent::Ignored));
    assert!(matches!(d.decode_standard(&[0xB2, 40]), CcEvent::Ignored));
}

#[test]
fn hi_res_pair_gives_fourteen_bits() {
    let mut d = decoder();
    assert!(matches!(d.decode_hi_res(1, &[0xB2, 5, 0x45]), CcEvent::MsbStored { replaced: false }));
    assert!(d.accepts_timestamp(10, &[0xB2, 37, 0x12]));
    match d.decode_hi_res(10, &[0xB2, 37, 0x12]) {
        CcEvent::Value14 { name, value } => {
            assert_eq!(name, "hi");
            assert_eq!(value, (0x45 << 7) | 0x12);
        },
        _ => panic!("expected a 14-bit value"),
    }
    // The MSB was consumed: a second LSB is ignored.
    assert!(matches!(d.decode_hi_res(20, &[0xB2, 37, 0x12]), CcEvent::Ignored));
}

#[test]
fn hi_res_pair_within_five_ms_is_dropped() {
    let mut d = decoder();
    // The MSB's stamp is read in microseconds and the LSB's in
    // milliseconds: 3000 µs and 8 ms are 5000 µs apart, not more.
    d.decode_hi_res(3000, &[0xB2, 5, 1]);
    assert!(matches!(d.decode_hi_res(8, &[0xB2, 37, 1]), CcEvent::PairTooClose));
    assert!(matches!(d.decode_hi_res(9, &[0xB2, 37, 1]), CcEvent::Ignored));
}

#[test]
fn hi_res_second_msb_replaces_first() {
    let mut d = decoder();
    d.decode_hi_res(1, &[0xB2, 5, 1]);
    assert!(matches!(d.decode_hi_res(2, &[0xB2, 5, 2]), CcEvent::MsbStored { replaced: true }));
    match d.decode_hi_res(100, &[0xB2, 37, 3]) {
        CcEvent::Value14 { value, .. } => assert_eq!(value, (2 << 7) | 3),
        _ => panic!("expected a 14-bit value"),
    }
}

#[test]
fn hi_res_high_controllers_are_seven_bit() {
    let mut d = decoder();
    match d.decode_hi_res(1, &[0xB2, 40, 9]) {
        CcEvent::Value7 { name, value } => {
            assert_eq!(name, "plain");
            assert_eq!(value, 9);
        },
        _ => panic!("expected a 7-bit value"),
    }
    assert!(matches!(d.decode_hi_res(1, &[0xB2, 70, 9]), CcEvent::Ignored));
}

#[test]
fn hi_res_timestamp_must_not_run_backwards() {
    let mut d = decoder();
    d.decode_hi_res(1_000, &[0xB2, 5, 1]);
    // 0 ms is before the MSB's stamp, read as 1000 µs; 1 ms is not
    assert!(!d.accepts_timestamp(0, &[0xB2, 37, 1]));
    assert!(d.accepts_timestamp(1, &[0xB2, 37, 1]));
    assert!(d.accepts_timestamp(0, &[0xB2, 40, 1]));
}
