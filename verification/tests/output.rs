use lae_tui::output::{dac_mode, is_shared_device, DacMode};

#[test]
fn shared_devices() {
    assert!(is_shared_device("default"));
    assert!(is_shared_device("pipewire"));
    assert!(!is_shared_device("hw:1,0"));
    assert!(!is_shared_device("Default"));
    assert!(!is_shared_device(""));
}

#[test]
fn dac_modes() {
    assert_eq!(dac_mode(true, 16, 16, true), DacMode::Shared);
    assert_eq!(dac_mode(false, 16, 16, true), DacMode::BitPerfect);
    assert_eq!(dac_mode(false, 16, 32, true), DacMode::Padded);
    assert_eq!(dac_mode(false, 16, 16, false), DacMode::Padded);
    assert_eq!(dac_mode(false, u32::MAX, -1, true), DacMode::BitPerfect);
}
