use omegawhisper::microphone::{
    audio_devices, choose_input_device, pick_input_config, ConfigRange, InputChoice, SampleKind,
};

fn names(list: &[Option<&str>]) -> Vec<Option<String>> {
    list.iter().map(|n| n.map(|s| s.to_string())).collect()
}

#[test]
fn the_default_microphone_is_marked() {
    let list = vec!["USB Mic".to_string(), "MacBook Pro Microphone".to_string()];
    let devices = audio_devices(&list, &Some("MacBook Pro Microphone".to_string()));
    assert_eq!(devices.len(), 2);
    assert_eq!(devices[0].name, "USB Mic");
    assert!(!devices[0].is_default);
    assert!(devices[1].is_default);
    let none = audio_devices(&list, &None);
    assert!(none.iter().all(|d| !d.is_default), "no default when the system names none");
}

#[test]
fn the_chosen_microphone_wins_when_it_is_connected() {
    let list = names(&[Some("pipewire"), None, Some("USB Mic")]);
    assert_eq!(
        choose_input_device(&list, &Some("USB Mic".to_string())),
        InputChoice::Chosen(2)
    );
}

#[test]
fn an_unplugged_microphone_falls_back_to_pipewire_then_the_default() {
    let with_pipewire = names(&[Some("HDA Intel"), Some("pipewire")]);
    assert_eq!(
        choose_input_device(&with_pipewire, &Some("USB Mic".to_string())),
        InputChoice::Pipewire(1)
    );
    assert_eq!(choose_input_device(&with_pipewire, &None), InputChoice::Pipewire(1));
    let without = names(&[Some("MacBook Pro Microphone"), None]);
    assert_eq!(
        choose_input_device(&without, &Some("USB Mic".to_string())),
        InputChoice::SystemDefault
    );
    assert_eq!(choose_input_device(&Vec::new(), &None), InputChoice::SystemDefault);
}

fn range(min: u32, max: u32, format: SampleKind) -> ConfigRange {
    ConfigRange {
        min_sample_rate: min,
        max_sample_rate: max,
        format,
    }
}

#[test]
fn forty_eight_kilohertz_in_floats_is_preferred() {
    let configs = vec![
        range(8000, 96_000, SampleKind::I16),
        range(44_100, 48_000, SampleKind::F32),
    ];
    assert_eq!(pick_input_config(&configs), Some((1, 48_000)));
}

#[test]
fn sixteen_bit_is_taken_when_floats_are_not_offered_at_that_rate() {
    let configs = vec![
        range(8000, 96_000, SampleKind::U16),
        range(8000, 48_000, SampleKind::I16),
        range(96_000, 96_000, SampleKind::F32),
    ];
    assert_eq!(pick_input_config(&configs), Some((1, 48_000)));
}

#[test]
fn the_next_rate_is_tried_when_one_is_not_offered() {
    let configs = vec![range(16_000, 16_000, SampleKind::F32), range(44_100, 44_100, SampleKind::I16)];
    assert_eq!(pick_input_config(&configs), Some((1, 44_100)), "44.1 kHz comes before 16 kHz");
    let only_high = vec![range(96_000, 192_000, SampleKind::F32)];
    assert_eq!(pick_input_config(&only_high), Some((0, 96_000)));
}

#[test]
fn no_usable_config_leaves_the_device_default() {
    assert_eq!(pick_input_config(&Vec::new()), None);
    let odd = vec![range(22_050, 22_050, SampleKind::F32), range(8000, 96_000, SampleKind::Other)];
    assert_eq!(pick_input_config(&odd), None);
}
