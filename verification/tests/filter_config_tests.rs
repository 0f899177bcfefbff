use ini::Ini;
use pwrsurge::args::{parse_acpi_config, parse_config, parse_evdev_config, parse_timer_config};
use pwrsurge::filter::{AcpiFilter, EvdevFilter};

#[test]
fn empty_whitelist_admits_every_device_class() {
    let filter = AcpiFilter::new(Vec::new());
    assert!(filter.is_wildcard());
    assert!(filter.admits_device_class(&"battery".to_string()));
    assert!(filter.admits_device_class(&"anything".to_string()));
    assert!(!filter.contains_device_class(&"battery".to_string()));
}

#[test]
fn nonempty_whitelist_admits_exactly_its_members() {
    let filter = AcpiFilter::new(vec!["battery".to_string(), "ac_adapter".to_string()]);
    assert!(!filter.is_wildcard());
    assert!(filter.admits_device_class(&"battery".to_string()));
    assert!(filter.admits_device_class(&"ac_adapter".to_string()));
    assert!(!filter.admits_device_class(&"thermal_zone".to_string()));
}

#[test]
fn evdev_wildcard_admits_everything() {
    let filter = EvdevFilter::new(Vec::new(), Vec::new(), Vec::new());
    assert!(filter.is_wildcard());
    assert!(filter.admits_input_event(1, 0, 1));
    assert!(filter.admits_input_event(65535, 65535, -1));
}

#[test]
fn evdev_conjunctive_policy_across_dimensions() {
    let filter = EvdevFilter::new(vec![1], vec![30], vec![1]);
    assert!(filter.admits_input_event(1, 30, 1));
    assert!(!filter.admits_input_event(2, 30, 1));
    assert!(!filter.admits_input_event(1, 31, 1));
    assert!(!filter.admits_input_event(1, 30, 0));
}

#[test]
fn evdev_empty_dimension_is_wildcard_under_conjunction() {
    let filter = EvdevFilter::new(vec![1], Vec::new(), Vec::new());
    assert!(filter.admits_input_event(1, 0, 1));
    assert!(filter.admits_input_event(1, 999, -7));
    assert!(!filter.admits_input_event(2, 0, 1));
}

#[test]
fn acpi_config_section_parses_comma_separated_classes() {
    let conf = Ini::load_from_str(
        "[acpi]\ndevice_class_whitelist=battery,ac_adapter,,processor\n",
    )
    .unwrap();
    let filter = parse_acpi_config(&conf);
    assert!(filter.contains_device_class(&"battery".to_string()));
    assert!(filter.contains_device_class(&"ac_adapter".to_string()));
    assert!(filter.contains_device_class(&"processor".to_string()));
    assert!(!filter.contains_device_class(&"".to_string()));
    assert!(!filter.is_wildcard());
}

#[test]
fn absent_acpi_section_means_wildcard() {
    let conf = Ini::load_from_str("[evdev]\ntype_whitelist=1\n").unwrap();
    let filter = parse_acpi_config(&conf);
    assert!(filter.is_wildcard());
}

#[test]
fn evdev_config_keeps_integers_and_drops_the_rest() {
    let conf = Ini::load_from_str(
        "[evdev]\ntype_whitelist=1,4,notanumber,70000\ncode_whitelist=\nvalue_whitelist=-1,0,2\n",
    )
    .unwrap();
    let filter = parse_evdev_config(&conf);
    assert!(filter.contains_type(&1));
    assert!(filter.contains_type(&4));
    assert!(!filter.contains_type(&2));
    // the empty code whitelist is a wildcard on that dimension
    assert!(filter.contains_code(&123));
    assert!(filter.contains_value(&-1));
    assert!(filter.contains_value(&0));
    assert!(filter.contains_value(&2));
    assert!(!filter.contains_value(&1));
}

#[test]
fn timer_config_reads_reset_on_input() {
    let on = Ini::load_from_str("[timer]\nreset_on_input=true\n").unwrap();
    assert!(parse_timer_config(&on));
    let off = Ini::load_from_str("[timer]\nreset_on_input=false\n").unwrap();
    assert!(!parse_timer_config(&off));
    let junk = Ini::load_from_str("[timer]\nreset_on_input=yes\n").unwrap();
    assert!(!parse_timer_config(&junk));
    let absent = Ini::load_from_str("[acpi]\n").unwrap();
    assert!(!parse_timer_config(&absent));
}

#[test]
fn parse_config_assembles_all_sections() {
    let conf = Ini::load_from_str(
        "[acpi]\ndevice_class_whitelist=battery\n[evdev]\ntype_whitelist=1\n[timer]\nreset_on_input=true\n",
    )
    .unwrap();
    let cfg = parse_config(&conf);
    assert!(cfg.acpi.contains_device_class(&"battery".to_string()));
    assert!(cfg.evdev.contains_type(&1));
    assert!(!cfg.evdev.contains_type(&2));
    assert!(cfg.input);
}
