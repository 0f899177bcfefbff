use pwrsurge::evdev::{evdev_files, EvdevEvents};

#[test]
fn test_file_chunk_parsing() {
    let file_chunk = r#"I: Bus=0000 Vendor=0000 Product=0000 Version=0000
N: Name="HDA Intel PCH Mic"
P: Phys=ALSA
S: Sysfs=/devices/pci0000:00/0000:00:1f.3/sound/card0/input15
U: Uniq=
H: Handlers=event8
B: PROP=0
B: EV=21
B: SW=10"#;
    let mut evevents = EvdevEvents::new();
    evevents.parse_file_chunk(file_chunk.to_string());
    assert_eq!(
        evevents.get(&"event8".to_string()),
        Some(&"HDA Intel PCH Mic".to_string())
    );
}

#[test]
fn chunk_selects_first_event_handler() {
    let file_chunk = "N: Name=\"Power Button\"\nH: Handlers=kbd event3 event4";
    let mut catalog = EvdevEvents::new();
    catalog.parse_file_chunk(file_chunk.to_string());
    assert_eq!(
        catalog.get(&"event3".to_string()),
        Some(&"Power Button".to_string())
    );
    assert_eq!(catalog.get(&"event4".to_string()), None);
}

#[test]
fn chunk_without_event_handler_is_skipped() {
    let file_chunk = "N: Name=\"PC Speaker\"\nH: Handlers=kbd";
    let mut catalog = EvdevEvents::new();
    catalog.parse_file_chunk(file_chunk.to_string());
    assert_eq!(catalog.iter().len(), 0);
}

#[test]
fn malformed_lines_are_ignored_not_fatal() {
    let file_chunk = "N: Name=\nH: Handlers=event1\ngarbage line";
    let mut catalog = EvdevEvents::new();
    catalog.parse_file_chunk(file_chunk.to_string());
    assert_eq!(catalog.get(&"event1".to_string()), Some(&String::new()));
}

#[test]
fn parse_events_reads_paragraphs() {
    let contents = "I: Bus=0019\nN: Name=\"Lid Switch\"\nH: Handlers=event0\n\n\
                    I: Bus=0019\nN: Name=\"Power Button\"\nH: Handlers=kbd event1\n\n\
                    N: Name=\"No Handlers Here\"\n\n\
                    N: Name=\"Sleep Button\"\nH: Handlers=kbd event2\n";
    let catalog = EvdevEvents::parse_events(contents);
    assert_eq!(
        catalog.get(&"event0".to_string()),
        Some(&"Lid Switch".to_string())
    );
    assert_eq!(
        catalog.get(&"event1".to_string()),
        Some(&"Power Button".to_string())
    );
    assert_eq!(
        catalog.get(&"event2".to_string()),
        Some(&"Sleep Button".to_string())
    );
    assert_eq!(catalog.iter().len(), 3);
}

#[test]
fn parse_events_latest_entry_wins_per_handler() {
    let contents = "N: Name=\"First\"\nH: Handlers=event5\n\nN: Name=\"Second\"\nH: Handlers=event5\n";
    let catalog = EvdevEvents::parse_events(contents);
    assert_eq!(catalog.get(&"event5".to_string()), Some(&"Second".to_string()));
    assert_eq!(catalog.iter().len(), 1);
}

#[test]
fn evdev_files_maps_handlers_to_device_paths() {
    let contents = "N: Name=\"Lid Switch\"\nH: Handlers=event0\n\n\
                    N: Name=\"Mic\"\nH: Handlers=event8\n";
    let catalog = EvdevEvents::parse_events(contents);
    let files = evdev_files(&catalog);
    assert_eq!(
        files,
        vec!["/dev/input/event0".to_string(), "/dev/input/event8".to_string()]
    );
}
