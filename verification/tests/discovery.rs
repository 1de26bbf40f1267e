use i2c_int_monitor::discovery::{
    discover, BoundEntry, HidDevice, I2cController, I2cTopology, SystemSnapshot,
};
use i2c_int_monitor::grouping::group_by_controller;
use i2c_int_monitor::hid::{discover_hid_device, matching_entry, HidEntry};
use i2c_int_monitor::hints::scan_interrupt_table;
use i2c_int_monitor::irq_map::IrqMap;
use i2c_int_monitor::matching::{
    classify, determine_device_type, extract_acpi_name, extract_bus_num,
    extract_controller_name,
};

fn device(acpi: &str, controller: &str, bus: u8, kind: &str, irq: Option<&str>) -> HidDevice {
    HidDevice {
        acpi_name: acpi.to_string(),
        vendor_id: 0,
        product_id: 0,
        device_type: kind.to_string(),
        driver: String::new(),
        bus_num: bus,
        controller: controller.to_string(),
        gpio_irq: irq.map(|i| i.to_string()),
        input_names: Vec::new(),
    }
}

fn typed(names: &[&str], driver: &str, vendor: u16) -> String {
    let mut d = device("X:00", "c", 0, "", None);
    d.input_names = names.iter().map(|n| n.to_string()).collect();
    d.driver = driver.to_string();
    d.vendor_id = vendor;
    determine_device_type(&d)
}

#[test]
fn test_extract_acpi_name() {
    let line = " 203:          0          0          0      21323 intel-gpio   18  PIXA3854:00";
    assert_eq!(extract_acpi_name(line), Some("PIXA3854:00".to_string()));

    let line = " 200:          0      1306 intel-gpio   33  FRMW0005:00";
    assert_eq!(extract_acpi_name(line), Some("FRMW0005:00".to_string()));
}

#[test]
fn test_extract_controller_name() {
    let path =
        "../../../../devices/pci0000:00/0000:00:19.1/i2c_designware.5/i2c-5/i2c-PIXA3854:00";
    assert_eq!(extract_controller_name(path), "i2c_designware.5");
}

#[test]
fn acpi_name_is_the_last_word_that_looks_like_one() {
    assert_eq!(extract_acpi_name("7: 1 AAA:00 BBB:01 tail"), Some("BBB:01".to_string()));
    assert_eq!(extract_acpi_name("7: 1 AAA:00 bbb:01"), Some("AAA:00".to_string()));
    // The interrupt number itself begins with no upper-case letter.
    assert_eq!(extract_acpi_name(" 203: 0 1 intel-gpio 18"), None);
    assert_eq!(extract_acpi_name(""), None);
    // Bus annotations are passed over.
    assert_eq!(extract_acpi_name("7: 1 IR-PCI-MSI:5 PCI-MSI:6"), None);
    assert_eq!(extract_acpi_name("7: 1 AB:1 XIR-:2 XPCI-Y:3"), Some("AB:1".to_string()));
    // A row name that begins with an upper-case letter counts as well.
    assert_eq!(extract_acpi_name("NMI: 0 0"), Some("NMI:".to_string()));
}

#[test]
fn controller_name_falls_back_to_unknown() {
    assert_eq!(extract_controller_name(""), "unknown");
    assert_eq!(extract_controller_name("../devices/platform/i2c-3"), "unknown");
    assert_eq!(extract_controller_name("a/xi2c_designware.1/b"), "unknown");
    assert_eq!(
        extract_controller_name("a/i2c_designware.1/i2c_designware.2"),
        "i2c_designware.1"
    );
    assert_eq!(extract_controller_name("i2c_designware."), "i2c_designware.");
}

#[test]
fn bus_number_is_read_from_the_path() {
    let path =
        "../../../../devices/pci0000:00/0000:00:19.1/i2c_designware.5/i2c-5/i2c-PIXA3854:00";
    assert_eq!(extract_bus_num(path), 5);
    assert_eq!(extract_bus_num(""), 0);
    assert_eq!(extract_bus_num("a/b/c"), 0);
    assert_eq!(extract_bus_num("a/i2c-PIXA:00/i2c-12/i2c-3"), 12);
    assert_eq!(extract_bus_num("a/i2c-255"), 255);
    assert_eq!(extract_bus_num("a/i2c-256/i2c-7"), 7);
    assert_eq!(extract_bus_num("a/i2c-/i2c-+4"), 4);
}

#[test]
fn device_type_follows_input_names_first() {
    assert_eq!(typed(&["PIXA3854:00 093A:0255 Touchpad"], "hid-generic", 0), "Touchpad");
    assert_eq!(typed(&["ELAN TOUCHSCREEN"], "hid-generic", 0), "Touchscreen");
    assert_eq!(typed(&["Wacom Stylus"], "hid-multitouch", 0x093A), "Stylus");
    assert_eq!(typed(&["Wacom Pen"], "", 0), "Stylus");
    assert_eq!(typed(&["AT KeyBoard"], "hid-sensor-hub", 0), "Keyboard");
    // The first telling name wins, and within a name the first pattern.
    assert_eq!(typed(&["Mouse", "Keyboard", "Touchpad"], "", 0), "Keyboard");
    assert_eq!(typed(&["touchpad keyboard"], "", 0), "Touchpad");
    // "pen" hides in other words too.
    assert_eq!(typed(&["Suspend Button"], "hid-generic", 0), "Stylus");
}

#[test]
fn device_type_follows_the_driver_otherwise() {
    assert_eq!(typed(&[], "hid-multitouch", 0x093A), "Touchpad");
    assert_eq!(typed(&["Mouse"], "hid-multitouch", 0x093A), "Touchpad");
    assert_eq!(typed(&[], "hid-multitouch", 0x056A), "Touchscreen");
    assert_eq!(typed(&[], "hid-sensor-hub", 0), "Sensor Hub");
    assert_eq!(typed(&["Wireless Radio Control"], "hid-generic", 0), "Keyboard/Controls");
    assert_eq!(typed(&["x", "Consumer Control"], "hid-generic", 0), "Keyboard/Controls");
    // The driver's patterns are taken as written, not in lower case.
    assert_eq!(typed(&["wireless radio control"], "hid-generic", 0), "Input Device");
    assert_eq!(typed(&[], "hid-generic", 0), "Input Device");
    assert_eq!(typed(&[], "", 0), "HID Device");
    assert_eq!(typed(&["Mouse"], "hid-other", 0), "HID Device");
    assert_eq!(typed(&[], "HID-MULTITOUCH", 0x093A), "HID Device");
}

#[test]
fn classify_reads_the_lower_case_names() {
    let lowered = vec!["some touchpad".to_string()];
    let names = vec!["whatever".to_string()];
    assert_eq!(classify(&lowered, &names, &"hid-generic".to_string(), 0), "Touchpad");
    let lowered = vec!["SOME TOUCHPAD".to_string()];
    assert_eq!(classify(&lowered, &names, &"hid-generic".to_string(), 0), "Input Device");
    let none: Vec<String> = Vec::new();
    assert_eq!(classify(&none, &none, &"hid-sensor-hub".to_string(), 0), "Sensor Hub");
}

#[test]
fn hints_are_read_from_the_counter_table() {
    let table = "           CPU0       CPU1\n\
  16:          5          0  IR-IO-APIC   16-fasteoi   idma64.0, i2c_designware.0\n\
  17:          5          0  IR-IO-APIC   17-fasteoi   i2c_designware.1,i2c_designware.2\n\
 203:          0      21323  intel-gpio   18  PIXA3854:00\n\
 204:          0          3  amd_gpio-pinctrl   7  ELAN0001:00\n\
 205:          0          3  IO-APIC   9  NOTG0001:00\n\
\n\
 206:          0          3  intel-gpio   19\n";
    let hints = scan_interrupt_table(table);
    assert_eq!(hints.gpio.get(&"PIXA3854:00".to_string()), Some("203".to_string()));
    assert_eq!(hints.gpio.get(&"ELAN0001:00".to_string()), Some("204".to_string()));
    assert_eq!(hints.gpio.get(&"NOTG0001:00".to_string()), None);
    assert_eq!(hints.gpio.entries.len(), 2);
    assert_eq!(hints.controllers.get(&"i2c_designware.0".to_string()), Some("16".to_string()));
    assert_eq!(hints.controllers.get(&"i2c_designware.1".to_string()), Some("17".to_string()));
    assert_eq!(hints.controllers.get(&"i2c_designware.2".to_string()), Some("17".to_string()));
    assert_eq!(hints.controllers.get(&"idma64.0".to_string()), None);
    assert_eq!(hints.controllers.entries.len(), 3);
}

#[test]
fn later_hints_replace_earlier_ones() {
    let hints = scan_interrupt_table("h\n 1: 0 intel-gpio AAA:00\n 2: 0 intel-gpio AAA:00\n");
    assert_eq!(hints.gpio.get(&"AAA:00".to_string()), Some("2".to_string()));
    let hints = scan_interrupt_table("");
    assert!(hints.gpio.entries.is_empty());
    assert!(hints.controllers.entries.is_empty());
}

#[test]
fn irq_map_keeps_the_latest_value() {
    let mut m = IrqMap::new();
    assert_eq!(m.get(&"a".to_string()), None);
    m.insert("a".to_string(), "1".to_string());
    m.insert("b".to_string(), "2".to_string());
    m.insert("a".to_string(), "3".to_string());
    assert_eq!(m.get(&"a".to_string()), Some("3".to_string()));
    assert_eq!(m.get(&"b".to_string()), Some("2".to_string()));
    assert_eq!(m.get(&"c".to_string()), None);
}

fn entry(name: &str, uevent: Option<&str>, inputs: &[&str]) -> HidEntry {
    HidEntry {
        name: name.to_string(),
        uevent: uevent.map(|u| u.to_string()),
        input_names: inputs.iter().map(|n| n.to_string()).collect(),
    }
}

#[test]
fn hid_entry_is_matched_by_bus_and_descriptor() {
    let entries = vec![
        entry("0003:046D:C52B.0002", Some("HID_NAME=PIXA3854:00"), &[]),
        entry("0018:1111:2222.0001", None, &[]),
        entry("0018:1111:2222.0003", Some("HID_NAME=OTHER:00"), &[]),
        entry("0018:093A:0255.0004", Some("HID_NAME=PIXA3854:00 093A:0255"), &[]),
        entry("0018:9999:8888.0005", Some("HID_NAME=PIXA3854:00"), &[]),
    ];
    assert_eq!(matching_entry(&entries, &"PIXA3854:00".to_string()), Some(3));
    assert_eq!(matching_entry(&entries, &"OTHER:00".to_string()), Some(2));
    assert_eq!(matching_entry(&entries, &"NONE:00".to_string()), None);
    // The empty name occurs in every descriptor that could be read.
    assert_eq!(matching_entry(&entries, &String::new()), Some(2));
    assert_eq!(matching_entry(&Vec::new(), &"PIXA3854:00".to_string()), None);
}

#[test]
fn hid_device_is_described_from_its_entry() {
    let mut gpio = IrqMap::new();
    gpio.insert("PIXA3854:00".to_string(), "203".to_string());
    let entries = vec![entry(
        "0018:093A:0255.0001",
        Some("DRIVER=old\nHID_ID=0018:0000093A:00000255\r\nDRIVER=hid-multitouch\nHID_NAME=PIXA3854:00 093A:0255\n"),
        &["  PIXA3854:00 093A:0255 Mouse\n", "PIXA3854:00 093A:0255 Touchpad\n"],
    )];
    let d = discover_hid_device(
        &"PIXA3854:00".to_string(),
        &"i2c_designware.5".to_string(),
        5,
        &gpio,
        &entries,
    );
    assert_eq!(d.acpi_name, "PIXA3854:00");
    assert_eq!(d.vendor_id, 0x093A);
    assert_eq!(d.product_id, 0x0255);
    assert_eq!(d.driver, "hid-multitouch");
    assert_eq!(d.device_type, "Touchpad");
    assert_eq!(d.bus_num, 5);
    assert_eq!(d.controller, "i2c_designware.5");
    assert_eq!(d.gpio_irq, Some("203".to_string()));
    assert_eq!(d.input_names, vec!["PIXA3854:00 093A:0255 Mouse", "PIXA3854:00 093A:0255 Touchpad"]);
}

#[test]
fn hid_device_without_entry_stays_bare() {
    let d = discover_hid_device(
        &"ELAN0001:00".to_string(),
        &"unknown".to_string(),
        0,
        &IrqMap::new(),
        &Vec::new(),
    );
    assert_eq!(d.vendor_id, 0);
    assert_eq!(d.product_id, 0);
    assert_eq!(d.driver, "");
    assert_eq!(d.device_type, "HID Device");
    assert_eq!(d.gpio_irq, None);
    assert!(d.input_names.is_empty());
}

#[test]
fn identity_that_cannot_be_read_is_zero() {
    let gpio = IrqMap::new();
    let name = "X:00".to_string();
    let c = "c".to_string();
    let d = discover_hid_device(&name, &c, 0, &gpio, &vec![entry("0018:zz:12345.1", Some("X:00"), &[])]);
    assert_eq!((d.vendor_id, d.product_id), (0, 0));
    let d = discover_hid_device(&name, &c, 0, &gpio, &vec![entry("0018:00ff", Some("X:00"), &[])]);
    assert_eq!((d.vendor_id, d.product_id), (0, 0));
    let d = discover_hid_device(&name, &c, 0, &gpio, &vec![entry("0018:00ff:ab", Some("X:00"), &[])]);
    assert_eq!((d.vendor_id, d.product_id), (0xff, 0xab));
    let d = discover_hid_device(&name, &c, 0, &gpio, &vec![entry("0018:1:2.3.4:5", Some("X:00"), &[])]);
    assert_eq!((d.vendor_id, d.product_id), (1, 2));
    assert_eq!(d.driver, "");
}

#[test]
fn controllers_are_grouped_and_ordered_by_bus() {
    let mut irqs = IrqMap::new();
    irqs.insert("c5".to_string(), "27".to_string());
    let found = vec![
        device("A:00", "c5", 5, "Touchpad", None),
        device("B:00", "c1b", 1, "Touchscreen", None),
        device("C:00", "c5", 9, "Stylus", None),
        device("D:00", "c1a", 1, "Keyboard", None),
        device("E:00", "c0", 0, "Sensor Hub", None),
        device("F:00", "c1b", 1, "Touchpad", None),
    ];
    let cs = group_by_controller(found, &irqs);
    let names: Vec<&str> = cs.iter().map(|c| c.name.as_str()).collect();
    assert_eq!(names, vec!["c0", "c1b", "c1a", "c5"]);
    let buses: Vec<u8> = cs.iter().map(|c| c.bus_num).collect();
    assert_eq!(buses, vec![0, 1, 1, 5]);
    let members: Vec<Vec<&str>> = cs
        .iter()
        .map(|c| c.hid_devices.iter().map(|d| d.acpi_name.as_str()).collect())
        .collect();
    assert_eq!(members, vec![vec!["E:00"], vec!["B:00", "F:00"], vec!["D:00"], vec!["A:00", "C:00"]]);
    assert_eq!(cs[3].irq, Some("27".to_string()));
    assert_eq!(cs[0].irq, None);
    assert!(group_by_controller(Vec::new(), &irqs).is_empty());
}

#[test]
fn all_sources_lists_controllers_and_their_devices() {
    let topology = I2cTopology {
        controllers: vec![
            I2cController {
                name: "i2c_designware.0".to_string(),
                bus_num: 0,
                irq: Some("16".to_string()),
                hid_devices: vec![
                    device("PIXA3854:00", "i2c_designware.0", 0, "Touchpad", Some("203")),
                    device("NOIRQ:00", "i2c_designware.0", 0, "Touchscreen", None),
                ],
            },
            I2cController {
                name: "silent".to_string(),
                bus_num: 1,
                irq: None,
                hid_devices: vec![device("ELAN:00", "silent", 1, "Stylus", Some("204"))],
            },
            I2cController {
                name: "lonely".to_string(),
                bus_num: 2,
                irq: Some("18".to_string()),
                hid_devices: Vec::new(),
            },
        ],
        gpio_irqs: IrqMap::new(),
        controller_irqs: IrqMap::new(),
    };
    let sources = topology.all_sources();
    assert_eq!(sources.len(), 4);
    assert_eq!(sources[0].irq, "16");
    assert_eq!(sources[0].name, "i2c_designware.0 (Touchpad, Touchscreen)");
    assert_eq!(sources[0].device_type, "I2C Controller");
    assert!(sources[0].is_controller);
    assert_eq!(sources[0].parent_controller, None);
    assert_eq!(sources[0].indent_level, 0);
    assert_eq!(sources[1].irq, "203");
    assert_eq!(sources[1].name, "PIXA3854:00");
    assert_eq!(sources[1].device_type, "Touchpad");
    assert!(!sources[1].is_controller);
    assert_eq!(sources[1].parent_controller, Some("i2c_designware.0".to_string()));
    assert_eq!(sources[1].indent_level, 1);
    assert_eq!(sources[2].irq, "204");
    assert_eq!(sources[2].parent_controller, Some("silent".to_string()));
    assert_eq!(sources[3].irq, "18");
    assert_eq!(sources[3].name, "lonely");
}

#[test]
fn all_sources_of_nothing_is_empty() {
    let topology = I2cTopology {
        controllers: Vec::new(),
        gpio_irqs: IrqMap::new(),
        controller_irqs: IrqMap::new(),
    };
    assert!(topology.all_sources().is_empty());
}

#[test]
fn discovery_round_trip() {
    let snapshot = SystemSnapshot {
        interrupts: "           CPU0       CPU1\n\
  27:        100          0  IR-IO-APIC   27-fasteoi   i2c_designware.5\n\
 203:          0      21323  intel-gpio   18  PIXA3854:00\n"
            .to_string(),
        bound: vec![
            BoundEntry { name: "bind".to_string(), target: String::new() },
            BoundEntry {
                name: "i2c-PIXA3854:00".to_string(),
                target:
                    "../../../../devices/pci0000:00/0000:00:19.1/i2c_designware.5/i2c-5/i2c-PIXA3854:00"
                        .to_string(),
            },
        ],
        hid: vec![entry(
            "0018:093A:0255.0001",
            Some("DRIVER=hid-multitouch\nHID_NAME=PIXA3854:00 093A:0255\n"),
            &["PIXA3854:00 093A:0255 Mouse\n", "PIXA3854:00 093A:0255 Touchpad\n"],
        )],
    };
    let topology = discover(&snapshot);
    assert_eq!(topology.controllers.len(), 1);
    let controller = &topology.controllers[0];
    assert_eq!(controller.name, "i2c_designware.5");
    assert_eq!(controller.bus_num, 5);
    assert_eq!(controller.irq, Some("27".to_string()));
    assert_eq!(controller.hid_devices.len(), 1);
    let d = &controller.hid_devices[0];
    assert_eq!(d.acpi_name, "PIXA3854:00");
    assert_eq!(d.gpio_irq, Some("203".to_string()));
    assert_eq!(d.device_type, "Touchpad");
    assert_eq!(d.vendor_id, 0x093A);
    assert_eq!(d.product_id, 0x0255);
    assert_eq!(d.controller, "i2c_designware.5");
    assert_eq!(d.bus_num, 5);
    assert_eq!(topology.gpio_irqs.get(&"PIXA3854:00".to_string()), Some("203".to_string()));
    assert_eq!(topology.controller_irqs.get(&"i2c_designware.5".to_string()), Some("27".to_string()));
    let sources = topology.all_sources();
    assert_eq!(sources.len(), 2);
    assert_eq!(sources[0].name, "i2c_designware.5 (Touchpad)");
    assert_eq!(sources[1].irq, "203");
}

#[test]
fn discovery_without_devices_is_empty() {
    let snapshot = SystemSnapshot {
        interrupts: "CPU0\n 1: 5 i2c_designware.0\n".to_string(),
        bound: Vec::new(),
        hid: Vec::new(),
    };
    let topology = discover(&snapshot);
    assert!(topology.controllers.is_empty());
    assert!(topology.all_sources().is_empty());
    assert_eq!(topology.controller_irqs.get(&"i2c_designware.0".to_string()), Some("1".to_string()));
}

#[test]
fn device_without_readable_link_has_no_controller() {
    let snapshot = SystemSnapshot {
        interrupts: String::new(),
        bound: vec![BoundEntry { name: "i2c-ELAN0001:00".to_string(), target: String::new() }],
        hid: Vec::new(),
    };
    let topology = discover(&snapshot);
    assert_eq!(topology.controllers.len(), 1);
    assert_eq!(topology.controllers[0].name, "unknown");
    assert_eq!(topology.controllers[0].bus_num, 0);
    assert_eq!(topology.controllers[0].irq, None);
    assert_eq!(topology.controllers[0].hid_devices[0].acpi_name, "ELAN0001:00");
    assert_eq!(topology.controllers[0].hid_devices[0].gpio_irq, None);
    assert!(topology.all_sources().is_empty());
}
