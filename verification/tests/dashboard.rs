use i2c_int_monitor::axis::{axis_top, ceil_to_step, nice_step, x_bounds, y_labels};
use i2c_int_monitor::dashboard::{App, Key};
use i2c_int_monitor::discovery::{HidDevice, I2cController, I2cTopology};
use i2c_int_monitor::interrupts::InterruptSource;
use i2c_int_monitor::irq_map::IrqMap;

fn count(irq: &str, count: u64) -> InterruptSource {
    InterruptSource { irq: irq.to_string(), count }
}

fn three_series() -> App {
    let topology = I2cTopology {
        controllers: vec![I2cController {
            name: "i2c_designware.0".to_string(),
            bus_num: 0,
            irq: Some("42".to_string()),
            hid_devices: vec![
                HidDevice {
                    acpi_name: "PIXA:00".to_string(),
                    vendor_id: 0,
                    product_id: 0,
                    device_type: "Touchpad".to_string(),
                    driver: String::new(),
                    bus_num: 0,
                    controller: "i2c_designware.0".to_string(),
                    gpio_irq: Some("203".to_string()),
                    input_names: Vec::new(),
                },
                HidDevice {
                    acpi_name: "ELAN:00".to_string(),
                    vendor_id: 0,
                    product_id: 0,
                    device_type: "Touchscreen".to_string(),
                    driver: String::new(),
                    bus_num: 0,
                    controller: "i2c_designware.0".to_string(),
                    gpio_irq: Some("204".to_string()),
                    input_names: Vec::new(),
                },
            ],
        }],
        gpio_irqs: IrqMap::new(),
        controller_irqs: IrqMap::new(),
    };
    let mut app = App::new(1000, 0);
    app.init_from_topology(&topology, &Vec::new());
    app
}

#[test]
fn nice_step_for_a_top_of_42() {
    let step = nice_step(42);
    assert_eq!(step, 10);
    let top = ceil_to_step(42, step);
    assert_eq!(top, 50);
    assert!(top >= 42);
}

#[test]
fn nice_step_is_the_least_round_number_that_reaches() {
    let round: Vec<u128> = vec![1, 2, 5, 10, 20, 50, 100, 200, 500, 1000, 2000, 5000];
    let mut v: u128 = 0;
    while v <= 20_000 {
        let step = nice_step(v);
        assert!(round.contains(&step), "step {} for {}", step, v);
        assert!(5 * step >= v);
        let expected = *round.iter().find(|s| 5 * **s >= v).unwrap();
        assert_eq!(step, expected, "for {}", v);
        v += 1;
    }
}

#[test]
fn nice_step_at_the_edges() {
    assert_eq!(nice_step(0), 1);
    assert_eq!(nice_step(1), 1);
    assert_eq!(nice_step(5), 1);
    assert_eq!(nice_step(6), 2);
    assert_eq!(nice_step(10), 2);
    assert_eq!(nice_step(11), 5);
    assert_eq!(nice_step(25), 5);
    assert_eq!(nice_step(26), 10);
    assert_eq!(nice_step(50), 10);
    assert_eq!(nice_step(51), 20);
    assert_eq!(nice_step(u128::MAX), 100_000_000_000_000_000_000_000_000_000_000_000_000);
    assert_eq!(nice_step(5 * 10u128.pow(37)), 10u128.pow(37));
    assert_eq!(nice_step(5 * 10u128.pow(37) + 1), 2 * 10u128.pow(37));
}

#[test]
fn ceil_to_step_rounds_up_to_a_multiple() {
    assert_eq!(ceil_to_step(0, 5), 0);
    assert_eq!(ceil_to_step(1, 5), 5);
    assert_eq!(ceil_to_step(5, 5), 5);
    assert_eq!(ceil_to_step(6, 5), 10);
    assert_eq!(ceil_to_step(11, 2), 12);
    assert_eq!(ceil_to_step(7, 1), 7);
    assert_eq!(ceil_to_step(u128::MAX - 1, 1), u128::MAX - 1);
}

#[test]
fn axis_top_has_headroom_and_a_floor() {
    // Nothing to show: the least scale.
    assert_eq!(axis_top(0), 10);
    // 5/s with a tenth of headroom is below the least scale.
    assert_eq!(axis_top(5_000), 10);
    assert_eq!(axis_top(9_090), 10);
    // 9.091/s * 1.1 is just above 10: the step is 5 and the top 15.
    assert_eq!(axis_top(9_091), 15);
    // 50/s * 1.1 = 55: step 20, top 60.
    assert_eq!(axis_top(50_000), 60);
    // 100/s * 1.1 = 110: step 50, top 150.
    assert_eq!(axis_top(100_000), 150);
    // 1000/s * 1.1 = 1100: step 500, top 1500.
    assert_eq!(axis_top(1_000_000), 1500);
    assert_eq!(axis_top(38_000), 50);
    let top = axis_top(u128::MAX);
    assert!(top >= u128::MAX / 1000);
}

#[test]
fn y_labels_are_the_multiples_of_the_step() {
    assert_eq!(y_labels(10), vec![0, 2, 4, 6, 8, 10]);
    assert_eq!(y_labels(50), vec![0, 10, 20, 30, 40, 50]);
    assert_eq!(y_labels(60), vec![0, 20, 40, 60]);
    assert_eq!(y_labels(150), vec![0, 50, 100, 150]);
    assert_eq!(y_labels(42), vec![0, 10, 20, 30, 40]);
    assert_eq!(y_labels(0), vec![0]);
    assert_eq!(y_labels(3), vec![0, 1, 2, 3]);
    assert_eq!(y_labels(u128::MAX).len(), 4);
}

#[test]
fn x_bounds_scroll_after_a_minute() {
    assert_eq!(x_bounds(0), (0, 60_000));
    assert_eq!(x_bounds(59_999), (0, 60_000));
    assert_eq!(x_bounds(60_000), (0, 60_000));
    assert_eq!(x_bounds(60_001), (1, 60_001));
    assert_eq!(x_bounds(125_000), (65_000, 125_000));
    assert_eq!(x_bounds(u64::MAX), (u64::MAX - 60_000, u64::MAX));
}

#[test]
fn selection_wraps_at_both_ends() {
    let mut app = three_series();
    assert_eq!(app.selectable_count(), 4);
    assert_eq!(app.selected_idx(), 0);
    app.select_prev();
    assert_eq!(app.selected_idx(), 3);
    app.select_next();
    assert_eq!(app.selected_idx(), 0);
    app.select_next();
    app.select_next();
    assert_eq!(app.selected_idx(), 2);
    app.select_next();
    assert_eq!(app.selected_idx(), 3);
    app.select_prev();
    assert_eq!(app.selected_idx(), 2);
}

#[test]
fn selection_with_the_total_row_only_stays() {
    let mut app = App::new(1000, 0);
    app.select_next();
    assert_eq!(app.selected_idx(), 0);
    app.select_prev();
    assert_eq!(app.selected_idx(), 0);
}

#[test]
fn toggle_flips_the_row_under_the_cursor() {
    let mut app = three_series();
    app.select_next();
    app.toggle_visibility();
    let visible: Vec<bool> = app.sources().iter().map(|s| s.visible).collect();
    assert_eq!(visible, vec![true, false, true]);
    assert!(app.total_visible());
    app.toggle_visibility();
    assert!(app.sources()[1].visible);
    app.select_prev();
    app.select_prev();
    assert_eq!(app.selected_idx(), 3);
    app.toggle_visibility();
    assert!(!app.total_visible());
    assert!(app.sources().iter().all(|s| s.visible));
    app.toggle_visibility();
    assert!(app.total_visible());
}

#[test]
fn keys_move_the_state() {
    let mut app = three_series();
    app.handle_key(Key::Down);
    assert_eq!(app.selected_idx(), 1);
    app.handle_key(Key::Char('j'));
    assert_eq!(app.selected_idx(), 2);
    app.handle_key(Key::Up);
    assert_eq!(app.selected_idx(), 1);
    app.handle_key(Key::Char('k'));
    assert_eq!(app.selected_idx(), 0);
    app.handle_key(Key::Char('k'));
    assert_eq!(app.selected_idx(), 3);
    app.handle_key(Key::Char(' '));
    assert!(!app.total_visible());
    app.handle_key(Key::Other);
    app.handle_key(Key::Char('x'));
    app.handle_key(Key::Char('Q'));
    assert_eq!(app.selected_idx(), 3);
    assert!(!app.should_quit());
    app.handle_key(Key::Char('q'));
    assert!(app.should_quit());
    let mut other = three_series();
    other.handle_key(Key::Esc);
    assert!(other.should_quit());
    let mut third = three_series();
    third.quit();
    assert!(third.should_quit());
}

#[test]
fn y_max_follows_the_visible_series() {
    let mut app = three_series();
    assert_eq!(app.y_max(), 10);
    app.sample(&vec![count("42", 50), count("203", 20), count("204", 30)], 1000);
    // The total of 100/s is the highest: 110 with headroom, top 150.
    assert_eq!(app.total_latest(), 100_000);
    assert_eq!(app.y_max(), 150);
    // Without the total the controller's 50/s is the highest: top 60.
    app.select_prev();
    app.toggle_visibility();
    assert_eq!(app.y_max(), 60);
    // Without the controller the highest is 30/s: 33 with headroom, top 40.
    app.select_next();
    app.toggle_visibility();
    assert_eq!(app.y_max(), 40);
    app.select_next();
    app.select_next();
    app.toggle_visibility();
    // Only 20/s is left: 22 with headroom, step 5, top 25.
    assert_eq!(app.y_max(), 25);
    app.select_prev();
    app.toggle_visibility();
    assert_eq!(app.y_max(), 10);
}

#[test]
fn y_max_looks_at_the_whole_window() {
    let mut app = three_series();
    app.sample(&vec![count("42", 1000)], 1000);
    app.sample(&vec![count("42", 1001)], 2000);
    assert_eq!(app.sources()[0].latest_rate, 1_000);
    assert_eq!(app.y_max(), 1500);
}
