use i2c_int_monitor::interrupts::{
    count_for, parse_interrupt_line, parse_interrupts, InterruptSource, TableError,
};

const SAMPLE_PROC_INTERRUPTS: &str = r#"           CPU0       CPU1       CPU2       CPU3
  0:         23          0          0          0   IO-APIC   2-edge      timer
  8:          0          0          0          0   IO-APIC   8-edge      rtc0
 42:      12345       6789          0          0   PCI-MSI 12345-edge   i2c_designware.0
 43:        100        200          0          0   PCI-MSI 12346-edge   i2c_designware.1
 44:       5000          0          0          0   IO-APIC  44-fasteoi  PIXA3854
NMI:          0          0          0          0   Non-maskable interrupts
LOC:     123456     234567     345678     456789   Local timer interrupts
"#;

#[test]
fn test_parse_interrupts() {
    let sources = parse_interrupts(SAMPLE_PROC_INTERRUPTS).unwrap();
    assert!(!sources.is_empty());

    // Find IRQ 42
    let i2c0 = sources.iter().find(|s| s.irq == "42");
    assert!(i2c0.is_some());
    let i2c0 = i2c0.unwrap();
    assert_eq!(i2c0.count, 12345 + 6789);

    // Find IRQ 44
    let pixa = sources.iter().find(|s| s.irq == "44");
    assert!(pixa.is_some());
    let pixa = pixa.unwrap();
    assert_eq!(pixa.count, 5000);
}

#[test]
fn parse_interrupts_keeps_every_row_in_order() {
    let sources = parse_interrupts(SAMPLE_PROC_INTERRUPTS).unwrap();
    let irqs: Vec<&str> = sources.iter().map(|s| s.irq.as_str()).collect();
    assert_eq!(irqs, vec!["0", "8", "42", "43", "44", "NMI", "LOC"]);
    let counts: Vec<u64> = sources.iter().map(|s| s.count).collect();
    assert_eq!(counts, vec![23, 0, 19134, 300, 5000, 0, 1160490]);
}

#[test]
fn parse_interrupts_rejects_text_without_lines() {
    let err = parse_interrupts("").unwrap_err();
    assert_eq!(err, TableError::Empty);
    assert_eq!(err.message(), "empty interrupt table");
}

#[test]
fn parse_interrupts_with_header_only_is_empty() {
    assert!(parse_interrupts("   CPU0  CPU1\n").unwrap().is_empty());
    assert!(parse_interrupts("\n").unwrap().is_empty());
}

#[test]
fn parse_interrupts_skips_blank_lines() {
    let sources = parse_interrupts("CPU0\n\n 1: 5 one\n   \t \n 2: 7 two\n").unwrap();
    assert_eq!(sources.len(), 2);
    assert_eq!(sources[0].irq, "1");
    assert_eq!(sources[1].count, 7);
}

#[test]
fn parse_interrupts_accepts_carriage_returns() {
    let sources = parse_interrupts("CPU0 CPU1\r\n 9: 1 2 dev\r\n").unwrap();
    assert_eq!(sources.len(), 1);
    assert_eq!(sources[0].irq, "9");
    assert_eq!(sources[0].count, 3);
}

#[test]
fn line_count_is_sum_of_cpu_columns() {
    let s = parse_interrupt_line(" 42: 100 20 3 PCI-MSI 12345-edge dev", 3).unwrap();
    assert_eq!(s.irq, "42");
    assert_eq!(s.count, 123);
}

#[test]
fn line_ignores_numbers_in_the_annotation() {
    // Two CPUs: the third number belongs to the annotation.
    let s = parse_interrupt_line(" 42: 100 20 999 dev", 2).unwrap();
    assert_eq!(s.count, 120);
}

#[test]
fn line_stops_at_first_word_that_is_no_number() {
    let s = parse_interrupt_line("ERR: 7 oops 5 6", 4).unwrap();
    assert_eq!(s.irq, "ERR");
    assert_eq!(s.count, 7);
    let s = parse_interrupt_line("MIS: -1 5", 4).unwrap();
    assert_eq!(s.count, 0);
}

#[test]
fn line_with_fewer_columns_than_cpus() {
    let s = parse_interrupt_line("ERR: 3", 8).unwrap();
    assert_eq!(s.count, 3);
    let s = parse_interrupt_line("ERR:", 8).unwrap();
    assert_eq!(s.irq, "ERR");
    assert_eq!(s.count, 0);
}

#[test]
fn line_accepts_a_plus_sign_and_leading_zeros() {
    let s = parse_interrupt_line("5: +7 003", 2).unwrap();
    assert_eq!(s.count, 10);
}

#[test]
fn line_with_zero_cpus_counts_nothing() {
    let s = parse_interrupt_line("5: 7 3", 0).unwrap();
    assert_eq!(s.count, 0);
}

#[test]
fn line_strips_all_trailing_colons_of_the_name() {
    let s = parse_interrupt_line("a:b::: 1", 1).unwrap();
    assert_eq!(s.irq, "a:b");
    let s = parse_interrupt_line("::: 1", 1).unwrap();
    assert_eq!(s.irq, "");
}

#[test]
fn blank_line_is_no_row() {
    assert!(parse_interrupt_line("", 4).is_none());
    assert!(parse_interrupt_line("   \t  ", 4).is_none());
    assert!(parse_interrupt_line("\u{a0}\u{2003}", 4).is_none());
}

#[test]
fn line_count_is_held_at_the_largest_value() {
    let s = parse_interrupt_line("1: 18446744073709551615 18446744073709551615", 2).unwrap();
    assert_eq!(s.count, u64::MAX);
    let s = parse_interrupt_line("1: 18446744073709551615 0", 2).unwrap();
    assert_eq!(s.count, u64::MAX);
    // A column beyond 64 bits is no number and ends the sum.
    let s = parse_interrupt_line("1: 5 18446744073709551616 7", 3).unwrap();
    assert_eq!(s.count, 5);
}

#[test]
fn count_for_takes_the_last_row_of_a_line() {
    let snapshot = vec![
        InterruptSource { irq: "42".to_string(), count: 1 },
        InterruptSource { irq: "43".to_string(), count: 2 },
        InterruptSource { irq: "42".to_string(), count: 3 },
    ];
    assert_eq!(count_for(&snapshot, &"42".to_string()), Some(3));
    assert_eq!(count_for(&snapshot, &"43".to_string()), Some(2));
    assert_eq!(count_for(&snapshot, &"44".to_string()), None);
    assert_eq!(count_for(&Vec::new(), &"42".to_string()), None);
}
