//! Matching a device of the I2C bus against the entries of the HID bus, and
//! describing it from the entry that matches.

use crate::discovery::{DeviceModel, HidDevice};
use crate::irq_map::{lookup, IrqMap};
use crate::matching::{determine_device_type, device_kind, lowered_names};
use crate::number::{parse_hex_u16, parse_number};
use crate::text::{
    after_prefix, chars_of, contains, contains_sub, has_prefix, lemma_split_on_nonempty, lines,
    seqs, split_fields, split_lines, split_on, starts_with, string_of, strs, trim, trimmed,
};
use vstd::prelude::*;

verus! {

/// One entry of the HID bus, as read from the file system.
#[derive(Debug, Clone)]
pub struct HidEntry {
    /// Name of the entry: bus, vendor and product in hexadecimal, separated
    /// by colons, then a dot and an instance number.
    pub name: String,
    /// Content of the entry's descriptor file, if it could be read.
    pub uevent: Option<String>,
    /// Content of the name file of each input device bound to the entry.
    pub input_names: Vec<String>,
}

/// What a [`HidEntry`] stands for.
pub struct HidEntryModel {
    pub name: Seq<char>,
    pub uevent: Option<Seq<char>>,
    pub input_names: Seq<Seq<char>>,
}

impl View for HidEntry {
    type V = HidEntryModel;

    open spec fn view(&self) -> HidEntryModel {
        HidEntryModel {
            name: self.name@,
            uevent: crate::discovery::opt_text(self.uevent),
            input_names: strs(self.input_names@),
        }
    }
}

/// What a list of entries stands for.
pub open spec fn hid_entries(v: Seq<HidEntry>) -> Seq<HidEntryModel> {
    Seq::new(v.len(), |i: int| v[i]@)
}

/// Whether an entry belongs to the device with the firmware name `acpi_name`:
/// it sits on the I2C bus (its name begins with `0018:`) and its descriptor
/// mentions the name.
pub open spec fn entry_matches(e: HidEntryModel, acpi_name: Seq<char>) -> bool {
    &&& starts_with(e.name, "0018:"@)
    &&& e.uevent is Some
    &&& contains_sub(e.uevent->0, acpi_name)
}

/// The first of `entries` that belongs to the device.
pub open spec fn first_match(entries: Seq<HidEntryModel>, acpi_name: Seq<char>) -> Option<
    HidEntryModel,
>
    decreases entries.len(),
{
    if entries.len() == 0 {
        None
    } else if entry_matches(entries[0], acpi_name) {
        Some(entries[0])
    } else {
        first_match(entries.drop_first(), acpi_name)
    }
}

/// The 16-bit number that `s` denotes in hexadecimal, or 0 where it denotes
/// none.
pub open spec fn hex_or_zero(s: Seq<char>) -> u16 {
    match parse_hex_u16(s) {
        Some(n) => n as u16,
        None => 0,
    }
}

/// The vendor that the name of an entry tells: its second colon-separated
/// field, where it has three or more.
pub open spec fn vendor_of(name: Seq<char>) -> u16 {
    let parts = split_on(name, seq![':']);
    if parts.len() >= 3 {
        hex_or_zero(parts[1])
    } else {
        0
    }
}

/// The product that the name of an entry tells: what stands before the first
/// dot of its third colon-separated field.
pub open spec fn product_of(name: Seq<char>) -> u16 {
    let parts = split_on(name, seq![':']);
    if parts.len() >= 3 {
        hex_or_zero(split_on(parts[2], seq!['.'])[0])
    } else {
        0
    }
}

/// What follows `DRIVER=` in the last of `ls` that begins with it, or the
/// empty text.
pub open spec fn last_driver(ls: Seq<Seq<char>>) -> Seq<char>
    decreases ls.len(),
{
    if ls.len() == 0 {
        Seq::empty()
    } else if starts_with(ls.last(), "DRIVER="@) {
        ls.last().skip("DRIVER="@.len() as int)
    } else {
        last_driver(ls.drop_last())
    }
}

/// The driver that a descriptor names.
pub open spec fn driver_of(uevent: Seq<char>) -> Seq<char> {
    last_driver(lines(uevent))
}

/// The input names as listed: each without surrounding white space.
pub open spec fn trimmed_names(raw: Seq<Seq<char>>) -> Seq<Seq<char>> {
    Seq::new(raw.len(), |i: int| trim(raw[i]))
}

/// The description of the device `acpi_name` on the bus `bus_num` of
/// `controller`.  Identity, driver and input names come from the first entry
/// of the HID bus that belongs to it and stay empty where none does; the GPIO
/// interrupt line is the one the hints hold under its name.
pub open spec fn described(
    acpi_name: Seq<char>,
    controller: Seq<char>,
    bus_num: u8,
    gpio: Map<Seq<char>, Seq<char>>,
    entries: Seq<HidEntryModel>,
) -> DeviceModel {
    let found = first_match(entries, acpi_name);
    let vendor_id = if found is Some {
        vendor_of(found->0.name)
    } else {
        0
    };
    let product_id = if found is Some {
        product_of(found->0.name)
    } else {
        0
    };
    let driver = if found is Some {
        driver_of(found->0.uevent->0)
    } else {
        Seq::empty()
    };
    let names = if found is Some {
        trimmed_names(found->0.input_names)
    } else {
        Seq::empty()
    };
    DeviceModel {
        acpi_name,
        vendor_id,
        product_id,
        device_type: device_kind(lowered_names(names), names, driver, vendor_id),
        driver,
        bus_num,
        controller,
        gpio_irq: lookup(gpio, acpi_name),
        input_names: names,
    }
}

/// The index of the first entry that belongs to the device.
pub fn matching_entry(entries: &Vec<HidEntry>, acpi_name: &String) -> (out: Option<usize>)
    ensures
        out is Some == first_match(hid_entries(entries@), acpi_name@) is Some,
        out is Some ==> out->0 < entries.len() && entries@[out->0 as int]@ == first_match(
            hid_entries(entries@),
            acpi_name@,
        )->0,
        out is Some ==> entry_matches(entries@[out->0 as int]@, acpi_name@),
{
    let bus = chars_of("0018:");
    let wanted = chars_of(acpi_name.as_str());
    let ghost all = hid_entries(entries@);
    let mut i: usize = 0;
    assert(all.skip(0) =~= all);
    while i < entries.len()
        invariant
            i <= entries.len(),
            all == hid_entries(entries@),
            bus@ == "0018:"@,
            wanted@ == acpi_name@,
            first_match(all.skip(i as int), acpi_name@) == first_match(all, acpi_name@),
        decreases entries.len() - i,
    {
        let ghost rest = all.skip(i as int);
        proof {
            assert(rest[0] == entries@[i as int]@);
            assert(rest.drop_first() =~= all.skip(i + 1));
        }
        if has_prefix(&chars_of(entries[i].name.as_str()), &bus) {
            match &entries[i].uevent {
                Some(uevent) => {
                    if contains(&chars_of(uevent.as_str()), &wanted) {
                        return Some(i);
                    }
                },
                None => {},
            }
        }
        i += 1;
    }
    None
}

/// Reads a 16-bit hexadecimal number, 0 where there is none.
fn hex_u16(s: &Vec<char>) -> (out: u16)
    ensures
        out == hex_or_zero(s@),
{
    match parse_number(s, 16, 0xFFFF) {
        Some(n) => n as u16,
        None => 0,
    }
}

/// Reads vendor and product from the name of an entry.
fn identity(name: &String) -> (out: (u16, u16))
    ensures
        out.0 == vendor_of(name@),
        out.1 == product_of(name@),
{
    let colon: Vec<char> = vec![':'];
    assert(colon@ =~= seq![':']);
    let dot: Vec<char> = vec!['.'];
    assert(dot@ =~= seq!['.']);
    let parts = split_fields(&chars_of(name.as_str()), &colon);
    if parts.len() >= 3 {
        assert(seqs(parts@)[1] == parts@[1]@);
        assert(seqs(parts@)[2] == parts@[2]@);
        let vendor = hex_u16(&parts[1]);
        let pieces = split_fields(&parts[2], &dot);
        proof {
            lemma_split_on_nonempty(parts@[2]@, seq!['.']);
            assert(seqs(pieces@)[0] == pieces@[0]@);
        }
        let product = hex_u16(&pieces[0]);
        (vendor, product)
    } else {
        (0, 0)
    }
}

/// Reads the driver from a descriptor.
fn driver_name(uevent: &String) -> (out: String)
    ensures
        out@ == driver_of(uevent@),
{
    let key = chars_of("DRIVER=");
    let ls = split_lines(&chars_of(uevent.as_str()));
    let ghost all = seqs(ls@);
    let mut driver: Vec<char> = Vec::new();
    let mut i: usize = 0;
    assert(all.take(0) =~= Seq::<Seq<char>>::empty());
    while i < ls.len()
        invariant
            i <= ls.len(),
            all == seqs(ls@),
            key@ == "DRIVER="@,
            driver@ == last_driver(all.take(i as int)),
        decreases ls.len() - i,
    {
        proof {
            assert(all.take(i + 1).drop_last() =~= all.take(i as int));
            assert(all.take(i + 1).last() == ls@[i as int]@);
        }
        match after_prefix(&ls[i], &key) {
            Some(rest) => {
                driver = rest;
            },
            None => {},
        }
        i += 1;
    }
    assert(all.take(ls.len() as int) =~= all);
    string_of(&driver)
}

/// Trims each of the raw input names.
fn clean_names(raw: &Vec<String>) -> (out: Vec<String>)
    ensures
        strs(out@) == trimmed_names(strs(raw@)),
{
    let mut out: Vec<String> = Vec::new();
    let mut i: usize = 0;
    while i < raw.len()
        invariant
            i <= raw.len(),
            out.len() == i,
            forall|k: int| 0 <= k < i ==> (#[trigger] out@[k])@ == trim(raw@[k]@),
        decreases raw.len() - i,
    {
        out.push(string_of(&trimmed(&chars_of(raw[i].as_str()))));
        i += 1;
    }
    assert(strs(out@) =~= trimmed_names(strs(raw@)));
    out
}

/// Describes the device `acpi_name` on the bus `bus_num` of `controller`
/// from the entries of the HID bus and the GPIO hints.
pub fn discover_hid_device(
    acpi_name: &String,
    controller: &String,
    bus_num: u8,
    gpio_irqs: &IrqMap,
    entries: &Vec<HidEntry>,
) -> (out: HidDevice)
    ensures
        out@ == described(acpi_name@, controller@, bus_num, gpio_irqs@, hid_entries(entries@)),
{
    let mut device = HidDevice {
        acpi_name: acpi_name.clone(),
        vendor_id: 0,
        product_id: 0,
        device_type: "Unknown".to_owned(),
        driver: String::new(),
        bus_num,
        controller: controller.clone(),
        gpio_irq: gpio_irqs.get(acpi_name),
        input_names: Vec::new(),
    };
    match matching_entry(entries, acpi_name) {
        Some(at) => {
            let entry = &entries[at];
            let ids = identity(&entry.name);
            device.vendor_id = ids.0;
            device.product_id = ids.1;
            match &entry.uevent {
                Some(uevent) => {
                    device.driver = driver_name(uevent);
                },
                None => {},
            }
            device.input_names = clean_names(&entry.input_names);
        },
        None => {},
    }
    assert(strs(device.input_names@) =~= device@.input_names);
    device.device_type = determine_device_type(&device);
    proof {
        let want = described(acpi_name@, controller@, bus_num, gpio_irqs@, hid_entries(entries@));
        assert(device@.input_names =~= want.input_names);
        assert(device@.driver =~= want.driver);
        assert(device@.gpio_irq == want.gpio_irq);
    }
    device
}

} // verus!
