//! The topology of HID peripherals on I2C buses: which controller serves
//! which device, and which interrupt lines belong to them.

use crate::grouping::{group_by_controller, groups};
use crate::hid::{described, discover_hid_device, hid_entries, HidEntry, HidEntryModel};
use crate::hints::{controller_hints, gpio_hints, scan_interrupt_table};
use crate::irq_map::IrqMap;
use crate::matching::{bus_num_of, controller_name_of, extract_bus_num, extract_controller_name};
use crate::text::{
    after_prefix, append_str, chars_of, join, lines, starts_with, string_of, strs,
};
use vstd::prelude::*;

verus! {

/// One HID peripheral on an I2C bus.
#[derive(Debug, Clone)]
pub struct HidDevice {
    /// Firmware name of the device, such as `PIXA3854:00`.
    pub acpi_name: String,
    /// Vendor identifier.
    pub vendor_id: u16,
    /// Product identifier.
    pub product_id: u16,
    /// Kind of device in words, such as `Touchpad`.
    pub device_type: String,
    /// HID driver bound to the device.
    pub driver: String,
    /// Number of the bus the device sits on.
    pub bus_num: u8,
    /// Name of the controller of that bus.
    pub controller: String,
    /// Interrupt line of the device's own GPIO pin, if the counter table names one.
    pub gpio_irq: Option<String>,
    /// Names of the input devices it exposes.
    pub input_names: Vec<String>,
}

/// What a [`HidDevice`] stands for.
pub struct DeviceModel {
    pub acpi_name: Seq<char>,
    pub vendor_id: u16,
    pub product_id: u16,
    pub device_type: Seq<char>,
    pub driver: Seq<char>,
    pub bus_num: u8,
    pub controller: Seq<char>,
    pub gpio_irq: Option<Seq<char>>,
    pub input_names: Seq<Seq<char>>,
}

/// The text of an optional string.
pub open spec fn opt_text(s: Option<String>) -> Option<Seq<char>> {
    match s {
        Some(t) => Some(t@),
        None => None,
    }
}

impl View for HidDevice {
    type V = DeviceModel;

    open spec fn view(&self) -> DeviceModel {
        DeviceModel {
            acpi_name: self.acpi_name@,
            vendor_id: self.vendor_id,
            product_id: self.product_id,
            device_type: self.device_type@,
            driver: self.driver@,
            bus_num: self.bus_num,
            controller: self.controller@,
            gpio_irq: opt_text(self.gpio_irq),
            input_names: strs(self.input_names@),
        }
    }
}

/// What a list of devices stands for.
pub open spec fn devices(v: Seq<HidDevice>) -> Seq<DeviceModel> {
    Seq::new(v.len(), |i: int| v[i]@)
}

/// One I2C bus controller with the devices on its bus.
#[derive(Debug, Clone)]
pub struct I2cController {
    /// Name of the controller, such as `i2c_designware.5`.
    pub name: String,
    /// Number of its bus.
    pub bus_num: u8,
    /// Interrupt line of the controller, if the counter table names one.
    pub irq: Option<String>,
    /// The HID devices on its bus.
    pub hid_devices: Vec<HidDevice>,
}

/// What an [`I2cController`] stands for.
pub struct ControllerModel {
    pub name: Seq<char>,
    pub bus_num: u8,
    pub irq: Option<Seq<char>>,
    pub hid_devices: Seq<DeviceModel>,
}

impl View for I2cController {
    type V = ControllerModel;

    open spec fn view(&self) -> ControllerModel {
        ControllerModel {
            name: self.name@,
            bus_num: self.bus_num,
            irq: opt_text(self.irq),
            hid_devices: devices(self.hid_devices@),
        }
    }
}

/// What a list of controllers stands for.
pub open spec fn controllers(v: Seq<I2cController>) -> Seq<ControllerModel> {
    Seq::new(v.len(), |i: int| v[i]@)
}

/// The discovered hierarchy of controllers and devices.
#[derive(Debug, Clone)]
pub struct I2cTopology {
    /// The controllers, each with its devices.
    pub controllers: Vec<I2cController>,
    /// Interrupt lines of GPIO pins, by the firmware name of the device.
    pub gpio_irqs: IrqMap,
    /// Interrupt lines of controllers, by the controller's name.
    pub controller_irqs: IrqMap,
}

/// What an [`I2cTopology`] stands for.
pub struct TopologyModel {
    pub controllers: Seq<ControllerModel>,
    pub gpio_irqs: Map<Seq<char>, Seq<char>>,
    pub controller_irqs: Map<Seq<char>, Seq<char>>,
}

impl View for I2cTopology {
    type V = TopologyModel;

    open spec fn view(&self) -> TopologyModel {
        TopologyModel {
            controllers: controllers(self.controllers@),
            gpio_irqs: self.gpio_irqs@,
            controller_irqs: self.controller_irqs@,
        }
    }
}

/// One source of interrupts as a dashboard lists it: a controller or a device.
#[derive(Debug, Clone)]
pub struct InterruptSourceInfo {
    /// Identifier of the interrupt line.
    pub irq: String,
    /// Name to show.
    pub name: String,
    /// Kind of device in words.
    pub device_type: String,
    /// Whether this is a controller rather than a device.
    pub is_controller: bool,
    /// For a device, the name of its controller.
    pub parent_controller: Option<String>,
    /// Depth in the hierarchy: 0 for a controller, 1 for a device.
    pub indent_level: u8,
}

/// What an [`InterruptSourceInfo`] stands for.
pub struct SourceModel {
    pub irq: Seq<char>,
    pub name: Seq<char>,
    pub device_type: Seq<char>,
    pub is_controller: bool,
    pub parent_controller: Option<Seq<char>>,
    pub indent_level: u8,
}

impl View for InterruptSourceInfo {
    type V = SourceModel;

    open spec fn view(&self) -> SourceModel {
        SourceModel {
            irq: self.irq@,
            name: self.name@,
            device_type: self.device_type@,
            is_controller: self.is_controller,
            parent_controller: opt_text(self.parent_controller),
            indent_level: self.indent_level,
        }
    }
}

/// What a list of sources stands for.
pub open spec fn sources(v: Seq<InterruptSourceInfo>) -> Seq<SourceModel> {
    Seq::new(v.len(), |i: int| v[i]@)
}

/// The kinds of the devices `ds`, in order.
pub open spec fn device_types(ds: Seq<DeviceModel>) -> Seq<Seq<char>> {
    Seq::new(ds.len(), |i: int| ds[i].device_type)
}

/// What follows a controller's name in its display name: nothing for a
/// controller without devices, else the kinds of its devices, separated by
/// commas, in parentheses after a blank.
pub open spec fn device_summary(ds: Seq<DeviceModel>) -> Seq<char> {
    if ds.len() == 0 {
        Seq::empty()
    } else {
        " ("@ + join(device_types(ds), ", "@) + ")"@
    }
}

/// The source that a controller with an interrupt line is listed as.
pub open spec fn controller_source(c: ControllerModel, irq: Seq<char>) -> SourceModel {
    SourceModel {
        irq,
        name: c.name + device_summary(c.hid_devices),
        device_type: "I2C Controller"@,
        is_controller: true,
        parent_controller: None,
        indent_level: 0,
    }
}

/// The source that a device with an interrupt line is listed as.
pub open spec fn device_source(parent: Seq<char>, d: DeviceModel, irq: Seq<char>) -> SourceModel {
    SourceModel {
        irq,
        name: d.acpi_name,
        device_type: d.device_type,
        is_controller: false,
        parent_controller: Some(parent),
        indent_level: 1,
    }
}

/// The sources of the devices `ds` on the controller `parent`: one for each
/// device that has an interrupt line, in order.
pub open spec fn device_sources(parent: Seq<char>, ds: Seq<DeviceModel>) -> Seq<SourceModel>
    decreases ds.len(),
{
    if ds.len() == 0 {
        Seq::empty()
    } else {
        device_sources(parent, ds.drop_last()) + match ds.last().gpio_irq {
            Some(irq) => seq![device_source(parent, ds.last(), irq)],
            None => Seq::empty(),
        }
    }
}

/// The sources of one controller: the controller itself if it has an
/// interrupt line, then its devices.
pub open spec fn controller_sources(c: ControllerModel) -> Seq<SourceModel> {
    (match c.irq {
        Some(irq) => seq![controller_source(c, irq)],
        None => Seq::empty(),
    }) + device_sources(c.name, c.hid_devices)
}

/// The sources of the controllers `cs`, in order.
pub open spec fn topology_sources(cs: Seq<ControllerModel>) -> Seq<SourceModel>
    decreases cs.len(),
{
    if cs.len() == 0 {
        Seq::empty()
    } else {
        topology_sources(cs.drop_last()) + controller_sources(cs.last())
    }
}

/// The display name of a controller: its name and the summary of its devices.
fn controller_display_name(controller: &I2cController) -> (out: String)
    ensures
        out@ == controller@.name + device_summary(controller@.hid_devices),
{
    let mut buf = chars_of(controller.name.as_str());
    let n = controller.hid_devices.len();
    if n == 0 {
        assert(buf@ + Seq::<char>::empty() =~= buf@);
        return string_of(&buf);
    }
    let ghost types = device_types(controller@.hid_devices);
    let ghost name = controller.name@;
    append_str(&mut buf, " (");
    append_str(&mut buf, controller.hid_devices[0].device_type.as_str());
    assert(types.take(1) =~= seq![types[0]]);
    let mut i: usize = 1;
    while i < n
        invariant
            1 <= i <= n,
            n == controller.hid_devices.len(),
            types == device_types(controller@.hid_devices),
            name == controller.name@,
            buf@ == name + " ("@ + join(types.take(i as int), ", "@),
        decreases n - i,
    {
        proof {
            let next = types.take(i + 1);
            assert(next.drop_last() =~= types.take(i as int));
            assert(next.last() == controller.hid_devices@[i as int].device_type@);
        }
        append_str(&mut buf, ", ");
        append_str(&mut buf, controller.hid_devices[i].device_type.as_str());
        proof {
            let sofar = join(types.take(i as int), ", "@);
            let t = controller.hid_devices@[i as int].device_type@;
            assert(name + " ("@ + sofar + ", "@ + t =~= name + " ("@ + (sofar + ", "@ + t));
        }
        i += 1;
    }
    append_str(&mut buf, ")");
    proof {
        assert(types.take(n as int) =~= types);
        let all = join(types, ", "@);
        assert(name + " ("@ + all + ")"@ =~= name + (" ("@ + all + ")"@));
    }
    string_of(&buf)
}

impl I2cTopology {
    /// The flat list of everything that raises interrupts, for display: each
    /// controller that has an interrupt line, followed by those of its devices
    /// that have one.
    pub fn all_sources(&self) -> (out: Vec<InterruptSourceInfo>)
        ensures
            sources(out@) == topology_sources(self@.controllers),
    {
        let mut out: Vec<InterruptSourceInfo> = Vec::new();
        let ghost cs = controllers(self.controllers@);
        let mut i: usize = 0;
        assert(sources(out@) =~= topology_sources(cs.take(0)));
        while i < self.controllers.len()
            invariant
                i <= self.controllers.len(),
                cs == controllers(self.controllers@),
                sources(out@) == topology_sources(cs.take(i as int)),
            decreases self.controllers.len() - i,
        {
            let controller = &self.controllers[i];
            let ghost c = controller@;
            let ghost before = sources(out@);
            proof {
                assert(cs.take(i + 1).drop_last() =~= cs.take(i as int));
                assert(cs.take(i + 1).last() == c);
            }
            match &controller.irq {
                Some(irq) => {
                    let info = InterruptSourceInfo {
                        irq: irq.clone(),
                        name: controller_display_name(controller),
                        device_type: "I2C Controller".to_owned(),
                        is_controller: true,
                        parent_controller: None,
                        indent_level: 0,
                    };
                    assert(info@ == controller_source(c, c.irq->0));
                    assert(sources(out@.push(info)) =~= sources(out@).push(info@));
                    out.push(info);
                },
                None => {},
            }
            let ghost head = sources(out@);
            assert(head =~= before + match c.irq {
                Some(irq) => seq![controller_source(c, irq)],
                None => Seq::empty(),
            });
            let mut j: usize = 0;
            assert(c.hid_devices.take(0) =~= Seq::<DeviceModel>::empty());
            assert(head + device_sources(c.name, c.hid_devices.take(0)) =~= head);
            while j < controller.hid_devices.len()
                invariant
                    j <= controller.hid_devices.len(),
                    c == controller@,
                    sources(out@) == head + device_sources(c.name, c.hid_devices.take(j as int)),
                decreases controller.hid_devices.len() - j,
            {
                let device = &controller.hid_devices[j];
                proof {
                    assert(c.hid_devices.take(j + 1).drop_last() =~= c.hid_devices.take(j as int));
                    assert(c.hid_devices.take(j + 1).last() == device@);
                }
                match &device.gpio_irq {
                    Some(irq) => {
                        let info = InterruptSourceInfo {
                            irq: irq.clone(),
                            name: device.acpi_name.clone(),
                            device_type: device.device_type.clone(),
                            is_controller: false,
                            parent_controller: Some(controller.name.clone()),
                            indent_level: 1,
                        };
                        assert(info@ == device_source(c.name, device@, device@.gpio_irq->0));
                        assert(sources(out@.push(info)) =~= sources(out@).push(info@));
                        assert(head + (device_sources(c.name, c.hid_devices.take(j as int))
                            + seq![info@]) =~= (head + device_sources(
                            c.name,
                            c.hid_devices.take(j as int),
                        )).push(info@));
                        out.push(info);
                    },
                    None => {
                        assert(device_sources(c.name, c.hid_devices.take(j as int))
                            + Seq::<SourceModel>::empty() =~= device_sources(
                            c.name,
                            c.hid_devices.take(j as int),
                        ));
                    },
                }
                j += 1;
            }
            proof {
                assert(c.hid_devices.take(controller.hid_devices.len() as int) =~= c.hid_devices);
                assert(before + (match c.irq {
                    Some(irq) => seq![controller_source(c, irq)],
                    None => Seq::empty(),
                }) + device_sources(c.name, c.hid_devices) =~= before + controller_sources(c));
            }
            i += 1;
        }
        assert(cs.take(self.controllers.len() as int) =~= cs);
        out
    }
}

/// One device bound to the HID-over-I2C driver, as read from the file
/// system.
#[derive(Debug, Clone)]
pub struct BoundEntry {
    /// Name of the entry in the driver's directory.
    pub name: String,
    /// Path that the entry links to; empty where the link could not be read.
    pub target: String,
}

/// What a [`BoundEntry`] stands for.
pub struct BoundEntryModel {
    pub name: Seq<char>,
    pub target: Seq<char>,
}

impl View for BoundEntry {
    type V = BoundEntryModel;

    open spec fn view(&self) -> BoundEntryModel {
        BoundEntryModel { name: self.name@, target: self.target@ }
    }
}

/// What a list of bound entries stands for.
pub open spec fn bound_entries(v: Seq<BoundEntry>) -> Seq<BoundEntryModel> {
    Seq::new(v.len(), |i: int| v[i]@)
}

/// Everything that discovery reads from the system, taken at one moment.
#[derive(Debug, Clone)]
pub struct SystemSnapshot {
    /// Content of the interrupt-counter table.
    pub interrupts: String,
    /// Entries of the directory of the HID-over-I2C driver, in directory order.
    pub bound: Vec<BoundEntry>,
    /// Entries of the directory of the HID bus, in directory order.
    pub hid: Vec<HidEntry>,
}

/// The device that a bound entry stands for.  Only entries named `i2c-` and a
/// firmware name are devices; controller and bus come from the link's path.
pub open spec fn bound_device(
    e: BoundEntryModel,
    gpio: Map<Seq<char>, Seq<char>>,
    hid: Seq<HidEntryModel>,
) -> Option<DeviceModel> {
    if starts_with(e.name, "i2c-"@) {
        Some(
            described(
                e.name.skip("i2c-"@.len() as int),
                controller_name_of(e.target),
                bus_num_of(e.target) as u8,
                gpio,
                hid,
            ),
        )
    } else {
        None
    }
}

/// The devices that the bound entries `es` stand for, in order.
pub open spec fn bound_devices(
    es: Seq<BoundEntryModel>,
    gpio: Map<Seq<char>, Seq<char>>,
    hid: Seq<HidEntryModel>,
) -> Seq<DeviceModel>
    decreases es.len(),
{
    if es.len() == 0 {
        Seq::empty()
    } else {
        match bound_device(es.last(), gpio, hid) {
            Some(d) => bound_devices(es.drop_last(), gpio, hid).push(d),
            None => bound_devices(es.drop_last(), gpio, hid),
        }
    }
}

/// Builds the topology from a snapshot of the system.  The hints come from
/// the counter table; the devices are the bound entries, each described from
/// the HID bus; the controllers are the grouping of those devices.  A
/// snapshot without bound entries gives a topology without controllers.
pub fn discover(snapshot: &SystemSnapshot) -> (out: I2cTopology)
    ensures
        out@.gpio_irqs == gpio_hints(lines(snapshot.interrupts@)),
        out@.controller_irqs == controller_hints(lines(snapshot.interrupts@)),
        groups(
            bound_devices(bound_entries(snapshot.bound@), out@.gpio_irqs, hid_entries(snapshot.hid@)),
            out@.controller_irqs,
            out@.controllers,
        ),
{
    let hints = scan_interrupt_table(snapshot.interrupts.as_str());
    let prefix = chars_of("i2c-");
    let ghost es = bound_entries(snapshot.bound@);
    let ghost gpio = hints.gpio@;
    let ghost hid = hid_entries(snapshot.hid@);
    let mut found: Vec<HidDevice> = Vec::new();
    let mut i: usize = 0;
    assert(es.take(0) =~= Seq::<BoundEntryModel>::empty());
    assert(devices(found@) =~= Seq::<DeviceModel>::empty());
    while i < snapshot.bound.len()
        invariant
            i <= snapshot.bound.len(),
            es == bound_entries(snapshot.bound@),
            gpio == hints.gpio@,
            hid == hid_entries(snapshot.hid@),
            prefix@ == "i2c-"@,
            devices(found@) == bound_devices(es.take(i as int), gpio, hid),
        decreases snapshot.bound.len() - i,
    {
        let entry = &snapshot.bound[i];
        proof {
            assert(es.take(i + 1).drop_last() =~= es.take(i as int));
            assert(es.take(i + 1).last() == entry@);
        }
        match after_prefix(&chars_of(entry.name.as_str()), &prefix) {
            Some(rest) => {
                let acpi_name = string_of(&rest);
                let controller = extract_controller_name(entry.target.as_str());
                let bus_num = extract_bus_num(entry.target.as_str());
                let device = discover_hid_device(
                    &acpi_name,
                    &controller,
                    bus_num,
                    &hints.gpio,
                    &snapshot.hid,
                );
                assert(devices(found@.push(device)) =~= devices(found@).push(device@));
                found.push(device);
            },
            None => {},
        }
        i += 1;
    }
    assert(es.take(snapshot.bound.len() as int) =~= es);
    let controllers = group_by_controller(found, &hints.controllers);
    I2cTopology { controllers, gpio_irqs: hints.gpio, controller_irqs: hints.controllers }
}

} // verus!
