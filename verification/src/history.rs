//! The time series of one interrupt source.

use crate::discovery::{InterruptSourceInfo, SourceModel};
use crate::rate::{capped_sum, lower, rate, rate_of, upper};
use crate::text::{append_str, chars_of, string_of};
use crate::window::{pushed, Window};
use vstd::prelude::*;

verus! {

/// A colour of the dashboard's palette.
#[derive(Debug, Clone, Copy, PartialEq, Eq, Structural)]
pub enum PaletteColor {
    Blue,
    Magenta,
    Red,
    Yellow,
    Cyan,
    LightMagenta,
    LightRed,
    LightYellow,
    White,
    DarkGray,
}

/// What draws interrupts: a bus controller or a device on a bus.
#[derive(Debug, Clone, Copy, PartialEq, Eq, Structural)]
pub enum Role {
    Controller,
    Device,
}

/// The number of colours that each role has.
pub const PALETTE_SIZE: usize = 4;

/// The colours of a role, in the order in which they are handed out.
pub open spec fn palette(role: Role) -> Seq<PaletteColor> {
    match role {
        Role::Controller => seq![
            PaletteColor::Blue,
            PaletteColor::Magenta,
            PaletteColor::Red,
            PaletteColor::Yellow,
        ],
        Role::Device => seq![
            PaletteColor::Cyan,
            PaletteColor::LightMagenta,
            PaletteColor::LightRed,
            PaletteColor::LightYellow,
        ],
    }
}

/// The colour that a role's series number `index` is drawn in: the colours
/// of the role are used in turn.
pub open spec fn palette_color(role: Role, index: nat) -> PaletteColor {
    palette(role)[(index % PALETTE_SIZE as nat) as int]
}

/// The colour that a role's series number `index` is drawn in.
pub fn pick_color(role: Role, index: usize) -> (out: PaletteColor)
    ensures
        out == palette_color(role, index as nat),
{
    let slot = index % PALETTE_SIZE;
    match role {
        Role::Controller => {
            if slot == 0 {
                PaletteColor::Blue
            } else if slot == 1 {
                PaletteColor::Magenta
            } else if slot == 2 {
                PaletteColor::Red
            } else {
                PaletteColor::Yellow
            }
        },
        Role::Device => {
            if slot == 0 {
                PaletteColor::Cyan
            } else if slot == 1 {
                PaletteColor::LightMagenta
            } else if slot == 2 {
                PaletteColor::LightRed
            } else {
                PaletteColor::LightYellow
            }
        },
    }
}

/// One sample of a series: the time since the start in milliseconds, and
/// the rate in thousandths of an interrupt per second.
pub type Sample = (u64, u64);

/// The history of one interrupt source.
pub struct SourceHistory {
    /// Identifier of the interrupt line.
    pub irq: String,
    /// Name to show.
    pub name: String,
    /// Kind of device in words.
    pub device_type: String,
    /// Whether this is a controller rather than a device.
    pub is_controller: bool,
    /// Number of the series among those of its role; it decides the colour
    /// and does not change with visibility.
    pub color_idx: usize,
    /// The latest samples, oldest first.
    pub data: Window<Sample>,
    /// The count at the last sample.
    pub prev_count: u64,
    /// The rate of the last sample.
    pub latest_rate: u64,
    /// The sum of all rates sampled, held at the largest 128-bit value.
    pub rate_sum: u128,
    /// The lowest rate sampled, if any was.
    pub rate_min: Option<u64>,
    /// The highest rate sampled, if any was.
    pub rate_max: Option<u64>,
    /// Whether the chart shows the series.
    pub visible: bool,
}

/// What a [`SourceHistory`] stands for.
pub struct SeriesModel {
    pub irq: Seq<char>,
    pub name: Seq<char>,
    pub device_type: Seq<char>,
    pub is_controller: bool,
    pub color_idx: nat,
    pub data: Seq<Sample>,
    pub prev_count: int,
    pub latest_rate: int,
    pub rate_sum: int,
    pub rate_min: Option<int>,
    pub rate_max: Option<int>,
    pub visible: bool,
}

/// An optional rate as a number.
pub open spec fn opt_rate(r: Option<u64>) -> Option<int> {
    match r {
        Some(v) => Some(v as int),
        None => None,
    }
}

impl View for SourceHistory {
    type V = SeriesModel;

    open spec fn view(&self) -> SeriesModel {
        SeriesModel {
            irq: self.irq@,
            name: self.name@,
            device_type: self.device_type@,
            is_controller: self.is_controller,
            color_idx: self.color_idx as nat,
            data: self.data@,
            prev_count: self.prev_count as int,
            latest_rate: self.latest_rate as int,
            rate_sum: self.rate_sum as int,
            rate_min: opt_rate(self.rate_min),
            rate_max: opt_rate(self.rate_max),
            visible: self.visible,
        }
    }
}

/// What a list of histories stands for.
pub open spec fn series(v: Seq<SourceHistory>) -> Seq<SeriesModel> {
    Seq::new(v.len(), |i: int| v[i]@)
}

/// The series of a source before its first sample: it is visible, holds no
/// sample and starts from the count `initial_count`.
pub open spec fn fresh_series(info: SourceModel, initial_count: int, color_idx: nat) -> SeriesModel {
    SeriesModel {
        irq: info.irq,
        name: info.name,
        device_type: info.device_type,
        is_controller: info.is_controller,
        color_idx,
        data: Seq::empty(),
        prev_count: initial_count,
        latest_rate: 0,
        rate_sum: 0,
        rate_min: None,
        rate_max: None,
        visible: true,
    }
}

/// A series after one more sample: the count `count`, read `elapsed_ms`
/// after the start, over an interval of `interval_ms`.  The rate is that of
/// the growth since the last count; it enters the window and the running sum,
/// minimum and maximum, and the count becomes the new base.
pub open spec fn after_push(s: SeriesModel, elapsed_ms: u64, count: int, interval_ms: int) -> SeriesModel {
    let r = rate_of(s.prev_count, count, interval_ms);
    SeriesModel {
        data: pushed(s.data, (elapsed_ms, r as u64)),
        prev_count: count,
        latest_rate: r,
        rate_sum: capped_sum(s.rate_sum, r),
        rate_min: Some(lower(s.rate_min, r)),
        rate_max: Some(upper(s.rate_max, r)),
        ..s
    }
}

/// The name that a table shows for a series: a device's name is set in
/// under its controller.
pub open spec fn shown_name(s: SeriesModel) -> Seq<char> {
    if s.is_controller {
        s.name
    } else {
        "  \u{2514}\u{2500} "@ + s.name
    }
}

impl SourceHistory {
    /// The history of a source before its first sample.
    pub fn new(info: &InterruptSourceInfo, initial_count: u64, color_idx: usize) -> (out:
        SourceHistory)
        ensures
            out@ == fresh_series(info@, initial_count as int, color_idx as nat),
    {
        SourceHistory {
            irq: info.irq.clone(),
            name: info.name.clone(),
            device_type: info.device_type.clone(),
            is_controller: info.is_controller,
            color_idx,
            data: Window::new(),
            prev_count: initial_count,
            latest_rate: 0,
            rate_sum: 0,
            rate_min: None,
            rate_max: None,
            visible: true,
        }
    }

    /// Takes one more sample of the source.
    pub fn push(&mut self, elapsed_ms: u64, count: u64, interval_ms: u64)
        ensures
            final(self)@ == after_push(old(self)@, elapsed_ms, count as int, interval_ms as int),
            final(self)@.data.len() <= crate::window::MAX_POINTS,
    {
        let r = rate(self.prev_count, count, interval_ms);
        self.data.push((elapsed_ms, r));
        self.prev_count = count;
        self.latest_rate = r;
        self.rate_sum = self.rate_sum.saturating_add(r as u128);
        self.rate_min = Some(
            match self.rate_min {
                Some(low) => if r < low {
                    r
                } else {
                    low
                },
                None => r,
            },
        );
        self.rate_max = Some(
            match self.rate_max {
                Some(high) => if r > high {
                    r
                } else {
                    high
                },
                None => r,
            },
        );
    }

    /// The role of the source.
    pub fn role(&self) -> (out: Role)
        ensures
            out == if self.is_controller {
                Role::Controller
            } else {
                Role::Device
            },
    {
        if self.is_controller {
            Role::Controller
        } else {
            Role::Device
        }
    }

    /// The colour that the series is drawn in.
    pub fn color(&self) -> (out: PaletteColor)
        ensures
            out == palette_color(
                if self.is_controller {
                    Role::Controller
                } else {
                    Role::Device
                },
                self.color_idx as nat,
            ),
    {
        pick_color(self.role(), self.color_idx)
    }

    /// The name that a table shows for the series.
    pub fn display_name(&self) -> (out: String)
        ensures
            out@ == shown_name(self@),
    {
        if self.is_controller {
            self.name.clone()
        } else {
            let mut buf = chars_of("  \u{2514}\u{2500} ");
            append_str(&mut buf, self.name.as_str());
            string_of(&buf)
        }
    }
}

} // verus!
