//! Interrupt-line ownership hints read from the annotations of the counter
//! table: which line serves which GPIO-attached device, and which serves
//! which bus controller.

use crate::irq_map::IrqMap;
use crate::matching::{acpi_name_in, acpi_name_of};
use crate::text::{
    chars_of, contains, contains_sub, lemma_split_on_nonempty, lines, seqs, split_fields,
    split_lines, split_on, string_of, trim, trimmed,
};
use vstd::prelude::*;

verus! {

/// The interrupt line that a row names: what stands before its first colon,
/// without surrounding white space.
pub open spec fn line_irq(row: Seq<char>) -> Seq<char> {
    trim(split_on(row, seq![':'])[0])
}

/// Whether a row is annotated as the interrupt of a GPIO controller.
pub open spec fn is_gpio_row(row: Seq<char>) -> bool {
    contains_sub(row, "intel-gpio"@) || contains_sub(row, "pinctrl"@)
}

/// The GPIO hints after one more line of the table: a line that, trimmed, is
/// a GPIO row with a firmware name puts its interrupt line under that name.
pub open spec fn gpio_step(m: Map<Seq<char>, Seq<char>>, line: Seq<char>) -> Map<
    Seq<char>,
    Seq<char>,
> {
    let row = trim(line);
    if row.len() > 0 && is_gpio_row(row) && acpi_name_of(row) is Some {
        m.insert(acpi_name_of(row)->0, line_irq(row))
    } else {
        m
    }
}

/// The GPIO hints of the lines `ls`.
pub open spec fn gpio_hints(ls: Seq<Seq<char>>) -> Map<Seq<char>, Seq<char>>
    decreases ls.len(),
{
    if ls.len() == 0 {
        Map::empty()
    } else {
        gpio_step(gpio_hints(ls.drop_last()), ls.last())
    }
}

/// The controller hints after the pieces `parts` of one row: every piece
/// that holds `i2c_designware` names, once trimmed, a controller that `irq`
/// serves.
pub open spec fn controller_parts_step(
    m: Map<Seq<char>, Seq<char>>,
    parts: Seq<Seq<char>>,
    irq: Seq<char>,
) -> Map<Seq<char>, Seq<char>>
    decreases parts.len(),
{
    if parts.len() == 0 {
        m
    } else if contains_sub(parts.last(), "i2c_designware"@) {
        controller_parts_step(m, parts.drop_last(), irq).insert(trim(parts.last()), irq)
    } else {
        controller_parts_step(m, parts.drop_last(), irq)
    }
}

/// The controller hints after one more line of the table.  A row that holds
/// `i2c_designware` is cut at blanks and commas; one interrupt line may serve
/// several controllers.
pub open spec fn controller_step(m: Map<Seq<char>, Seq<char>>, line: Seq<char>) -> Map<
    Seq<char>,
    Seq<char>,
> {
    let row = trim(line);
    if row.len() > 0 && contains_sub(row, "i2c_designware"@) {
        controller_parts_step(m, split_on(row, seq![' ', ',']), line_irq(row))
    } else {
        m
    }
}

/// The controller hints of the lines `ls`.
pub open spec fn controller_hints(ls: Seq<Seq<char>>) -> Map<Seq<char>, Seq<char>>
    decreases ls.len(),
{
    if ls.len() == 0 {
        Map::empty()
    } else {
        controller_step(controller_hints(ls.drop_last()), ls.last())
    }
}

/// The hints that a counter table gives.
#[derive(Debug, Clone)]
pub struct IrqHints {
    /// Interrupt lines of GPIO pins, by the firmware name of the device.
    pub gpio: IrqMap,
    /// Interrupt lines of controllers, by the controller's name.
    pub controllers: IrqMap,
}

/// The interrupt line that a trimmed row names.
fn row_irq(row: &Vec<char>) -> (out: Vec<char>)
    ensures
        out@ == line_irq(row@),
{
    let colon: Vec<char> = vec![':'];
    assert(colon@ =~= seq![':']);
    let parts = split_fields(row, &colon);
    proof {
        lemma_split_on_nonempty(row@, seq![':']);
        assert(seqs(parts@)[0] == parts@[0]@);
    }
    trimmed(&parts[0])
}

/// Records the controllers that a row names.
fn note_controllers(table: &mut IrqMap, row: &Vec<char>, irq: &Vec<char>)
    ensures
        final(table)@ == controller_parts_step(
            old(table)@,
            split_on(row@, seq![' ', ',']),
            irq@,
        ),
{
    let delims: Vec<char> = vec![' ', ','];
    assert(delims@ =~= seq![' ', ',']);
    let pattern = chars_of("i2c_designware");
    let parts = split_fields(row, &delims);
    let ghost pieces = seqs(parts@);
    let ghost start = table@;
    let mut j: usize = 0;
    assert(pieces.take(0) =~= Seq::<Seq<char>>::empty());
    while j < parts.len()
        invariant
            j <= parts.len(),
            pieces == seqs(parts@),
            pattern@ == "i2c_designware"@,
            table@ == controller_parts_step(start, pieces.take(j as int), irq@),
        decreases parts.len() - j,
    {
        proof {
            assert(pieces.take(j + 1).drop_last() =~= pieces.take(j as int));
            assert(pieces.take(j + 1).last() == parts@[j as int]@);
        }
        if contains(&parts[j], &pattern) {
            table.insert(string_of(&trimmed(&parts[j])), string_of(irq));
        }
        j += 1;
    }
    assert(pieces.take(parts.len() as int) =~= pieces);
}

/// Reads the hints that a counter table gives on who owns which interrupt
/// line.
pub fn scan_interrupt_table(content: &str) -> (out: IrqHints)
    ensures
        out.gpio@ == gpio_hints(lines(content@)),
        out.controllers@ == controller_hints(lines(content@)),
{
    let ls = split_lines(&chars_of(content));
    let gpio_mark = chars_of("intel-gpio");
    let pin_mark = chars_of("pinctrl");
    let bus_mark = chars_of("i2c_designware");
    let mut gpio = IrqMap::new();
    let mut controllers = IrqMap::new();
    let ghost all = seqs(ls@);
    let mut i: usize = 0;
    assert(all.take(0) =~= Seq::<Seq<char>>::empty());
    while i < ls.len()
        invariant
            i <= ls.len(),
            all == seqs(ls@),
            gpio_mark@ == "intel-gpio"@,
            pin_mark@ == "pinctrl"@,
            bus_mark@ == "i2c_designware"@,
            gpio@ == gpio_hints(all.take(i as int)),
            controllers@ == controller_hints(all.take(i as int)),
        decreases ls.len() - i,
    {
        proof {
            assert(all.take(i + 1).drop_last() =~= all.take(i as int));
            assert(all.take(i + 1).last() == ls@[i as int]@);
        }
        let row = trimmed(&ls[i]);
        if row.len() > 0 {
            let irq = row_irq(&row);
            if contains(&row, &gpio_mark) || contains(&row, &pin_mark) {
                match acpi_name_in(&row) {
                    Some(name) => {
                        gpio.insert(string_of(&name), string_of(&irq));
                    },
                    None => {},
                }
            }
            if contains(&row, &bus_mark) {
                note_controllers(&mut controllers, &row, &irq);
            }
        }
        i += 1;
    }
    assert(all.take(ls.len() as int) =~= all);
    IrqHints { gpio, controllers }
}

} // verus!
