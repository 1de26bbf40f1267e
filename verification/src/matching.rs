//! Heuristics that recognise hardware names in free-form kernel text.

use crate::discovery::{opt_text, HidDevice};
use crate::number::{parse_number, parse_u8};
use crate::text::{
    after_prefix, chars_of, contains, contains_char, contains_sub, has_prefix, same_text, seqs,
    split_fields, split_on, split_words, starts_with, string_of, strs, words,
};
use vstd::prelude::*;

verus! {

/// Whether a word of a counter-table row looks like the firmware name of a
/// device: it holds a colon, begins with an upper-case ASCII letter and holds
/// neither `IR-` nor `PCI-`, which mark bus annotations.
pub open spec fn is_acpi_token(w: Seq<char>) -> bool {
    &&& w.contains(':')
    &&& w.len() > 0 && 'A' <= w[0] && w[0] <= 'Z'
    &&& !contains_sub(w, "IR-"@)
    &&& !contains_sub(w, "PCI-"@)
}

/// The last of `ws` that looks like a firmware name.
pub open spec fn last_acpi_token(ws: Seq<Seq<char>>) -> Option<Seq<char>>
    decreases ws.len(),
{
    if ws.len() == 0 {
        None
    } else if is_acpi_token(ws.last()) {
        Some(ws.last())
    } else {
        last_acpi_token(ws.drop_last())
    }
}

/// The firmware name in a row of the counter table: its last word that looks
/// like one.
pub open spec fn acpi_name_of(line: Seq<char>) -> Option<Seq<char>> {
    last_acpi_token(words(line))
}

/// Whether `w` looks like the firmware name of a device.
fn looks_like_acpi_name(w: &Vec<char>) -> (b: bool)
    ensures
        b == is_acpi_token(w@),
{
    contains_char(w, ':') && w.len() > 0 && 'A' <= w[0] && w[0] <= 'Z' && !contains(
        w,
        &chars_of("IR-"),
    ) && !contains(w, &chars_of("PCI-"))
}

/// The firmware name in a row of the counter table, given as characters.
pub fn acpi_name_in(line: &Vec<char>) -> (out: Option<Vec<char>>)
    ensures
        out is Some == acpi_name_of(line@) is Some,
        out is Some ==> out->0@ == acpi_name_of(line@)->0,
{
    let ws = split_words(line);
    let mut i: usize = ws.len();
    assert(seqs(ws@).take(i as int) =~= seqs(ws@));
    while i > 0
        invariant
            i <= ws.len(),
            seqs(ws@) == words(line@),
            last_acpi_token(seqs(ws@).take(i as int)) == acpi_name_of(line@),
        decreases i,
    {
        let ghost prefix = seqs(ws@).take(i as int);
        proof {
            assert(prefix.last() == ws@[i - 1]@);
            assert(prefix.drop_last() =~= seqs(ws@).take(i - 1));
        }
        if looks_like_acpi_name(&ws[i - 1]) {
            return Some(ws[i - 1].clone());
        }
        i -= 1;
    }
    None
}

/// Finds the firmware name of a device in a row of the counter table.
pub fn extract_acpi_name(line: &str) -> (out: Option<String>)
    ensures
        opt_text(out) == acpi_name_of(line@),
{
    match acpi_name_in(&chars_of(line)) {
        Some(name) => Some(string_of(&name)),
        None => None,
    }
}

/// The first of `segs` that begins with `i2c_designware.`.
pub open spec fn first_controller_segment(segs: Seq<Seq<char>>) -> Option<Seq<char>>
    decreases segs.len(),
{
    if segs.len() == 0 {
        None
    } else if starts_with(segs[0], "i2c_designware."@) {
        Some(segs[0])
    } else {
        first_controller_segment(segs.drop_first())
    }
}

/// The controller that a device path names: its first segment that begins
/// with `i2c_designware.`, or `unknown` where it has none.
pub open spec fn controller_name_of(path: Seq<char>) -> Seq<char> {
    match first_controller_segment(split_on(path, seq!['/'])) {
        Some(seg) => seg,
        None => "unknown"@,
    }
}

/// The segments of a path.
fn path_segments(path: &str) -> (out: Vec<Vec<char>>)
    ensures
        seqs(out@) == split_on(path@, seq!['/']),
{
    let delims: Vec<char> = vec!['/'];
    assert(delims@ =~= seq!['/']);
    split_fields(&chars_of(path), &delims)
}

/// Finds the name of the controller in the path of a device.
pub fn extract_controller_name(path: &str) -> (out: String)
    ensures
        out@ == controller_name_of(path@),
{
    let segs = path_segments(path);
    let prefix = chars_of("i2c_designware.");
    let mut i: usize = 0;
    assert(seqs(segs@).skip(0) =~= seqs(segs@));
    while i < segs.len()
        invariant
            i <= segs.len(),
            prefix@ == "i2c_designware."@,
            seqs(segs@) == split_on(path@, seq!['/']),
            first_controller_segment(seqs(segs@).skip(i as int)) == first_controller_segment(
                seqs(segs@),
            ),
        decreases segs.len() - i,
    {
        let ghost rest = seqs(segs@).skip(i as int);
        proof {
            assert(rest[0] == segs@[i as int]@);
            assert(rest.drop_first() =~= seqs(segs@).skip(i + 1));
        }
        if has_prefix(&segs[i], &prefix) {
            return string_of(&segs[i]);
        }
        i += 1;
    }
    "unknown".to_owned()
}

/// The bus number that a path segment names: the decimal number of at most 8
/// bits that follows `i2c-`.
pub open spec fn bus_of_segment(seg: Seq<char>) -> Option<nat> {
    if starts_with(seg, "i2c-"@) {
        parse_u8(seg.skip("i2c-"@.len() as int))
    } else {
        None
    }
}

/// The bus number of the first of `segs` that names one.
pub open spec fn first_bus_segment(segs: Seq<Seq<char>>) -> Option<nat>
    decreases segs.len(),
{
    if segs.len() == 0 {
        None
    } else if bus_of_segment(segs[0]) is Some {
        bus_of_segment(segs[0])
    } else {
        first_bus_segment(segs.drop_first())
    }
}

/// The bus that a device path names: the number in its first segment of the
/// form `i2c-N`, or 0 where it has none.
pub open spec fn bus_num_of(path: Seq<char>) -> nat {
    match first_bus_segment(split_on(path, seq!['/'])) {
        Some(n) => n,
        None => 0,
    }
}

/// Finds the bus number in the path of a device.
pub fn extract_bus_num(path: &str) -> (out: u8)
    ensures
        out == bus_num_of(path@),
{
    let segs = path_segments(path);
    let prefix = chars_of("i2c-");
    let mut i: usize = 0;
    assert(seqs(segs@).skip(0) =~= seqs(segs@));
    while i < segs.len()
        invariant
            i <= segs.len(),
            prefix@ == "i2c-"@,
            seqs(segs@) == split_on(path@, seq!['/']),
            first_bus_segment(seqs(segs@).skip(i as int)) == first_bus_segment(seqs(segs@)),
        decreases segs.len() - i,
    {
        let ghost rest = seqs(segs@).skip(i as int);
        proof {
            assert(rest[0] == segs@[i as int]@);
            assert(rest.drop_first() =~= seqs(segs@).skip(i + 1));
        }
        match after_prefix(&segs[i], &prefix) {
            Some(digits) => {
                match parse_number(&digits, 10, 255) {
                    Some(n) => {
                        return n as u8;
                    },
                    None => {},
                }
            },
            None => {},
        }
        i += 1;
    }
    0
}

/// The lower-case form of a text, as the Unicode character database
/// defines it.
pub uninterp spec fn lowercase_of(s: Seq<char>) -> Seq<char>;

/// `str::to_lowercase` returns the lower-case form of the text; the result
/// depends on the text alone.
#[verifier::external_body]
fn to_lowercase(s: &String) -> (out: String)
    ensures
        out@ == lowercase_of(s@),
{
    s.to_lowercase()
}

/// The kind of device that one lower-case input name tells, if it tells one.
pub open spec fn kind_of_name(lowered: Seq<char>) -> Option<Seq<char>> {
    if contains_sub(lowered, "touchpad"@) {
        Some("Touchpad"@)
    } else if contains_sub(lowered, "touchscreen"@) {
        Some("Touchscreen"@)
    } else if contains_sub(lowered, "stylus"@) || contains_sub(lowered, "pen"@) {
        Some("Stylus"@)
    } else if contains_sub(lowered, "keyboard"@) {
        Some("Keyboard"@)
    } else {
        None
    }
}

/// The kind that the first telling name of `lowered` tells.
pub open spec fn kind_of_names(lowered: Seq<Seq<char>>) -> Option<Seq<char>>
    decreases lowered.len(),
{
    if lowered.len() == 0 {
        None
    } else if kind_of_name(lowered[0]) is Some {
        kind_of_name(lowered[0])
    } else {
        kind_of_names(lowered.drop_first())
    }
}

/// Whether one of the input names marks a set of media or radio keys.
pub open spec fn has_control_name(names: Seq<Seq<char>>) -> bool {
    exists|i: int|
        0 <= i < names.len() && (contains_sub(#[trigger] names[i], "Radio"@) || contains_sub(
            names[i],
            "Consumer"@,
        ))
}

/// The kind that the driver tells where no input name does.  Under the
/// multi-touch driver one vendor's devices count as touchpads and all others
/// as touchscreens: a coarse guess, since no other signal is consulted.
pub open spec fn kind_of_driver(driver: Seq<char>, names: Seq<Seq<char>>, vendor_id: u16) -> Seq<
    char,
> {
    if driver == "hid-multitouch"@ {
        if vendor_id == 0x093A {
            "Touchpad"@
        } else {
            "Touchscreen"@
        }
    } else if driver == "hid-sensor-hub"@ {
        "Sensor Hub"@
    } else if driver == "hid-generic"@ {
        if has_control_name(names) {
            "Keyboard/Controls"@
        } else {
            "Input Device"@
        }
    } else {
        "HID Device"@
    }
}

/// The kind of a device: what its input names tell, in lower case, comes
/// before what its driver tells.
pub open spec fn device_kind(
    lowered: Seq<Seq<char>>,
    names: Seq<Seq<char>>,
    driver: Seq<char>,
    vendor_id: u16,
) -> Seq<char> {
    match kind_of_names(lowered) {
        Some(kind) => kind,
        None => kind_of_driver(driver, names, vendor_id),
    }
}

/// The lower-case forms of `names`.
pub open spec fn lowered_names(names: Seq<Seq<char>>) -> Seq<Seq<char>> {
    Seq::new(names.len(), |i: int| lowercase_of(names[i]))
}

/// The kind that one lower-case input name tells.
fn name_kind(lowered: &String) -> (out: Option<String>)
    ensures
        opt_text(out) == kind_of_name(lowered@),
{
    let text = chars_of(lowered.as_str());
    if contains(&text, &chars_of("touchpad")) {
        Some("Touchpad".to_owned())
    } else if contains(&text, &chars_of("touchscreen")) {
        Some("Touchscreen".to_owned())
    } else if contains(&text, &chars_of("stylus")) || contains(&text, &chars_of("pen")) {
        Some("Stylus".to_owned())
    } else if contains(&text, &chars_of("keyboard")) {
        Some("Keyboard".to_owned())
    } else {
        None
    }
}

/// Whether one of the input names marks a set of media or radio keys.
fn any_control_name(names: &Vec<String>) -> (b: bool)
    ensures
        b == has_control_name(strs(names@)),
{
    let radio = chars_of("Radio");
    let consumer = chars_of("Consumer");
    let mut i: usize = 0;
    while i < names.len()
        invariant
            i <= names.len(),
            radio@ == "Radio"@,
            consumer@ == "Consumer"@,
            forall|k: int|
                0 <= k < i ==> !(contains_sub(#[trigger] strs(names@)[k], "Radio"@)
                    || contains_sub(strs(names@)[k], "Consumer"@)),
        decreases names.len() - i,
    {
        let text = chars_of(names[i].as_str());
        assert(strs(names@)[i as int] == text@);
        if contains(&text, &radio) || contains(&text, &consumer) {
            return true;
        }
        i += 1;
    }
    false
}

/// Names the kind of a device from its input names, given also in lower
/// case, its driver and its vendor.
pub fn classify(lowered: &Vec<String>, names: &Vec<String>, driver: &String, vendor_id: u16) -> (out:
    String)
    ensures
        out@ == device_kind(strs(lowered@), strs(names@), driver@, vendor_id),
{
    let mut i: usize = 0;
    assert(strs(lowered@).skip(0) =~= strs(lowered@));
    while i < lowered.len()
        invariant
            i <= lowered.len(),
            kind_of_names(strs(lowered@).skip(i as int)) == kind_of_names(strs(lowered@)),
        decreases lowered.len() - i,
    {
        let ghost rest = strs(lowered@).skip(i as int);
        proof {
            assert(rest[0] == lowered@[i as int]@);
            assert(rest.drop_first() =~= strs(lowered@).skip(i + 1));
        }
        match name_kind(&lowered[i]) {
            Some(kind) => {
                return kind;
            },
            None => {},
        }
        i += 1;
    }
    let d = chars_of(driver.as_str());
    if same_text(&d, &chars_of("hid-multitouch")) {
        if vendor_id == 0x093A {
            "Touchpad".to_owned()
        } else {
            "Touchscreen".to_owned()
        }
    } else if same_text(&d, &chars_of("hid-sensor-hub")) {
        "Sensor Hub".to_owned()
    } else if same_text(&d, &chars_of("hid-generic")) {
        if any_control_name(names) {
            "Keyboard/Controls".to_owned()
        } else {
            "Input Device".to_owned()
        }
    } else {
        "HID Device".to_owned()
    }
}

/// Names the kind of a device in words.
pub fn determine_device_type(device: &HidDevice) -> (out: String)
    ensures
        out@ == device_kind(
            lowered_names(device@.input_names),
            device@.input_names,
            device@.driver,
            device@.vendor_id,
        ),
{
    let mut lowered: Vec<String> = Vec::new();
    let mut i: usize = 0;
    while i < device.input_names.len()
        invariant
            i <= device.input_names.len(),
            lowered.len() == i,
            forall|k: int| 0 <= k < i ==> (#[trigger] lowered@[k])@ == lowercase_of(
                device.input_names@[k]@,
            ),
        decreases device.input_names.len() - i,
    {
        lowered.push(to_lowercase(&device.input_names[i]));
        i += 1;
    }
    assert(strs(lowered@) =~= lowered_names(device@.input_names));
    classify(&lowered, &device.input_names, &device.driver, device.vendor_id)
}

} // verus!
