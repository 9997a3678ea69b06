//! Choosing a serial device among those that are connected.

use crate::error::ProgramError;
use crate::hex::{hex_digit, push_hex_byte};
use crate::trusted::{string_push, wild_match};
use vstd::prelude::*;
use vstd::string::*;
use vstd::utf8::*;

verus! {

/// All that is known of a serial device on USB.
#[derive(Debug)]
pub struct UsbPortInfo {
    /// Vendor ID.
    pub vid: u16,
    /// Product ID.
    pub pid: u16,
    /// Serial number (arbitrary string).
    pub serial_number: Option<String>,
    /// Manufacturer (arbitrary string).
    pub manufacturer: Option<String>,
    /// Product name (arbitrary string).
    pub product: Option<String>,
}

/// How a serial device is connected.
#[derive(Debug)]
pub enum SerialPortType {
    /// Connected via USB.
    UsbPort(UsbPortInfo),
    /// Connected via PCI.
    PciPort,
    /// Connected via Bluetooth.
    BluetoothPort,
    /// It cannot be determined how the device is connected.
    Unknown,
}

/// A serial device that is connected.
#[derive(Debug)]
pub struct SerialPortInfo {
    /// The short name of the device.
    pub port_name: String,
    /// The hardware that exposes it.
    pub port_type: SerialPortType,
}

/// The criteria that a device has to meet. A criterion that is `None` is met
/// by every device.
#[derive(Debug)]
pub struct PortFilter {
    /// Pattern for the name of the device.
    pub port: Option<String>,
    /// Pattern for the vendor ID, written as four hexadecimal digits.
    pub vid: Option<String>,
    /// Pattern for the product ID, written as four hexadecimal digits.
    pub pid: Option<String>,
    /// Pattern for the manufacturer name.
    pub manufacturer: Option<String>,
    /// Pattern for the serial number.
    pub serial: Option<String>,
    /// Pattern for the product name.
    pub product: Option<String>,
    /// Take only the device at this place among those that match.
    pub index: Option<usize>,
}

/// True when `pattern` matches the whole of `text`: `?` stands for exactly
/// one character, `*` for any number of characters, none included, and every
/// other character for itself.
pub open spec fn wildcard_matches(pattern: Seq<char>, text: Seq<char>) -> bool
    decreases pattern.len(), text.len(),
{
    if pattern.len() == 0 {
        text.len() == 0
    } else if pattern[0] == '*' {
        wildcard_matches(pattern.drop_first(), text) || (text.len() > 0 && wildcard_matches(
            pattern,
            text.drop_first(),
        ))
    } else {
        text.len() > 0 && (pattern[0] == '?' || pattern[0] == text[0]) && wildcard_matches(
            pattern.drop_first(),
            text.drop_first(),
        )
    }
}

/// True when a pattern holds a wildcard.
pub open spec fn has_wildcard(pattern: Seq<char>) -> bool {
    pattern.contains('*') || pattern.contains('?')
}

/// True when `text` meets the criterion `pattern`. A pattern with a wildcard
/// has to match the whole text; one without has to occur somewhere in it.
pub open spec fn spec_matches(text: Seq<char>, pattern: Option<Seq<char>>) -> bool {
    match pattern {
        Some(p) => if has_wildcard(p) {
            wildcard_matches(p, text)
        } else {
            wildcard_matches(seq!['*'] + p + seq!['*'], text)
        },
        None => true,
    }
}

/// True when a value that a device may lack meets the criterion `pattern`: a
/// value that is there has to meet it, and one that is missing meets only
/// the criterion that asks for nothing.
pub open spec fn spec_matches_opt(text: Option<Seq<char>>, pattern: Option<Seq<char>>) -> bool {
    match text {
        Some(t) => spec_matches(t, pattern),
        None => pattern is None,
    }
}

/// The characters of a string that may be missing.
pub open spec fn chars_of(s: Option<String>) -> Option<Seq<char>> {
    match s {
        Some(t) => Some(t@),
        None => None,
    }
}

/// A 16-bit value as four hexadecimal digits, in lower case.
pub open spec fn hex_word(value: u16) -> Seq<char> {
    seq![
        hex_digit(value as int / 4096),
        hex_digit(value as int / 256 % 16),
        hex_digit(value as int / 16 % 16),
        hex_digit(value as int % 16),
    ]
}

/// True when a device is on USB and meets every criterion of `filter` on its
/// name, its IDs, its manufacturer, its serial number and its product name.
pub open spec fn spec_usb_port_matches(port: SerialPortInfo, filter: PortFilter) -> bool {
    match port.port_type {
        SerialPortType::UsbPort(info) => {
            &&& spec_matches(port.port_name@, chars_of(filter.port))
            &&& spec_matches(hex_word(info.vid), chars_of(filter.vid))
            &&& spec_matches(hex_word(info.pid), chars_of(filter.pid))
            &&& spec_matches_opt(chars_of(info.manufacturer), chars_of(filter.manufacturer))
            &&& spec_matches_opt(chars_of(info.serial_number), chars_of(filter.serial))
            &&& spec_matches_opt(chars_of(info.product), chars_of(filter.product))
        },
        _ => false,
    }
}

/// Tells whether a pattern holds a wildcard.
fn pattern_has_wildcard(pattern: &str) -> (r: bool)
    ensures
        r == has_wildcard(pattern@),
{
    let n = pattern.unicode_len();
    let mut i: usize = 0;
    while i < n
        invariant
            i <= n,
            n == pattern@.len(),
            forall|j: int| 0 <= j < i ==> pattern@[j] != '*' && pattern@[j] != '?',
        decreases n - i,
    {
        let c = pattern.get_char(i);
        if c == '*' || c == '?' {
            return true;
        }
        i = i + 1;
    }
    false
}

/// Checks to see if a string matches a pattern used for filtering.
pub fn matches(text: &str, pattern: &Option<String>) -> (r: bool)
    ensures
        r == spec_matches(text@, chars_of(*pattern)),
{
    match pattern {
        Some(pattern) => {
            if pattern_has_wildcard(pattern.as_str()) {
                // If any wildcards are present, then we assume that the
                // pattern is fully specified.
                wild_match(pattern.as_str(), text)
            } else {
                // Since no wildcard were specified we treat it as if there
                // was a '*' at each end.
                proof {
                    reveal_strlit("*");
                }
                let mut around = String::from_str("*");
                around.append(pattern.as_str());
                around.append("*");
                assert(around@ =~= seq!['*'] + pattern@ + seq!['*']);
                wild_match(around.as_str(), text)
            }
        },
        None => {
            // If no pattern is specified, then we consider that a match has
            // taken place.
            true
        },
    }
}

/// Similar to [`matches`] but checks to see if a string that may be missing
/// matches a pattern.
pub fn matches_opt(text: &Option<String>, pattern: &Option<String>) -> (r: bool)
    ensures
        r == spec_matches_opt(chars_of(*text), chars_of(*pattern)),
{
    match text {
        Some(text) => matches(text.as_str(), pattern),
        None => {
            // If no pattern was specified, then we don't care if there was a
            // string supplied or not. But if we're looking for a particular
            // pattern, then it needs to match.
            pattern.is_none()
        },
    }
}

/// A 16-bit value as four hexadecimal digits.
pub fn hex4(value: u16) -> (text: String)
    ensures
        text@ == hex_word(value),
{
    let mut text = String::new();
    let high: u8 = (value / 256) as u8;
    let low: u8 = (value % 256) as u8;
    push_hex_byte(&mut text, high);
    push_hex_byte(&mut text, low);
    assert(text@ =~= hex_word(value));
    text
}

/// Checks to see if a serial device matches the filtering criteria.
pub fn usb_port_matches(port: &SerialPortInfo, filter: &PortFilter) -> (r: bool)
    ensures
        r == spec_usb_port_matches(*port, *filter),
{
    match &port.port_type {
        SerialPortType::UsbPort(info) => {
            matches(port.port_name.as_str(), &filter.port) && matches(
                hex4(info.vid).as_str(),
                &filter.vid,
            ) && matches(hex4(info.pid).as_str(), &filter.pid) && matches_opt(
                &info.manufacturer,
                &filter.manufacturer,
            ) && matches_opt(&info.serial_number, &filter.serial) && matches_opt(
                &info.product,
                &filter.product,
            )
        },
        _ => false,
    }
}

/// The order of byte strings: byte by byte, the shorter one first where it
/// starts the longer one.
pub open spec fn bytes_le(a: Seq<u8>, b: Seq<u8>) -> bool
    decreases a.len(),
{
    if a.len() == 0 {
        true
    } else if b.len() == 0 {
        false
    } else if a[0] != b[0] {
        a[0] < b[0]
    } else {
        bytes_le(a.drop_first(), b.drop_first())
    }
}

/// The order of names: that of their UTF-8 encodings, byte by byte.
pub open spec fn name_le(a: Seq<char>, b: Seq<char>) -> bool {
    bytes_le(encode_utf8(a), encode_utf8(b))
}

/// The order of devices: that of their names.
pub open spec fn port_le(a: SerialPortInfo, b: SerialPortInfo) -> bool {
    name_le(a.port_name@, b.port_name@)
}

/// Where `port` goes into `sorted`: behind the last device that is not
/// after it by name.
pub open spec fn insert_place(sorted: Seq<SerialPortInfo>, port: SerialPortInfo) -> int
    decreases sorted.len(),
{
    if sorted.len() == 0 || port_le(sorted.last(), port) {
        sorted.len() as int
    } else {
        insert_place(sorted.drop_last(), port)
    }
}

/// The devices of `ports` that meet `filter`, ordered by name; devices of
/// one name stay in the order in which `ports` has them.
pub open spec fn matching_by_name(ports: Seq<SerialPortInfo>, filter: PortFilter) -> Seq<
    SerialPortInfo,
>
    decreases ports.len(),
{
    if ports.len() == 0 {
        Seq::empty()
    } else {
        let before = matching_by_name(ports.drop_last(), filter);
        if spec_usb_port_matches(ports.last(), filter) {
            before.insert(insert_place(before, ports.last()), ports.last())
        } else {
            before
        }
    }
}

/// The devices that `filter` chooses among `ports`: of those that match,
/// ordered by name, the one at the index that the filter gives, or all of
/// them where it gives none. `None` when that leaves no device.
pub open spec fn chosen(ports: Seq<SerialPortInfo>, filter: PortFilter) -> Option<
    Seq<SerialPortInfo>,
> {
    let found = matching_by_name(ports, filter);
    match filter.index {
        Some(index) => if index < found.len() {
            Some(seq![found[index as int]])
        } else {
            None
        },
        None => if found.len() == 0 {
            None
        } else {
            Some(found)
        },
    }
}

/// Tells whether name `a` is not after name `b`.
pub fn name_not_after(a: &str, b: &str) -> (r: bool)
    ensures
        r == name_le(a@, b@),
{
    let x = a.as_bytes();
    let y = b.as_bytes();
    let mut i: usize = 0;
    assert(x@.skip(0) =~= x@ && y@.skip(0) =~= y@);
    while i < x.len() && i < y.len()
        invariant
            i <= x.len(),
            i <= y.len(),
            x@ == encode_utf8(a@),
            y@ == encode_utf8(b@),
            bytes_le(x@, y@) == bytes_le(x@.skip(i as int), y@.skip(i as int)),
        decreases x.len() - i,
    {
        assert(x@.skip(i as int)[0] == x@[i as int]);
        assert(y@.skip(i as int)[0] == y@[i as int]);
        if x[i] != y[i] {
            assert(bytes_le(x@.skip(i as int), y@.skip(i as int)) == (x@[i as int] < y@[i as int]));
            return x[i] < y[i];
        }
        assert(x@.skip(i as int).drop_first() =~= x@.skip(i + 1));
        assert(y@.skip(i as int).drop_first() =~= y@.skip(i + 1));
        i = i + 1;
    }
    i == x.len()
}

/// Puts `port` into `sorted` at its place by name.
fn insert_by_name(sorted: &mut Vec<SerialPortInfo>, port: SerialPortInfo)
    ensures
        final(sorted)@ == old(sorted)@.insert(insert_place(old(sorted)@, port), port),
{
    let mut i: usize = sorted.len();
    assert(sorted@.subrange(0, i as int) =~= sorted@);
    while i > 0 && !name_not_after(sorted[i - 1].port_name.as_str(), port.port_name.as_str())
        invariant
            i <= sorted.len(),
            insert_place(sorted@, port) == insert_place(sorted@.subrange(0, i as int), port),
        decreases i,
    {
        assert(sorted@.subrange(0, i as int).drop_last() =~= sorted@.subrange(0, i - 1));
        i = i - 1;
    }
    sorted.insert(i, port);
}

/// The devices that match the filtering criteria, ordered by name.
pub fn filtered_ports(available: Vec<SerialPortInfo>, filter: &PortFilter) -> (r: Result<
    Vec<SerialPortInfo>,
    ProgramError,
>)
    ensures
        match r {
            Ok(ports) => chosen(available@, *filter) == Some(ports@) && ports@.len() > 0,
            Err(e) => chosen(available@, *filter) is None && e is NoPortFound,
        },
{
    let mut available = available;
    let ghost all = available@;
    let mut ports: Vec<SerialPortInfo> = Vec::new();
    let mut k: usize = 0;
    let n = available.len();
    assert(all.subrange(0, 0) =~= Seq::<SerialPortInfo>::empty());
    while k < n
        invariant
            k <= n,
            n == all.len(),
            available@ == all.subrange(k as int, n as int),
            ports@ == matching_by_name(all.subrange(0, k as int), *filter),
        decreases n - k,
    {
        let port = available.remove(0);
        proof {
            assert(all.subrange(0, k + 1).drop_last() =~= all.subrange(0, k as int));
            assert(all.subrange(0, k + 1).last() == port);
            assert(available@ =~= all.subrange(k + 1, n as int));
        }
        if usb_port_matches(&port, filter) {
            insert_by_name(&mut ports, port);
        }
        k = k + 1;
    }
    assert(all.subrange(0, n as int) =~= all);
    match filter.index {
        Some(index) => {
            if index < ports.len() {
                let port = ports.remove(index);
                let mut one: Vec<SerialPortInfo> = Vec::new();
                one.push(port);
                assert(one@ =~= seq![port]);
                Ok(one)
            } else {
                Err(ProgramError::NoPortFound)
            }
        },
        None => {
            if ports.len() == 0 {
                Err(ProgramError::NoPortFound)
            } else {
                Ok(ports)
            }
        },
    }
}

/// The first of the devices that [`chosen`] gives.
pub open spec fn first_chosen(ports: Seq<SerialPortInfo>, filter: PortFilter) -> Option<
    SerialPortInfo,
> {
    match chosen(ports, filter) {
        Some(found) => Some(found[0]),
        None => None,
    }
}

/// The first device which matches the filtering criteria.
pub fn filtered_port(available: Vec<SerialPortInfo>, filter: &PortFilter) -> (r: Result<
    SerialPortInfo,
    ProgramError,
>)
    ensures
        match r {
            Ok(port) => first_chosen(available@, *filter) == Some(port),
            Err(e) => first_chosen(available@, *filter) is None && e is NoPortFound,
        },
{
    match filtered_ports(available, filter) {
        Ok(ports) => {
            let mut ports = ports;
            Ok(ports.remove(0))
        },
        Err(e) => Err(e),
    }
}

/// Returns the name of the first device which matches the filtering
/// criteria.
pub fn find_port(available: Vec<SerialPortInfo>, filter: &PortFilter) -> (r: Result<
    String,
    ProgramError,
>)
    ensures
        match r {
            Ok(name) => first_chosen(available@, *filter) matches Some(port) && name
                == port.port_name,
            Err(e) => first_chosen(available@, *filter) is None && e is NoPortFound,
        },
{
    match filtered_port(available, filter) {
        Ok(port) => Ok(port.port_name),
        Err(e) => Err(e),
    }
}

/// One more thing known of a device, as it is shown: the label, and the
/// value in quotes.
pub open spec fn labelled(label: Seq<char>, value: Seq<char>) -> Seq<char> {
    label + seq![' ', '\''] + value + seq!['\'']
}

/// The item for a value that a device may lack: none where it lacks it.
pub open spec fn item_of(label: Seq<char>, value: Option<String>) -> Seq<Seq<char>> {
    match value {
        Some(v) => seq![labelled(label, v@)],
        None => Seq::empty(),
    }
}

/// What is known of a USB device beyond its IDs, as it is shown: the
/// manufacturer, the serial number and the product name, each where the
/// device has it.
pub open spec fn extra_items(info: UsbPortInfo) -> Seq<Seq<char>> {
    item_of("manufacturer"@, info.manufacturer) + item_of("serial"@, info.serial_number) + item_of(
        "product"@,
        info.product,
    )
}

/// The items with one space between each two.
pub open spec fn joined(items: Seq<Seq<char>>) -> Seq<char>
    decreases items.len(),
{
    if items.len() == 0 {
        Seq::empty()
    } else if items.len() == 1 {
        items[0]
    } else {
        joined(items.drop_last()) + seq![' '] + items.last()
    }
}

/// The USB information of a device as it is shown: a space, the vendor and
/// product IDs in hexadecimal with a colon between them and, where more is
/// known, ` with ` and the items.
pub open spec fn spec_extra_usb_info(info: UsbPortInfo) -> Seq<char> {
    let ids = seq![' '] + hex_word(info.vid) + seq![':'] + hex_word(info.pid);
    if extra_items(info).len() > 0 {
        ids + " with "@ + joined(extra_items(info))
    } else {
        ids
    }
}

/// The characters of each string.
pub open spec fn texts(items: Seq<String>) -> Seq<Seq<char>> {
    items.map_values(|s: String| s@)
}

fn labelled_item(label: &str, value: &str) -> (item: String)
    ensures
        item@ == labelled(label@, value@),
{
    proof {
        reveal_strlit(" '");
        reveal_strlit("'");
    }
    let mut item = String::from_str(label);
    item.append(" '");
    item.append(value);
    item.append("'");
    assert(item@ =~= labelled(label@, value@));
    item
}

fn join_spaced(items: &Vec<String>) -> (text: String)
    ensures
        text@ == joined(texts(items@)),
{
    let mut text = String::new();
    let mut i: usize = 0;
    assert(texts(items@).subrange(0, 0) =~= Seq::<Seq<char>>::empty());
    while i < items.len()
        invariant
            i <= items.len(),
            text@ == joined(texts(items@).subrange(0, i as int)),
        decreases items.len() - i,
    {
        let ghost before = texts(items@).subrange(0, i as int);
        let ghost now = texts(items@).subrange(0, i + 1);
        assert(now.drop_last() =~= before);
        assert(now.last() == items@[i as int]@);
        if i > 0 {
            string_push(&mut text, ' ');
        }
        text.append(items[i].as_str());
        proof {
            if i == 0 {
                assert(text@ =~= now[0]);
            } else {
                assert(text@ =~= joined(before) + seq![' '] + now.last());
            }
        }
        i = i + 1;
    }
    assert(texts(items@).subrange(0, i as int) =~= texts(items@));
    text
}

/// Formats the USB information of a device into a human readable form.
pub fn extra_usb_info(info: &UsbPortInfo) -> (output: String)
    ensures
        output@ == spec_extra_usb_info(*info),
{
    let mut output = String::new();
    string_push(&mut output, ' ');
    output.append(hex4(info.vid).as_str());
    string_push(&mut output, ':');
    output.append(hex4(info.pid).as_str());
    let ghost ids = seq![' '] + hex_word(info.vid) + seq![':'] + hex_word(info.pid);
    assert(output@ =~= ids);
    let mut items: Vec<String> = Vec::new();
    assert(texts(items@) =~= Seq::<Seq<char>>::empty());
    if let Some(manufacturer) = &info.manufacturer {
        items.push(labelled_item("manufacturer", manufacturer.as_str()));
    }
    let ghost one = item_of("manufacturer"@, info.manufacturer);
    assert(texts(items@) =~= one);
    if let Some(serial) = &info.serial_number {
        items.push(labelled_item("serial", serial.as_str()));
    }
    let ghost two = one + item_of("serial"@, info.serial_number);
    assert(texts(items@) =~= two);
    if let Some(product) = &info.product {
        items.push(labelled_item("product", product.as_str()));
    }
    assert(texts(items@) =~= extra_items(*info));
    if items.len() > 0 {
        output.append(" with ");
        output.append(join_spaced(&items).as_str());
    }
    output
}

/// The line that tells of a device.
pub open spec fn port_line(port: SerialPortInfo) -> Seq<char> {
    match port.port_type {
        SerialPortType::UsbPort(info) => "USB Serial Device"@ + spec_extra_usb_info(info)
            + " found @"@ + port.port_name@,
        _ => "Serial Device found @"@ + port.port_name@,
    }
}

fn line_of(port: &SerialPortInfo) -> (line: String)
    ensures
        line@ == port_line(*port),
{
    match &port.port_type {
        SerialPortType::UsbPort(info) => {
            let mut line = String::from_str("USB Serial Device");
            line.append(extra_usb_info(info).as_str());
            line.append(" found @");
            line.append(port.port_name.as_str());
            line
        },
        _ => {
            let mut line = String::from_str("Serial Device found @");
            line.append(port.port_name.as_str());
            line
        },
    }
}

/// Lists all of the serial devices which match the filtering criteria, one
/// line for each.
pub fn list_ports(available: Vec<SerialPortInfo>, filter: &PortFilter) -> (r: Result<
    Vec<String>,
    ProgramError,
>)
    ensures
        match r {
            Ok(lines) => chosen(available@, *filter) matches Some(found) && texts(lines@)
                == found.map_values(|port: SerialPortInfo| port_line(port)),
            Err(e) => chosen(available@, *filter) is None && e is NoPortFound,
        },
{
    match filtered_ports(available, filter) {
        Ok(ports) => {
            let mut lines: Vec<String> = Vec::new();
            let mut i: usize = 0;
            while i < ports.len()
                invariant
                    i <= ports.len(),
                    lines@.len() == i,
                    forall|j: int| 0 <= j < i ==> (#[trigger] lines@[j])@ == port_line(ports@[j]),
                decreases ports.len() - i,
            {
                lines.push(line_of(&ports[i]));
                i = i + 1;
            }
            assert(texts(lines@) =~= ports@.map_values(|port: SerialPortInfo| port_line(port)));
            Ok(lines)
        },
        Err(e) => Err(e),
    }
}

/// `text` with every occurrence of `from` replaced by `to`, found from left
/// to right, none overlapping another.
pub open spec fn replace_all(text: Seq<char>, from: Seq<char>, to: Seq<char>) -> Seq<char>
    decreases text.len(),
{
    if from.len() == 0 || text.len() < from.len() {
        text
    } else if text.subrange(0, from.len() as int) == from {
        to + replace_all(text.subrange(from.len() as int, text.len() as int), from, to)
    } else {
        seq![text[0]] + replace_all(text.drop_first(), from, to)
    }
}

/// True when `text` holds `part` at place `at`.
pub open spec fn holds_at(text: Seq<char>, at: int, part: Seq<char>) -> bool {
    at + part.len() <= text.len() && text.subrange(at, at + part.len()) == part
}

/// The name under which a device that listens for incoming connections
/// (`/dev/tty.`) is opened for outgoing ones (`/dev/cu.`); any other name
/// is kept.
pub open spec fn spec_map_port_name(port_name: Seq<char>) -> Seq<char> {
    if holds_at(port_name, 0, "/dev/tty."@) {
        replace_all(port_name, "/dev/tty."@, "/dev/cu."@)
    } else {
        port_name
    }
}

fn to_chars(text: &str) -> (chars: Vec<char>)
    ensures
        chars@ == text@,
{
    let n = text.unicode_len();
    let mut chars: Vec<char> = Vec::new();
    let mut i: usize = 0;
    while i < n
        invariant
            i <= n,
            n == text@.len(),
            chars@ == text@.subrange(0, i as int),
        decreases n - i,
    {
        chars.push(text.get_char(i));
        assert(chars@ =~= text@.subrange(0, i + 1));
        i = i + 1;
    }
    assert(text@.subrange(0, n as int) =~= text@);
    chars
}

fn chars_hold_at(text: &Vec<char>, at: usize, part: &Vec<char>) -> (r: bool)
    requires
        at <= text.len(),
    ensures
        r == holds_at(text@, at as int, part@),
{
    if part.len() > text.len() - at {
        return false;
    }
    let mut i: usize = 0;
    while i < part.len()
        invariant
            i <= part.len(),
            at + part.len() <= text.len(),
            forall|j: int| 0 <= j < i ==> text@[at + j] == part@[j],
        decreases part.len() - i,
    {
        if text[at + i] != part[i] {
            assert(text@.subrange(at as int, at + part.len())[i as int] != part@[i as int]);
            return false;
        }
        i = i + 1;
    }
    assert(text@.subrange(at as int, at + part.len()) =~= part@);
    true
}

/// Changes a device name of the form `/dev/tty.*` into `/dev/cu.*`. The
/// first kind waits for a carrier before it opens and so suits incoming
/// connections; the second does not wait, and this program makes outgoing
/// connections.
pub fn map_port_name(port_name: &str) -> (mapped: String)
    ensures
        mapped@ == spec_map_port_name(port_name@),
{
    proof {
        reveal_strlit("/dev/tty.");
    }
    let text = to_chars(port_name);
    let from = to_chars("/dev/tty.");
    if !chars_hold_at(&text, 0, &from) {
        return String::from_str(port_name);
    }
    let mut mapped = String::new();
    let mut i: usize = 0;
    assert(text@.skip(0) =~= text@);
    assert(mapped@ + replace_all(text@, from@, "/dev/cu."@) =~= replace_all(
        text@,
        from@,
        "/dev/cu."@,
    ));
    while i < text.len()
        invariant
            i <= text.len(),
            from@.len() == 9,
            mapped@ + replace_all(text@.skip(i as int), from@, "/dev/cu."@) == replace_all(
                text@,
                from@,
                "/dev/cu."@,
            ),
        decreases text.len() - i,
    {
        let ghost rest = text@.skip(i as int);
        let ghost before = mapped@;
        let found = chars_hold_at(&text, i, &from);
        proof {
            assert(rest.len() == text@.len() - i);
            if rest.len() >= 9 {
                assert(rest.subrange(0, 9) =~= text@.subrange(i as int, i + 9));
            }
        }
        if found {
            mapped.append("/dev/cu.");
            proof {
                assert(rest.subrange(9, rest.len() as int) =~= text@.skip(i + 9));
                assert(mapped@ + replace_all(text@.skip(i + 9), from@, "/dev/cu."@) =~= before
                    + replace_all(rest, from@, "/dev/cu."@));
            }
            i = i + from.len();
        } else {
            string_push(&mut mapped, text[i]);
            proof {
                assert(rest.drop_first() =~= text@.skip(i + 1));
                assert(replace_all(rest, from@, "/dev/cu."@) =~= seq![rest[0]] + replace_all(
                    rest.drop_first(),
                    from@,
                    "/dev/cu."@,
                )) by {
                    if rest.len() < 9 {
                        assert(seq![rest[0]] + rest.drop_first() =~= rest);
                    }
                }
                assert(mapped@ + replace_all(text@.skip(i + 1), from@, "/dev/cu."@) =~= before
                    + replace_all(rest, from@, "/dev/cu."@));
            }
            i = i + 1;
        }
    }
    assert(text@.skip(i as int) =~= Seq::<char>::empty());
    assert(mapped@ + Seq::<char>::empty() =~= mapped@);
    mapped
}

} // verus!
