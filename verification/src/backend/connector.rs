//! What a connector reports of itself, and what is read out of it: its name, whether
//! it drives a desktop at all, and the mode to start it with.
use crate::search::first_where;
use crate::search::lemma_first_found;
use crate::search::lemma_first_missing;
use crate::search::lemma_first_where;
use crate::text::decimal;
use crate::text::decimal_text;
use crate::text::law_numeral_reads_back;
use crate::text::lemma_decimal_digits;
use crate::text::lemma_decimal_injective;
use crate::text::reads_as;
use vstd::prelude::*;

verus! {

/// A display mode: its size in pixels and its refresh rate in millihertz.
#[derive(Clone, Copy, PartialEq, Eq, Structural, Debug)]
pub struct Mode {
    pub width: i32,
    pub height: i32,
    pub refresh: i32,
}

/// How the kernel describes a mode: the visible size, the pixel clock in kilohertz, the
/// pixels of a whole line and the lines of a whole frame, how often each line is scanned, and
/// flag bits.
#[derive(Clone, Copy, PartialEq, Eq, Structural, Debug)]
pub struct Timings {
    pub width: u16,
    pub height: u16,
    pub clock: u32,
    pub htotal: u16,
    pub vtotal: u16,
    pub vscan: u16,
    pub flags: u32,
}

/// A mode that a connector supports, with the kernel's type bits of it.
#[derive(Clone, Copy, PartialEq, Eq, Structural, Debug)]
pub struct ConnectorMode {
    pub timings: Timings,
    pub mode_type: u32,
}

/// How the value of a property is to be read.
#[derive(Clone, Copy, PartialEq, Eq, Structural, Debug)]
pub enum PropertyKind {
    Boolean,
    Other,
}

/// The description of a property. The name is absent where it is not valid UTF-8.
#[derive(Debug)]
pub struct PropertyInfo {
    pub name: Option<String>,
    pub kind: PropertyKind,
}

/// A property of a connector: its raw value, and its description where it could be read.
#[derive(Debug)]
pub struct Property {
    pub info: Option<PropertyInfo>,
    pub value: u64,
}

/// What the display behind a connector says of itself.
#[derive(Debug)]
pub struct DisplayInfo {
    pub make: Option<String>,
    pub model: Option<String>,
    pub serial: Option<String>,
}

/// A connector as a scan of its device reports it.
#[derive(Debug)]
pub struct ConnectorInfo {
    pub handle: u32,
    pub interface: u32,
    pub interface_id: u32,
    pub size: Option<(u32, u32)>,
    pub modes: Vec<ConnectorMode>,
    pub properties: Option<Vec<Property>>,
    pub display: Option<DisplayInfo>,
}

/// The model of a [`Property`].
pub struct PropertyView {
    pub readable: bool,
    pub name: Option<Seq<char>>,
    pub kind: PropertyKind,
    pub value: u64,
}

/// The model of a [`DisplayInfo`].
pub struct DisplayView {
    pub make: Option<Seq<char>>,
    pub model: Option<Seq<char>>,
    pub serial: Option<Seq<char>>,
}

/// The model of a [`ConnectorInfo`].
pub struct ConnectorView {
    pub handle: u32,
    pub interface: u32,
    pub interface_id: u32,
    pub size: Option<(u32, u32)>,
    pub modes: Seq<ConnectorMode>,
    pub properties: Option<Seq<PropertyView>>,
    pub display: Option<DisplayView>,
}

/// The characters of a text that may be absent.
pub open spec fn text_view(s: Option<String>) -> Option<Seq<char>> {
    match s {
        Some(t) => Some(t@),
        None => None,
    }
}

impl View for Property {
    type V = PropertyView;

    open spec fn view(&self) -> PropertyView {
        match self.info {
            Some(info) => PropertyView {
                readable: true,
                name: text_view(info.name),
                kind: info.kind,
                value: self.value,
            },
            None => PropertyView {
                readable: false,
                name: None,
                kind: PropertyKind::Other,
                value: self.value,
            },
        }
    }
}

impl View for DisplayInfo {
    type V = DisplayView;

    open spec fn view(&self) -> DisplayView {
        DisplayView {
            make: text_view(self.make),
            model: text_view(self.model),
            serial: text_view(self.serial),
        }
    }
}

impl View for ConnectorInfo {
    type V = ConnectorView;

    open spec fn view(&self) -> ConnectorView {
        ConnectorView {
            handle: self.handle,
            interface: self.interface,
            interface_id: self.interface_id,
            size: self.size,
            modes: self.modes@,
            properties: match self.properties {
                Some(ps) => Some(ps@.map_values(|p: Property| p@)),
                None => None,
            },
            display: match self.display {
                Some(d) => Some(d@),
                None => None,
            },
        }
    }
}

/// The name of the connector type that the kernel numbers `kind`.
pub open spec fn interface_name(kind: u32) -> Seq<char> {
    match kind {
        1 => "VGA"@,
        2 => "DVI-I"@,
        3 => "DVI-D"@,
        4 => "DVI-A"@,
        5 => "Composite"@,
        6 => "SVIDEO"@,
        7 => "LVDS"@,
        8 => "Component"@,
        9 => "DIN"@,
        10 => "DP"@,
        11 => "HDMI-A"@,
        12 => "HDMI-B"@,
        13 => "TV"@,
        14 => "eDP"@,
        15 => "Virtual"@,
        16 => "DSI"@,
        17 => "DPI"@,
        18 => "Writeback"@,
        19 => "SPI"@,
        20 => "USB"@,
        _ => "Unknown"@,
    }
}

/// `drm::control::connector::Interface::as_str`, on the interface that `Interface::from`
/// makes of the kernel's number. The contract lists the name that it gives to each
/// number; every number without a type of its own is "Unknown".
#[verifier::external_body]
fn interface_text(kind: u32) -> (r: &'static str)
    ensures
        r@ == interface_name(kind),
{
    drm::control::connector::Interface::from(kind).as_str()
}

/// `drm::control::ModeTypeFlags::contains`, asked for `PREFERRED` on the flags that
/// `from_bits_truncate` makes of the raw bits. The contract says that the answer is the
/// bit of value 8.
#[verifier::external_body]
fn mode_type_preferred(bits: u32) -> (r: bool)
    ensures
        r == (bits & 8 == 8),
{
    drm::control::ModeTypeFlags::from_bits_truncate(bits).contains(
        drm::control::ModeTypeFlags::PREFERRED,
    )
}

/// `drm::control::ModeFlags::contains`, asked for `INTERLACE` and for `DBLSCAN` on the flags
/// that `from_bits_truncate` makes of the raw bits. The contract says that the answers are
/// the bits of value 16 and of value 32.
#[verifier::external_body]
fn scan_flags(bits: u32) -> (r: (bool, bool))
    ensures
        r.0 == (bits & 16 == 16),
        r.1 == (bits & 32 == 32),
{
    let flags = drm::control::ModeFlags::from_bits_truncate(bits);
    (
        flags.contains(drm::control::ModeFlags::INTERLACE),
        flags.contains(drm::control::ModeFlags::DBLSCAN),
    )
}

/// `drm::control::property::Value::as_boolean`, on what `ValueType::convert_value` makes of a
/// raw value for `ValueType::Boolean`. The contract says that every value but zero is true.
#[verifier::external_body]
fn boolean_value(value: u64) -> (r: Option<bool>)
    ensures
        r == Some(value != 0),
{
    drm::control::property::ValueType::Boolean.convert_value(value).as_boolean()
}

/// The name of a connector: its type and its number among the connectors of that type.
pub open spec fn connector_name_of(interface: u32, interface_id: u32) -> Seq<char> {
    interface_name(interface) + "-"@ + decimal(interface_id as nat)
}

/// Names a connector, as in `HDMI-A-1`.
pub fn connector_name(interface: u32, interface_id: u32) -> (r: String)
    ensures
        r@ == connector_name_of(interface, interface_id),
{
    let mut r = interface_text(interface).to_owned();
    r.append("-");
    let id = decimal_text(interface_id);
    r.append(id.as_str());
    r
}

/// The property says whether its connector drives something else than a desktop.
pub open spec fn says_non_desktop() -> spec_fn(PropertyView) -> bool {
    |p: PropertyView| p.readable && p.name == Some("non-desktop"@)
}

/// The connector is marked as driving something else than a desktop (a headset, say): the
/// first readable property of that name is a boolean and is set.
pub open spec fn is_non_desktop(properties: Option<Seq<PropertyView>>) -> bool {
    match properties {
        Some(ps) => match first_where(ps, says_non_desktop()) {
            Some(i) => ps[i].kind == PropertyKind::Boolean && ps[i].value != 0,
            None => false,
        },
        None => false,
    }
}

fn names_non_desktop(p: &Property) -> (r: bool)
    ensures
        r == says_non_desktop()(p@),
{
    match &p.info {
        Some(info) => match &info.name {
            Some(name) => *name == "non-desktop".to_owned(),
            None => false,
        },
        None => false,
    }
}

/// Decides whether a connector drives something else than a desktop.
pub fn non_desktop(connector: &ConnectorInfo) -> (r: bool)
    ensures
        r == is_non_desktop(connector@.properties),
{
    let properties = match &connector.properties {
        Some(properties) => properties,
        None => return false,
    };
    let ghost ps = properties@.map_values(|p: Property| p@);
    let ghost wanted = says_non_desktop();
    let mut i: usize = 0;
    while i < properties.len()
        invariant
            i <= properties.len(),
            ps == properties@.map_values(|p: Property| p@),
            wanted == says_non_desktop(),
            connector@.properties == Some(ps),
            forall|j: int| 0 <= j < i ==> !wanted(#[trigger] ps[j]),
        decreases properties.len() - i,
    {
        let property = &properties[i];
        assert(ps[i as int] == property@);
        if names_non_desktop(property) {
            proof {
                lemma_first_found(ps, wanted, i as int);
            }
            let kind = match &property.info {
                Some(info) => info.kind,
                None => PropertyKind::Other,
            };
            return match kind {
                PropertyKind::Boolean => boolean_value(property.value).unwrap_or(false),
                PropertyKind::Other => false,
            };
        }
        i += 1;
    }
    proof {
        lemma_first_missing(ps, wanted);
    }
    false
}

/// Lines have pixels and frames have lines.
pub open spec fn has_frames(t: Timings) -> bool {
    t.htotal > 0 && t.vtotal > 0
}

/// How often a whole frame passes at the pixel clock, in millihertz, rounded.
pub open spec fn frame_rate(t: Timings) -> int {
    (t.clock * 1_000_000 / (t.htotal as int) + t.vtotal as int / 2) / (t.vtotal as int)
}

/// The refresh rate in millihertz: an interlaced frame counts twice, and a frame whose lines
/// are scanned more than once counts for that much less.
pub open spec fn refresh_of(t: Timings) -> int {
    let fields = if t.flags & 16 == 16 {
        frame_rate(t) * 2
    } else {
        frame_rate(t)
    };
    let scans = if t.flags & 32 == 32 {
        fields / 2
    } else {
        fields
    };
    if t.vscan > 1 {
        scans / (t.vscan as int)
    } else {
        scans
    }
}

/// The mode that the kernel describes like this.
pub open spec fn mode_of(t: Timings) -> Mode {
    Mode { width: t.width as i32, height: t.height as i32, refresh: (refresh_of(t) as u64) as i32 }
}

/// Works out a mode from the kernel's description of it.
pub fn mode_from(timings: Timings) -> (r: Mode)
    requires
        has_frames(timings),
    ensures
        r == mode_of(timings),
{
    let clock: u64 = timings.clock as u64;
    let htotal: u64 = timings.htotal as u64;
    let vtotal: u64 = timings.vtotal as u64;
    proof {
        let lines = clock * 1_000_000 / htotal as int;
        assert(0 <= lines <= clock * 1_000_000) by (nonlinear_arith)
            requires
                htotal > 0,
                lines == clock * 1_000_000 / htotal as int,
        ;
        let sum = lines + vtotal / 2;
        assert(0 <= sum / (vtotal as int) <= sum) by (nonlinear_arith)
            requires
                vtotal > 0,
                sum >= 0,
        ;
    }
    let mut refresh: u64 = (clock * 1_000_000 / htotal + vtotal / 2) / vtotal;
    let (interlaced, doubled) = scan_flags(timings.flags);
    if interlaced {
        refresh = refresh * 2;
    }
    if doubled {
        refresh = refresh / 2;
    }
    if timings.vscan > 1 {
        refresh = refresh / (timings.vscan as u64);
    }
    Mode {
        width: timings.width as i32,
        height: timings.height as i32,
        refresh: #[verifier::truncate] (refresh as i32),
    }
}

/// The mode is marked as the display's preferred one.
pub open spec fn is_preferred() -> spec_fn(ConnectorMode) -> bool {
    |m: ConnectorMode| m.mode_type & 8 == 8
}

/// The index of the mode to start a connector with: the first preferred one, else the first.
pub open spec fn initial_mode_of(modes: Seq<ConnectorMode>) -> int {
    match first_where(modes, is_preferred()) {
        Some(i) => i,
        None => 0,
    }
}

/// Picks the mode to start a connector with.
pub fn initial_mode(modes: &Vec<ConnectorMode>) -> (r: usize)
    ensures
        r == initial_mode_of(modes@),
        modes@.len() > 0 ==> r < modes@.len(),
{
    let ghost wanted = is_preferred();
    let mut i: usize = 0;
    while i < modes.len()
        invariant
            i <= modes.len(),
            wanted == is_preferred(),
            forall|j: int| 0 <= j < i ==> !wanted(#[trigger] modes@[j]),
        decreases modes.len() - i,
    {
        if mode_type_preferred(modes[i].mode_type) {
            proof {
                lemma_first_found(modes@, wanted, i as int);
            }
            return i;
        }
        i += 1;
    }
    proof {
        lemma_first_missing(modes@, wanted);
    }
    0
}

/// The kernel's number stands for a connector type with a name of its own.
pub open spec fn has_type_name(kind: u32) -> bool {
    1 <= kind <= 20
}

proof fn lemma_interface_names()
    ensures
        forall|a: u32, b: u32|
            has_type_name(a) && #[trigger] interface_name(a) == #[trigger] interface_name(b) ==> a
                == b,
{
    reveal_strlit("VGA");
    reveal_strlit("DVI-I");
    reveal_strlit("DVI-D");
    reveal_strlit("DVI-A");
    reveal_strlit("Composite");
    reveal_strlit("SVIDEO");
    reveal_strlit("LVDS");
    reveal_strlit("Component");
    reveal_strlit("DIN");
    reveal_strlit("DP");
    reveal_strlit("HDMI-A");
    reveal_strlit("HDMI-B");
    reveal_strlit("TV");
    reveal_strlit("eDP");
    reveal_strlit("Virtual");
    reveal_strlit("DSI");
    reveal_strlit("DPI");
    reveal_strlit("Writeback");
    reveal_strlit("SPI");
    reveal_strlit("USB");
    reveal_strlit("Unknown");
    assert forall|a: u32, b: u32|
        has_type_name(a) && #[trigger] interface_name(a) == #[trigger] interface_name(b) implies a
        == b by {
        let x = interface_name(a);
        let y = interface_name(b);
        assert(x.len() == y.len());
        assert(x[0] == y[0]);
        assert(x[1] == y[1]);
        assert(x[2] == y[2]);
        assert(x[3] == y[3]);
        assert(x[4] == y[4]);
        assert(x[5] == y[5]);
        assert(x[6] == y[6]);
    }
}

/// Two connectors have the same name only where they are of the same type, as far as the
/// types have names, and have the same number within it.
pub proof fn law_connector_names_tell_apart(type_a: u32, id_a: u32, type_b: u32, id_b: u32)
    requires
        connector_name_of(type_a, id_a) == connector_name_of(type_b, id_b),
    ensures
        id_a == id_b,
        type_a == type_b || !has_type_name(type_a) && !has_type_name(type_b),
{
    reveal_strlit("-");
    let name = connector_name_of(type_a, id_a);
    let x = interface_name(type_a);
    let y = interface_name(type_b);
    let dec_a = decimal(id_a as nat);
    let dec_b = decimal(id_b as nat);
    lemma_decimal_digits(id_a as nat);
    lemma_decimal_digits(id_b as nat);
    let dash = "-"@;
    assert(name == x + dash + dec_a);
    assert(name == y + dash + dec_b);
    assert(name.len() == x.len() + 1 + dec_a.len());
    assert(name.len() == y.len() + 1 + dec_b.len());
    assert((x + dash + dec_a)[x.len() as int] == dash[0]);
    assert((y + dash + dec_b)[y.len() as int] == dash[0]);
    if x.len() < y.len() {
        assert((x + dash + dec_a)[y.len() as int] == dec_a[y.len() - x.len() - 1]);
    } else if y.len() < x.len() {
        assert((y + dash + dec_b)[x.len() as int] == dec_b[x.len() - y.len() - 1]);
    }
    assert(x.len() == y.len());
    assert(x =~= name.take(x.len() as int));
    assert(y =~= name.take(x.len() as int));
    assert(dec_a =~= name.skip(x.len() as int + 1));
    assert(dec_b =~= name.skip(x.len() as int + 1));
    lemma_decimal_injective(id_a as nat, id_b as nat);
    lemma_interface_names();
}

/// A connector starts with one of its modes: with the first that is marked as preferred, and
/// where none is, with the first of all.
pub proof fn law_initial_mode_is_preferred(modes: Seq<ConnectorMode>)
    requires
        modes.len() > 0,
    ensures
        ({
            let k = initial_mode_of(modes);
            &&& 0 <= k < modes.len()
            &&& forall|j: int| 0 <= j < k ==> (#[trigger] modes[j]).mode_type & 8 != 8
            &&& modes[k].mode_type & 8 == 8 || k == 0 && forall|j: int|
                0 <= j < modes.len() ==> (#[trigger] modes[j]).mode_type & 8 != 8
        }),
{
    let wanted = is_preferred();
    lemma_first_where(modes, wanted);
    match first_where(modes, wanted) {
        Some(k) => {
            assert forall|j: int| 0 <= j < k implies (#[trigger] modes[j]).mode_type & 8 != 8 by {
                assert(!wanted(modes[j]));
            }
        },
        None => {
            assert forall|j: int| 0 <= j < modes.len() implies (#[trigger] modes[j]).mode_type & 8
                != 8 by {
                assert(!wanted(modes[j]));
            }
        },
    }
}

/// The first readable property of the name `non-desktop` decides whether a connector drives
/// something else than a desktop: it does where that property is a boolean and is set.
pub proof fn law_non_desktop_is_marked(properties: Seq<PropertyView>, i: int)
    requires
        0 <= i < properties.len(),
        properties[i].readable,
        properties[i].name == Some("non-desktop"@),
        forall|j: int|
            0 <= j < i ==> !((#[trigger] properties[j]).readable && properties[j].name == Some(
                "non-desktop"@,
            )),
    ensures
        is_non_desktop(Some(properties)) <==> properties[i].kind == PropertyKind::Boolean
            && properties[i].value != 0,
{
    lemma_first_found(properties, says_non_desktop(), i);
}

/// Without a readable property of the name `non-desktop`, a connector drives a desktop.
pub proof fn law_unmarked_connector_is_a_desktop(properties: Seq<PropertyView>)
    requires
        forall|j: int|
            0 <= j < properties.len() ==> !((#[trigger] properties[j]).readable
                && properties[j].name == Some("non-desktop"@)),
    ensures
        !is_non_desktop(Some(properties)),
        !is_non_desktop(None),
{
    lemma_first_missing(properties, says_non_desktop());
}

/// The rate of frames is the rounded quotient of the pixels that pass in a million seconds
/// and the pixels of a frame: this many whole frames fit, but for half a frame's lines, and
/// one more does not.
pub proof fn law_frame_rate_is_pixels_over_frame(t: Timings)
    requires
        has_frames(t),
    ensures
        ({
            let r = frame_rate(t);
            let pixels = t.clock * 1_000_000;
            let half = t.vtotal as int / 2;
            &&& r >= 0
            &&& (r * t.vtotal - half) * t.htotal <= pixels
            &&& pixels < ((r + 1) * t.vtotal - half) * t.htotal
        }),
{
    let pixels = t.clock * 1_000_000;
    let h = t.htotal as int;
    let v = t.vtotal as int;
    let half = v / 2;
    let lines = pixels / h;
    let r = frame_rate(t);
    assert(lines >= 0 && lines * h <= pixels && pixels < (lines + 1) * h) by (nonlinear_arith)
        requires
            h > 0,
            pixels >= 0,
            lines == pixels / h,
    ;
    assert(r >= 0 && r * v <= lines + half && lines + half < (r + 1) * v) by (nonlinear_arith)
        requires
            v > 0,
            lines + half >= 0,
            r == (lines + half) / v,
    ;
    assert((r * v - half) * h <= lines * h) by (nonlinear_arith)
        requires
            r * v - half <= lines,
            h > 0,
    ;
    assert((lines + 1) * h <= ((r + 1) * v - half) * h) by (nonlinear_arith)
        requires
            lines + 1 <= (r + 1) * v - half,
            h > 0,
    ;
}

/// A mode is as large as the kernel says, and has the refresh rate of its timings, as far as
/// that fits.
pub proof fn law_mode_is_as_timed(t: Timings)
    ensures
        mode_of(t).width == t.width,
        mode_of(t).height == t.height,
        0 <= refresh_of(t) <= i32::MAX ==> mode_of(t).refresh == refresh_of(t),
        0 <= refresh_of(t) <= u64::MAX ==> mode_of(t).refresh as u32 == refresh_of(t) % 0x1_0000_0000,
{
    let r = refresh_of(t) as u64;
    assert((r as i32) as u32 == r % 0x1_0000_0000) by (bit_vector);
}

/// The plain timings show whole frames; with interlacing there are twice as many.
pub proof fn law_interlaced_frames_count_twice(t: Timings, plain: Timings)
    requires
        plain == (Timings { flags: plain.flags, ..t }),
        t.flags & 16 == 16,
        plain.flags & 16 != 16,
        t.flags & 32 != 32,
        plain.flags & 32 != 32,
        t.vscan <= 1,
    ensures
        refresh_of(plain) == frame_rate(t),
        refresh_of(t) == 2 * refresh_of(plain),
{
}

/// Lines that are scanned twice halve the rate, and an odd one out is lost.
pub proof fn law_double_scan_halves(t: Timings, single: Timings)
    requires
        single == (Timings { flags: single.flags, ..t }),
        t.flags & 32 == 32,
        single.flags & 32 != 32,
        t.flags & 16 == 16 <==> single.flags & 16 == 16,
        t.vscan <= 1,
    ensures
        2 * refresh_of(t) <= refresh_of(single) <= 2 * refresh_of(t) + 1,
{
}

/// Scanning each line several times divides the rate by as much, rounding down; scanning it
/// once, or not saying how often, does not change it.
pub proof fn law_repeated_lines_divide(t: Timings, single: Timings)
    requires
        single == (Timings { vscan: 1, ..t }),
        has_frames(t),
    ensures
        t.vscan <= 1 ==> refresh_of(t) == refresh_of(single),
        t.vscan > 1 ==> refresh_of(t) * t.vscan <= refresh_of(single) < (refresh_of(t) + 1) * t.vscan,
{
    if t.vscan > 1 {
        law_frame_rate_is_pixels_over_frame(t);
        let all = refresh_of(single);
        let n = t.vscan as int;
        let r = refresh_of(t);
        assert(frame_rate(single) == frame_rate(t));
        assert(all >= 0);
        assert(r == all / n);
        assert(r * n <= all && all < (r + 1) * n) by (nonlinear_arith)
            requires
                n > 1,
                all >= 0,
                r == all / n,
        ;
    }
}

/// A connector's name is the name of its type, a dash, and a numeral that reads as its
/// number.
pub proof fn law_connector_name_spells_type_and_number(interface: u32, interface_id: u32)
    ensures
        ({
            let name = connector_name_of(interface, interface_id);
            let n = interface_name(interface).len() as int;
            &&& name.len() > n + 1
            &&& name.take(n) == interface_name(interface)
            &&& name[n] == '-'
            &&& reads_as(name.skip(n + 1)) == interface_id
            &&& name.skip(n + 1).len() > 1 ==> name[n + 1] != '0'
        }),
{
    reveal_strlit("-");
    let kind = interface_name(interface);
    let n = kind.len() as int;
    let number = decimal(interface_id as nat);
    let name = connector_name_of(interface, interface_id);
    lemma_decimal_digits(interface_id as nat);
    law_numeral_reads_back(interface_id as nat);
    assert(name.take(n) =~= kind);
    assert(name.skip(n + 1) =~= number);
}

/// The model of a connector has every part of it, and its properties in their order.
pub proof fn law_connector_model_is_complete(c: ConnectorInfo, i: int)
    ensures
        c@.handle == c.handle,
        c@.interface == c.interface,
        c@.interface_id == c.interface_id,
        c@.size == c.size,
        c@.modes == c.modes@,
        c@.display is None <==> c.display is None,
        c.display matches Some(d) ==> {
            &&& c@.display matches Some(v)
            &&& v.make == text_view(d.make)
            &&& v.model == text_view(d.model)
            &&& v.serial == text_view(d.serial)
        },
        c@.properties is None <==> c.properties is None,
        c.properties matches Some(ps) ==> {
            &&& c@.properties matches Some(vs)
            &&& vs.len() == ps@.len()
            &&& 0 <= i < ps@.len() ==> {
                &&& vs[i].value == ps@[i].value
                &&& vs[i].readable <==> ps@[i].info is Some
                &&& ps@[i].info matches Some(info) ==> vs[i].kind == info.kind && vs[i].name
                    == text_view(info.name)
            }
        },
{
}

/// A text that is there is shown with all its characters.
pub proof fn law_texts_are_shown(s: String)
    ensures
        text_view(Some(s)) == Some(s@),
        text_view(None) is None,
{
}

} // verus!
