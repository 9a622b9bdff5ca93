//! Telling devices and their failures apart by what they say of themselves.

use vstd::prelude::*;
use vstd::string::*;

use crate::text::{contains_text, decimal, occurs_in, same_text, spec_decimal};
use crate::transport::TransportError;

verus! {

/// Vendor of every RTL2832U dongle, including the Blog V4.
pub const VID: u16 = 0x0BDA;

/// Product of every RTL2832U dongle, including the Blog V4.
pub const PID: u16 = 0x2838;

/// Whether a vendor and product are those of an RTL2832U dongle.
pub fn is_rtl2832u(vendor: u16, product: u16) -> (matches: bool)
    ensures
        matches == (vendor == VID && product == PID),
{
    vendor == VID && product == PID
}

/// What was found on the bus, before anything is opened.
#[derive(Debug, Clone)]
pub struct Found {
    pub manufacturer: Option<String>,
    pub product: Option<String>,
    pub serial: Option<String>,
    pub bus: u8,
    pub address: u8,
}

/// Whether an optional text is there and is this one.
pub open spec fn says(text: Option<String>, words: Seq<char>) -> bool {
    text matches Some(t) && t@ == words
}

fn text_is(text: &Option<String>, words: &str) -> (same: bool)
    ensures
        same == says(*text, words@),
{
    match text {
        Some(t) => same_text(t.as_str(), words),
        None => false,
    }
}

impl Found {
    /// Whether the descriptors identify this as a Blog V4.
    ///
    /// The only way to tell a V4 from any other RTL2832U board: the identifiers are shared,
    /// and the difference that matters, the tuner's reference clock, is not discoverable over
    /// the bus.
    pub fn is_v4(&self) -> (v4: bool)
        ensures
            v4 == (says(self.manufacturer, "RTLSDRBlog"@) && says(self.product, "Blog V4"@)),
    {
        text_is(&self.manufacturer, "RTLSDRBlog") && text_is(&self.product, "Blog V4")
    }
}

/// A text, or the word for its absence.
pub open spec fn shown_or_none(text: Option<String>) -> Seq<char> {
    match text {
        Some(t) => t@,
        None => "(none)"@,
    }
}

/// A label with a text, or with the word for its absence.
fn labelled(label: &str, text: &Option<String>) -> (line: String)
    ensures
        line@ == label@ + shown_or_none(*text),
{
    match text {
        Some(t) => label.to_owned().concat(t.as_str()),
        None => label.to_owned().concat("(none)"),
    }
}

/// The lines that describe a device.
pub open spec fn description(found: Found) -> Seq<Seq<char>> {
    let v4 = says(found.manufacturer, "RTLSDRBlog"@) && says(found.product, "Blog V4"@);
    seq![
        "bus "@ + spec_decimal(found.bus as nat) + " address "@ + spec_decimal(
            found.address as nat,
        ),
        "  manufacturer  "@ + shown_or_none(found.manufacturer),
        "  product       "@ + shown_or_none(found.product),
        "  serial        "@ + shown_or_none(found.serial),
        if v4 {
            "  identified as RTL-SDR Blog V4 (tuner clocked at 28.8 MHz)"@
        } else {
            "  identified as a generic RTL2832U board (tuner assumed at 16 MHz)"@
        },
    ]
}

impl Found {
    /// The lines that describe this device.
    pub fn describe(&self) -> (lines: Vec<String>)
        ensures
            lines@.map_values(|line: String| line@) == description(*self),
    {
        let bus = decimal(self.bus as u64);
        let address = decimal(self.address as u64);
        let mut lines: Vec<String> = Vec::new();
        lines.push(
            "bus ".to_owned().concat(bus.as_str()).concat(" address ").concat(address.as_str()),
        );
        lines.push(labelled("  manufacturer  ", &self.manufacturer));
        lines.push(labelled("  product       ", &self.product));
        lines.push(labelled("  serial        ", &self.serial));
        if self.is_v4() {
            lines.push("  identified as RTL-SDR Blog V4 (tuner clocked at 28.8 MHz)".to_owned());
        } else {
            lines.push(
                "  identified as a generic RTL2832U board (tuner assumed at 16 MHz)".to_owned(),
            );
        }
        assert(lines@.map_values(|line: String| line@) =~= description(*self));
        lines
    }
}

/// Sorts a failure by what the host says of it.
///
/// Disconnection has to be distinguishable, because it is the one failure the pipeline should
/// stop for rather than retry through.
pub fn classify_failure(context: &str, detail: &str) -> (failure: TransportError)
    ensures
        match failure {
            TransportError::Disconnected => occurs_in("device was disconnected"@, detail@)
                || occurs_in("No device selected"@, detail@),
            TransportError::Stalled => !occurs_in("device was disconnected"@, detail@)
                && !occurs_in("No device selected"@, detail@) && occurs_in("stall"@, detail@),
            TransportError::Io(text) => !occurs_in("device was disconnected"@, detail@)
                && !occurs_in("No device selected"@, detail@) && !occurs_in("stall"@, detail@)
                && text@ == context@ + ": "@ + detail@,
        },
{
    if contains_text(detail, "device was disconnected") || contains_text(
        detail,
        "No device selected",
    ) {
        TransportError::Disconnected
    } else if contains_text(detail, "stall") {
        TransportError::Stalled
    } else {
        TransportError::Io(context.to_owned().concat(": ").concat(detail))
    }
}

/// Dongles are known by the vendor Realtek's number and one product of its.
pub proof fn dongles_are_known_by_their_numbers()
    ensures
        VID == 0x0BDA,
        PID == 0x2838,
{
}

/// A description names what was found: where it is, the three texts that the device gives of
/// itself, each in a line of its own, and last which board it is taken for. Two boards are
/// described alike in that line exactly when both are a V4 or neither is.
pub proof fn descriptions_name_what_was_found(found: Found, other: Found)
    ensures
        ({
            let v4 = says(found.manufacturer, "RTLSDRBlog"@) && says(found.product, "Blog V4"@);
            let other_v4 = says(other.manufacturer, "RTLSDRBlog"@) && says(
                other.product,
                "Blog V4"@,
            );
            let lines = description(found);
            &&& lines.len() == 5
            &&& occurs_in(spec_decimal(found.bus as nat), lines[0])
            &&& occurs_in(spec_decimal(found.address as nat), lines[0])
            &&& found.manufacturer matches Some(text) ==> occurs_in(text@, lines[1])
            &&& found.product matches Some(text) ==> occurs_in(text@, lines[2])
            &&& found.serial matches Some(text) ==> occurs_in(text@, lines[3])
            &&& lines[4] == description(other)[4] <==> v4 == other_v4
            &&& occurs_in("28.8 MHz"@, lines[4]) <==> v4
        }),
{
    let lines = description(found);
    let bus = spec_decimal(found.bus as nat);
    let address = spec_decimal(found.address as nat);
    stands_in("bus "@, bus, " address "@ + address);
    assert("bus "@ + bus + " address "@ + address =~= "bus "@ + bus + (" address "@ + address));
    stands_in("bus "@ + bus + " address "@, address, seq![]);
    assert("bus "@ + bus + " address "@ + address + seq![] =~= lines[0]);
    if let Some(text) = found.manufacturer {
        stands_in("  manufacturer  "@, text@, seq![]);
        assert("  manufacturer  "@ + text@ + seq![] =~= lines[1]);
    }
    if let Some(text) = found.product {
        stands_in("  product       "@, text@, seq![]);
        assert("  product       "@ + text@ + seq![] =~= lines[2]);
    }
    if let Some(text) = found.serial {
        stands_in("  serial        "@, text@, seq![]);
        assert("  serial        "@ + text@ + seq![] =~= lines[3]);
    }
    reveal_strlit("  identified as RTL-SDR Blog V4 (tuner clocked at 28.8 MHz)");
    reveal_strlit("  identified as a generic RTL2832U board (tuner assumed at 16 MHz)");
    reveal_strlit("28.8 MHz");
    let blog = "  identified as RTL-SDR Blog V4 (tuner clocked at 28.8 MHz)"@;
    let generic = "  identified as a generic RTL2832U board (tuner assumed at 16 MHz)"@;
    assert(blog.len() != generic.len());
    assert(blog.subrange(50, 50int + "28.8 MHz"@.len()) =~= "28.8 MHz"@);
    assert(occurs_in("28.8 MHz"@, blog));
    if occurs_in("28.8 MHz"@, generic) {
        let at = choose|at: int|
            0 <= at && at + "28.8 MHz"@.len() <= generic.len() && #[trigger] generic.subrange(
                at,
                at + "28.8 MHz"@.len(),
            ) == "28.8 MHz"@;
        let part = generic.subrange(at, at + "28.8 MHz"@.len());
        assert(part[0] == '2' && part[1] == '8' && part[2] == '.');
        assert(generic[at] == '2' && generic[at + 1] == '8' && generic[at + 2] == '.');
        assert(false);
    }
    assert(!occurs_in("28.8 MHz"@, generic));
}

proof fn stands_in(before: Seq<char>, text: Seq<char>, after: Seq<char>)
    ensures
        occurs_in(text, before + text + after),
{
    let whole = before + text + after;
    let at = before.len() as int;
    assert(whole.subrange(at, at + text.len()) =~= text);
}

} // verus!
