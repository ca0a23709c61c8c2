//! What can go wrong, with the stable code and the message of each failure.

use vstd::prelude::*;

use crate::text;

verus! {

/// Every failure of the library and of the work around it.
#[derive(Debug)]
pub enum Error {
    PortalDenied,
    PortalUnavailable(String),
    InvalidSpec(String),
    InvalidColor(String),
    /// The index that was asked for, and how many monitors there are.
    MonitorNotFound(usize, usize),
    WaylandUnavailable(String),
    /// The region (x, y, w, h), and the size of the image.
    RegionOutOfBounds(i32, i32, u32, u32, u32, u32),
    Image(String),
    Clipboard(String),
    Record(String),
    /// The message of an input or output failure.
    Io(String),
}

pub type Result<T> = std::result::Result<T, Error>;

/// What `Debug` prints for a string: quoted, with escapes.
pub uninterp spec fn quoted(s: Seq<char>) -> Seq<char>;

/// The standard library's `Debug` formatting of a string. Its result depends
/// on the characters of the string alone; which escapes it takes is not
/// stated.
#[verifier::external_body]
pub(crate) fn debug_text(s: &str) -> (r: String)
    ensures
        r@ == quoted(s@),
{
    format!("{:?}", s)
}

/// A signed number in decimal.
pub open spec fn signed_decimal(n: int) -> Seq<char> {
    if n < 0 {
        seq!['-'] + text::decimal((-n) as nat)
    } else {
        text::decimal(n as nat)
    }
}

pub fn append_number(out: &mut String, n: i64)
    ensures
        final(out)@ == old(out)@ + signed_decimal(n as int),
{
    let m: u64 = if n < 0 {
        out.push('-');
        (0 - n as i128) as u64
    } else {
        n as u64
    };
    let d = text::decimal_chars(m);
    out.append(text::from_chars(d.as_slice()).as_str());
    assert(out@ =~= old(out)@ + signed_decimal(n as int));
}

impl Error {
    /// The stable code of the failure.
    pub open spec fn code_text(self) -> Seq<char> {
        match self {
            Error::PortalDenied => "portal_denied"@,
            Error::PortalUnavailable(_) => "portal_unavailable"@,
            Error::InvalidSpec(_) => "invalid_spec"@,
            Error::InvalidColor(_) => "invalid_color"@,
            Error::MonitorNotFound(_, _) => "monitor_not_found"@,
            Error::WaylandUnavailable(_) => "wayland_unavailable"@,
            Error::RegionOutOfBounds(_, _, _, _, _, _) => "region_out_of_bounds"@,
            Error::Image(_) => "image"@,
            Error::Clipboard(_) => "clipboard"@,
            Error::Record(_) => "record"@,
            Error::Io(_) => "io"@,
        }
    }

    /// An `InvalidSpec` with the message `m`.
    pub open spec fn is_invalid_spec(self, m: Seq<char>) -> bool {
        self matches Error::InvalidSpec(t) && t@ == m
    }

    /// A `Record` with the message `m`.
    pub open spec fn is_record(self, m: Seq<char>) -> bool {
        self matches Error::Record(t) && t@ == m
    }

    /// Stable machine-readable code for the JSON error contract.
    pub fn code(&self) -> (r: &'static str)
        ensures
            r@ == self.code_text(),
    {
        match self {
            Error::PortalDenied => "portal_denied",
            Error::PortalUnavailable(_) => "portal_unavailable",
            Error::InvalidSpec(_) => "invalid_spec",
            Error::InvalidColor(_) => "invalid_color",
            Error::MonitorNotFound(_, _) => "monitor_not_found",
            Error::WaylandUnavailable(_) => "wayland_unavailable",
            Error::RegionOutOfBounds(_, _, _, _, _, _) => "region_out_of_bounds",
            Error::Image(_) => "image",
            Error::Clipboard(_) => "clipboard",
            Error::Record(_) => "record",
            Error::Io(_) => "io",
        }
    }

    /// The message of the failure.
    pub open spec fn message_text(self) -> Seq<char> {
        match self {
            Error::PortalDenied =>
                "screenshot permission denied by the desktop portal; run `ashot setup` once to grant it"@,
            Error::PortalUnavailable(m) => "desktop portal unavailable: "@ + m@,
            Error::InvalidSpec(m) => "invalid annotation spec: "@ + m@,
            Error::InvalidColor(c) => "invalid color "@ + quoted(c@)
                + "; use #RGB, #RRGGBB, #RRGGBBAA or a basic color name"@,
            Error::MonitorNotFound(i, n) => "monitor "@ + text::decimal(i as nat) + " not found ("@
                + text::decimal(n as nat) + " available)"@,
            Error::WaylandUnavailable(m) =>
                "monitor enumeration requires a Wayland session: "@ + m@,
            Error::RegionOutOfBounds(x, y, w, h, iw, ih) => "region "@ + signed_decimal(x as int)
                + ","@ + signed_decimal(y as int) + " "@ + signed_decimal(w as int) + "x"@
                + signed_decimal(h as int) + " is outside the "@ + signed_decimal(iw as int) + "x"@
                + signed_decimal(ih as int) + " image"@,
            Error::Image(m) => "image error: "@ + m@,
            Error::Clipboard(m) => "clipboard copy failed: "@ + m@,
            Error::Record(m) => "screen recording failed: "@ + m@,
            Error::Io(m) => m@,
        }
    }

    /// The message shown to people.
    pub fn message(&self) -> (r: String)
        ensures
            r@ == self.message_text(),
    {
        let mut out = String::new();
        match self {
            Error::PortalDenied => {
                out.append("screenshot permission denied by the desktop portal; run `ashot setup` once to grant it");
            },
            Error::PortalUnavailable(m) => {
                out.append("desktop portal unavailable: ");
                out.append(m.as_str());
            },
            Error::InvalidSpec(m) => {
                out.append("invalid annotation spec: ");
                out.append(m.as_str());
            },
            Error::InvalidColor(c) => {
                out.append("invalid color ");
                out.append(debug_text(c.as_str()).as_str());
                out.append("; use #RGB, #RRGGBB, #RRGGBBAA or a basic color name");
            },
            Error::MonitorNotFound(i, n) => {
                out.append("monitor ");
                let d = text::decimal_chars(*i as u64);
                out.append(text::from_chars(d.as_slice()).as_str());
                out.append(" not found (");
                let d = text::decimal_chars(*n as u64);
                out.append(text::from_chars(d.as_slice()).as_str());
                out.append(" available)");
            },
            Error::WaylandUnavailable(m) => {
                out.append("monitor enumeration requires a Wayland session: ");
                out.append(m.as_str());
            },
            Error::RegionOutOfBounds(x, y, w, h, iw, ih) => {
                out.append("region ");
                append_number(&mut out, *x as i64);
                out.append(",");
                append_number(&mut out, *y as i64);
                out.append(" ");
                append_number(&mut out, *w as i64);
                out.append("x");
                append_number(&mut out, *h as i64);
                out.append(" is outside the ");
                append_number(&mut out, *iw as i64);
                out.append("x");
                append_number(&mut out, *ih as i64);
                out.append(" image");
            },
            Error::Image(m) => {
                out.append("image error: ");
                out.append(m.as_str());
            },
            Error::Clipboard(m) => {
                out.append("clipboard copy failed: ");
                out.append(m.as_str());
            },
            Error::Record(m) => {
                out.append("screen recording failed: ");
                out.append(m.as_str());
            },
            Error::Io(m) => {
                out.append(m.as_str());
            },
        }
        assert(out@ =~= self.message_text());
        out
    }
}

/// An owned copy of a string.
pub fn owned(s: &str) -> (r: String)
    ensures
        r@ == s@,
{
    String::from_str(s)
}

/// The two failures are of the same kind.
pub open spec fn same_kind(a: Error, b: Error) -> bool {
    match a {
        Error::PortalDenied => b is PortalDenied,
        Error::PortalUnavailable(_) => b is PortalUnavailable,
        Error::InvalidSpec(_) => b is InvalidSpec,
        Error::InvalidColor(_) => b is InvalidColor,
        Error::MonitorNotFound(_, _) => b is MonitorNotFound,
        Error::WaylandUnavailable(_) => b is WaylandUnavailable,
        Error::RegionOutOfBounds(_, _, _, _, _, _) => b is RegionOutOfBounds,
        Error::Image(_) => b is Image,
        Error::Clipboard(_) => b is Clipboard,
        Error::Record(_) => b is Record,
        Error::Io(_) => b is Io,
    }
}

/// A code tells the kind of a failure: different kinds have different codes.
pub proof fn law_codes_tell_kinds_apart(a: Error, b: Error)
    ensures
        a.code_text() == b.code_text() <==> same_kind(a, b),
{
    reveal_strlit("portal_denied");
    reveal_strlit("portal_unavailable");
    reveal_strlit("invalid_spec");
    reveal_strlit("invalid_color");
    reveal_strlit("monitor_not_found");
    reveal_strlit("wayland_unavailable");
    reveal_strlit("region_out_of_bounds");
    reveal_strlit("image");
    reveal_strlit("clipboard");
    reveal_strlit("record");
    reveal_strlit("io");
    assert("portal_denied"@.len() == 13);
    assert("portal_unavailable"@.len() == 18);
    assert("invalid_spec"@.len() == 12);
    assert("invalid_color"@.len() == 13 && "invalid_color"@[0] == 'i' && "portal_denied"@[0] == 'p');
    assert("monitor_not_found"@.len() == 17);
    assert("wayland_unavailable"@.len() == 19);
    assert("region_out_of_bounds"@.len() == 20);
    assert("image"@.len() == 5);
    assert("clipboard"@.len() == 9);
    assert("record"@.len() == 6);
    assert("io"@.len() == 2);
}

/// A message ends with what was told of the error.
pub proof fn law_messages_tell_the_reason(m: String)
    ensures
        Error::PortalUnavailable(m).message_text() == "desktop portal unavailable: "@ + m@,
        Error::InvalidSpec(m).message_text() == "invalid annotation spec: "@ + m@,
        Error::WaylandUnavailable(m).message_text()
            == "monitor enumeration requires a Wayland session: "@ + m@,
        Error::Image(m).message_text() == "image error: "@ + m@,
        Error::Clipboard(m).message_text() == "clipboard copy failed: "@ + m@,
        Error::Record(m).message_text() == "screen recording failed: "@ + m@,
        Error::Io(m).message_text() == m@,
{
}

/// A number that was written is read back.
pub proof fn law_written_number_is_read_back(n: int)
    ensures
        text::parse_signed(signed_decimal(n)) == Some(n),
{
    if n < 0 {
        text::lemma_decimal((-n) as nat);
        assert(signed_decimal(n).skip(1) =~= text::decimal((-n) as nat));
    } else {
        let d = text::decimal(n as nat);
        text::lemma_decimal(n as nat);
        assert(text::is_digit(d[0]));
    }
}

/// The codes that programs tell errors apart by.
pub proof fn law_codes_are_those_of_the_kinds(m: String, i: usize, x: i32, w: u32)
    ensures
        Error::PortalDenied.code_text() == "portal_denied"@,
        Error::PortalUnavailable(m).code_text() == "portal_unavailable"@,
        Error::InvalidSpec(m).code_text() == "invalid_spec"@,
        Error::InvalidColor(m).code_text() == "invalid_color"@,
        Error::MonitorNotFound(i, i).code_text() == "monitor_not_found"@,
        Error::WaylandUnavailable(m).code_text() == "wayland_unavailable"@,
        Error::RegionOutOfBounds(x, x, w, w, w, w).code_text() == "region_out_of_bounds"@,
        Error::Image(m).code_text() == "image"@,
        Error::Clipboard(m).code_text() == "clipboard"@,
        Error::Record(m).code_text() == "record"@,
        Error::Io(m).code_text() == "io"@,
{
}

} // verus!
