//! The serial side of the tools: where to read from, how each line read
//! from the port is handled, and the text that reports on the ports.

use crate::text::{
    decimal, hex4, pad_left, signed_decimal, spec_decimal, spec_hex4, spec_pad_left,
    spec_signed_decimal, spec_trim, trim, is_white_space, lemma_trim_keeps_unpadded_text,
    lemma_trim_ignores_trailing_white_space, lemma_trim_is_inner_piece,
    lemma_trim_no_surrounding_white_space, lemma_decimal_reads_back, decimal_value,
    is_decimal_digit,
};
use vstd::prelude::*;

verus! {

/// The serial device the tools open when none is named.
pub const DEFAULT_PORT: &'static str = "/dev/cu.usbserial-10";

/// Where and how to open the serial port that carries the telemetry feed.
#[derive(Clone)]
pub struct SerialStreamConfig {
    pub port: String,
    pub baud: u32,
    pub timeout_ms: u64,
}

/// The line announcing that the port is being opened.
pub open spec fn spec_opening_message(port: Seq<char>, baud: u32, timeout_ms: u64) -> Seq<char> {
    "Opening "@ + port + " @ "@ + spec_decimal(baud as nat) + " baud (timeout "@
        + spec_decimal(timeout_ms as nat) + " ms)\u{2026}"@
}

impl SerialStreamConfig {
    /// The line printed before the port is opened, naming the port, its
    /// baud rate and its read timeout.
    pub fn opening_message(&self) -> (s: String)
        ensures
            s@ == spec_opening_message(self.port@, self.baud, self.timeout_ms),
    {
        let mut s = String::from_str("Opening ");
        s.append(self.port.as_str());
        s.append(" @ ");
        let baud = decimal(self.baud as u64);
        s.append(baud.as_str());
        s.append(" baud (timeout ");
        let timeout = decimal(self.timeout_ms);
        s.append(timeout.as_str());
        s.append(" ms)\u{2026}");
        s
    }
}


/// The line printed for each reading received.
pub open spec fn spec_reading_line(timestamp: Seq<char>, raw: i32, voltage: Seq<char>) -> Seq<char> {
    timestamp + " | raw: "@ + spec_pad_left(spec_signed_decimal(raw as int), 4) + " | voltage: "@
        + voltage + " V"@
}

/// The line printed for a reading taken at `timestamp` (its RFC 3339
/// text) with raw count `raw` and voltage text `voltage` (three decimals):
/// the raw count is right-aligned in four columns.
pub fn reading_line(timestamp: &str, raw: i32, voltage: &str) -> (line: String)
    ensures
        line@ == spec_reading_line(timestamp@, raw, voltage@),
{
    let mut line = String::from_str(timestamp);
    line.append(" | raw: ");
    let digits = signed_decimal(raw);
    let padded = pad_left(digits.as_str(), 4);
    line.append(padded.as_str());
    line.append(" | voltage: ");
    line.append(voltage);
    line.append(" V");
    line
}

/// What one attempt to read a line from the serial port gave.
pub enum ReadOutcome {
    /// The read succeeded: `count` bytes were read and `line` holds them.
    Read { count: usize, line: String },
    /// The read timed out before a line arrived.
    TimedOut,
    /// The read failed; `0` is the error's text.
    Failed(String),
}

/// What the reader does after one read.
pub enum StepAction {
    /// Nothing to handle: read again.
    Skip,
    /// A line to decode as a reading: the line read, trimmed.
    Parse(String),
    /// Stop reading and report this error.
    Abort(String),
}

/// The action the reader takes on `outcome`: a read of nothing, a line of
/// white space only, or a timeout is skipped; any other line is handed on
/// trimmed for decoding; a failed read stops the stream with a message.
pub open spec fn spec_step_action_holds(outcome: ReadOutcome, action: StepAction) -> bool {
    match outcome {
        ReadOutcome::Read { count, line } => if count == 0 || spec_trim(line@).len() == 0 {
            action is Skip
        } else {
            action matches StepAction::Parse(t) && t@ == spec_trim(line@)
        },
        ReadOutcome::TimedOut => action is Skip,
        ReadOutcome::Failed(e) => action matches StepAction::Abort(m) && m@ == "serial read error: "@
            + e@,
    }
}

/// Decides what the serial reader does with the result of one read.
pub fn next_action(outcome: &ReadOutcome) -> (action: StepAction)
    ensures
        spec_step_action_holds(*outcome, action),
{
    match outcome {
        ReadOutcome::Read { count, line } => {
            if *count == 0 {
                StepAction::Skip
            } else {
                let trimmed = trim(line.as_str());
                if trimmed.as_str().unicode_len() == 0 {
                    StepAction::Skip
                } else {
                    StepAction::Parse(trimmed)
                }
            }
        },
        ReadOutcome::TimedOut => StepAction::Skip,
        ReadOutcome::Failed(e) => {
            let mut m = String::from_str("serial read error: ");
            m.append(e.as_str());
            StepAction::Abort(m)
        },
    }
}

/// The warning printed when a line read from the port is not a reading.
pub open spec fn spec_parse_failure_message(line: Seq<char>, error: Seq<char>) -> Seq<char> {
    "Failed to parse line `"@ + line + "`: "@ + error
}

/// The warning printed when `line` could not be decoded; `error` is the
/// decoder's explanation.
pub fn parse_failure_message(line: &str, error: &str) -> (m: String)
    ensures
        m@ == spec_parse_failure_message(line@, error@),
{
    let mut m = String::from_str("Failed to parse line `");
    m.append(line);
    m.append("`: ");
    m.append(error);
    m
}

/// What the reader does with a line it tried to decode as a reading.
pub enum DecodeAction<R> {
    /// Hand the decoded reading on.
    Deliver(R),
    /// Skip the line and print this warning.
    Warn(String),
}

/// Decides what the reader does once `line` has been decoded: a reading
/// is handed on as it is; a line that could not be decoded (`Err` holds
/// the decoder's explanation) is skipped with a warning naming the line.
pub fn after_decode<R>(line: &str, decoded: Result<R, String>) -> (action: DecodeAction<R>)
    ensures
        match decoded {
            Ok(r) => action == DecodeAction::Deliver(r),
            Err(e) => action matches DecodeAction::Warn(m) && m@ == spec_parse_failure_message(
                line@,
                e@,
            ),
        },
{
    match decoded {
        Ok(r) => DecodeAction::Deliver(r),
        Err(e) => DecodeAction::Warn(parse_failure_message(line, e.as_str())),
    }
}

/// How a serial port is attached to the machine.
pub enum PortKind {
    /// A USB device, with its vendor and product ids and, when it reports
    /// one, its serial number.
    Usb { vid: u16, pid: u16, serial_number: Option<String> },
    /// A port on the PCI bus.
    Pci,
    /// A Bluetooth port.
    Bluetooth,
    /// A port whose attachment cannot be told.
    Unknown,
}

/// A serial port found on the machine.
pub struct PortEntry {
    pub port_name: String,
    pub kind: PortKind,
}

/// The short description of a port's attachment, if it has one.
pub open spec fn spec_describe_port(kind: PortKind) -> Option<Seq<char>> {
    match kind {
        PortKind::Usb { vid, pid, serial_number } => Some(
            "USB VID:PID "@ + spec_hex4(vid) + ":"@ + spec_hex4(pid) + " "@ + match serial_number {
                Some(sn) => "(serial "@ + sn@ + ")"@,
                None => Seq::empty(),
            },
        ),
        PortKind::Pci => Some("PCI"@),
        PortKind::Bluetooth => Some("Bluetooth"@),
        PortKind::Unknown => None,
    }
}

/// Describes how a port is attached: USB ports by their ids in four
/// hexadecimal digits and their serial number, PCI and Bluetooth ports
/// by name; an unknown attachment has no description.
pub fn describe_port_type(kind: &PortKind) -> (d: Option<String>)
    ensures
        match (d, spec_describe_port(*kind)) {
            (Some(text), Some(expected)) => text@ == expected,
            (None, None) => true,
            _ => false,
        },
{
    match kind {
        PortKind::Usb { vid, pid, serial_number } => {
            let mut s = String::from_str("USB VID:PID ");
            let v = hex4(*vid);
            s.append(v.as_str());
            s.append(":");
            let p = hex4(*pid);
            s.append(p.as_str());
            s.append(" ");
            match serial_number {
                Some(sn) => {
                    s.append("(serial ");
                    s.append(sn.as_str());
                    s.append(")");
                },
                None => {},
            }
            Some(s)
        },
        PortKind::Pci => Some(String::from_str("PCI")),
        PortKind::Bluetooth => Some(String::from_str("Bluetooth")),
        PortKind::Unknown => None,
    }
}

/// The line that lists one port: its name, then its description after a
/// dash when it has one.
pub open spec fn spec_port_line(entry: PortEntry) -> Seq<char> {
    entry.port_name@ + match spec_describe_port(entry.kind) {
        Some(d) => " \u{2014} "@ + d,
        None => Seq::empty(),
    } + "\n"@
}

/// The lines that list `ports`, in order.
pub open spec fn spec_port_lines(ports: Seq<PortEntry>) -> Seq<char>
    decreases ports.len(),
{
    if ports.len() == 0 {
        Seq::empty()
    } else {
        spec_port_lines(ports.drop_last()) + spec_port_line(ports.last())
    }
}

/// The whole report on the ports found: a notice when there are none,
/// else a heading and one line per port.
pub open spec fn spec_port_listing(ports: Seq<PortEntry>) -> Seq<char> {
    if ports.len() == 0 {
        "No serial ports detected.\n"@
    } else {
        "Detected serial ports:\n----------------------\n"@ + spec_port_lines(ports)
    }
}

/// The text printed when listing the serial ports found on the machine.
pub fn port_listing(ports: &Vec<PortEntry>) -> (text: String)
    ensures
        text@ == spec_port_listing(ports@),
{
    if ports.len() == 0 {
        return String::from_str("No serial ports detected.\n");
    }
    let mut text = String::from_str("Detected serial ports:\n----------------------\n");
    let ghost heading = text@;
    let mut i: usize = 0;
    while i < ports.len()
        invariant
            i <= ports@.len(),
            text@ == heading + spec_port_lines(ports@.take(i as int)),
        decreases ports@.len() - i,
    {
        let entry = &ports[i];
        text.append(entry.port_name.as_str());
        match describe_port_type(&entry.kind) {
            Some(d) => {
                text.append(" \u{2014} ");
                text.append(d.as_str());
            },
            None => {},
        }
        text.append("\n");
        proof {
            let t = ports@.take(i + 1);
            assert(t.drop_last() =~= ports@.take(i as int));
            assert(t.last() == ports@[i as int]);
        }
        i = i + 1;
    }
    assert(ports@.take(i as int) =~= ports@);
    text
}


/// A line of the sketch ends in a carriage return and a line feed; what
/// the reader hands on for decoding is the line's text whole, whatever
/// its length, when that text neither begins nor ends with white space.
pub proof fn lemma_line_ending_is_all_that_trimming_removes(text: Seq<char>)
    requires
        text.len() > 0,
        !is_white_space(text[0]),
        !is_white_space(text.last()),
    ensures
        spec_trim(text + seq!['\r', '\n']) == text,
{
    let w = seq!['\r', '\n'];
    assert(is_white_space(w[0]) && is_white_space(w[1]));
    lemma_trim_ignores_trailing_white_space(text, w);
    lemma_trim_keeps_unpadded_text(text);
}

/// The reading line begins with the whole timestamp text, then
/// ` | raw: `, then the raw count's digits right-aligned in a field of at
/// least four columns, and ends with ` | voltage: `, the voltage text
/// whole and ` V`.
pub proof fn lemma_reading_line_layout(timestamp: Seq<char>, raw: i32, voltage: Seq<char>)
    ensures
        ({
            let line = spec_reading_line(timestamp, raw, voltage);
            let d = spec_signed_decimal(raw as int);
            let head = timestamp.len() as int + 8;
            let tail = line.len() - (voltage.len() + 14);
            let field = line.subrange(head, tail);
            &&& head <= tail
            &&& line.take(timestamp.len() as int) == timestamp
            &&& line.subrange(timestamp.len() as int, head) == seq![' ', '|', ' ', 'r', 'a', 'w', ':', ' ']
            &&& line.skip(tail) == seq![' ', '|', ' ', 'v', 'o', 'l', 't', 'a', 'g', 'e', ':', ' ']
                + voltage + seq![' ', 'V']
            &&& field.len() == if d.len() < 4 { 4 } else { d.len() as int }
            &&& field.skip(field.len() - d.len()) == d
            &&& forall|k: int| 0 <= k < field.len() - d.len() ==> #[trigger] field[k] == ' '
        }),
{
    reveal_strlit(" | raw: ");
    reveal_strlit(" | voltage: ");
    reveal_strlit(" V");
    let line = spec_reading_line(timestamp, raw, voltage);
    let d = spec_signed_decimal(raw as int);
    let p = spec_pad_left(d, 4);
    crate::text::lemma_pad_left_shape(d, 4);
    let a = seq![' ', '|', ' ', 'r', 'a', 'w', ':', ' '];
    let b = seq![' ', '|', ' ', 'v', 'o', 'l', 't', 'a', 'g', 'e', ':', ' '];
    let c = seq![' ', 'V'];
    assert(" | raw: "@ =~= a);
    assert(" | voltage: "@ =~= b);
    assert(" V"@ =~= c);
    assert(line =~= timestamp + a + p + b + voltage + c);
    let head = timestamp.len() as int + 8;
    let tail = line.len() - (voltage.len() + 14);
    assert(line.take(timestamp.len() as int) =~= timestamp);
    assert(line.subrange(timestamp.len() as int, head) =~= a);
    assert(line.skip(tail) =~= b + voltage + c);
    assert(line.subrange(head, tail) =~= p);
}

/// The description of a USB port is `USB VID:PID `, the vendor id's four
/// hexadecimal digits, a colon, the product id's four digits and a space,
/// followed, when the port reports a serial number, by `(serial `, the
/// serial number whole, whatever its length, and `)`.
pub proof fn lemma_usb_description_layout(kind: PortKind)
    requires
        kind is Usb,
    ensures
        spec_describe_port(kind) is Some,
        ({
            let d = spec_describe_port(kind)->0;
            &&& d.take(12) == seq!['U', 'S', 'B', ' ', 'V', 'I', 'D', ':', 'P', 'I', 'D', ' ']
            &&& d.subrange(12, 16) == spec_hex4(kind->vid)
            &&& d[16] == ':'
            &&& d.subrange(17, 21) == spec_hex4(kind->pid)
            &&& d[21] == ' '
            &&& match kind->serial_number {
                None => d.len() == 22,
                Some(sn) => d.skip(22) == seq!['(', 's', 'e', 'r', 'i', 'a', 'l', ' '] + sn@ + seq![')'],
            }
        }),
{
    reveal_strlit("USB VID:PID ");
    reveal_strlit(":");
    reveal_strlit(" ");
    reveal_strlit("(serial ");
    reveal_strlit(")");
    let d = spec_describe_port(kind)->0;
    let h = seq!['U', 'S', 'B', ' ', 'V', 'I', 'D', ':', 'P', 'I', 'D', ' '];
    let o = seq!['(', 's', 'e', 'r', 'i', 'a', 'l', ' '];
    assert("USB VID:PID "@ =~= h);
    assert("(serial "@ =~= o);
    assert(":"@ =~= seq![':']);
    assert(" "@ =~= seq![' ']);
    assert(")"@ =~= seq![')']);
    crate::text::lemma_hex4_reads_back(kind->vid);
    crate::text::lemma_hex4_reads_back(kind->pid);
    let rest = match kind->serial_number {
        Some(sn) => o + sn@ + seq![')'],
        None => Seq::<char>::empty(),
    };
    assert(d =~= h + spec_hex4(kind->vid) + seq![':'] + spec_hex4(kind->pid) + seq![' '] + rest);
    assert(d.take(12) =~= h);
    assert(d.subrange(12, 16) =~= spec_hex4(kind->vid));
    assert(d.subrange(17, 21) =~= spec_hex4(kind->pid));
    assert(d.skip(22) =~= rest);
}

/// A listing of one port is the heading and that port's line.
pub proof fn lemma_port_listing_single(e: PortEntry)
    ensures
        spec_port_listing(seq![e]) == "Detected serial ports:\n----------------------\n"@
            + spec_port_line(e),
{
    let s = seq![e];
    assert(s.drop_last() =~= Seq::<PortEntry>::empty());
    assert(spec_port_lines(s.drop_last()) == Seq::<char>::empty());
    assert(spec_port_lines(s) =~= spec_port_line(e));
}

/// Listing one more port adds exactly that port's line at the end: every
/// port found is listed, in order.
pub proof fn lemma_port_listing_appends(ports: Seq<PortEntry>, e: PortEntry)
    requires
        ports.len() > 0,
    ensures
        spec_port_listing(ports.push(e)) == spec_port_listing(ports) + spec_port_line(e),
{
    let p = ports.push(e);
    assert(p.drop_last() =~= ports);
    assert(p.last() == e);
}

/// A port's line is its name whole, then its description after a dash
/// when it has one, then a line feed.
pub proof fn lemma_port_line_layout(e: PortEntry)
    ensures
        ({
            let line = spec_port_line(e);
            &&& line.take(e.port_name@.len() as int) == e.port_name@
            &&& line.len() > 0 && line.last() == '\n'
            &&& match spec_describe_port(e.kind) {
                None => line.len() == e.port_name@.len() + 1,
                Some(d) => line.subrange(e.port_name@.len() as int, line.len() - 1) == seq![
                    ' ',
                    '\u{2014}',
                    ' ',
                ] + d,
            }
        }),
{
    reveal_strlit(" \u{2014} ");
    reveal_strlit("\n");
    let line = spec_port_line(e);
    let n = e.port_name@;
    assert(" \u{2014} "@ =~= seq![' ', '\u{2014}', ' ']);
    assert("\n"@ =~= seq!['\n']);
    let mid = match spec_describe_port(e.kind) {
        Some(d) => seq![' ', '\u{2014}', ' '] + d,
        None => Seq::<char>::empty(),
    };
    assert(line =~= n + mid + seq!['\n']);
    assert(line.take(n.len() as int) =~= n);
    assert(line.subrange(n.len() as int, line.len() - 1) =~= mid);
}


/// The opening message names the port whole, then the baud rate and the
/// timeout in plain decimal digits that read back as the configured
/// numbers.
pub proof fn lemma_opening_message_layout(port: Seq<char>, baud: u32, timeout_ms: u64)
    ensures
        spec_opening_message(port, baud, timeout_ms) == seq!['O', 'p', 'e', 'n', 'i', 'n', 'g', ' ']
            + port + seq![' ', '@', ' '] + spec_decimal(baud as nat) + seq![
            ' ',
            'b',
            'a',
            'u',
            'd',
            ' ',
            '(',
            't',
            'i',
            'm',
            'e',
            'o',
            'u',
            't',
            ' ',
        ] + spec_decimal(timeout_ms as nat) + seq![' ', 'm', 's', ')', '\u{2026}'],
        decimal_value(spec_decimal(baud as nat)) == baud,
        decimal_value(spec_decimal(timeout_ms as nat)) == timeout_ms,
        forall|k: int|
            0 <= k < spec_decimal(baud as nat).len() ==> is_decimal_digit(
                #[trigger] spec_decimal(baud as nat)[k],
            ),
        forall|k: int|
            0 <= k < spec_decimal(timeout_ms as nat).len() ==> is_decimal_digit(
                #[trigger] spec_decimal(timeout_ms as nat)[k],
            ),
{
    reveal_strlit("Opening ");
    reveal_strlit(" @ ");
    reveal_strlit(" baud (timeout ");
    reveal_strlit(" ms)\u{2026}");
    assert("Opening "@ =~= seq!['O', 'p', 'e', 'n', 'i', 'n', 'g', ' ']);
    assert(" @ "@ =~= seq![' ', '@', ' ']);
    assert(" baud (timeout "@ =~= seq![
        ' ',
        'b',
        'a',
        'u',
        'd',
        ' ',
        '(',
        't',
        'i',
        'm',
        'e',
        'o',
        'u',
        't',
        ' ',
    ]);
    assert(" ms)\u{2026}"@ =~= seq![' ', 'm', 's', ')', '\u{2026}']);
    lemma_decimal_reads_back(baud as nat);
    lemma_decimal_reads_back(timeout_ms as nat);
}

/// The decoding warning quotes the line whole between backquotes and
/// then gives the decoder's explanation whole.
pub proof fn lemma_parse_failure_message_layout(line: Seq<char>, error: Seq<char>)
    ensures
        spec_parse_failure_message(line, error) == seq![
            'F',
            'a',
            'i',
            'l',
            'e',
            'd',
            ' ',
            't',
            'o',
            ' ',
            'p',
            'a',
            'r',
            's',
            'e',
            ' ',
            'l',
            'i',
            'n',
            'e',
            ' ',
            '`',
        ] + line + seq!['`', ':', ' '] + error,
{
    reveal_strlit("Failed to parse line `");
    reveal_strlit("`: ");
    assert("Failed to parse line `"@ =~= seq![
        'F',
        'a',
        'i',
        'l',
        'e',
        'd',
        ' ',
        't',
        'o',
        ' ',
        'p',
        'a',
        'r',
        's',
        'e',
        ' ',
        'l',
        'i',
        'n',
        'e',
        ' ',
        '`',
    ]);
    assert("`: "@ =~= seq!['`', ':', ' ']);
}

/// A line of the sketch, its text followed by a carriage return and a
/// line feed, is handed on for decoding as its text whole.
pub proof fn lemma_sketch_line_handed_on_whole(
    count: usize,
    line: String,
    text: Seq<char>,
    action: StepAction,
)
    requires
        count > 0,
        text.len() > 0,
        !is_white_space(text[0]),
        !is_white_space(text.last()),
        line@ == text + seq!['\r', '\n'],
        spec_step_action_holds(ReadOutcome::Read { count, line }, action),
    ensures
        action matches StepAction::Parse(t) && t@ == text,
{
    lemma_line_ending_is_all_that_trimming_removes(text);
}

/// A line of white space only is never handed on for decoding.
pub proof fn lemma_blank_line_skipped(count: usize, line: String, action: StepAction)
    requires
        forall|k: int| 0 <= k < line@.len() ==> is_white_space(#[trigger] line@[k]),
        spec_step_action_holds(ReadOutcome::Read { count, line }, action),
    ensures
        action is Skip,
{
    let s = line@;
    lemma_trim_is_inner_piece(s);
    lemma_trim_no_surrounding_white_space(s);
    let t = spec_trim(s);
    if t.len() > 0 {
        let (i, j) = choose|i: int, j: int|
            0 <= i <= j <= s.len() && t == s.subrange(i, j) && (forall|k: int|
                0 <= k < i ==> is_white_space(#[trigger] s[k])) && (forall|k: int|
                j <= k < s.len() ==> is_white_space(#[trigger] s[k]));
        assert(t[0] == s[i]);
        assert(false);
    }
}

/// A failed read stops the stream with a message that gives the error's
/// text whole after `serial read error: `.
pub proof fn lemma_read_failure_reported_whole(e: String, action: StepAction)
    requires
        spec_step_action_holds(ReadOutcome::Failed(e), action),
    ensures
        action matches StepAction::Abort(m) && m@ == seq![
            's',
            'e',
            'r',
            'i',
            'a',
            'l',
            ' ',
            'r',
            'e',
            'a',
            'd',
            ' ',
            'e',
            'r',
            'r',
            'o',
            'r',
            ':',
            ' ',
        ] + e@,
{
    reveal_strlit("serial read error: ");
    assert("serial read error: "@ =~= seq![
        's',
        'e',
        'r',
        'i',
        'a',
        'l',
        ' ',
        'r',
        'e',
        'a',
        'd',
        ' ',
        'e',
        'r',
        'r',
        'o',
        'r',
        ':',
        ' ',
    ]);
}

} // verus!
