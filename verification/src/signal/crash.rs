//! What is kept of a crash: the names of the files, and what a report says.

use crate::error::Error;
#[allow(unused_imports)]
use crate::text::{decimal, digits, number_of};
use crate::text::{push_decimal, push_digits, same_text};
use vstd::prelude::*;
#[allow(unused_imports)]
use vstd::string::StringSliceAdditionalSpecFns;
#[allow(unused_imports)]
use vstd::utf8::{
    decode_utf8, decode_utf8_split, encode_utf8, encode_utf8_decode_utf8, encode_utf8_valid_utf8,
    is_char_boundary, is_char_boundary_start_end_of_seq, valid_utf8,
};

verus! {

/// The argument that makes the program the one that writes reports.
pub fn helper_arg() -> (arg: &'static str)
    ensures
        arg@ == "--rskynet-crash-helper"@,
{
    "--rskynet-crash-helper"
}

/// The kind of message that says what a thread panicked of.
pub const PANIC_MESSAGE: u32 = 1;

/// Up to how many bytes of what a thread panicked of are kept.
pub const PAYLOAD_LIMIT: usize = 8192;

/// Up to how many bytes of a backtrace are kept.
pub const BACKTRACE_LIMIT: usize = 49152;

/// The last place, from this one down, where a character begins or the text ends.
pub open spec fn boundary(bytes: Seq<u8>, from: int) -> int
    decreases from,
{
    if from <= 0 || is_char_boundary(bytes, from) {
        from
    } else {
        boundary(bytes, from - 1)
    }
}

/// A text of which no more bytes are kept than `limit`, and no part of a character. Where
/// something is left out, that is said at its end.
pub open spec fn cut(text: Seq<char>, limit: usize) -> Seq<char> {
    let bytes = encode_utf8(text);
    if bytes.len() as usize <= limit {
        text
    } else {
        decode_utf8(bytes.subrange(0, boundary(bytes, limit as int))) + "\n<truncated>"@
    }
}

/// Cuts a text down to a number of bytes.
pub fn truncate_utf8(text: &mut String, limit: usize)
    ensures
        final(text)@ == cut(old(text)@, limit),
{
    broadcast use encode_utf8_valid_utf8, encode_utf8_decode_utf8;

    if text.as_str().len() <= limit {
        return;
    }
    let ghost bytes = encode_utf8(text@);
    let mut end: usize = limit;
    while !text.as_str().is_char_boundary(end)
        invariant
            end <= limit,
            *text == *old(text),
            bytes == encode_utf8(text@),
            valid_utf8(bytes),
            boundary(bytes, limit as int) == boundary(bytes, end as int),
        decreases end,
    {
        end = end - 1;
    }
    let (head, _) = text.as_str().split_at(end);
    assert(head.spec_bytes() == bytes.subrange(0, end as int));
    assert(head@ == decode_utf8(bytes.subrange(0, end as int))) by {
        assert(decode_utf8(encode_utf8(head@)) == head@);
    }
    let mut kept = head.to_owned();
    kept.append("\n<truncated>");
    *text = kept;
}

/// What was said by a thread that panicked.
#[derive(Debug)]
pub struct PanicMetadata {
    pub payload: String,
    pub location: Option<String>,
    pub thread: Option<String>,
    pub backtrace: String,
}

/// What was said by a thread that panicked.
#[verifier::ext_equal]
pub struct PanicView {
    pub payload: Seq<char>,
    pub location: Option<Seq<char>>,
    pub thread: Option<Seq<char>>,
    pub backtrace: Seq<char>,
}

/// What a text says, if there is one.
pub open spec fn said(text: Option<String>) -> Option<Seq<char>> {
    match text {
        Some(text) => Some(text@),
        None => None,
    }
}

impl View for PanicMetadata {
    type V = PanicView;

    open spec fn view(&self) -> PanicView {
        PanicView {
            payload: self.payload@,
            location: said(self.location),
            thread: said(self.thread),
            backtrace: self.backtrace@,
        }
    }
}

/// A place in a source file.
#[derive(Debug)]
pub struct Location {
    pub file: String,
    pub line: u32,
    pub column: u32,
}

impl PanicView {
    /// What is kept of a panic.
    pub open spec fn kept(
        payload: Option<Seq<char>>,
        location: Option<(Seq<char>, u32, u32)>,
        thread: Option<Seq<char>>,
        backtrace: Seq<char>,
    ) -> PanicView {
        PanicView {
            payload: cut(
                match payload {
                    Some(text) => text,
                    None => "<非字符串 panic payload>"@,
                },
                PAYLOAD_LIMIT,
            ),
            location: match location {
                Some((file, line, column)) => Some(
                    file + ":"@ + decimal(line as nat) + ":"@ + decimal(column as nat),
                ),
                None => None,
            },
            thread,
            backtrace: cut(backtrace, BACKTRACE_LIMIT),
        }
    }
}

impl PanicMetadata {
    /// Keeps what a thread panicked of, where, and how it came there. Long texts are cut.
    pub fn new(
        payload: Option<String>,
        location: Option<Location>,
        thread: Option<String>,
        backtrace: String,
    ) -> (metadata: PanicMetadata)
        ensures
            metadata@ == (PanicView {
                payload: cut(
                    match payload {
                        Some(text) => text@,
                        None => "<非字符串 panic payload>"@,
                    },
                    PAYLOAD_LIMIT,
                ),
                location: match location {
                    Some(at) => Some(
                        at.file@ + ":"@ + decimal(at.line as nat) + ":"@ + decimal(
                            at.column as nat,
                        ),
                    ),
                    None => None,
                },
                thread: said(thread),
                backtrace: cut(backtrace@, BACKTRACE_LIMIT),
            }),
            metadata@ == PanicView::kept(
                said(payload),
                match location {
                    Some(at) => Some((at.file@, at.line, at.column)),
                    None => None,
                },
                said(thread),
                backtrace@,
            ),
    {
        let mut payload = match payload {
            Some(text) => text,
            None => "<非字符串 panic payload>".to_owned(),
        };
        let mut backtrace = backtrace;
        let location = match location {
            Some(at) => {
                let mut text = at.file;
                text.append(":");
                push_decimal(&mut text, at.line as u64);
                text.append(":");
                push_decimal(&mut text, at.column as u64);
                Some(text)
            },
            None => None,
        };
        truncate_utf8(&mut payload, PAYLOAD_LIMIT);
        truncate_utf8(&mut backtrace, BACKTRACE_LIMIT);
        PanicMetadata { payload, location, thread, backtrace }
    }
}

/// A line of a report that stands there only if there is something to say.
pub open spec fn optional_line(label: Seq<char>, text: Option<Seq<char>>) -> Seq<char> {
    match text {
        Some(text) => label + text + "\n"@,
        None => ""@,
    }
}

/// What a report begins with.
pub open spec fn preamble(dump_path: Seq<char>, metadata: Option<PanicView>) -> Seq<char> {
    "rskynet crash report\nminidump: "@ + dump_path + "\n"@ + match metadata {
        Some(metadata) => "kind: rust panic\npayload: "@ + metadata.payload + "\n"@
            + optional_line("location: "@, metadata.location) + optional_line(
            "thread: "@,
            metadata.thread,
        ) + "\nRust panic backtrace (captured by the panic hook):\n"@ + metadata.backtrace + "\n"@,
        None => "kind: native crash\n"@,
    }
}

/// Appends a line to a text, if there is something to say.
fn push_optional(out: &mut String, label: &str, text: &Option<String>)
    ensures
        final(out)@ == old(out)@ + optional_line(label@, said(*text)),
{
    match text {
        Some(text) => {
            out.append(label);
            out.append(text.as_str());
            out.append("\n");
        },
        None => {
            proof {
                reveal_strlit("");
            }
        },
    }
    assert(out@ =~= old(out)@ + optional_line(label@, said(*text)));
}

/// Writes what a report begins with.
pub fn write_report_preamble(
    report: &mut Vec<u8>,
    dump_path: &str,
    metadata: Option<&PanicMetadata>,
)
    ensures
        final(report)@ == old(report)@ + encode_utf8(
            preamble(
                dump_path@,
                match metadata {
                    Some(metadata) => Some(metadata@),
                    None => None,
                },
            ),
        ),
{
    let ghost view = match metadata {
        Some(metadata) => Some(metadata@),
        None => None,
    };
    let mut text = "rskynet crash report\nminidump: ".to_owned();
    text.append(dump_path);
    text.append("\n");
    match metadata {
        Some(metadata) => {
            text.append("kind: rust panic\npayload: ");
            text.append(metadata.payload.as_str());
            text.append("\n");
            push_optional(&mut text, "location: ", &metadata.location);
            push_optional(&mut text, "thread: ", &metadata.thread);
            text.append("\nRust panic backtrace (captured by the panic hook):\n");
            text.append(metadata.backtrace.as_str());
            text.append("\n");
        },
        None => {
            text.append("kind: native crash\n");
        },
    }
    assert(text@ =~= preamble(dump_path@, view));
    report.extend_from_slice(text.as_str().as_bytes());
    assert(report@ =~= old(report)@ + encode_utf8(preamble(dump_path@, view)));
}

/// What came of the attempt to read the stacks out of a dump.
#[derive(Debug)]
pub enum Walk {
    /// The stacks follow.
    Read,
    /// The dump was read, but the stacks could not be.
    Failed(String),
    /// The dump could not be read.
    Unreadable(String),
}

/// What a report says after its beginning.
pub open spec fn walk_text(panicked: bool, walk: Walk) -> Seq<char> {
    match walk {
        Walk::Read => if panicked {
            "\nPost-panic minidump snapshot (captured after the panic hook; not the panic origin):\n"@
        } else {
            "\nNative crash minidump stackwalk (crashing thread first):\n"@
        },
        Walk::Failed(reason) => "\nMinidump stackwalk failed: "@ + reason@ + "\n"@,
        Walk::Unreadable(reason) => "\nMinidump parse failed: "@ + reason@ + "\n"@,
    }
}

/// What a report says after its beginning. The stacks of a thread that panicked were taken after
/// the fact, and the report says so.
pub fn walk_heading(panicked: bool, walk: &Walk) -> (text: String)
    ensures
        text@ == walk_text(panicked, *walk),
{
    match walk {
        Walk::Read => if panicked {
            "\nPost-panic minidump snapshot (captured after the panic hook; not the panic origin):\n".to_owned()
        } else {
            "\nNative crash minidump stackwalk (crashing thread first):\n".to_owned()
        },
        Walk::Failed(reason) => {
            let mut text = "\nMinidump stackwalk failed: ".to_owned();
            text.append(reason.as_str());
            text.append("\n");
            text
        },
        Walk::Unreadable(reason) => {
            let mut text = "\nMinidump parse failed: ".to_owned();
            text.append(reason.as_str());
            text.append("\n");
            text
        },
    }
}

/// Whether all characters of a text are decimal digits.
pub open spec fn all_digits(text: Seq<char>) -> bool {
    forall|i: int| 0 <= i < text.len() ==> '0' <= #[trigger] text[i] <= '9'
}

/// The number of 32 bits that a text writes, if it does. A plus may stand before it.
pub open spec fn pid_of(text: Seq<char>) -> Option<u32> {
    let body = if text.len() > 0 && text[0] == '+' {
        text.skip(1)
    } else {
        text
    };
    if body.len() > 0 && all_digits(body) && number_of(body, 10) <= u32::MAX {
        Some(number_of(body, 10) as u32)
    } else {
        None
    }
}

/// A number does not become smaller by more digits.
proof fn lemma_longer_is_not_less(text: Seq<char>, count: int)
    requires
        0 <= count <= text.len(),
    ensures
        number_of(text.take(count), 10) <= number_of(text, 10),
    decreases text.len() - count,
{
    if count == text.len() {
        assert(text.take(count) =~= text);
    } else {
        lemma_longer_is_not_less(text, count + 1);
        assert(text.take(count + 1).drop_last() =~= text.take(count));
    }
}

/// Reads a number of 32 bits.
pub fn parse_pid(text: &str) -> (pid: Option<u32>)
    ensures
        pid == pid_of(text@),
{
    let length: usize = text.unicode_len();
    let mut i: usize = 0;
    if length > 0 && text.get_char(0) == '+' {
        i = 1;
    }
    let ghost start = i as int;
    let ghost body = text@.skip(start);
    assert(body == (if text@.len() > 0 && text@[0] == '+' {
        text@.skip(1)
    } else {
        text@
    })) by {
        assert(text@.skip(0) =~= text@);
    }
    if i == length {
        return None;
    }
    let mut value: u32 = 0;
    assert(body.take(0) =~= Seq::empty());
    while i < length
        invariant
            start <= i <= length,
            0 <= start,
            length == text@.len(),
            body == text@.skip(start),
            forall|k: int| 0 <= k < i - start ==> '0' <= #[trigger] body[k] <= '9',
            value == number_of(body.take(i - start), 10),
            body.len() > 0,
            pid_of(text@) == (if body.len() > 0 && all_digits(body) && number_of(body, 10)
                <= u32::MAX {
                Some(number_of(body, 10) as u32)
            } else {
                None
            }),
        decreases length - i,
    {
        let c = text.get_char(i);
        assert(body[i - start] == c);
        if c < '0' || c > '9' {
            return None;
        }
        let digit: u32 = c as u32 - '0' as u32;
        assert(body.take(i - start + 1).drop_last() =~= body.take(i - start));
        assert(body.take(i - start + 1).last() == c);
        proof {
            lemma_longer_is_not_less(body, i - start + 1);
        }
        let wide: u64 = value as u64 * 10 + digit as u64;
        if wide > u32::MAX as u64 {
            return None;
        }
        value = wide as u32;
        i += 1;
    }
    assert(body.take(i - start) =~= body);
    Some(value)
}

/// What the program that writes reports is told: which of its arguments names the socket, which
/// the directory, and whose crashes it reports.
#[derive(Debug, Clone, Copy)]
pub struct HelperArgs {
    pub socket: usize,
    pub directory: usize,
    pub pid: u32,
}

/// What an argument says, if it is a text.
pub open spec fn arg_views(args: Seq<Option<String>>) -> Seq<Option<Seq<char>>> {
    args.map_values(|a: Option<String>| said(a))
}

/// What the arguments of the program tell the one that writes reports, `None` where it is another
/// program, and what is wrong otherwise.
pub open spec fn told(args: Seq<Option<Seq<char>>>) -> Result<Option<HelperArgs>, Seq<char>> {
    if !(args.len() > 1 && args[1] == Some("--rskynet-crash-helper"@)) {
        Ok(None)
    } else if args.len() < 3 {
        Err("崩溃 helper 缺少 socket 参数"@)
    } else if args.len() < 4 {
        Err("崩溃 helper 缺少目录参数"@)
    } else if args.len() < 5 || args[4] is None || pid_of(args[4]->Some_0) is None {
        Err("崩溃 helper 的 pid 参数非法"@)
    } else {
        Ok(
            Some(
                HelperArgs { socket: 2, directory: 3, pid: pid_of(args[4]->Some_0)->Some_0 },
            ),
        )
    }
}

/// Reads the arguments of the program. They are those of the program that writes reports if the
/// first one after its name says so. An argument that is no text is `None`.
pub fn helper_args(args: &Vec<Option<String>>) -> (result: Result<Option<HelperArgs>, Error>)
    ensures
        !(args@.len() > 1 && args@[1] is Some && args@[1]->Some_0@ == "--rskynet-crash-helper"@)
            ==> (result matches Ok(None)),
        args@.len() > 1 && args@[1] is Some && args@[1]->Some_0@ == "--rskynet-crash-helper"@ ==> {
            if args@.len() < 3 {
                result matches Err(error) && error is Service && error.text()
                    == "崩溃 helper 缺少 socket 参数"@
            } else if args@.len() < 4 {
                result matches Err(error) && error is Service && error.text()
                    == "崩溃 helper 缺少目录参数"@
            } else if args@.len() < 5 || args@[4] is None || pid_of(args@[4]->Some_0@) is None {
                result matches Err(error) && error is Service && error.text()
                    == "崩溃 helper 的 pid 参数非法"@
            } else {
                result matches Ok(Some(found)) && found.socket == 2 && found.directory == 3
                    && pid_of(args@[4]->Some_0@) == Some(found.pid)
            }
        },
        match told(arg_views(args@)) {
            Ok(meant) => result matches Ok(found) && found == meant,
            Err(text) => result matches Err(error) && error is Service && error.text() == text,
        },
{
    if args.len() < 2 {
        return Ok(None);
    }
    let meant = match &args[1] {
        Some(arg) => same_text(arg.as_str(), helper_arg()),
        None => false,
    };
    if !meant {
        return Ok(None);
    }
    if args.len() < 3 {
        return Err(Error::Service("崩溃 helper 缺少 socket 参数".to_owned()));
    }
    if args.len() < 4 {
        return Err(Error::Service("崩溃 helper 缺少目录参数".to_owned()));
    }
    if args.len() >= 5 {
        match &args[4] {
            Some(arg) => {
                match parse_pid(arg.as_str()) {
                    Some(pid) => {
                        return Ok(Some(HelperArgs { socket: 2, directory: 3, pid }));
                    },
                    None => {},
                }
            },
            None => {},
        }
    }
    Err(Error::Service("崩溃 helper 的 pid 参数非法".to_owned()))
}

/// The name of an abstract socket for a process.
pub open spec fn socket_name(pid: u32, millis: u64) -> Seq<char> {
    "rskynet-crash-"@ + decimal(pid as nat) + "-"@ + decimal(millis as nat)
}

/// The name of a socket in the file system for a process.
pub open spec fn socket_file(pid: u32, millis: u64) -> Seq<char> {
    "rsc-"@ + decimal(pid as nat) + "-"@ + digits(millis as nat, 16) + ".sock"@
}

/// The name of the file of a dump of a process.
pub open spec fn dump_file(pid: u32, millis: u64) -> Seq<char> {
    decimal(pid as nat) + "-"@ + decimal(millis as nat) + ".dmp"@
}

/// The name of an abstract socket for a process.
pub fn abstract_socket_name(pid: u32, millis: u64) -> (name: String)
    ensures
        name@ == "rskynet-crash-"@ + decimal(pid as nat) + "-"@ + decimal(millis as nat),
        name@ == socket_name(pid, millis),
{
    let mut name = "rskynet-crash-".to_owned();
    push_decimal(&mut name, pid as u64);
    name.append("-");
    push_decimal(&mut name, millis);
    name
}

/// The name of a socket in the file system for a process.
pub fn socket_file_name(pid: u32, millis: u64) -> (name: String)
    ensures
        name@ == "rsc-"@ + decimal(pid as nat) + "-"@ + digits(millis as nat, 16) + ".sock"@,
        name@ == socket_file(pid, millis),
{
    let mut name = "rsc-".to_owned();
    push_decimal(&mut name, pid as u64);
    name.append("-");
    push_digits(&mut name, millis, 16);
    name.append(".sock");
    name
}

/// What follows an attempt to reach the program that writes reports.
#[derive(Debug)]
pub enum Attempt {
    /// It was reached.
    Connected,
    /// It is tried again in a while.
    Again,
    /// It is given up.
    GivenUp(Error),
}

/// What follows an attempt to reach the program that writes reports, and why it is given up.
#[verifier::ext_equal]
pub enum AttemptView {
    Connected,
    Again,
    GivenUp(Seq<char>),
}

impl View for Attempt {
    type V = AttemptView;

    open spec fn view(&self) -> AttemptView {
        match self {
            Attempt::Connected => AttemptView::Connected,
            Attempt::Again => AttemptView::Again,
            Attempt::GivenUp(error) => AttemptView::GivenUp(error.text()),
        }
    }
}

/// What follows an attempt to reach the program that writes reports.
pub open spec fn attempted(connected: bool, exited: Option<Seq<char>>, late: bool) -> AttemptView {
    if connected {
        AttemptView::Connected
    } else {
        match exited {
            Some(status) => AttemptView::GivenUp("崩溃 helper 在 IPC 握手前退出："@ + status),
            None => if late {
                AttemptView::GivenUp("等待崩溃 helper IPC 握手超时"@)
            } else {
                AttemptView::Again
            },
        }
    }
}

/// Settles what follows an attempt to reach the program that writes reports. `exited` says how it
/// ended, if it did, and `late` that there is no more time.
pub fn after_attempt(connected: bool, exited: Option<&str>, late: bool) -> (next: Attempt)
    ensures
        connected ==> next is Connected,
        !connected ==> match exited {
            Some(status) => next matches Attempt::GivenUp(error) && error is Service
                && error.text() == "崩溃 helper 在 IPC 握手前退出："@ + status@,
            None => if late {
                next matches Attempt::GivenUp(error) && error is Service && error.text()
                    == "等待崩溃 helper IPC 握手超时"@
            } else {
                next is Again
            },
        },
        next@ == attempted(
            connected,
            match exited {
                Some(status) => Some(status@),
                None => None,
            },
            late,
        ),
{
    if connected {
        return Attempt::Connected;
    }
    match exited {
        Some(status) => {
            let mut text = "崩溃 helper 在 IPC 握手前退出：".to_owned();
            text.append(status);
            Attempt::GivenUp(Error::Service(text))
        },
        None => if late {
            Attempt::GivenUp(Error::Service("等待崩溃 helper IPC 握手超时".to_owned()))
        } else {
            Attempt::Again
        },
    }
}

/// How a program that was asked to end is found.
#[derive(Debug, Clone, Copy)]
pub enum Ending {
    Ended,
    Running,
    Unknown,
}

/// What is done about a program that was asked to end.
#[derive(Debug, Clone, Copy)]
pub enum Stopping {
    Done,
    Again,
    Kill,
}

/// What is done about a program that was asked to end.
pub open spec fn stopping(found: Ending, late: bool) -> Stopping {
    match found {
        Ending::Ended => Stopping::Done,
        Ending::Running => if late {
            Stopping::Kill
        } else {
            Stopping::Again
        },
        Ending::Unknown => Stopping::Kill,
    }
}

/// Settles what is done about a program that was asked to end: it gets some time, and is then
/// killed.
pub fn after_wait(found: Ending, late: bool) -> (next: Stopping)
    ensures
        next is Done <==> found is Ended,
        next is Again <==> found is Running && !late,
        next == stopping(found, late),
{
    match found {
        Ending::Ended => Stopping::Done,
        Ending::Running => if late {
            Stopping::Kill
        } else {
            Stopping::Again
        },
        Ending::Unknown => Stopping::Kill,
    }
}

/// What is known of a panic after a message.
pub open spec fn heard(
    known: Option<PanicMetadata>,
    kind: u32,
    read: Option<PanicMetadata>,
) -> Option<PanicMetadata> {
    if kind == PANIC_MESSAGE && read is Some {
        read
    } else {
        known
    }
}

/// Writes the reports of one process.
#[derive(Debug)]
pub struct ReportHandler {
    pub pid: u32,
    pub metadata: Option<PanicMetadata>,
}

impl ReportHandler {
    /// Nothing has panicked yet.
    pub fn new(pid: u32) -> (handler: ReportHandler)
        ensures
            handler.pid == pid,
            handler.metadata is None,
    {
        ReportHandler { pid, metadata: None }
    }

    /// The name of the file of a dump.
    pub fn dump_name(&self, millis: u64) -> (name: String)
        ensures
            name@ == decimal(self.pid as nat) + "-"@ + decimal(millis as nat) + ".dmp"@,
            name@ == dump_file(self.pid, millis),
    {
        let mut name = String::new();
        push_decimal(&mut name, self.pid as u64);
        name.append("-");
        push_decimal(&mut name, millis);
        name.append(".dmp");
        assert(name@ =~= decimal(self.pid as nat) + "-"@ + decimal(millis as nat) + ".dmp"@);
        name
    }

    /// A message came. `read` is what its bytes say of a panic, if they do.
    pub fn on_message(&mut self, kind: u32, read: Option<PanicMetadata>)
        ensures
            final(self).pid == old(self).pid,
            kind == PANIC_MESSAGE && read is Some ==> final(self).metadata == read,
            !(kind == PANIC_MESSAGE && read is Some) ==> final(self).metadata
                == old(self).metadata,
            final(self).metadata == heard(old(self).metadata, kind, read),
    {
        if kind == PANIC_MESSAGE {
            match read {
                Some(metadata) => {
                    self.metadata = Some(metadata);
                },
                None => {},
            }
        }
    }

    /// A dump was made: hands out what was said of the panic before it, once.
    pub fn take_metadata(&mut self) -> (metadata: Option<PanicMetadata>)
        ensures
            metadata == old(self).metadata,
            final(self).pid == old(self).pid,
            final(self).metadata is None,
    {
        self.metadata.take()
    }

    /// Whether the work is over: it is when the last process that could crash is gone.
    pub fn is_over(&self, clients: usize) -> (over: bool)
        ensures
            over == (clients == 0),
    {
        clients == 0
    }
}

/// Where the code of the program lies in a dump and in the program that reads it.
#[derive(Debug, Clone, Copy)]
pub struct Bases {
    pub dump_base: Option<u64>,
    pub local_base: Option<usize>,
}

impl Bases {
    /// Where an instruction of a dump lies in the program that reads it, if it is one of the
    /// program.
    pub open spec fn local(self, module_base: u64, instruction: u64) -> Option<usize> {
        if self.dump_base is Some && self.local_base is Some && self.dump_base->Some_0
            == module_base && instruction >= module_base && self.local_base->Some_0 + (instruction
            - module_base) <= usize::MAX {
            Some((self.local_base->Some_0 + (instruction - module_base)) as usize)
        } else {
            None
        }
    }

    /// Where the function of an instruction begins in a dump: where its symbol lies, or else at
    /// the instruction itself.
    pub open spec fn function(
        self,
        symbol_address: Option<usize>,
        dump_base: u64,
        local_base: usize,
        instruction: u64,
    ) -> u64 {
        match symbol_address {
            Some(address) => if address >= local_base && dump_base + (address - local_base)
                <= u64::MAX {
                (dump_base + (address - local_base)) as u64
            } else {
                instruction
            },
            None => instruction,
        }
    }

    /// Where an instruction of a dump lies in the program that reads it.
    pub fn local_address(&self, module_base: u64, instruction: u64) -> (address: Option<usize>)
        ensures
            address == self.local(module_base, instruction),
    {
        match (self.dump_base, self.local_base) {
            (Some(dump_base), Some(local_base)) => {
                if module_base != dump_base || instruction < dump_base {
                    return None;
                }
                let relative: u64 = instruction - dump_base;
                if relative as u128 + local_base as u128 > usize::MAX as u128 {
                    return None;
                }
                Some(local_base + relative as usize)
            },
            _ => None,
        }
    }

    /// Where the function of an instruction begins in a dump.
    pub fn function_base(
        &self,
        symbol_address: Option<usize>,
        dump_base: u64,
        local_base: usize,
        instruction: u64,
    ) -> (base: u64)
        ensures
            base == self.function(symbol_address, dump_base, local_base, instruction),
    {
        match symbol_address {
            Some(address) => {
                if address < local_base {
                    return instruction;
                }
                let offset: u64 = (address - local_base) as u64;
                match dump_base.checked_add(offset) {
                    Some(base) => base,
                    None => instruction,
                }
            },
            None => instruction,
        }
    }
}

/// Going down, the place that is found is not above the one that the search begins at, and a
/// character begins there.
pub proof fn lemma_boundary(bytes: Seq<u8>, from: int)
    requires
        valid_utf8(bytes),
        0 <= from,
    ensures
        0 <= boundary(bytes, from) <= from,
        is_char_boundary(bytes, boundary(bytes, from)),
    decreases from,
{
    if from > 0 && !is_char_boundary(bytes, from) {
        lemma_boundary(bytes, from - 1);
    }
}

/// A text that is cut keeps its beginning, in whole characters and no more bytes than the limit
/// allows.
pub proof fn law_a_cut_text_keeps_its_beginning(text: Seq<char>, limit: usize)
    requires
        limit < encode_utf8(text).len() <= usize::MAX,
    ensures
        exists|kept: Seq<char>|
            {
                &&& cut(text, limit) == #[trigger] (kept + "\n<truncated>"@)
                &&& kept.is_prefix_of(text)
                &&& encode_utf8(kept).len() <= limit
            },
{
    let bytes = encode_utf8(text);
    encode_utf8_valid_utf8(text);
    encode_utf8_decode_utf8(text);
    lemma_boundary(bytes, limit as int);
    let end = boundary(bytes, limit as int);
    let kept = decode_utf8(bytes.subrange(0, end));
    decode_utf8_split(bytes, end);
    vstd::utf8::valid_utf8_split(bytes, end);
    vstd::utf8::decode_utf8_encode_utf8(bytes.subrange(0, end));
    assert(text == kept + decode_utf8(bytes.subrange(end, bytes.len() as int)));
    assert(kept.is_prefix_of(text));
    assert(encode_utf8(kept) == bytes.subrange(0, end));
    assert(cut(text, limit) == kept + "\n<truncated>"@);
}

} // verus!
