//! The log service.

#[allow(unused_imports)]
use crate::logger::name::text_view;
use crate::logger::name::Day;
use crate::logger::rotation::{should_rotate, LogFile, RotationConfig, DEFAULT_MAX_FILE_SIZE};
#[allow(unused_imports)]
use crate::logger::rotation::{rotation_due, saturated};
#[allow(unused_imports)]
use crate::text::{decimal, digits, padded, trimmed};
use crate::text::{push_decimal, push_padded, trim};
use vstd::prelude::*;
#[allow(unused_imports)]
use vstd::utf8::encode_utf8;

verus! {

/// How many lines may wait, unless something else is set.
pub const DEFAULT_MAX_QUEUE: usize = 10_000;

/// What can be set for the log.
#[derive(Debug)]
pub struct LoggerConfig {
    /// Where the files are. Without it the log goes to the standard output alone.
    pub path: String,
    /// Whether a new file is begun on every new day.
    pub rotate_daily: bool,
    /// How many bytes a file may hold. 0 is no limit.
    pub max_file_size: u64,
    /// How many lines may wait. 0 is no limit.
    pub max_queue: usize,
}

impl Default for LoggerConfig {
    fn default() -> (config: LoggerConfig)
        ensures
            config.path@ == ""@,
            config.rotate_daily,
            config.max_file_size == DEFAULT_MAX_FILE_SIZE,
            config.max_queue == DEFAULT_MAX_QUEUE,
    {
        LoggerConfig {
            path: "".to_owned(),
            rotate_daily: true,
            max_file_size: DEFAULT_MAX_FILE_SIZE,
            max_queue: DEFAULT_MAX_QUEUE,
        }
    }
}

/// Keeps the number of lines that wait within a limit. The older lines are left out, and how many
/// there were is said once there is room again.
#[derive(Debug)]
pub struct Backpressure {
    pub max_queue: usize,
    pub dropped: usize,
}

/// What becomes of a line.
#[derive(Debug, PartialEq, Eq, Structural)]
pub enum LogDecision {
    Drop,
    Write { dropped: usize },
}

impl Default for Backpressure {
    fn default() -> (state: Backpressure)
        ensures
            state.max_queue == DEFAULT_MAX_QUEUE,
            state.dropped == 0,
    {
        Backpressure { max_queue: DEFAULT_MAX_QUEUE, dropped: 0 }
    }
}

/// Whether a line is left out where so many more wait.
pub open spec fn left_out(max_queue: usize, queued: usize) -> bool {
    max_queue != 0 && queued >= max_queue
}

/// What becomes of a line where so many more wait, and so many were left out before it.
pub open spec fn decided(max_queue: usize, dropped: usize, queued: usize) -> LogDecision {
    if left_out(max_queue, queued) {
        LogDecision::Drop
    } else {
        LogDecision::Write { dropped }
    }
}

/// How many lines are still to be spoken of after such a line.
pub open spec fn owed_after(max_queue: usize, dropped: usize, queued: usize) -> usize {
    if !left_out(max_queue, queued) {
        0
    } else if dropped == usize::MAX {
        dropped
    } else {
        (dropped + 1) as usize
    }
}

/// What is said before a line of those that were left out.
pub open spec fn report_of(decision: LogDecision) -> Option<Seq<char>> {
    match decision {
        LogDecision::Drop => None,
        LogDecision::Write { dropped } => if dropped == 0 {
            None
        } else {
            Some("日志队列积压，已丢弃 "@ + decimal(dropped as nat) + " 条较旧日志"@)
        },
    }
}

impl Backpressure {
    /// Settles what becomes of a line. `queued` does not count the line itself, so that from
    /// `max_queue` on there were more than that before it was taken out.
    pub fn decide(&mut self, queued: usize) -> (decision: LogDecision)
        ensures
            final(self).max_queue == old(self).max_queue,
            left_out(old(self).max_queue, queued) ==> {
                &&& decision == LogDecision::Drop
                &&& final(self).dropped == if old(self).dropped == usize::MAX {
                    usize::MAX as int
                } else {
                    old(self).dropped + 1
                }
            },
            !left_out(old(self).max_queue, queued) ==> {
                &&& decision == LogDecision::Write { dropped: old(self).dropped }
                &&& final(self).dropped == 0
            },
            decision == decided(old(self).max_queue, old(self).dropped, queued),
            final(self).dropped == owed_after(old(self).max_queue, old(self).dropped, queued),
    {
        if self.max_queue != 0 && queued >= self.max_queue {
            self.dropped = self.dropped.saturating_add(1);
            return LogDecision::Drop;
        }
        let dropped: usize = self.dropped;
        self.dropped = 0;
        LogDecision::Write { dropped }
    }
}

/// How many lines are counted as left out after these came, and how many were said to be.
pub open spec fn counted(max_queue: usize, dropped: nat, queued: Seq<usize>) -> (nat, nat)
    decreases queued.len(),
{
    if queued.len() == 0 {
        (dropped, 0)
    } else {
        let (waiting, said) = counted(max_queue, dropped, queued.drop_last());
        if left_out(max_queue, queued.last()) {
            (waiting + 1, said)
        } else {
            (0, said + waiting)
        }
    }
}

/// How many of these lines are left out.
pub open spec fn left_out_of(max_queue: usize, queued: Seq<usize>) -> nat
    decreases queued.len(),
{
    if queued.len() == 0 {
        0
    } else if left_out(max_queue, queued.last()) {
        left_out_of(max_queue, queued.drop_last()) + 1
    } else {
        left_out_of(max_queue, queued.drop_last())
    }
}

/// Every line that is left out is counted once: what was said so far and what is still to be said
/// make up all that was left out.
pub proof fn law_every_line_left_out_is_counted_once(
    max_queue: usize,
    dropped: nat,
    queued: Seq<usize>,
)
    ensures
        ({
            let (waiting, said) = counted(max_queue, dropped, queued);
            waiting + said == dropped + left_out_of(max_queue, queued)
        }),
    decreases queued.len(),
{
    if queued.len() > 0 {
        law_every_line_left_out_is_counted_once(max_queue, dropped, queued.drop_last());
    }
}

/// A line of the log: when it came, in seconds since the node started, from whom, and what it
/// says.
pub open spec fn line_text(elapsed_ms: u64, source: u32, text: Seq<char>) -> Seq<char> {
    "["@ + padded(decimal((elapsed_ms / 1000) as nat), 6, ' ') + "."@ + padded(
        decimal((elapsed_ms % 1000) as nat),
        3,
        '0',
    ) + "] [:"@ + padded(digits(source as nat, 16), 8, '0') + "] "@ + text
}

/// A line of the log.
pub fn log_line(elapsed_ms: u64, source: u32, text: &str) -> (line: String)
    ensures
        line@ == line_text(elapsed_ms, source, text@),
{
    proof {
        reveal_strlit(" ");
        reveal_strlit("0");
    }
    let mut line = "[".to_owned();
    push_padded(&mut line, elapsed_ms / 1000, 10, 6, " ");
    line.append(".");
    push_padded(&mut line, elapsed_ms % 1000, 10, 3, "0");
    line.append("] [:");
    push_padded(&mut line, source as u64, 16, 8, "0");
    line.append("] ");
    line.append(text);
    line
}

/// What a line says where the message held no text.
pub fn illegal_text() -> (text: &'static str)
    ensures
        text@ == "<非法日志>"@,
{
    "<非法日志>"
}

/// What is said of lines that were left out.
pub fn dropped_text(dropped: usize) -> (text: String)
    ensures
        text@ == "日志队列积压，已丢弃 "@ + decimal(dropped as nat) + " 条较旧日志"@,
{
    let mut text = "日志队列积压，已丢弃 ".to_owned();
    push_decimal(&mut text, dropped as u64);
    text.append(" 条较旧日志");
    text
}

/// What is said where no new file could be begun.
pub fn rotate_failed(reason: &str) -> (text: String)
    ensures
        text@ == "日志文件滚动失败："@ + reason@,
{
    let mut text = "日志文件滚动失败：".to_owned();
    text.append(reason);
    text
}

/// What is said where a file could not be opened again.
pub fn reopen_failed(reason: &str) -> (text: String)
    ensures
        text@ == "重开日志文件失败："@ + reason@,
{
    let mut text = "重开日志文件失败：".to_owned();
    text.append(reason);
    text
}

/// How many bytes a line takes up in a file, with the end of the line.
pub open spec fn line_bytes(line: Seq<char>) -> int {
    encode_utf8(line).len() as usize as u64 + 1
}

/// The file after a line was written to it, if there is one.
pub open spec fn file_after(file: Option<LogFile>, line: Seq<char>) -> Option<LogFile> {
    match file {
        Some(file) => Some(
            LogFile {
                path: file.path,
                date: file.date,
                len: saturated(file.len + saturated(line_bytes(line))) as u64,
            },
        ),
        None => None,
    }
}

/// Whether a new file is begun before a line is written.
pub open spec fn begins_anew(
    file: Option<LogFile>,
    today: Day,
    line: Seq<char>,
    config: RotationConfig,
) -> bool {
    match file {
        Some(file) => rotation_due(file, today, saturated(line_bytes(line)) as u64, config),
        None => false,
    }
}

/// Which file is opened again.
#[derive(Debug)]
pub enum Reopen {
    /// None: there are no files.
    Nothing,
    /// The one that is being written.
    Active(String),
    /// A new one.
    New,
}

/// The log service.
#[derive(Debug)]
pub struct Logger {
    /// Where the files are. Empty means that there are none.
    pub path: String,
    pub file: Option<LogFile>,
    pub rotation: RotationConfig,
    pub backpressure: Backpressure,
}

impl Default for Logger {
    fn default() -> (logger: Logger)
        ensures
            logger.path@ == ""@,
            logger.file is None,
            logger.rotation == (RotationConfig {
                rotate_daily: true,
                max_file_size: DEFAULT_MAX_FILE_SIZE,
            }),
            logger.backpressure.max_queue == DEFAULT_MAX_QUEUE,
            logger.backpressure.dropped == 0,
    {
        Logger {
            path: "".to_owned(),
            file: None,
            rotation: RotationConfig::default(),
            backpressure: Backpressure::default(),
        }
    }
}

impl Logger {
    /// Takes over what is set, and says where a first file is to be opened, if anywhere.
    pub fn configure(&mut self, config: &LoggerConfig) -> (path: Option<String>)
        ensures
            final(self).path == old(self).path,
            final(self).file == old(self).file,
            final(self).rotation == (RotationConfig {
                rotate_daily: config.rotate_daily,
                max_file_size: config.max_file_size,
            }),
            final(self).backpressure.max_queue == config.max_queue,
            final(self).backpressure.dropped == old(self).backpressure.dropped,
            match path {
                Some(path) => path@ == trimmed(config.path@) && path@.len() > 0,
                None => trimmed(config.path@).len() == 0,
            },
    {
        self.backpressure.max_queue = config.max_queue;
        self.rotation = RotationConfig {
            rotate_daily: config.rotate_daily,
            max_file_size: config.max_file_size,
        };
        let path = trim(config.path.as_str());
        if path.is_empty() {
            None
        } else {
            Some(path.to_owned())
        }
    }

    /// The first file is open.
    pub fn adopt(&mut self, path: String)
        ensures
            final(self).path == path,
            final(self).file == old(self).file,
            final(self).rotation == old(self).rotation,
            final(self).backpressure == old(self).backpressure,
    {
        self.path = path;
    }

    /// A file is open, and is written from now on.
    pub fn opened(&mut self, file: LogFile)
        ensures
            final(self).file == Some(file),
            final(self).path == old(self).path,
            final(self).rotation == old(self).rotation,
            final(self).backpressure == old(self).backpressure,
    {
        self.file = Some(file);
    }

    /// Whether a new file is to be begun before this line is written.
    pub fn rotation_needed(&self, today: Day, line: &str) -> (needed: bool)
        ensures
            needed == (self.file matches Some(file) && rotation_due(
                file,
                today,
                saturated(line_bytes(line@)) as u64,
                self.rotation,
            )),
            needed == begins_anew(self.file, today, line@, self.rotation),
    {
        match &self.file {
            Some(file) => should_rotate(
                file,
                today,
                (line.len() as u64).saturating_add(1),
                self.rotation,
            ),
            None => false,
        }
    }

    /// A line was written to the file.
    pub fn wrote(&mut self, line: &str)
        ensures
            final(self).path == old(self).path,
            final(self).rotation == old(self).rotation,
            final(self).backpressure == old(self).backpressure,
            match old(self).file {
                Some(file) => final(self).file == Some(
                    LogFile {
                        path: file.path,
                        date: file.date,
                        len: saturated(file.len + saturated(line_bytes(line@))) as u64,
                    },
                ),
                None => final(self).file is None,
            },
            final(self).file == file_after(old(self).file, line@),
    {
        match self.file.take() {
            Some(file) => {
                let more: u64 = (line.len() as u64).saturating_add(1);
                self.file =
                Some(
                    LogFile { path: file.path, date: file.date, len: file.len.saturating_add(more) },
                );
            },
            None => {},
        }
    }

    /// What is to be done where the files are to be opened again.
    pub fn reopening(&self) -> (next: Reopen)
        ensures
            self.path@.len() == 0 ==> next is Nothing,
            self.path@.len() > 0 ==> match self.file {
                Some(file) => next matches Reopen::Active(path) && path@ == file.path@,
                None => next is New,
            },
    {
        if self.path.as_str().is_empty() {
            return Reopen::Nothing;
        }
        match &self.file {
            Some(file) => Reopen::Active(file.path.clone()),
            None => Reopen::New,
        }
    }

    /// A message to the log holds a line: says whether it is written, and what is said before it
    /// of lines that were left out.
    pub fn received(&mut self, queued: usize) -> (next: Option<Option<String>>)
        ensures
            final(self).path == old(self).path,
            final(self).file == old(self).file,
            final(self).rotation == old(self).rotation,
            final(self).backpressure.max_queue == old(self).backpressure.max_queue,
            left_out(old(self).backpressure.max_queue, queued) ==> {
                &&& next is None
                &&& final(self).backpressure.dropped == if old(self).backpressure.dropped
                    == usize::MAX {
                    usize::MAX as int
                } else {
                    old(self).backpressure.dropped + 1
                }
            },
            !left_out(old(self).backpressure.max_queue, queued) ==> {
                &&& final(self).backpressure.dropped == 0
                &&& next matches Some(report) && match report {
                    None => old(self).backpressure.dropped == 0,
                    Some(text) => {
                        &&& old(self).backpressure.dropped != 0
                        &&& text@ == "日志队列积压，已丢弃 "@ + decimal(
                            old(self).backpressure.dropped as nat,
                        ) + " 条较旧日志"@
                    },
                }
            },
            ({
                let before = old(self).backpressure;
                let decision = decided(before.max_queue, before.dropped, queued);
                &&& final(self).backpressure.dropped == owed_after(
                    before.max_queue,
                    before.dropped,
                    queued,
                )
                &&& next is None <==> decision is Drop
                &&& next matches Some(report) ==> text_view(report) == report_of(decision)
            }),
    {
        match self.backpressure.decide(queued) {
            LogDecision::Drop => None,
            LogDecision::Write { dropped } => if dropped != 0 {
                Some(Some(dropped_text(dropped)))
            } else {
                Some(None)
            },
        }
    }
}

} // verus!
