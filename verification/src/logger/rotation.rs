//! When a new log file is begun.

use crate::logger::name::Day;
use vstd::prelude::*;

verus! {

/// How many bytes a log file holds, unless something else is set.
pub const DEFAULT_MAX_FILE_SIZE: u64 = 104_857_600;

/// A log file that is being written.
#[derive(Debug)]
pub struct LogFile {
    /// Where it is.
    pub path: String,
    /// The day on which it was opened.
    pub date: Day,
    /// How many bytes it holds.
    pub len: u64,
}

/// When a new log file is begun.
#[derive(Debug, Clone, Copy)]
pub struct RotationConfig {
    /// On every new day.
    pub rotate_daily: bool,
    /// Where the file would hold more bytes than this. 0 is no limit.
    pub max_file_size: u64,
}

impl Default for RotationConfig {
    fn default() -> (config: RotationConfig)
        ensures
            config == (RotationConfig {
                rotate_daily: true,
                max_file_size: DEFAULT_MAX_FILE_SIZE,
            }),
    {
        RotationConfig { rotate_daily: true, max_file_size: DEFAULT_MAX_FILE_SIZE }
    }
}

/// What is left of a sum that does not fit.
pub open spec fn saturated(sum: int) -> int {
    if sum > u64::MAX {
        u64::MAX as int
    } else {
        sum
    }
}

/// Whether a new file is due before a line is written: on a new day, and where the line does not
/// fit. A line always fits into an empty file.
pub open spec fn rotation_due(
    file: LogFile,
    today: Day,
    next_line_len: u64,
    config: RotationConfig,
) -> bool {
    ||| config.rotate_daily && file.date != today
    ||| config.max_file_size != 0 && file.len != 0 && saturated(file.len + next_line_len)
        > config.max_file_size
}

/// Whether a new file is due before a line is written.
pub fn should_rotate(file: &LogFile, today: Day, next_line_len: u64, config: RotationConfig) -> (due:
    bool)
    ensures
        due == rotation_due(*file, today, next_line_len, config),
{
    (config.rotate_daily && file.date != today) || (config.max_file_size != 0 && file.len != 0
        && file.len.saturating_add(next_line_len) > config.max_file_size)
}

/// A file does not grow past its limit, unless it holds a single line.
pub proof fn law_a_file_stays_within_its_limit(
    file: LogFile,
    today: Day,
    next_line_len: u64,
    config: RotationConfig,
)
    requires
        config.max_file_size != 0,
        config.max_file_size < u64::MAX,
        !rotation_due(file, today, next_line_len, config),
    ensures
        file.len == 0 || file.len + next_line_len <= config.max_file_size,
{
}

} // verus!
