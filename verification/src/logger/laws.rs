//! What holds of the log: which lines are written, what they show, and which file they end up in.

#[allow(unused_imports)]
use crate::logger::name::{two, Day, Moment, PartsView};
#[allow(unused_imports)]
use crate::logger::rotation::{rotation_due, LogFile, RotationConfig};
#[allow(unused_imports)]
use crate::logger::service::{
    begins_anew, decided, file_after, line_bytes, line_text, owed_after, report_of, LogDecision,
};
#[allow(unused_imports)]
use crate::text::{
    decimal, digit_value, digits, law_digits_read_back, lemma_digits_nonempty, number_of, padded,
    repeated,
};
use vstd::prelude::*;
#[allow(unused_imports)]
use vstd::utf8::encode_utf8;

verus! {

/// A line is written exactly if fewer lines wait than are allowed, or if any number may. What is
/// written is never held back by what was left out before.
pub proof fn law_lines_are_left_out_only_when_too_many_wait(
    max_queue: usize,
    dropped: usize,
    queued: usize,
)
    ensures
        max_queue == 0 ==> decided(max_queue, dropped, queued) is Write,
        queued < max_queue ==> decided(max_queue, dropped, queued) is Write,
        0 < max_queue <= queued ==> decided(max_queue, dropped, queued) is Drop,
{
}

/// How many lines are still to be spoken of after lines that came while so many others waited.
pub open spec fn owed(max_queue: usize, dropped: usize, queued: Seq<usize>) -> usize
    decreases queued.len(),
{
    if queued.len() == 0 {
        dropped
    } else {
        owed_after(max_queue, owed(max_queue, dropped, queued.drop_last()), queued.last())
    }
}

/// How many lines were spoken of as left out while these lines came.
pub open spec fn spoken(max_queue: usize, dropped: usize, queued: Seq<usize>) -> nat
    decreases queued.len(),
{
    if queued.len() == 0 {
        0
    } else {
        let before = owed(max_queue, dropped, queued.drop_last());
        spoken(max_queue, dropped, queued.drop_last()) + match decided(
            max_queue,
            before,
            queued.last(),
        ) {
            LogDecision::Drop => 0nat,
            LogDecision::Write { dropped } => dropped as nat,
        }
    }
}

/// How many of these lines were not written.
pub open spec fn unwritten(max_queue: usize, dropped: usize, queued: Seq<usize>) -> nat
    decreases queued.len(),
{
    if queued.len() == 0 {
        0
    } else {
        let before = owed(max_queue, dropped, queued.drop_last());
        unwritten(max_queue, dropped, queued.drop_last()) + if decided(
            max_queue,
            before,
            queued.last(),
        ) is Drop {
            1nat
        } else {
            0nat
        }
    }
}

/// No line is left out in silence: what was spoken of and what is still to be spoken of are
/// together all the lines that were not written. After a line that is written nothing is owed.
pub proof fn law_no_line_is_left_out_in_silence(
    max_queue: usize,
    dropped: usize,
    queued: Seq<usize>,
)
    requires
        dropped + queued.len() <= usize::MAX,
    ensures
        spoken(max_queue, dropped, queued) + owed(max_queue, dropped, queued) == dropped
            + unwritten(max_queue, dropped, queued),
        queued.len() > 0 && decided(
            max_queue,
            owed(max_queue, dropped, queued.drop_last()),
            queued.last(),
        ) is Write ==> owed(max_queue, dropped, queued) == 0,
    decreases queued.len(),
{
    lemma_owed_is_small(max_queue, dropped, queued);
    if queued.len() > 0 {
        law_no_line_is_left_out_in_silence(max_queue, dropped, queued.drop_last());
        lemma_owed_is_small(max_queue, dropped, queued.drop_last());
    }
}

proof fn lemma_owed_is_small(max_queue: usize, dropped: usize, queued: Seq<usize>)
    requires
        dropped + queued.len() <= usize::MAX,
    ensures
        owed(max_queue, dropped, queued) <= dropped + queued.len(),
    decreases queued.len(),
{
    if queued.len() > 0 {
        lemma_owed_is_small(max_queue, dropped, queued.drop_last());
    }
}

/// What is said of lines that were left out holds their number, and something is said only if
/// there were some.
pub proof fn law_the_number_of_lines_left_out_is_said(dropped: usize)
    ensures
        report_of(LogDecision::Write { dropped }) is Some <==> dropped > 0,
        report_of(LogDecision::Drop) is None,
        dropped > 0 ==> exists|before: Seq<char>, number: Seq<char>, after: Seq<char>|
            #[trigger] tells(
                report_of(LogDecision::Write { dropped })->0,
                before,
                number,
                after,
                dropped as nat,
            ),
{
    if dropped > 0 {
        law_digits_read_back(dropped as nat, 10);
        assert(tells(
            report_of(LogDecision::Write { dropped })->0,
            "日志队列积压，已丢弃 "@,
            decimal(dropped as nat),
            " 条较旧日志"@,
            dropped as nat,
        ));
    }
}

/// A text holds a number between what stands before and behind it.
pub open spec fn tells(
    text: Seq<char>,
    before: Seq<char>,
    number: Seq<char>,
    after: Seq<char>,
    value: nat,
) -> bool {
    text == before + number + after && number_of(number, 10) == value
}

/// A line of this form shows this time, this source and this text.
pub open spec fn shows(
    line: Seq<char>,
    blanks: nat,
    seconds: Seq<char>,
    millis: Seq<char>,
    from: Seq<char>,
    text: Seq<char>,
) -> bool {
    &&& line == "["@ + (repeated(' ', blanks) + seconds) + "."@ + millis + "] [:"@ + from + "] "@
        + text
    &&& blanks == 0 || blanks + seconds.len() == 6
    &&& seconds.len() >= 1
    &&& blanks + seconds.len() >= 6
    &&& millis.len() == 3
    &&& from.len() == 8
}

/// A line shows when it came to the millisecond, from whom, and what it says: each can be read out
/// of it again.
pub proof fn law_a_line_shows_its_time_and_source(elapsed_ms: u64, source: u32, text: Seq<char>)
    ensures
        exists|blanks: nat, seconds: Seq<char>, millis: Seq<char>, from: Seq<char>|
            #[trigger] shows(
                line_text(elapsed_ms, source, text),
                blanks,
                seconds,
                millis,
                from,
                text,
            ) && number_of(seconds, 10) * 1000 + number_of(millis, 10) == elapsed_ms && number_of(
                from,
                16,
            ) == source,
{
    let seconds = decimal((elapsed_ms / 1000) as nat);
    let millis = padded(decimal((elapsed_ms % 1000) as nat), 3, '0');
    let from = padded(digits(source as nat, 16), 8, '0');
    let blanks: nat = if seconds.len() >= 6 {
        0
    } else {
        (6 - seconds.len()) as nat
    };
    law_digits_read_back((elapsed_ms / 1000) as nat, 10);
    lemma_digits_nonempty((elapsed_ms / 1000) as nat, 10);
    lemma_filled_reads_back((elapsed_ms % 1000) as nat, 10, 3);
    lemma_filled_reads_back(source as nat, 16, 8);
    lemma_three_digits((elapsed_ms % 1000) as nat);
    lemma_eight_digits(source as nat);
    assert(padded(seconds, 6, ' ') =~= repeated(' ', blanks) + seconds);
    assert(shows(
        line_text(elapsed_ms, source, text),
        blanks,
        seconds,
        millis,
        from,
        text,
    ));
}

/// A number that is filled up with zeros reads back as itself.
proof fn lemma_filled_reads_back(value: nat, base: nat, width: nat)
    requires
        2 <= base <= 16,
    ensures
        number_of(padded(digits(value, base), width, '0'), base) == value,
{
    law_digits_read_back(value, base);
    let text = digits(value, base);
    if text.len() < width {
        lemma_zeros(text, (width - text.len()) as nat, base);
    }
}

/// Zeros on the left leave a number as it is.
proof fn lemma_zeros(text: Seq<char>, count: nat, base: nat)
    ensures
        number_of(repeated('0', count) + text, base) == number_of(text, base),
    decreases text.len(), count,
{
    let whole = repeated('0', count) + text;
    if text.len() > 0 {
        lemma_zeros(text.drop_last(), count, base);
        assert(whole.drop_last() =~= repeated('0', count) + text.drop_last());
        assert(whole.last() == text.last());
    } else if count > 0 {
        lemma_zeros(text, (count - 1) as nat, base);
        assert(whole.drop_last() =~= repeated('0', (count - 1) as nat) + text);
        assert(whole.last() == '0');
        assert(digit_value('0') == 0);
        assert(number_of(whole, base) == number_of(whole.drop_last(), base) * base);
        assert(0 * base == 0) by (nonlinear_arith);
    } else {
        assert(whole =~= text);
    }
}

proof fn lemma_two_digits(value: nat)
    requires
        value < 100,
    ensures
        padded(decimal(value), 2, '0').len() == 2,
{
    reveal_with_fuel(digits, 3);
    assert(value >= 10 ==> value / 10 < 10);
    lemma_digits_nonempty(value, 10);
}

proof fn lemma_three_digits(value: nat)
    requires
        value < 1000,
    ensures
        padded(decimal(value), 3, '0').len() == 3,
{
    reveal_with_fuel(digits, 4);
    assert(value >= 100 ==> value / 10 / 10 < 10);
    lemma_digits_nonempty(value, 10);
}

proof fn lemma_four_digits(value: nat)
    requires
        value < 10000,
    ensures
        padded(decimal(value), 4, '0').len() == 4,
{
    reveal_with_fuel(digits, 5);
    assert(value >= 1000 ==> value / 10 / 10 / 10 < 10);
    lemma_digits_nonempty(value, 10);
}

proof fn lemma_eight_digits(value: nat)
    requires
        value <= u32::MAX,
    ensures
        padded(digits(value, 16), 8, '0').len() == 8,
{
    reveal_with_fuel(digits, 9);
    assert(value / 16 / 16 / 16 / 16 / 16 / 16 / 16 < 16);
    lemma_digits_nonempty(value, 16);
}

/// The time in a file's name reads back: the year, the month and the day, a dot, and the hour, the
/// minute and the second, each with its digits.
pub proof fn law_a_name_shows_its_time(at: Moment)
    requires
        at.wf(),
        0 <= at.date.year <= 9999,
    ensures
        at.stamp().len() == 15,
        number_of(at.stamp().subrange(0, 4), 10) == at.date.year,
        number_of(at.stamp().subrange(4, 6), 10) == at.date.month,
        number_of(at.stamp().subrange(6, 8), 10) == at.date.day,
        at.stamp()[8] == '.',
        number_of(at.stamp().subrange(9, 11), 10) == at.hour,
        number_of(at.stamp().subrange(11, 13), 10) == at.minute,
        number_of(at.stamp().subrange(13, 15), 10) == at.second,
{
    reveal_strlit(".");
    let year = padded(decimal(at.date.year as nat), 4, '0');
    let (month, day) = (two(at.date.month as nat), two(at.date.day as nat));
    let (hour, minute, second) = (
        two(at.hour as nat),
        two(at.minute as nat),
        two(at.second as nat),
    );
    lemma_four_digits(at.date.year as nat);
    lemma_two_digits(at.date.month as nat);
    lemma_two_digits(at.date.day as nat);
    lemma_two_digits(at.hour as nat);
    lemma_two_digits(at.minute as nat);
    lemma_two_digits(at.second as nat);
    lemma_filled_reads_back(at.date.year as nat, 10, 4);
    lemma_filled_reads_back(at.date.month as nat, 10, 2);
    lemma_filled_reads_back(at.date.day as nat, 10, 2);
    lemma_filled_reads_back(at.hour as nat, 10, 2);
    lemma_filled_reads_back(at.minute as nat, 10, 2);
    lemma_filled_reads_back(at.second as nat, 10, 2);
    let stamp = at.stamp();
    assert(stamp == year + month + day + "."@ + hour + minute + second);
    assert(stamp.subrange(0, 4) =~= year);
    assert(stamp.subrange(4, 6) =~= month);
    assert(stamp.subrange(6, 8) =~= day);
    assert(stamp.subrange(9, 11) =~= hour);
    assert(stamp.subrange(11, 13) =~= minute);
    assert(stamp.subrange(13, 15) =~= second);
}

/// Files that are opened at different times have different names.
pub proof fn law_names_of_different_times_differ(
    parts: PartsView,
    at: Moment,
    then: Moment,
    sequence: nat,
)
    requires
        at.wf(),
        then.wf(),
        0 <= at.date.year <= 9999,
        0 <= then.date.year <= 9999,
        at != then,
    ensures
        parts.named(at, sequence) != parts.named(then, sequence),
{
    law_a_name_shows_its_time(at);
    law_a_name_shows_its_time(then);
    if parts.named(at, sequence) == parts.named(then, sequence) {
        let before = parts.base() + "."@;
        let start = before.len() as int;
        assert(at.stamp() =~= parts.named(at, sequence).subrange(start, start + 15));
        assert(then.stamp() =~= parts.named(then, sequence).subrange(start, start + 15));
    }
}

/// A file is named after the path it is set to: its name begins with the stem and ends in the
/// extension.
pub proof fn law_a_name_keeps_its_path(parts: PartsView, at: Moment, sequence: nat)
    ensures
        parts.stem matches Some(stem) ==> stem.len() > 0 ==> parts.named(at, sequence).take(
            stem.len() as int,
        ) == stem,
        parts.stem is None ==> parts.named(at, sequence).take(parts.file_name.len() as int)
            == parts.file_name,
        parts.stem == Some(Seq::<char>::empty()) ==> parts.named(at, sequence).take(
            parts.file_name.len() as int,
        ) == parts.file_name,
        parts.extension matches Some(extension) ==> extension.len() > 0 ==> parts.named(
            at,
            sequence,
        ).skip(parts.named(at, sequence).len() - extension.len()) == extension,
        parts.extension == Some(Seq::<char>::empty()) ==> parts.named(at, sequence) == (PartsView {
            extension: None,
            ..parts
        }).named(at, sequence),
{
    let name = parts.named(at, sequence);
    assert(name.take(parts.base().len() as int) =~= parts.base());
    if parts.extension is Some && (parts.extension->0).len() > 0 {
        let extension = parts.extension->0;
        reveal_strlit(".");
        assert(name.skip(name.len() - extension.len()) =~= extension);
    }
}

/// A new file is begun on a new day where that is asked for, and not without a reason: on the same
/// day a line that fits goes into the same file, and into an empty file every line goes.
pub proof fn law_a_new_file_has_a_reason(
    file: LogFile,
    today: Day,
    next: u64,
    config: RotationConfig,
)
    ensures
        config.rotate_daily && file.date != today ==> rotation_due(file, today, next, config),
        file.date == today && file.len == 0 ==> !rotation_due(file, today, next, config),
        file.date == today && config.max_file_size == 0 ==> !rotation_due(
            file,
            today,
            next,
            config,
        ),
        file.date == today && file.len + next <= config.max_file_size ==> !rotation_due(
            file,
            today,
            next,
            config,
        ),
        config.max_file_size > 0 && file.len > 0 && file.len + next > config.max_file_size
            && config.max_file_size < u64::MAX ==> rotation_due(file, today, next, config),
        rotation_due(file, today, next, config) && file.date == today ==> config.max_file_size > 0
            && file.len > 0,
{
}

/// The bytes that lines take up, each with the end of its line.
pub open spec fn bytes_in(lines: Seq<Seq<char>>) -> nat
    decreases lines.len(),
{
    if lines.len() == 0 {
        0
    } else {
        bytes_in(lines.drop_last()) + encode_utf8(lines.last()).len() + 1
    }
}

/// A file after these lines were written to it.
pub open spec fn file_with(file: Option<LogFile>, lines: Seq<Seq<char>>) -> Option<LogFile>
    decreases lines.len(),
{
    if lines.len() == 0 {
        file
    } else {
        file_after(file_with(file, lines.drop_last()), lines.last())
    }
}

/// The size that is known of a file is what it held and what was written to it since.
pub proof fn law_the_size_of_a_file_is_known(file: LogFile, lines: Seq<Seq<char>>)
    requires
        file.len + bytes_in(lines) <= usize::MAX,
        file.len + bytes_in(lines) <= u64::MAX,
    ensures
        file_with(Some(file), lines) == Some(
            (LogFile { len: (file.len + bytes_in(lines)) as u64, ..file }),
        ),
    decreases lines.len(),
{
    if lines.len() > 0 {
        law_the_size_of_a_file_is_known(file, lines.drop_last());
        assert(line_bytes(lines.last()) == encode_utf8(lines.last()).len() + 1);
    }
}

/// A file that a line is written to is within its limit afterwards, or holds just that line.
pub proof fn law_a_written_file_is_within_its_limit(
    file: LogFile,
    today: Day,
    line: Seq<char>,
    config: RotationConfig,
)
    requires
        0 < config.max_file_size < u64::MAX,
        encode_utf8(line).len() < usize::MAX,
        encode_utf8(line).len() < u64::MAX,
        !begins_anew(Some(file), today, line, config),
    ensures
        file_after(Some(file), line) matches Some(after) && (after.len <= config.max_file_size
            || file.len == 0),
        config.rotate_daily ==> file.date == today,
        !begins_anew(None, today, line, config),
        file_after(None, line) is None,
{
}

} // verus!
