//! What holds of what is kept of a crash.

#[allow(unused_imports)]
use crate::signal::crash::{
    all_digits, attempted, boundary, cut, dump_file, heard, lemma_boundary, optional_line, pid_of,
    preamble, socket_file, socket_name, stopping, told, walk_text, AttemptView, Bases, Ending,
    HelperArgs, PanicMetadata, PanicView, Walk, PANIC_MESSAGE,
};
#[allow(unused_imports)]
use crate::text::{decimal, digit, digits, law_digits_read_back, lemma_digits_nonempty};
use vstd::prelude::*;
#[allow(unused_imports)]
use vstd::utf8::{
    decode_utf8, decode_utf8_encode_utf8, decode_utf8_split, encode_scalar, encode_utf8,
    encode_utf8_decode_utf8, encode_utf8_first_scalar, encode_utf8_valid_utf8, is_char_boundary,
    pop_first_scalar, valid_utf8_split,
};

verus! {

/// The end of the first characters of a text is a place where a character begins.
proof fn lemma_characters_end(text: Seq<char>, count: int)
    requires
        0 <= count <= text.len(),
    ensures
        encode_utf8(text.take(count)).len() <= encode_utf8(text).len(),
        is_char_boundary(encode_utf8(text), encode_utf8(text.take(count)).len() as int),
    decreases count,
{
    encode_utf8_valid_utf8(text);
    if count > 0 {
        let rest = text.drop_first();
        let bytes = encode_utf8(text);
        encode_utf8_first_scalar(text);
        lemma_characters_end(rest, count - 1);
        assert(text.take(count).drop_first() =~= rest.take(count - 1));
        assert(pop_first_scalar(bytes) =~= encode_utf8(rest));
        assert(text.take(count)[0] == text[0]);
    } else {
        assert(text.take(0) =~= Seq::empty());
    }
}

/// Going down, no place is passed over where a character begins.
proof fn lemma_boundary_is_last(bytes: Seq<u8>, from: int, place: int)
    requires
        0 <= place <= from,
        is_char_boundary(bytes, place),
    ensures
        place <= boundary(bytes, from),
    decreases from,
{
    if from > 0 && !is_char_boundary(bytes, from) {
        if place < from {
            lemma_boundary_is_last(bytes, from - 1, place);
        }
    }
}

/// More characters take up more bytes.
proof fn lemma_more_characters(text: Seq<char>, few: int, many: int)
    requires
        0 <= few < many <= text.len(),
    ensures
        encode_utf8(text.take(few)).len() < encode_utf8(text.take(many)).len(),
    decreases few,
{
    let rest = text.drop_first();
    assert(text.take(many).drop_first() =~= rest.take(many - 1));
    assert(encode_scalar(text[0] as u32).len() > 0);
    if few > 0 {
        assert(text.take(few).drop_first() =~= rest.take(few - 1));
        lemma_more_characters(rest, few - 1, many - 1);
    }
}

/// Of a text that is cut as much is kept as the limit allows: every beginning of it that the limit
/// allows is kept, and behind what is kept it is said that something is missing.
pub proof fn law_as_much_is_kept_as_fits(text: Seq<char>, limit: usize, count: int)
    requires
        limit < encode_utf8(text).len() <= usize::MAX,
        0 <= count <= text.len(),
        encode_utf8(text.take(count)).len() <= limit,
    ensures
        text.take(count).is_prefix_of(cut(text, limit)),
        cut(text, limit).len() >= count + ("\n<truncated>"@).len(),
{
    let bytes = encode_utf8(text);
    encode_utf8_valid_utf8(text);
    encode_utf8_decode_utf8(text);
    lemma_characters_end(text, count);
    lemma_boundary(bytes, limit as int);
    lemma_boundary_is_last(bytes, limit as int, encode_utf8(text.take(count)).len() as int);
    let end = boundary(bytes, limit as int);
    let kept = decode_utf8(bytes.subrange(0, end));
    decode_utf8_split(bytes, end);
    valid_utf8_split(bytes, end);
    decode_utf8_encode_utf8(bytes.subrange(0, end));
    assert(kept =~= text.take(kept.len() as int));
    if kept.len() < count {
        lemma_more_characters(text, kept.len() as int, count);
    }
    assert(text.take(count) =~= cut(text, limit).take(count));
}

/// A text within the limit is kept as it is.
pub proof fn law_a_short_text_is_kept_whole(text: Seq<char>, limit: usize)
    requires
        encode_utf8(text).len() <= limit,
    ensures
        cut(text, limit) == text,
{
}

/// Whether a text holds another.
pub open spec fn holds(text: Seq<char>, part: Seq<char>) -> bool {
    exists|i: int|
        0 <= i && i + part.len() <= text.len() && #[trigger] text.subrange(i, i + part.len())
            == part
}

proof fn lemma_holds(before: Seq<char>, part: Seq<char>, after: Seq<char>)
    ensures
        holds(before + part + after, part),
{
    let text = before + part + after;
    assert(text.subrange(before.len() as int, (before.len() + part.len()) as int) =~= part);
}

proof fn lemma_itself(part: Seq<char>)
    ensures
        holds(part, part),
{
    assert(part.subrange(0int, 0int + part.len()) =~= part);
}

proof fn lemma_first(first: Seq<char>, second: Seq<char>, part: Seq<char>)
    requires
        holds(first, part),
    ensures
        holds(first + second, part),
{
    let i = choose|i: int|
        0 <= i && i + part.len() <= first.len() && #[trigger] first.subrange(i, i + part.len())
            == part;
    assert((first + second).subrange(i, i + part.len()) =~= first.subrange(i, i + part.len()));
}

proof fn lemma_second(first: Seq<char>, second: Seq<char>, part: Seq<char>)
    requires
        holds(second, part),
    ensures
        holds(first + second, part),
{
    let i = choose|i: int|
        0 <= i && i + part.len() <= second.len() && #[trigger] second.subrange(i, i + part.len())
            == part;
    let k = first.len() + i;
    assert((first + second).subrange(k, k + part.len()) =~= second.subrange(i, i + part.len()));
}

/// What is kept of a panic is what was said of it: the payload, the file, and the backtrace as far
/// as they fit, and the name of the thread.
pub proof fn law_what_was_said_of_a_panic_is_kept(
    payload: Seq<char>,
    file: Seq<char>,
    line: u32,
    column: u32,
    thread: Option<Seq<char>>,
    backtrace: Seq<char>,
)
    requires
        encode_utf8(payload).len() <= 8192,
        encode_utf8(backtrace).len() <= 49152,
    ensures
        ({
            let kept = PanicView::kept(
                Some(payload),
                Some((file, line, column)),
                thread,
                backtrace,
            );
            &&& kept.payload == payload
            &&& kept.backtrace == backtrace
            &&& kept.thread == thread
            &&& kept.location is Some
            &&& file.is_prefix_of(kept.location->0)
            &&& holds(kept.location->0, decimal(line as nat))
            &&& holds(kept.location->0, decimal(column as nat))
        }),
        PanicView::kept(Some(payload), None, thread, backtrace).location is None,
{
    law_a_short_text_is_kept_whole(payload, 8192);
    law_a_short_text_is_kept_whole(backtrace, 49152);
    let kept = PanicView::kept(Some(payload), Some((file, line, column)), thread, backtrace);
    let place = kept.location->0;
    let l = decimal(line as nat);
    let c = decimal(column as nat);
    lemma_holds(file + ":"@, l, ":"@ + c);
    assert(place =~= file + ":"@ + l + (":"@ + c));
    lemma_holds(file + ":"@ + l + ":"@, c, Seq::empty());
    assert(place =~= file + ":"@ + l + ":"@ + c + Seq::empty());
    assert(file.is_prefix_of(place));
}

/// A report says where the dump is, and all that is known of a panic.
pub proof fn law_a_report_says_what_is_known(dump_path: Seq<char>, metadata: PanicView)
    ensures
        holds(preamble(dump_path, Some(metadata)), dump_path),
        holds(preamble(dump_path, None), dump_path),
        holds(preamble(dump_path, Some(metadata)), metadata.payload),
        holds(preamble(dump_path, Some(metadata)), metadata.backtrace),
        metadata.location matches Some(location) ==> holds(
            preamble(dump_path, Some(metadata)),
            location,
        ),
        metadata.thread matches Some(thread) ==> holds(
            preamble(dump_path, Some(metadata)),
            thread,
        ),
{
    let start = "rskynet crash report\nminidump: "@ + dump_path;
    let head = start + "\n"@;
    let place = optional_line("location: "@, metadata.location);
    let thread = optional_line("thread: "@, metadata.thread);
    let one = "kind: rust panic\npayload: "@ + metadata.payload;
    let two = one + "\n"@;
    let three = two + place;
    let four = three + thread;
    let five = four + "\nRust panic backtrace (captured by the panic hook):\n"@;
    let six = five + metadata.backtrace;
    let body = six + "\n"@;
    assert(preamble(dump_path, Some(metadata)) == head + body);
    assert(preamble(dump_path, None) == head + "kind: native crash\n"@);
    lemma_itself(dump_path);
    lemma_second("rskynet crash report\nminidump: "@, dump_path, dump_path);
    lemma_first(start, "\n"@, dump_path);
    lemma_first(head, body, dump_path);
    lemma_first(head, "kind: native crash\n"@, dump_path);
    lemma_itself(metadata.payload);
    lemma_second("kind: rust panic\npayload: "@, metadata.payload, metadata.payload);
    lemma_first(one, "\n"@, metadata.payload);
    lemma_first(two, place, metadata.payload);
    lemma_first(three, thread, metadata.payload);
    lemma_first(
        four,
        "\nRust panic backtrace (captured by the panic hook):\n"@,
        metadata.payload,
    );
    lemma_first(five, metadata.backtrace, metadata.payload);
    lemma_first(six, "\n"@, metadata.payload);
    lemma_second(head, body, metadata.payload);
    lemma_itself(metadata.backtrace);
    lemma_second(five, metadata.backtrace, metadata.backtrace);
    lemma_first(six, "\n"@, metadata.backtrace);
    lemma_second(head, body, metadata.backtrace);
    if let Some(location) = metadata.location {
        lemma_holds("location: "@, location, "\n"@);
        lemma_second(two, place, location);
        lemma_first(three, thread, location);
        lemma_first(four, "\nRust panic backtrace (captured by the panic hook):\n"@, location);
        lemma_first(five, metadata.backtrace, location);
        lemma_first(six, "\n"@, location);
        lemma_second(head, body, location);
    }
    if let Some(name) = metadata.thread {
        lemma_holds("thread: "@, name, "\n"@);
        lemma_second(three, thread, name);
        lemma_first(four, "\nRust panic backtrace (captured by the panic hook):\n"@, name);
        lemma_first(five, metadata.backtrace, name);
        lemma_first(six, "\n"@, name);
        lemma_second(head, body, name);
    }
}

/// A report tells a panic from another crash.
pub proof fn law_a_report_says_what_kind_it_is(dump_path: Seq<char>, metadata: PanicView)
    ensures
        holds(preamble(dump_path, Some(metadata)), "kind: rust panic\n"@),
        holds(preamble(dump_path, None), "kind: native crash\n"@),
{
    let head = "rskynet crash report\nminidump: "@ + dump_path + "\n"@;
    let rest = metadata.payload + "\n"@ + optional_line(
        "location: "@,
        metadata.location,
    ) + optional_line("thread: "@, metadata.thread)
        + "\nRust panic backtrace (captured by the panic hook):\n"@ + metadata.backtrace + "\n"@;
    let kind = "kind: rust panic\n"@;
    assert("kind: rust panic\npayload: "@ =~= kind + "payload: "@) by {
        reveal_strlit("kind: rust panic\npayload: ");
        reveal_strlit("kind: rust panic\n");
        reveal_strlit("payload: ");
    }
    lemma_holds(head, kind, "payload: "@ + rest);
    assert(preamble(dump_path, Some(metadata)) =~= head + kind + ("payload: "@ + rest));
    lemma_holds(head, "kind: native crash\n"@, Seq::empty());
    assert(preamble(dump_path, None) =~= head + "kind: native crash\n"@ + Seq::empty());
}

/// What went wrong with the stacks is said, and a report tells the stacks of a panic from those of
/// another crash.
pub proof fn law_a_report_says_what_its_stacks_are(reason: String)
    ensures
        holds(walk_text(true, Walk::Failed(reason)), reason@),
        holds(walk_text(true, Walk::Unreadable(reason)), reason@),
        walk_text(true, Walk::Failed(reason)) == walk_text(false, Walk::Failed(reason)),
        walk_text(true, Walk::Read) != walk_text(false, Walk::Read),
        walk_text(true, Walk::Failed(reason)) != walk_text(true, Walk::Unreadable(reason)),
{
    lemma_holds("\nMinidump stackwalk failed: "@, reason@, "\n"@);
    lemma_holds("\nMinidump parse failed: "@, reason@, "\n"@);
    reveal_strlit("\nMinidump stackwalk failed: ");
    reveal_strlit("\nMinidump parse failed: ");
    reveal_strlit(
        "\nPost-panic minidump snapshot (captured after the panic hook; not the panic origin):\n",
    );
    reveal_strlit("\nNative crash minidump stackwalk (crashing thread first):\n");
    assert(walk_text(true, Walk::Read)[1] == 'P');
    assert(walk_text(false, Walk::Read)[1] == 'N');
    assert(walk_text(true, Walk::Failed(reason))[10] == 's');
    assert(walk_text(true, Walk::Unreadable(reason))[10] == 'p');
}

/// A character that a number is written with.
spec fn plain(c: char) -> bool {
    '0' <= c <= '9' || 'a' <= c <= 'f'
}

/// Numbers are written with digits.
proof fn lemma_only_digits(value: nat, base: nat)
    requires
        2 <= base <= 16,
    ensures
        forall|i: int| 0 <= i < digits(value, base).len() ==> plain(#[trigger] digits(value, base)[i]),
        base <= 10 ==> all_digits(digits(value, base)),
    decreases value,
{
    let text = digits(value, base);
    if value >= base {
        assert(value / base < value && value % base < base) by (nonlinear_arith)
            requires
                value >= base,
                base >= 2,
        ;
        let before = digits(value / base, base);
        lemma_only_digits(value / base, base);
        assert(text == before.push(digit(value % base)));
        assert forall|i: int| 0 <= i < text.len() implies plain(#[trigger] text[i]) && (base <= 10
            ==> '0' <= text[i] <= '9') by {
            if i < before.len() {
                assert(text[i] == before[i]);
            } else {
                assert(text[i] == digit(value % base));
            }
        }
    } else {
        assert(text == seq![digit(value)]);
    }
}

/// The number of a process is read back as it is written, with or without a plus.
pub proof fn law_a_process_number_is_read_back(pid: u32)
    ensures
        pid_of(decimal(pid as nat)) == Some(pid),
        pid_of(seq!['+'] + decimal(pid as nat)) == Some(pid),
        pid_of(Seq::empty()) is None,
        pid_of(seq!['+']) is None,
{
    let text = decimal(pid as nat);
    lemma_only_digits(pid as nat, 10);
    law_digits_read_back(pid as nat, 10);
    lemma_digits_nonempty(pid as nat, 10);
    assert((seq!['+'] + text).skip(1) =~= text);
    assert(text[0] != '+');
    assert(seq!['+'].skip(1) =~= Seq::<char>::empty());
}

/// A text with anything but digits in it is no number of a process.
pub proof fn law_only_digits_are_a_process_number(text: Seq<char>, i: int)
    requires
        0 < i < text.len(),
        !('0' <= text[i] <= '9'),
    ensures
        pid_of(text) is None,
{
    if text[0] == '+' {
        assert(text.skip(1)[i - 1] == text[i]);
    }
}

/// The program that was started to write the reports of a process knows whose they are; a program
/// that was started otherwise writes none.
pub proof fn law_a_helper_knows_its_process(
    name: Option<Seq<char>>,
    flag: Option<Seq<char>>,
    socket: Option<Seq<char>>,
    directory: Option<Seq<char>>,
    pid: u32,
)
    ensures
        ({
            let args = seq![name, flag, socket, directory, Some(decimal(pid as nat))];
            if flag == Some("--rskynet-crash-helper"@) {
                &&& told(args) matches Ok(Some(found)) && found.pid == pid && args[
                found.socket as int] == socket && args[found.directory as int] == directory
                &&& told(args.take(4)) is Err
                &&& told(args.take(3)) is Err
                &&& told(args.take(2)) is Err
            } else {
                told(args) == Ok::<Option<HelperArgs>, Seq<char>>(None)
            }
        }),
        told(seq![name]) == Ok::<Option<HelperArgs>, Seq<char>>(None),
{
    law_a_process_number_is_read_back(pid);
}

/// A number is found again before a dash.
proof fn lemma_before_a_dash(
    first: nat,
    second: nat,
    one: Seq<char>,
    other: Seq<char>,
)
    requires
        decimal(first) + "-"@ + one == decimal(second) + "-"@ + other,
    ensures
        first == second,
        one == other,
{
    reveal_strlit("-");
    let a = decimal(first);
    let b = decimal(second);
    lemma_only_digits(first, 10);
    lemma_only_digits(second, 10);
    let text = a + "-"@ + one;
    let same = b + "-"@ + other;
    assert(text[a.len() as int] == '-');
    assert(same[b.len() as int] == '-');
    if a.len() < b.len() {
        assert(same[a.len() as int] == b[a.len() as int]);
    } else if b.len() < a.len() {
        assert(text[b.len() as int] == a[b.len() as int]);
    }
    assert(a =~= text.take(a.len() as int));
    assert(b =~= same.take(b.len() as int));
    assert(one =~= text.skip((a.len() + 1) as int));
    assert(other =~= same.skip((b.len() + 1) as int));
    law_digits_read_back(first, 10);
    law_digits_read_back(second, 10);
}

/// Different processes, and the same process at different times, have different sockets and
/// different dumps.
pub proof fn law_processes_do_not_share_files(pid: u32, millis: u64, other: u32, then: u64)
    requires
        pid != other || millis != then,
    ensures
        socket_name(pid, millis) != socket_name(other, then),
        socket_file(pid, millis) != socket_file(other, then),
        dump_file(pid, millis) != dump_file(other, then),
{
    law_digits_read_back(millis as nat, 10);
    law_digits_read_back(then as nat, 10);
    law_digits_read_back(millis as nat, 16);
    law_digits_read_back(then as nat, 16);
    let (a, b) = (decimal(pid as nat), decimal(other as nat));
    let (m, t) = (decimal(millis as nat), decimal(then as nat));
    let (x, y) = (digits(millis as nat, 16), digits(then as nat, 16));
    if socket_name(pid, millis) == socket_name(other, then) {
        let n = ("rskynet-crash-"@).len() as int;
        assert(socket_name(pid, millis).skip(n) =~= a + "-"@ + m);
        assert(socket_name(other, then).skip(n) =~= b + "-"@ + t);
        lemma_before_a_dash(pid as nat, other as nat, m, t);
    }
    if socket_file(pid, millis) == socket_file(other, then) {
        let n = ("rsc-"@).len() as int;
        let (u, v) = (x + ".sock"@, y + ".sock"@);
        assert(socket_file(pid, millis).skip(n) =~= a + "-"@ + u);
        assert(socket_file(other, then).skip(n) =~= b + "-"@ + v);
        lemma_before_a_dash(pid as nat, other as nat, u, v);
        assert(x =~= u.take(u.len() - (".sock"@).len()));
        assert(y =~= v.take(v.len() - (".sock"@).len()));
    }
    if dump_file(pid, millis) == dump_file(other, then) {
        let (u, v) = (m + ".dmp"@, t + ".dmp"@);
        assert(dump_file(pid, millis) =~= a + "-"@ + u);
        assert(dump_file(other, then) =~= b + "-"@ + v);
        lemma_before_a_dash(pid as nat, other as nat, u, v);
        assert(m =~= u.take(u.len() - (".dmp"@).len()));
        assert(t =~= v.take(v.len() - (".dmp"@).len()));
    }
}

/// An attempt is repeated only while the other program runs and there is time; how it ended is said
/// where it did.
pub proof fn law_attempts_end(exited: Option<Seq<char>>, late: bool)
    ensures
        attempted(true, exited, late) is Connected,
        attempted(false, exited, late) is Again <==> exited is None && !late,
        attempted(false, exited, late) is Again || attempted(false, exited, late) is GivenUp,
        exited matches Some(status) ==> (attempted(false, exited, late) matches AttemptView::GivenUp(
            text,
        ) && holds(text, status)),
{
    if let Some(status) = exited {
        let start = "崩溃 helper 在 IPC 握手前退出："@;
        lemma_holds(start, status, Seq::empty());
        assert(start + status + Seq::empty() =~= start + status);
    }
}

/// A program that was asked to end is waited for only while it runs and there is time, and killed
/// only if it has not ended.
pub proof fn law_a_program_is_not_killed_early(found: Ending, late: bool)
    ensures
        stopping(Ending::Running, false) is Again,
        found is Ended ==> stopping(found, late) is Done,
        stopping(found, late) is Kill ==> !(found is Ended) && (late || found is Unknown),
        late ==> !(stopping(found, late) is Again),
{
}

/// What is known of a panic is what was last said of one; other messages change nothing.
pub proof fn law_the_last_word_on_a_panic_counts(
    known: Option<PanicMetadata>,
    said: PanicMetadata,
    kind: u32,
    read: Option<PanicMetadata>,
)
    ensures
        heard(known, PANIC_MESSAGE, Some(said)) == Some(said),
        heard(known, PANIC_MESSAGE, None) == known,
        kind != PANIC_MESSAGE ==> heard(known, kind, read) == known,
{
}

/// An instruction that was carried over from a dump is found again at its place in the dump, and
/// lies as far into the program as there.
pub proof fn law_addresses_are_carried_over_and_back(
    bases: Bases,
    module_base: u64,
    instruction: u64,
    other: u64,
)
    ensures
        bases.local(module_base, instruction) matches Some(address) ==> {
            &&& bases.local_base is Some
            &&& bases.dump_base == Some(module_base)
            &&& address - bases.local_base->Some_0 == instruction - module_base
            &&& bases.function(
                Some(address),
                module_base,
                bases.local_base->Some_0,
                other,
            ) == instruction
        },
        bases.dump_base == Some(module_base) && bases.local_base is Some && instruction
            >= module_base && bases.local_base->Some_0 + instruction - module_base <= usize::MAX
            ==> bases.local(module_base, instruction) is Some,
        bases.local_base matches Some(local) ==> forall|address: usize|
            address < local || module_base + address - local > u64::MAX ==> #[trigger] bases.function(
                Some(address),
                module_base,
                local,
                instruction,
            ) == instruction,
        bases.local_base matches Some(local) ==> bases.function(
            None,
            module_base,
            local,
            instruction,
        ) == instruction,
{
}

} // verus!
