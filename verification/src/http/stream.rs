//! A byte stream between two sides that are driven by events.

use std::collections::VecDeque;
use std::io::{Read, Write};
use vstd::prelude::*;

verus! {

/// The error type of the standard library's byte streams.
#[verifier::external_type_specification]
#[verifier::external_body]
pub struct ExIoError(std::io::Error);

/// The kinds of errors that a byte stream has here.
#[derive(Debug, Clone, Copy, PartialEq, Eq, Structural)]
pub enum Trouble {
    /// Nothing is there yet.
    WouldBlock,
    Other,
}

/// The kind that `std::io::Error::kind` gives of an error.
pub uninterp spec fn trouble(error: std::io::Error) -> Trouble;

/// `std::io::Error::from(ErrorKind::WouldBlock)`: the read found nothing yet, which is not the end
/// of the stream. The error is of this kind.
#[verifier::external_body]
fn would_block() -> (error: std::io::Error)
    ensures
        trouble(error) == Trouble::WouldBlock,
{
    std::io::Error::from(std::io::ErrorKind::WouldBlock)
}

/// Bytes that came in and are not read yet, and bytes that were written and are not sent yet.
#[derive(Debug)]
pub struct EventIo {
    pub input: VecDeque<u8>,
    pub output: Vec<u8>,
}

/// What an [`EventIo`] holds.
#[verifier::ext_equal]
pub struct EventIoView {
    pub input: Seq<u8>,
    pub output: Seq<u8>,
}

impl View for EventIo {
    type V = EventIoView;

    open spec fn view(&self) -> EventIoView {
        EventIoView { input: self.input@, output: self.output@ }
    }
}

impl EventIoView {
    /// With bytes that came in.
    pub open spec fn fed(self, data: Seq<u8>) -> EventIoView {
        EventIoView { input: self.input + data, ..self }
    }

    /// With bytes that were written.
    pub open spec fn with_output(self, data: Seq<u8>) -> EventIoView {
        EventIoView { output: self.output + data, ..self }
    }

    /// Without the bytes that are to be sent.
    pub open spec fn emptied(self) -> EventIoView {
        EventIoView { output: Seq::empty(), ..self }
    }

    /// How many bytes a read into a buffer of `room` bytes gives.
    pub open spec fn readable(self, room: nat) -> nat {
        if room <= self.input.len() {
            room
        } else {
            self.input.len()
        }
    }
}

impl Default for EventIo {
    fn default() -> (io: EventIo)
        ensures
            io@ == (EventIoView { input: Seq::empty(), output: Seq::empty() }),
    {
        EventIo { input: VecDeque::new(), output: Vec::new() }
    }
}

impl EventIo {
    /// Adds bytes that came in.
    pub fn push_input(&mut self, data: Vec<u8>)
        ensures
            final(self)@ == (EventIoView { input: old(self)@.input + data@, ..old(self)@ }),
            final(self)@ == old(self)@.fed(data@),
    {
        let ghost before = self@;
        let mut i: usize = 0;
        while i < data.len()
            invariant
                i <= data@.len(),
                self@ == (EventIoView { input: before.input + data@.take(i as int), ..before }),
            decreases data@.len() - i,
        {
            self.input.push_back(data[i]);
            i += 1;
            assert(data@.take(i as int) =~= data@.take(i - 1).push(data@[i - 1]));
            assert(self@.input =~= before.input + data@.take(i as int));
        }
        assert(data@.take(i as int) =~= data@);
    }

    /// Takes the bytes that are to be sent.
    pub fn take_output(&mut self) -> (data: Vec<u8>)
        ensures
            data@ == old(self)@.output,
            final(self)@ == (EventIoView { output: Seq::empty(), ..old(self)@ }),
            final(self)@ == old(self)@.emptied(),
    {
        let mut data: Vec<u8> = Vec::new();
        std::mem::swap(&mut data, &mut self.output);
        data
    }

    /// Moves the next bytes to the front of `output` and says how many; `None` where nothing has
    /// come.
    fn take_input(&mut self, output: &mut [u8]) -> (used: Option<usize>)
        ensures
            used is None <==> old(self)@.input.len() == 0,
            used is None ==> final(self)@ == old(self)@ && final(output)@ == old(output)@,
            used matches Some(count) ==> {
                &&& count == old(self)@.readable(old(output)@.len())
                &&& final(self)@ == (EventIoView {
                    input: old(self)@.input.skip(count as int),
                    ..old(self)@
                })
                &&& final(output)@ == old(self)@.input.take(count as int) + old(output)@.skip(
                    count as int,
                )
            },
    {
        if self.input.len() == 0 {
            return None;
        }
        let ghost before = self@;
        let ghost room = output@;
        let mut used: usize = output.len();
        if self.input.len() < used {
            used = self.input.len();
        }
        let mut i: usize = 0;
        while i < used
            invariant
                i <= used <= before.input.len(),
                used <= room.len(),
                room.len() == output@.len(),
                used == before.readable(room.len()),
                self@ == (EventIoView { input: before.input.skip(i as int), ..before }),
                output@ == before.input.take(i as int) + room.skip(i as int),
            decreases used - i,
        {
            let byte = self.input.pop_front();
            match byte {
                Some(byte) => {
                    output[i] = byte;
                },
                None => {},
            }
            i += 1;
            assert(self@.input =~= before.input.skip(i as int));
            assert(output@ =~= before.input.take(i as int) + room.skip(i as int));
        }
        Some(used)
    }
}

impl Read for EventIo {
    fn read(&mut self, output: &mut [u8]) -> (result: std::io::Result<usize>)
        ensures
            result is Err <==> old(self)@.input.len() == 0,
            result is Err ==> final(self)@ == old(self)@ && final(output)@ == old(output)@,
            result matches Err(error) ==> trouble(error) == Trouble::WouldBlock,
            result matches Ok(count) ==> {
                &&& count == old(self)@.readable(old(output)@.len())
                &&& final(self)@ == (EventIoView {
                    input: old(self)@.input.skip(count as int),
                    ..old(self)@
                })
                &&& final(output)@ == old(self)@.input.take(count as int) + old(output)@.skip(
                    count as int,
                )
            },
    {
        match self.take_input(output) {
            Some(used) => Ok(used),
            None => Err(would_block()),
        }
    }
}

impl Write for EventIo {
    fn write(&mut self, input: &[u8]) -> (result: std::io::Result<usize>)
        ensures
            result matches Ok(count) && count == input@.len(),
            final(self)@ == (EventIoView { output: old(self)@.output + input@, ..old(self)@ }),
            final(self)@ == old(self)@.with_output(input@),
    {
        self.output.extend_from_slice(input);
        assert(self@.output =~= old(self)@.output + input@);
        Ok(input.len())
    }

    fn flush(&mut self) -> (result: std::io::Result<()>)
        ensures
            result is Ok,
            final(self)@ == old(self)@,
    {
        Ok(())
    }
}

/// Bytes that came in are read in the order in which they came, whole or in parts.
pub proof fn law_bytes_are_read_in_order(io: EventIoView, data: Seq<u8>, room: nat)
    ensures
        (EventIoView { input: io.input + data, ..io }).input.take(
            (EventIoView { input: io.input + data, ..io }).readable(room) as int,
        ) + (EventIoView { input: io.input + data, ..io }).input.skip(
            (EventIoView { input: io.input + data, ..io }).readable(room) as int,
        ) == io.input + data,
{
    let all = io.input + data;
    let count = (EventIoView { input: all, ..io }).readable(room) as int;
    assert(all.take(count) + all.skip(count) =~= all);
}

/// Bytes that are written are sent in the order in which they were written, each once, and bytes
/// that come in meanwhile are not touched.
pub proof fn law_bytes_are_sent_in_order(io: EventIoView, first: Seq<u8>, second: Seq<u8>)
    ensures
        io.with_output(first).with_output(second).output == io.output + first + second,
        io.with_output(first).input == io.input,
        io.emptied().output.len() == 0,
        io.emptied().with_output(first).output == first,
        io.emptied().input == io.input,
        io.fed(first).fed(second).input == io.input + first + second,
        io.fed(first).output == io.output,
{
    assert(io.emptied().with_output(first).output =~= first);
}

} // verus!
