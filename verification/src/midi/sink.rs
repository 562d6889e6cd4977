//! The bridge between a serial port and the selected endpoints.
use vstd::prelude::*;
use crate::midi::endpoints::{names, next_endpoint, next_place, place_of, shown};
use crate::midi::framer::{messages, Framing, MidiFramer};
use crate::midi::input::{filled, passed, MidiInput, ACTIVE_SENSE, INPUT_RING_BYTES};

verus! {

/// The serial port's side of the bridge. A backend sends the messages that
/// come out of it, and hands it the bytes that come in.
pub struct MidiSerialSink {
    pub framer: MidiFramer,
    pub input: MidiInput,
    /// The names of the endpoints that the backend is connected to.
    pub output: Option<String>,
    pub source: Option<String>,
}

impl MidiSerialSink {
    pub open spec fn wf(self) -> bool {
        &&& self.framer@.wf()
        &&& self.input.wf()
    }

    /// A bridge to the endpoints that a backend has connected to, with bytes
    /// that say nothing dropped or passed on.
    pub fn open(output: Option<String>, source: Option<String>, strip: bool) -> (r: MidiSerialSink)
        ensures
            r.wf(),
            r.output == output,
            r.source == source,
            r.input.strip == strip,
            r.input.waiting() == Seq::<u8>::empty(),
            r.framer@ == (Framing { buf: Seq::empty(), expected: 0, status: 0, in_sysex: false }),
    {
        MidiSerialSink {
            framer: MidiFramer::default(),
            input: MidiInput::new(strip),
            output,
            source,
        }
    }

    /// Whether a byte of the guest's is left out.
    pub fn strips(&self, b: u8) -> (r: bool)
        ensures
            r == (b == 0xfe && self.input.strip),
    {
        b == ACTIVE_SENSE && self.input.strip
    }

    /// A byte has left the guest. Returns the messages that it completes.
    pub fn write_byte(&mut self, b: u8) -> (r: Vec<Vec<u8>>)
        requires
            old(self).wf(),
        ensures
            final(self).wf(),
            final(self).input == old(self).input,
            final(self).output == old(self).output,
            final(self).source == old(self).source,
            if b == 0xfe && old(self).input.strip {
                &&& final(self).framer@ == old(self).framer@
                &&& messages(r@) == Seq::<Seq<u8>>::empty()
            } else {
                &&& final(self).framer@ == old(self).framer@.fed(b).0
                &&& messages(r@) == old(self).framer@.fed(b).1
            },
    {
        if self.strips(b) {
            let none: Vec<Vec<u8>> = Vec::new();
            assert(messages(none@) =~= Seq::empty());
            return none;
        }
        self.framer.push(b)
    }

    /// Bytes have come from the host.
    pub fn receive(&mut self, data: &[u8])
        requires
            old(self).wf(),
        ensures
            final(self).wf(),
            final(self).framer == old(self).framer,
            final(self).output == old(self).output,
            final(self).source == old(self).source,
            final(self).input.strip == old(self).input.strip,
            final(self).input.waiting() == filled(
                old(self).input.waiting(),
                passed(data@, old(self).input.strip, data@.len() as int),
                8192 as nat,
            ),
    {
        self.input.push_input(data);
    }

    /// The next byte for the guest.
    pub fn read_byte(&mut self) -> (r: Option<u8>)
        requires
            old(self).wf(),
        ensures
            final(self).wf(),
            final(self).framer == old(self).framer,
            final(self).output == old(self).output,
            final(self).source == old(self).source,
            final(self).input.strip == old(self).input.strip,
            match r {
                Some(b) => old(self).input.waiting().len() > 0 && b == old(
                    self,
                ).input.waiting()[0] && final(self).input.waiting() == old(
                    self,
                ).input.waiting().drop_first(),
                None => old(self).input.waiting().len() == 0 && final(self).input.waiting() == old(
                    self,
                ).input.waiting(),
            },
    {
        self.input.read_byte()
    }

    /// Whether a byte waits for the guest.
    pub fn has_pending_input(&self) -> (r: bool)
        ensures
            r == (self.input.waiting().len() > 0),
    {
        self.input.has_pending_input()
    }

    /// The endpoint to switch the output to, of those that the host has now.
    pub fn cycle_output(&self, outputs: &Vec<String>, forward: bool) -> (r: Option<String>)
        requires
            outputs@.len() < usize::MAX / 2,
        ensures
            ({
                let here = place_of(shown(self.output), names(outputs@));
                let next = next_place(here, outputs@.len() as int + 1, forward);
                shown(r) == (if next > 0 {
                    Some(outputs@[next - 1]@)
                } else {
                    None
                })
            }),
    {
        match &self.output {
            Some(name) => next_endpoint(Some(name.as_str()), outputs, forward),
            None => next_endpoint(None, outputs, forward),
        }
    }

    /// The endpoint to switch the input to.
    pub fn cycle_input(&self, inputs: &Vec<String>, forward: bool) -> (r: Option<String>)
        requires
            inputs@.len() < usize::MAX / 2,
        ensures
            ({
                let here = place_of(shown(self.source), names(inputs@));
                let next = next_place(here, inputs@.len() as int + 1, forward);
                shown(r) == (if next > 0 {
                    Some(inputs@[next - 1]@)
                } else {
                    None
                })
            }),
    {
        match &self.source {
            Some(name) => next_endpoint(Some(name.as_str()), inputs, forward),
            None => next_endpoint(None, inputs, forward),
        }
    }

    /// The backend has connected its output to an endpoint, or to nothing.
    pub fn set_output_endpoint(&mut self, endpoint: Option<String>)
        requires
            old(self).wf(),
        ensures
            final(self).wf(),
            *final(self) == (MidiSerialSink { output: endpoint, ..*old(self) }),
    {
        self.output = endpoint;
    }

    /// The backend has connected its input to an endpoint, or to nothing.
    pub fn set_input_endpoint(&mut self, endpoint: Option<String>)
        requires
            old(self).wf(),
        ensures
            final(self).wf(),
            *final(self) == (MidiSerialSink { source: endpoint, ..*old(self) }),
    {
        self.source = endpoint;
    }

    /// The output's name, or that there is none.
    pub fn output_label(&self) -> (r: String)
        ensures
            r@ == (match self.output {
                Some(name) => name@,
                None => "None"@,
            }),
    {
        match &self.output {
            Some(name) => name.clone(),
            None => "None".to_owned(),
        }
    }

    /// The input's name, or that there is none.
    pub fn input_label(&self) -> (r: String)
        ensures
            r@ == (match self.source {
                Some(name) => name@,
                None => "None"@,
            }),
    {
        match &self.source {
            Some(name) => name.clone(),
            None => "None".to_owned(),
        }
    }
}

} // verus!
