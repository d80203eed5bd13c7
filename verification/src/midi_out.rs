//! The notes sounding on the 16 MIDI output channels, and the messages that keep at
//! most one note per channel sounding. The caller sends the messages.
use vstd::prelude::*;

verus! {

/// Note-on status nibble.
pub const MIDI_NOTE_ON: u8 = 0x90;
/// Note-off status nibble.
pub const MIDI_NOTE_OFF: u8 = 0x80;

/// The note sounding on each MIDI channel, if any.
pub struct ActiveNotes {
    pub notes: [Option<u8>; 16],
}

/// A three-byte channel message.
pub open spec fn message(status: u8, ch: u8, a: u8, b: u8) -> [u8; 3] {
    [status | ch, a, b]
}

impl ActiveNotes {
    pub open spec fn at(&self, ch: int) -> Option<u8> {
        self.notes@[ch]
    }

    /// Nothing sounding.
    pub fn new() -> (a: Self)
        ensures
            forall|ch: int| 0 <= ch < 16 ==> #[trigger] a.at(ch) is None,
    {
        ActiveNotes { notes: [None; 16] }
    }

    /// Start `note` on `channel` (taken modulo 16): a note still sounding there is
    /// stopped first. Returns the messages to send, in order.
    pub fn note_on(&mut self, channel: u8, note: u8, velocity: u8) -> (msgs: Vec<[u8; 3]>)
        ensures
            ({
                let ch = channel & 0x0F;
                &&& final(self).notes@ == old(self).notes@.update(ch as int, Some(note))
                &&& msgs@ == match old(self).at(ch as int) {
                    Some(prev) => seq![message(MIDI_NOTE_OFF, ch, prev, 0), message(MIDI_NOTE_ON, ch, note, velocity)],
                    None => seq![message(MIDI_NOTE_ON, ch, note, velocity)],
                }
            }),
    {
        let ch = channel & 0x0F;
        proof { assert(ch < 16) by (bit_vector) requires ch == channel & 0x0F; }
        let mut msgs: Vec<[u8; 3]> = Vec::new();
        if let Some(prev) = self.notes[ch as usize] {
            msgs.push([MIDI_NOTE_OFF | ch, prev, 0]);
        }
        self.notes[ch as usize] = Some(note);
        msgs.push([MIDI_NOTE_ON | ch, note, velocity]);
        proof {
            assert(self.notes@ =~= old(self).notes@.update(ch as int, Some(note)));
        }
        msgs
    }

    /// Stop `note` on `channel` (modulo 16); the channel counts as silent afterwards.
    pub fn note_off(&mut self, channel: u8, note: u8) -> (msg: [u8; 3])
        ensures
            ({
                let ch = channel & 0x0F;
                &&& final(self).notes@ == old(self).notes@.update(ch as int, None)
                &&& msg == message(MIDI_NOTE_OFF, ch, note, 0)
            }),
    {
        let ch = channel & 0x0F;
        proof { assert(ch < 16) by (bit_vector) requires ch == channel & 0x0F; }
        self.notes[ch as usize] = None;
        proof { assert(self.notes@ =~= old(self).notes@.update(ch as int, None)); }
        [MIDI_NOTE_OFF | ch, note, 0]
    }

    /// Stop whatever sounds on `channel` (modulo 16).
    pub fn channel_note_off(&mut self, channel: u8) -> (msg: Option<[u8; 3]>)
        ensures
            ({
                let ch = channel & 0x0F;
                &&& final(self).notes@ == old(self).notes@.update(ch as int, None)
                &&& msg == match old(self).at(ch as int) {
                    Some(n) => Some(message(MIDI_NOTE_OFF, ch, n, 0)),
                    None => None,
                }
            }),
    {
        let ch = channel & 0x0F;
        proof { assert(ch < 16) by (bit_vector) requires ch == channel & 0x0F; }
        match self.notes[ch as usize] {
            Some(n) => {
                self.notes[ch as usize] = None;
                proof { assert(self.notes@ =~= old(self).notes@.update(ch as int, None)); }
                Some([MIDI_NOTE_OFF | ch, n, 0])
            },
            None => {
                proof { assert(self.notes@ =~= old(self).notes@.update(ch as int, None)); }
                None
            },
        }
    }

    /// Stop every sounding note, channel by channel.
    pub fn all_notes_off(&mut self) -> (msgs: Vec<[u8; 3]>)
        ensures
            forall|ch: int| 0 <= ch < 16 ==> #[trigger] final(self).at(ch) is None,
            msgs@ == off_messages(old(self).notes@, 16),
    {
        let ghost start = self.notes@;
        let mut msgs: Vec<[u8; 3]> = Vec::new();
        let mut ch: u8 = 0;
        while ch < 16
            invariant
                ch <= 16,
                self.notes@.len() == 16,
                forall|i: int| 0 <= i < ch ==> #[trigger] self.notes@[i] is None,
                forall|i: int| ch <= i < 16 ==> #[trigger] self.notes@[i] == start[i],
                msgs@ == off_messages(start, ch as int),
            decreases 16 - ch,
        {
            if let Some(n) = self.notes[ch as usize] {
                msgs.push([MIDI_NOTE_OFF | ch, n, 0]);
                self.notes[ch as usize] = None;
            }
            ch = ch + 1;
        }
        msgs
    }
}

/// The note-offs for the notes sounding on the first `n` channels, in channel order.
pub open spec fn off_messages(notes: Seq<Option<u8>>, n: int) -> Seq<[u8; 3]>
    decreases n,
{
    if n <= 0 {
        Seq::empty()
    } else {
        let prev = off_messages(notes, n - 1);
        match notes[n - 1] {
            Some(note) => prev.push(message(MIDI_NOTE_OFF, (n - 1) as u8, note, 0)),
            None => prev,
        }
    }
}

} // verus!
