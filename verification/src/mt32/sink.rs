//! The MT-32 as a device that a MIDI output can be pointed at.
use vstd::prelude::*;
use crate::hostpath::HostPath;
use crate::mt32::demo::{Player, Song};

verus! {

/// How many frames the engine is asked for at a time.
pub const BLOCK_FRAMES: usize = 256;

/// What a device has been sent and has played.
///
/// Crossing into the engine for each frame would cost more than the
/// synthesis, so it is asked for a block at a time. Everything written since
/// the last block lands before the next is rendered.
pub struct Mt32Device {
    /// Bytes written since the last block.
    pub pending: Vec<u8>,
    /// How much of the last block has been taken.
    pub played: usize,
    /// A song out of the control ROM, playing itself into the engine.
    pub demo: Option<Player>,
}

/// What is done for the next frame.
pub enum NextFrame {
    /// Take this frame of the block at hand.
    Take(usize),
    /// Hand these bytes to the engine, render a block, and take its first
    /// frame.
    Render(Vec<u8>),
}

impl Mt32Device {
    pub open spec fn wf(self) -> bool {
        &&& self.played <= BLOCK_FRAMES
        &&& self.demo matches Some(player) ==> player.wf()
    }

    /// Play one of the ROM's own songs from the top, or stop.
    pub fn play_demo(&mut self, song: Option<Song>)
        requires
            old(self).wf(),
        ensures
            final(self).wf(),
            final(self).pending == old(self).pending,
            final(self).played == old(self).played,
            match song {
                Some(s) => final(self).demo matches Some(player) && player.song == s && player.next
                    == 0 && !player.setup_sent,
                None => final(self).demo is None,
            },
    {
        self.demo = match song {
            Some(s) => Some(Player::new(s)),
            None => None,
        };
    }

    /// Drop a song that has run out.
    pub fn settle_demo(&mut self)
        requires
            old(self).wf(),
        ensures
            final(self).wf(),
            final(self).pending == old(self).pending,
            final(self).played == old(self).played,
            final(self).demo == (match old(self).demo {
                Some(player) if player.next < player.song.events@.len() => Some(player),
                _ => None,
            }),
    {
        let over = match &self.demo {
            Some(player) => player.finished(),
            None => false,
        };
        if over {
            self.demo = None;
        }
    }

    /// Whether a song is still running.
    pub fn demo_playing(&self) -> (r: bool)
        ensures
            r == (self.demo is Some),
    {
        self.demo.is_some()
    }

    /// A device with no block at hand.
    pub fn open() -> (r: Mt32Device)
        ensures
            r.wf(),
            r.pending@ == Seq::<u8>::empty(),
            r.played == 256,
            r.demo is None,
    {
        Mt32Device { pending: Vec::new(), played: BLOCK_FRAMES, demo: None }
    }

    /// Take a byte off the serial line.
    pub fn write_byte(&mut self, b: u8)
        requires
            old(self).wf(),
        ensures
            final(self).wf(),
            final(self).pending@ == old(self).pending@.push(b),
            final(self).played == old(self).played,
            final(self).demo == old(self).demo,
    {
        self.pending.push(b);
    }

    /// Whether the next frame takes a fresh block.
    pub fn needs_block(&self) -> (r: bool)
        ensures
            r == (self.played == 256),
    {
        self.played == BLOCK_FRAMES
    }

    /// What is done for the next frame.
    pub fn next_frame(&mut self) -> (r: NextFrame)
        requires
            old(self).wf(),
        ensures
            final(self).wf(),
            final(self).demo == old(self).demo,
            match r {
                NextFrame::Take(at) => old(self).played < 256 && at == old(self).played
                    && final(self).played == old(self).played + 1 && final(self).pending == old(
                    self,
                ).pending,
                NextFrame::Render(bytes) => old(self).played == 256 && bytes@ == old(
                    self,
                ).pending@ && final(self).pending@ == Seq::<u8>::empty() && final(self).played
                    == 1,
            },
    {
        if self.played == BLOCK_FRAMES {
            let mut bytes: Vec<u8> = Vec::new();
            std::mem::swap(&mut bytes, &mut self.pending);
            self.played = 1;
            NextFrame::Render(bytes)
        } else {
            let at: usize = self.played;
            self.played = self.played + 1;
            NextFrame::Take(at)
        }
    }
}

/// Where the ROM pair lives.
#[derive(Debug, Clone)]
pub struct Mt32Roms {
    pub control: Option<HostPath>,
    pub pcm: Option<HostPath>,
}

impl Default for Mt32Roms {
    fn default() -> (r: Mt32Roms)
        ensures
            r.control is None,
            r.pcm is None,
    {
        Mt32Roms { control: None, pcm: None }
    }
}

impl Mt32Roms {
    /// Both images, where both are configured. One on its own is not enough.
    pub fn pair(&self) -> (r: Option<(&HostPath, &HostPath)>)
        ensures
            match (self.control, self.pcm) {
                (Some(control), Some(pcm)) => r matches Some(p) && *p.0 == control && *p.1 == pcm,
                _ => r is None,
            },
    {
        match (&self.control, &self.pcm) {
            (Some(control), Some(pcm)) => Some((control, pcm)),
            _ => None,
        }
    }

    /// Whether an MT-32 could be attached.
    pub fn configured(&self) -> (r: bool)
        ensures
            r == (self.control is Some && self.pcm is Some),
    {
        self.pair().is_some()
    }
}

} // verus!
