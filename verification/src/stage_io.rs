//! The block of audio a stage works on in place.

use vstd::prelude::*;

use crate::dsp;
use crate::single::Single;

verus! {

/// One block: every channel holds the same number of samples.
pub struct StageIo {
    pub channels: Vec<Vec<Single>>,
    pub frames: usize,
}

impl StageIo {
    pub open spec fn wf(&self) -> bool {
        forall|ch: int|
            0 <= ch < self.channels@.len() ==> (#[trigger] self.channels@[ch])@.len()
                == self.frames
    }

    /// The samples of every channel.
    pub open spec fn samples(&self) -> Seq<Seq<Single>> {
        Seq::new(self.channels@.len(), |ch: int| self.channels@[ch]@)
    }

    pub open spec fn same_shape(&self, other: &StageIo) -> bool {
        self.frames == other.frames && self.channels@.len() == other.channels@.len()
    }

    /// A block of the given channels, if they are all equally long.
    pub fn new(channels: Vec<Vec<Single>>, frames: usize) -> (r: Option<StageIo>)
        ensures
            r is Some <==> (forall|ch: int|
                0 <= ch < channels@.len() ==> (#[trigger] channels@[ch])@.len() == frames),
            r matches Some(io) ==> io.wf() && io.channels == channels && io.frames == frames,
    {
        let mut ch: usize = 0;
        while ch < channels.len()
            invariant
                ch <= channels@.len(),
                forall|c: int| 0 <= c < ch ==> (#[trigger] channels@[c])@.len() == frames,
            decreases channels@.len() - ch,
        {
            if channels[ch].len() != frames {
                return None;
            }
            ch += 1;
        }
        Some(StageIo { channels, frames })
    }

    /// The samples as they are now, to keep beside the block.
    pub fn capture(&self) -> (dry: Vec<Vec<Single>>)
        ensures
            dry@.len() == self.channels@.len(),
            forall|ch: int|
                0 <= ch < dry@.len() ==> (#[trigger] dry@[ch])@ == self.channels@[ch]@,
    {
        let mut dry: Vec<Vec<Single>> = Vec::new();
        let mut ch: usize = 0;
        while ch < self.channels.len()
            invariant
                ch <= self.channels@.len(),
                dry@.len() == ch,
                forall|c: int|
                    0 <= c < ch ==> (#[trigger] dry@[c])@ == self.channels@[c]@,
            decreases self.channels@.len() - ch,
        {
            dry.push(dsp::copy_samples(&self.channels[ch]));
            ch += 1;
        }
        dry
    }

    /// Replaces one channel's samples.
    pub fn put(&mut self, ch: usize, samples: Vec<Single>)
        requires
            old(self).wf(),
            ch < old(self).channels@.len(),
            samples@.len() == old(self).frames,
        ensures
            final(self).wf(),
            final(self).same_shape(old(self)),
            final(self).channels@ == old(self).channels@.update(ch as int, samples),
    {
        self.channels[ch] = samples;
    }

    /// Copies channel 0 onto every other channel.
    pub fn duplicate_first(&mut self)
        requires
            old(self).wf(),
            old(self).channels@.len() > 0,
        ensures
            final(self).wf(),
            final(self).same_shape(old(self)),
            forall|ch: int|
                0 <= ch < final(self).channels@.len() ==> (#[trigger] final(self).channels@[ch])@
                    == old(self).channels@[0]@,
    {
        let mut ch: usize = 1;
        while ch < self.channels.len()
            invariant
                1 <= ch <= self.channels@.len(),
                self.wf(),
                self.same_shape(old(self)),
                forall|c: int|
                    0 <= c < ch ==> (#[trigger] self.channels@[c])@ == old(self).channels@[0]@,
            decreases self.channels@.len() - ch,
        {
            let copy: Vec<Single> = dsp::copy_samples(&self.channels[0]);
            self.put(ch, copy);
            ch += 1;
        }
    }
}

} // verus!
