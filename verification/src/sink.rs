use vstd::prelude::*;

use crate::decode::{decode, decode_spec, int_view};
use crate::elem::ElementType;
use crate::format::{csv_text, format_values};

verus! {

/// In file-output mode, the number of packets accumulated before the text
/// buffer is flushed as one line.
pub const FLUSH_THRESHOLD: usize = 1000;

/// Consumer-side state of the pipeline: the element type fixed at startup,
/// the output policy, the accumulating text buffer, and the count of packets
/// gathered since the last flush (used only in file mode).
pub struct Pipeline {
    pub elem: ElementType,
    pub to_file: bool,
    pub buffer: Vec<u8>,
    pub count: usize,
}

impl Pipeline {
    /// The buffer never reaches the threshold without being flushed, and in
    /// console mode every packet's text is flushed at once, so nothing ever
    /// lingers there.
    pub open spec fn wf(self) -> bool {
        &&& self.count < FLUSH_THRESHOLD
        &&& !self.to_file ==> self.buffer@ == Seq::<u8>::empty() && self.count == 0
    }

    /// The text one packet contributes to the output under this pipeline's
    /// element type.
    pub open spec fn packet_text(self, bytes: Seq<u8>) -> Seq<u8> {
        csv_text(decode_spec(self.elem, bytes))
    }

    pub fn new(elem: ElementType, to_file: bool) -> (r: Pipeline)
        ensures
            r.elem == elem,
            r.to_file == to_file,
            r.buffer@ == Seq::<u8>::empty(),
            r.count == 0,
            r.wf(),
    {
        Pipeline { elem, to_file, buffer: Vec::new(), count: 0 }
    }

    /// Decodes and renders one packet and applies the flush policy: in
    /// console mode the packet's own text is emitted at once; in file mode
    /// the text accumulates, and once the threshold-th packet arrives the
    /// whole batch is emitted and the buffer and counter start over.
    /// A returned value is what the caller must write out.
    pub fn handle_packet(&mut self, packet: &Vec<u8>) -> (flush: Option<Vec<u8>>)
        requires
            old(self).wf(),
        ensures
            final(self).wf(),
            final(self).elem == old(self).elem,
            final(self).to_file == old(self).to_file,
            ({
                let frag = old(self).packet_text(packet@);
                if !old(self).to_file {
                    &&& flush matches Some(f) && f@ == frag
                    &&& final(self).buffer@ == Seq::<u8>::empty()
                    &&& final(self).count == 0
                } else if old(self).count + 1 >= FLUSH_THRESHOLD {
                    &&& flush matches Some(f) && f@ == old(self).buffer@ + frag
                    &&& final(self).buffer@ == Seq::<u8>::empty()
                    &&& final(self).count == 0
                } else {
                    &&& flush is None
                    &&& final(self).buffer@ == old(self).buffer@ + frag
                    &&& final(self).count == old(self).count + 1
                }
            }),
    {
        let vals = decode(self.elem, packet);
        let mut text = format_values(&vals);
        if !self.to_file {
            Some(text)
        } else {
            self.buffer.append(&mut text);
            if self.count + 1 >= FLUSH_THRESHOLD {
                let mut batch: Vec<u8> = Vec::new();
                core::mem::swap(&mut batch, &mut self.buffer);
                self.count = 0;
                Some(batch)
            } else {
                self.count = self.count + 1;
                None
            }
        }
    }

    /// Shutdown flush: when the producer side disconnects, whatever text has
    /// accumulated is emitted exactly once, threshold or not, and the
    /// pipeline is left empty.
    pub fn handle_disconnect(&mut self) -> (flush: Vec<u8>)
        requires
            old(self).wf(),
        ensures
            final(self).wf(),
            final(self).elem == old(self).elem,
            final(self).to_file == old(self).to_file,
            flush@ == old(self).buffer@,
            final(self).buffer@ == Seq::<u8>::empty(),
            final(self).count == 0,
    {
        let mut batch: Vec<u8> = Vec::new();
        core::mem::swap(&mut batch, &mut self.buffer);
        self.count = 0;
        batch
    }
}

} // verus!
