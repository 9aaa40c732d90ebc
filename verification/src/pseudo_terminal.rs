//! The terminal that shows the output of the debugged program: bytes are
//! collected until they form valid UTF-8, then written as text.
use vstd::prelude::*;
use crate::text::str_from_utf8;
use crate::unsegen::widgets::{write_lines, LogViewer};

verus! {

/// The display of the program's output and the bytes not yet shown.
pub struct PseudoTerminal {
    display: LogViewer,
    input_buffer: Vec<u8>,
}

impl PseudoTerminal {
    /// The lines shown.
    pub closed spec fn display_spec(&self) -> Seq<Seq<char>> {
        self.display@
    }

    /// The bytes not yet shown.
    pub closed spec fn buffer_spec(&self) -> Seq<u8> {
        self.input_buffer@
    }

    /// Nothing shown, nothing pending.
    pub fn new() -> (r: Self)
        ensures
            r.display_spec() == Seq::<Seq<char>>::empty(),
            r.buffer_spec() == Seq::<u8>::empty(),
    {
        PseudoTerminal { display: LogViewer::new(), input_buffer: Vec::new() }
    }

    /// The bytes not yet shown.
    pub fn pending(&self) -> (r: &[u8])
        ensures
            r@ == self.buffer_spec(),
    {
        self.input_buffer.as_slice()
    }

    /// Adds `bytes` to the pending ones; once all of them form valid UTF-8,
    /// their text is written to the display (see [`write_lines`]) and none
    /// are pending any longer.
    pub fn add_byte_input(&mut self, bytes: &[u8])
        ensures
            ({
                let all = old(self).buffer_spec() + bytes@;
                if vstd::utf8::valid_utf8(all) {
                    &&& final(self).display_spec() == write_lines(old(self).display_spec(), vstd::utf8::decode_utf8(all))
                    &&& final(self).buffer_spec() == Seq::<u8>::empty()
                } else {
                    &&& final(self).display_spec() == old(self).display_spec()
                    &&& final(self).buffer_spec() == all
                }
            }),
    {
        let ghost b0 = self.input_buffer@;
        let mut i: usize = 0;
        while i < bytes.len()
            invariant
                i <= bytes@.len(),
                self.input_buffer@ == b0 + bytes@.take(i as int),
                self.display@ == old(self).display@,
            decreases bytes@.len() - i,
        {
            self.input_buffer.push(bytes[i]);
            assert(b0 + bytes@.take(i + 1) =~= (b0 + bytes@.take(i as int)).push(bytes@[i as int]));
            i += 1;
        }
        assert(bytes@.take(bytes@.len() as int) =~= bytes@);
        let text = match str_from_utf8(self.input_buffer.as_slice()) {
            Some(t) => Some(t.to_owned()),
            None => None,
        };
        if let Some(t) = text {
            self.display.write_str(t.as_str());
            self.input_buffer.clear();
        }
    }
}

} // verus!
