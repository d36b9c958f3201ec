//! The read half of a tmux control-mode connection: the byte source of the
//! tmux client and the parser its output goes through.
use vstd::prelude::*;
use crate::tmux_parser::{
    ControlModeParser,
    ResponseState,
    Responses,
    process_lines,
    feeding_in_pieces_equals_feeding_at_once,
};
use crate::tmux_protocol::Notification;

verus! {

/// The responses of a connection before any byte has arrived.
pub open spec fn no_responses() -> ResponseState {
    ResponseState { open: Responses::empty(), done: Responses::empty() }
}

/// The read half of a control mode connection.
pub struct ConnectionReader<R> {
    reader: R,
    parser: ControlModeParser,
    /// Every byte handed to `parse_bytes` so far, in order.
    history: Ghost<Seq<u8>>,
}

impl<R> ConnectionReader<R> {
    /// The parser state behind the reader.
    pub closed spec fn parser(&self) -> ControlModeParser {
        self.parser
    }

    /// The byte source of the connection.
    pub closed spec fn source(&self) -> R {
        self.reader
    }

    /// Every byte parsed so far, in the order it arrived.
    pub closed spec fn history(&self) -> Seq<u8> {
        self.history@
    }

    /// The parser is well formed and holds exactly what reading the whole
    /// history at once leaves: its responses and its incomplete last line.
    pub closed spec fn wf(&self) -> bool {
        let (st, ns, rem) = process_lines(no_responses(), self.history@);
        &&& self.parser.wf()
        &&& self.parser.responses() == st
        &&& self.parser.buffered() == rem
    }

    /// A reader over `reader` with a fresh parser.
    pub fn new(reader: R) -> (r: Self)
        ensures
            r.wf(),
            r.source() == reader,
            r.history() == Seq::<u8>::empty(),
            r.parser().wf(),
            r.parser().buffered() == Seq::<u8>::empty(),
            r.parser().responses().open == Responses::empty(),
            r.parser().responses().done == Responses::empty(),
    {
        let r = ConnectionReader {
            reader,
            parser: ControlModeParser::new(),
            history: Ghost(Seq::empty()),
        };
        proof {
            assert(r.parser.responses() == no_responses());
        }
        r
    }

    /// The byte source, to read the tmux client's output from.
    pub fn stdout(&mut self) -> (r: &mut R)
        ensures
            *r == old(self).source(),
            final(self).source() == *final(r),
            final(self).parser() == old(self).parser(),
            final(self).history() == old(self).history(),
            old(self).wf() ==> final(self).wf(),
    {
        &mut self.reader
    }

    /// Parses bytes read from the connection (see `ControlModeParser::feed`).
    /// The notifications returned are those that reading the whole history
    /// and `data` at once yields after the ones of the history alone: a
    /// reader gives what one parser fed every byte so far would give.
    pub fn parse_bytes(&mut self, data: &[u8]) -> (notifications: Vec<Notification>)
        requires
            old(self).wf(),
        ensures
            final(self).wf(),
            final(self).parser().wf(),
            final(self).source() == old(self).source(),
            final(self).history() == old(self).history() + data@,
            process_lines(no_responses(), final(self).history()).1 == process_lines(
                no_responses(),
                old(self).history(),
            ).1 + notifications@.map_values(|n: Notification| n@),
            ({
                let (st, ns, rem) = process_lines(
                    old(self).parser().responses(),
                    old(self).parser().buffered() + data@,
                );
                &&& final(self).parser().responses() == st
                &&& notifications@.map_values(|n: Notification| n@) == ns
                &&& final(self).parser().buffered() == rem
            }),
    {
        let ghost h = self.history@;
        let notifications = self.parser.feed(data);
        proof {
            feeding_in_pieces_equals_feeding_at_once(no_responses(), h, data@);
            self.history = Ghost(h + data@);
        }
        notifications
    }
}

} // verus!
