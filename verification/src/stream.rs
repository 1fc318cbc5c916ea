//! The reader side of the protocol: hands received bytes to the frame decoder, one by one,
//! or as whole runs while a chunk's bytes are received.
use crate::parser::{
    chunk_step, inv, lemma_step_log, outcomes, step_emits, step_fault, ChunkParser,
    ChunkParserView, ParseFault,
};
use crate::protocol::{MsgView, ProtocolMsgs, GL_STATE};
use std::sync::mpsc::SyncSender;
use vstd::prelude::*;

verus! {

/// The stream reader as a mathematical value.
pub struct ProtocolParserView {
    pub buf_size: usize,
    pub state: GL_STATE,
    pub buff_mode_left: u64,
    pub cmd_parser: Option<ChunkParserView>,
}

/// Feeds received bytes to a [`ChunkParser`].
pub struct ProtocolParser {
    buf_size: usize,
    state: GL_STATE,
    buff_mode_left: u64,
    cmd_parser: Option<ChunkParser>,
}

impl View for ProtocolParser {
    type V = ProtocolParserView;

    closed spec fn view(&self) -> ProtocolParserView {
        ProtocolParserView {
            buf_size: self.buf_size,
            state: self.state,
            buff_mode_left: self.buff_mode_left,
            cmd_parser: match self.cmd_parser {
                Some(cp) => Some(cp@),
                None => None,
            },
        }
    }
}

/// The messages handed to the channel so far, with their outcomes.
pub open spec fn pp_sent(p: ProtocolParserView) -> Seq<(MsgView, bool)> {
    match p.cmd_parser {
        Some(cp) => cp.sent,
        None => Seq::empty(),
    }
}

/// The reader is in byte mode or has chunk bytes left to hand over, and its decoder keeps its
/// bounds.
pub open spec fn pp_inv(p: ProtocolParserView) -> bool {
    &&& p.state != GL_STATE::IDLE
    &&& p.state == GL_STATE::IN_BUFFER_MODE ==> p.buff_mode_left > 0
    &&& p.state == GL_STATE::IN_BYTE_MODE ==> p.buff_mode_left == 0
    &&& p.cmd_parser matches Some(cp) ==> inv(cp)
}

/// How many bytes of `data` the next step takes: one in byte mode, else as many of the
/// chunk bytes still expected as `data` holds.
pub open spec fn unit_len(p: ProtocolParserView, data: Seq<u8>) -> nat {
    if p.state == GL_STATE::IN_BYTE_MODE {
        1
    } else if data.len() >= p.buff_mode_left {
        p.buff_mode_left as nat
    } else {
        data.len()
    }
}

/// The fault that stops the next step on `data`, if any.
pub open spec fn unit_fault(p: ProtocolParserView, data: Seq<u8>) -> Option<ParseFault> {
    match p.cmd_parser {
        None => Some(ParseFault::NoCommandParser),
        Some(cp) => if p.state == GL_STATE::IN_BYTE_MODE {
            step_fault(cp, data[0], None)
        } else {
            step_fault(cp, 0, Some(data.take(unit_len(p, data) as int)))
        },
    }
}

/// The next step on the nonempty `data`: a byte in byte mode (which switches to buffer mode
/// when it completes a chunk length), else the run of chunk bytes that `unit_len` gives.
pub open spec fn pp_unit(p: ProtocolParserView, data: Seq<u8>, oks: Seq<bool>) -> ProtocolParserView
    recommends
        p.cmd_parser is Some,
        data.len() > 0,
{
    let cp = p.cmd_parser.unwrap();
    if p.state == GL_STATE::IN_BYTE_MODE {
        let (cp2, r) = chunk_step(cp, data[0], None, oks);
        if r != 0 {
            ProtocolParserView {
                cmd_parser: Some(cp2),
                buff_mode_left: r,
                state: GL_STATE::IN_BUFFER_MODE,
                ..p
            }
        } else {
            ProtocolParserView { cmd_parser: Some(cp2), ..p }
        }
    } else {
        let k = unit_len(p, data);
        let cp2 = chunk_step(cp, 0, Some(data.take(k as int)), oks).0;
        if data.len() >= p.buff_mode_left {
            ProtocolParserView {
                cmd_parser: Some(cp2),
                state: GL_STATE::IN_BYTE_MODE,
                buff_mode_left: 0,
                ..p
            }
        } else {
            ProtocolParserView {
                cmd_parser: Some(cp2),
                buff_mode_left: (p.buff_mode_left - data.len()) as u64,
                ..p
            }
        }
    }
}

/// Handing all of `data` to the reader: the final reader, and the fault that stopped it
/// early, if any (the reader is then left as it was before the faulty step).
#[verifier::opaque]
pub open spec fn pp_feed(p: ProtocolParserView, data: Seq<u8>, oks: Seq<bool>) -> (
    ProtocolParserView,
    Option<ParseFault>,
)
    decreases data.len(),
{
    if data.len() == 0 || unit_len(p, data) == 0 {
        (p, None)
    } else {
        match unit_fault(p, data) {
            Some(f) => (p, Some(f)),
            None => pp_feed(pp_unit(p, data, oks), data.skip(unit_len(p, data) as int), oks),
        }
    }
}

/// `oks` starts with the outcomes recorded in `log`.
pub open spec fn agrees(log: Seq<(MsgView, bool)>, oks: Seq<bool>) -> bool {
    log.len() <= oks.len() && forall|i: int| 0 <= i < log.len() ==> oks[i] == #[trigger] log[i].1
}

impl ProtocolParser {
    /// The reader's fields keep their bounds.
    pub open spec fn wf(&self) -> bool {
        pp_inv(self@)
    }

    /// A reader in byte mode with no decoder yet; `buf_size` is the size of its read buffer.
    pub fn new(buf_size: usize) -> (p: Self)
        ensures
            p@ == (ProtocolParserView {
                buf_size,
                state: GL_STATE::IN_BYTE_MODE,
                buff_mode_left: 0,
                cmd_parser: None,
            }),
            p.wf(),
    {
        ProtocolParser {
            buf_size: buf_size,
            state: GL_STATE::IN_BYTE_MODE,
            buff_mode_left: 0,
            cmd_parser: None,
        }
    }

    /// The size of the read buffer.
    pub fn buf_size(&self) -> (n: usize)
        ensures
            n == self@.buf_size,
    {
        self.buf_size
    }

    /// The channel its decoder hands messages to, once it has one.
    pub closed spec fn channel(&self) -> Option<SyncSender<ProtocolMsgs>> {
        match self.cmd_parser {
            Some(cp) => Some(cp.channel()),
            None => None,
        }
    }

    /// Gives the reader a fresh decoder that sends to `msg_sender`.
    pub fn build(&mut self, msg_sender: SyncSender<ProtocolMsgs>)
        requires
            old(self).wf(),
        ensures
            final(self).wf(),
            final(self).channel() == Some(msg_sender),
            final(self)@ == (ProtocolParserView {
                cmd_parser: Some(crate::parser::ready_view(Seq::empty())),
                ..old(self)@
            }),
    {
        self.cmd_parser = Some(ChunkParser::new(msg_sender));
    }

    /// Hands the received bytes `data` to the decoder, in the order they came. Stops at the
    /// first byte the decoder cannot take (where the decoder would otherwise panic) and
    /// reports why.
    #[verifier::rlimit(80)]
    pub fn feed(&mut self, data: &[u8]) -> (r: Result<(), ParseFault>)
        requires
            old(self).wf(),
        ensures
            final(self).wf(),
            final(self).channel() == old(self).channel(),
            final(self)@ == pp_feed(old(self)@, data@, outcomes(pp_sent(final(self)@))).0,
            r matches Ok(_) ==> pp_feed(old(self)@, data@, outcomes(pp_sent(final(self)@))).1 is None,
            r matches Err(f) ==> pp_feed(old(self)@, data@, outcomes(pp_sent(final(self)@))).1 == Some(f),
    {
        let mut processed: usize = 0;
        assert(data@.skip(0) =~= data@);
        reveal(pp_feed);
        while processed < data.len()
            invariant
                self.wf(),
                self.channel() == old(self).channel(),
                processed <= data@.len(),
                forall|oks: Seq<bool>|
                    agrees(pp_sent(self@), oks) ==> #[trigger] pp_feed(old(self)@, data@, oks)
                        == pp_feed(self@, data@.skip(processed as int), oks),
            decreases data@.len() - processed,
        {
            let ghost p0 = self@;
            let ghost rest = data@.skip(processed as int);
            proof {
                reveal(pp_feed);
            }
            let fault = match &self.cmd_parser {
                None => Some(ParseFault::NoCommandParser),
                Some(cp) => {
                    if self.state == GL_STATE::IN_BYTE_MODE {
                        cp.fault(data[processed], None)
                    } else {
                        let avail: usize = data.len() - processed;
                        let take: usize = if avail as u64 >= self.buff_mode_left {
                            self.buff_mode_left as usize
                        } else {
                            avail
                        };
                        let piece = vstd::slice::slice_subrange(data, processed, processed + take);
                        proof {
                            assert(piece@ =~= rest.take(unit_len(p0, rest) as int));
                        }
                        cp.fault(0, Some(piece))
                    }
                },
            };
            assert(rest[0] == data@[processed as int]);
            if let Some(f) = fault {
                assert forall|oks: Seq<bool>| agrees(pp_sent(self@), oks) implies #[trigger] pp_feed(
                    old(self)@,
                    data@,
                    oks,
                ) == (self@, Some(f)) by {
                    assert(pp_feed(p0, rest, oks) == (p0, Some(f)));
                }
                return Err(f);
            }
            let k: usize = if self.state == GL_STATE::IN_BYTE_MODE {
                self.on_char(data[processed]);
                1
            } else {
                self.on_buffer(data, processed)
            };
            proof {
                assert(k == unit_len(p0, rest));
                assert(data@.skip(processed + k) =~= rest.skip(k as int));
                assert forall|oks: Seq<bool>| agrees(pp_sent(self@), oks) implies #[trigger] pp_feed(
                    old(self)@,
                    data@,
                    oks,
                ) == pp_feed(self@, data@.skip(processed + k), oks) by {
                    assert(agrees(pp_sent(p0), oks));
                    assert(self@ == pp_unit(p0, rest, oks));
                }
            }
            processed = processed + k;
        }
        proof {
            reveal(pp_feed);
            assert(data@.skip(processed as int) =~= Seq::<u8>::empty());
            assert(agrees(pp_sent(self@), outcomes(pp_sent(self@))));
        }
        Ok(())
    }

    /// One byte in byte mode; switches to buffer mode when the byte completes a chunk length.
    fn on_char(&mut self, in_char: u8)
        requires
            old(self).wf(),
            old(self)@.state == GL_STATE::IN_BYTE_MODE,
            old(self)@.cmd_parser matches Some(cp) && step_fault(cp, in_char, None) is None,
        ensures
            final(self).wf(),
            final(self).channel() == old(self).channel(),
            forall|oks: Seq<bool>| agrees(pp_sent(final(self)@), oks) ==> final(self)@ == pp_unit(
                old(self)@,
                seq![in_char],
                oks,
            ),
            forall|oks: Seq<bool>| agrees(pp_sent(final(self)@), oks) ==> agrees(pp_sent(old(self)@), oks),
    {
        let ghost cp0 = old(self)@.cmd_parser.unwrap();
        match &mut self.cmd_parser {
            Some(cmd_parser) => {
                let ret = cmd_parser.on_data(in_char, None);
                if ret != 0 {
                    self.buff_mode_left = ret;
                    self.state = GL_STATE::IN_BUFFER_MODE;
                }
            },
            None => {},
        }
        proof {
            let cp1 = self@.cmd_parser.unwrap();
            let oks1 = outcomes(cp1.sent);
            lemma_step_log(cp0, in_char, None, oks1, oks1);
            assert forall|oks: Seq<bool>| agrees(pp_sent(self@), oks) implies self@ == pp_unit(
                old(self)@,
                seq![in_char],
                oks,
            ) && agrees(pp_sent(old(self)@), oks) by {
                lemma_step_log(cp0, in_char, None, oks, oks1);
                if step_emits(cp0, in_char, None) {
                    assert(cp1.sent[cp0.sent.len() as int].1 == oks[cp0.sent.len() as int]);
                    assert(cp1.sent[cp0.sent.len() as int] == cp1.sent.last());
                }
                assert forall|i: int| 0 <= i < cp0.sent.len() implies oks[i] == #[trigger] cp0.sent[i].1 by {
                    if step_emits(cp0, in_char, None) {
                        assert(cp0.sent[i] == cp1.sent.drop_last()[i]);
                    }
                    assert(oks[i] == cp1.sent[i].1);
                }
            }
        }
    }

    /// The next run of chunk bytes of `data` from `from` on, in buffer mode; returns how many
    /// bytes it took.
    fn on_buffer(&mut self, data: &[u8], from: usize) -> (taken: usize)
        requires
            old(self).wf(),
            old(self)@.state == GL_STATE::IN_BUFFER_MODE,
            from < data@.len(),
            old(self)@.cmd_parser matches Some(cp) && step_fault(
                cp,
                0,
                Some(data@.skip(from as int).take(unit_len(old(self)@, data@.skip(from as int)) as int)),
            ) is None,
        ensures
            final(self).wf(),
            final(self).channel() == old(self).channel(),
            taken == unit_len(old(self)@, data@.skip(from as int)),
            forall|oks: Seq<bool>| agrees(pp_sent(final(self)@), oks) ==> final(self)@ == pp_unit(
                old(self)@,
                data@.skip(from as int),
                oks,
            ),
            forall|oks: Seq<bool>| agrees(pp_sent(final(self)@), oks) ==> agrees(pp_sent(old(self)@), oks),
    {
        let ghost p0 = old(self)@;
        let ghost rest = data@.skip(from as int);
        let ghost cp0 = p0.cmd_parser.unwrap();
        let avail: usize = data.len() - from;
        let whole: bool = avail as u64 >= self.buff_mode_left;
        let take: usize = if whole {
            self.buff_mode_left as usize
        } else {
            avail
        };
        let piece = vstd::slice::slice_subrange(data, from, from + take);
        proof {
            assert(piece@ =~= rest.take(unit_len(p0, rest) as int));
        }
        match &mut self.cmd_parser {
            Some(cmd_parser) => {
                cmd_parser.on_data(0, Some(piece));
            },
            None => {},
        }
        if whole {
            self.state = GL_STATE::IN_BYTE_MODE;
            self.buff_mode_left = 0;
        } else {
            self.buff_mode_left = self.buff_mode_left - avail as u64;
        }
        proof {
            let cp1 = self@.cmd_parser.unwrap();
            let oks1 = outcomes(cp1.sent);
            let b = Some(piece@);
            lemma_step_log(cp0, 0, b, oks1, oks1);
            assert forall|oks: Seq<bool>| agrees(pp_sent(self@), oks) implies self@ == pp_unit(
                p0,
                rest,
                oks,
            ) && agrees(pp_sent(p0), oks) by {
                lemma_step_log(cp0, 0, b, oks, oks1);
                if step_emits(cp0, 0, b) {
                    assert(cp1.sent[cp0.sent.len() as int].1 == oks[cp0.sent.len() as int]);
                    assert(cp1.sent[cp0.sent.len() as int] == cp1.sent.last());
                }
                assert forall|i: int| 0 <= i < cp0.sent.len() implies oks[i] == #[trigger] cp0.sent[i].1 by {
                    if step_emits(cp0, 0, b) {
                        assert(cp0.sent[i] == cp1.sent.drop_last()[i]);
                    }
                    assert(oks[i] == cp1.sent[i].1);
                }
            }
        }
        take
    }
}

} // verus!
