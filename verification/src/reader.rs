//! The stream reader: folds the outcomes of non-blocking reads into
//! accumulated bytes under one of two framing policies, and decodes the
//! result as UTF-8 text.
//!
//! Raw-escape mode (the terminal's input) accumulates until a chunk ends in a
//! carriage return — the line is ready, the return itself is left out — or in
//! the cancel byte, which closes the stream at once. Line mode (the child's
//! output) accumulates until a chunk ends in a newline, which is kept.

use vstd::prelude::*;
use vstd::utf8::{decode_utf8, encode_utf8, encode_utf8_decode_utf8, valid_utf8};

use crate::event::{ReadEvent, RelayError, StepStatus};

verus! {

/// Carriage return: ends a raw-mode line.
pub const CR: u8 = 13;

/// The cancel byte (Ctrl-X): closes the raw-mode stream at once.
pub const CANCEL: u8 = 24;

/// Newline: ends a line-mode read.
pub const NL: u8 = 10;

/// One framing step: what the accumulated bytes become, and whether reading
/// goes on, once one read outcome is folded in. `raw` selects raw-escape
/// mode; otherwise line mode.
pub open spec fn spec_read_step(acc: Seq<u8>, ev: ReadEvent, raw: bool) -> (Seq<u8>, StepStatus) {
    match ev {
        ReadEvent::Eof => (acc, StepStatus::Stop(false)),
        ReadEvent::WouldBlock => (acc, StepStatus::Stop(true)),
        ReadEvent::Interrupted => (acc, StepStatus::Going),
        ReadEvent::Failed => (acc, StepStatus::Error),
        ReadEvent::Data(chunk) => {
            if chunk@.len() == 0 {
                (acc, StepStatus::Stop(false))
            } else if raw {
                if chunk@.last() == CR {
                    (acc + chunk@.drop_last(), StepStatus::Stop(true))
                } else if chunk@.last() == CANCEL {
                    (acc + chunk@.drop_last(), StepStatus::Stop(false))
                } else {
                    (acc + chunk@, StepStatus::Going)
                }
            } else {
                if chunk@.last() == NL {
                    (acc + chunk@, StepStatus::Stop(true))
                } else {
                    (acc + chunk@, StepStatus::Going)
                }
            }
        },
    }
}

/// The reader's byte-level result over a whole sequence of read outcomes,
/// folded in order onto `acc`: the accumulated bytes and the stream's open
/// status, or `None` once a read fails for good. Outcomes after a stop are
/// never consumed; a sequence that runs out without a stop counts as
/// would-block, leaving the stream open.
pub open spec fn read_trace(acc: Seq<u8>, events: Seq<ReadEvent>, raw: bool) -> Option<(Seq<u8>, bool)>
    decreases events.len(),
{
    if events.len() == 0 {
        Some((acc, true))
    } else {
        let stepped = spec_read_step(acc, events[0], raw);
        match stepped.1 {
            StepStatus::Going => read_trace(stepped.0, events.drop_first(), raw),
            StepStatus::Stop(open) => Some((stepped.0, open)),
            StepStatus::Error => None,
        }
    }
}

/// Appends the first `count` bytes of `src` onto `dst`, in order.
fn push_prefix(dst: &mut Vec<u8>, src: &Vec<u8>, count: usize)
    requires
        count <= src@.len(),
    ensures
        final(dst)@ == old(dst)@ + src@.take(count as int),
{
    let mut i: usize = 0;
    while i < count
        invariant
            i <= count,
            count <= src@.len(),
            dst@ == old(dst)@ + src@.take(i as int),
        decreases count - i,
    {
        dst.push(src[i]);
        proof {
            assert(src@.take(i as int + 1) =~= src@.take(i as int).push(src@[i as int]));
        }
        i = i + 1;
    }
}

/// Folds one read outcome into the accumulated bytes and says whether the
/// read call goes on, stops, or fails — exactly as [`spec_read_step`] has it.
pub fn read_step(acc: &mut Vec<u8>, ev: &ReadEvent, raw: bool) -> (status: StepStatus)
    ensures
        final(acc)@ == spec_read_step(old(acc)@, *ev, raw).0,
        status == spec_read_step(old(acc)@, *ev, raw).1,
{
    match ev {
        ReadEvent::Eof => StepStatus::Stop(false),
        ReadEvent::WouldBlock => StepStatus::Stop(true),
        ReadEvent::Interrupted => StepStatus::Going,
        ReadEvent::Failed => StepStatus::Error,
        ReadEvent::Data(chunk) => {
            if chunk.len() == 0 {
                proof {
                    assert(old(acc)@ + chunk@.take(0) =~= old(acc)@);
                }
                StepStatus::Stop(false)
            } else {
                let last = chunk[chunk.len() - 1];
                proof {
                    assert(chunk@.take(chunk@.len() - 1) =~= chunk@.drop_last());
                    assert(chunk@.take(chunk@.len() as int) =~= chunk@);
                }
                if raw {
                    if last == CR {
                        push_prefix(acc, chunk, chunk.len() - 1);
                        StepStatus::Stop(true)
                    } else if last == CANCEL {
                        push_prefix(acc, chunk, chunk.len() - 1);
                        StepStatus::Stop(false)
                    } else {
                        push_prefix(acc, chunk, chunk.len());
                        StepStatus::Going
                    }
                } else {
                    push_prefix(acc, chunk, chunk.len());
                    if last == NL {
                        StepStatus::Stop(true)
                    } else {
                        StepStatus::Going
                    }
                }
            }
        },
    }
}

/// Relies on `String::from_utf8`: it succeeds exactly on valid UTF-8 input,
/// and the string it returns holds those very bytes.
#[verifier::external_body]
fn bytes_to_string(bytes: Vec<u8>) -> (r: Option<String>)
    ensures
        r matches Some(s) ==> valid_utf8(bytes@) && encode_utf8(s@) == bytes@,
        r is None ==> !valid_utf8(bytes@),
{
    match String::from_utf8(bytes) {
        Ok(s) => Some(s),
        Err(_) => None,
    }
}

/// Turns accumulated bytes into the reader's final answer: the decoded text
/// with the stream's open status, or a decoding error when the bytes are not
/// valid UTF-8.
pub fn finish_read(acc: Vec<u8>, open: bool) -> (r: Result<(bool, String), RelayError>)
    ensures
        valid_utf8(acc@) ==> (r matches Ok(p) && p.0 == open && p.1@ == decode_utf8(acc@)),
        !valid_utf8(acc@) ==> (r matches Err(e) && e == RelayError::Decode),
{
    match bytes_to_string(acc) {
        Some(s) => {
            proof {
                encode_utf8_decode_utf8(s@);
            }
            Ok((open, s))
        },
        None => Err(RelayError::Decode),
    }
}

/// Reads one burst of readiness: folds the read outcomes in order through the
/// framing policy (`raw` selects raw-escape mode; otherwise line mode) and
/// returns the accumulated text with the stream's open status — the text and
/// status that [`read_trace`] gives, decoded; a fatal read outcome gives the
/// I/O error, bytes that are not UTF-8 the decoding error.
pub fn handle_read(events: &Vec<ReadEvent>, raw: bool) -> (r: Result<(bool, String), RelayError>)
    ensures
        match read_trace(Seq::<u8>::empty(), events@, raw) {
            Some(out) => {
                &&& valid_utf8(out.0) ==> (r matches Ok(p) && p.0 == out.1 && p.1@ == decode_utf8(out.0))
                &&& !valid_utf8(out.0) ==> (r matches Err(e) && e == RelayError::Decode)
            },
            None => r matches Err(e) && e == RelayError::Io,
        },
{
    let mut acc: Vec<u8> = Vec::new();
    let mut i: usize = 0;
    proof {
        assert(acc@ =~= Seq::<u8>::empty());
        assert(events@.skip(0) =~= events@);
    }
    while i < events.len()
        invariant
            i <= events@.len(),
            read_trace(Seq::<u8>::empty(), events@, raw) == read_trace(acc@, events@.skip(i as int), raw),
        decreases events@.len() - i,
    {
        let status = read_step(&mut acc, &events[i], raw);
        proof {
            assert(events@.skip(i as int)[0] == events@[i as int]);
            assert(events@.skip(i as int).drop_first() =~= events@.skip(i as int + 1));
        }
        i = i + 1;
        match status {
            StepStatus::Going => {},
            StepStatus::Stop(open) => {
                return finish_read(acc, open);
            },
            StepStatus::Error => {
                return Err(RelayError::Io);
            },
        }
    }
    proof {
        assert(events@.skip(i as int) =~= Seq::<ReadEvent>::empty());
    }
    finish_read(acc, true)
}

/// The bytes of the data outcomes in `events`, in order.
pub open spec fn data_bytes(events: Seq<ReadEvent>) -> Seq<u8>
    decreases events.len(),
{
    if events.len() == 0 {
        Seq::<u8>::empty()
    } else {
        (match events[0] {
            ReadEvent::Data(chunk) => chunk@,
            _ => Seq::<u8>::empty(),
        }) + data_bytes(events.drop_first())
    }
}

/// A read outcome that raw mode takes in stride: a data chunk accumulated
/// whole, or an interruption that is retried at once.
pub open spec fn benign_raw_event(ev: ReadEvent) -> bool {
    ||| ev == ReadEvent::Interrupted
    ||| ev matches ReadEvent::Data(chunk) && chunk@.len() > 0 && chunk@.last() != CR
        && chunk@.last() != CANCEL
}

/// A read outcome that line mode takes in stride: a data chunk accumulated
/// whole, or an interruption that is retried at once.
pub open spec fn benign_line_event(ev: ReadEvent) -> bool {
    ||| ev == ReadEvent::Interrupted
    ||| ev matches ReadEvent::Data(chunk) && chunk@.len() > 0 && chunk@.last() != NL
}

/// Raw mode accumulates plain data chunks in order until a chunk ends in the
/// carriage return or the cancel byte; that last byte is left out, and the
/// stream stays open exactly for the carriage return.
proof fn lemma_raw_accumulates(acc: Seq<u8>, events: Seq<ReadEvent>, chunk: Vec<u8>)
    requires
        forall|j: int| 0 <= j < events.len() ==> benign_raw_event(#[trigger] events[j]),
        chunk@.len() > 0,
        chunk@.last() == CR || chunk@.last() == CANCEL,
    ensures
        read_trace(acc, events.push(ReadEvent::Data(chunk)), true) == Some(
            (acc + data_bytes(events) + chunk@.drop_last(), chunk@.last() == CR),
        ),
    decreases events.len(),
{
    let evs = events.push(ReadEvent::Data(chunk));
    if events.len() == 0 {
        assert(evs[0] == ReadEvent::Data(chunk));
        assert(acc + data_bytes(events) + chunk@.drop_last() =~= acc + chunk@.drop_last());
    } else {
        assert(evs[0] == events[0]);
        assert(benign_raw_event(events[0]));
        assert(evs.drop_first() =~= events.drop_first().push(ReadEvent::Data(chunk)));
        assert forall|j: int|
            0 <= j < events.drop_first().len() implies benign_raw_event(
            #[trigger] events.drop_first()[j],
        ) by {
            assert(events.drop_first()[j] == events[j + 1]);
        }
        match events[0] {
            ReadEvent::Data(first) => {
                lemma_raw_accumulates(acc + first@, events.drop_first(), chunk);
                assert(acc + first@ + data_bytes(events.drop_first()) + chunk@.drop_last() =~= acc
                    + data_bytes(events) + chunk@.drop_last());
            },
            ReadEvent::Interrupted => {
                lemma_raw_accumulates(acc, events.drop_first(), chunk);
                assert(Seq::<u8>::empty() + data_bytes(events.drop_first()) =~= data_bytes(
                    events.drop_first(),
                ));
                assert(data_bytes(events) =~= data_bytes(events.drop_first()));
            },
            _ => {
                assert(false);
            },
        }
    }
}

/// Line mode accumulates data chunks whole, in order, until a chunk ends in
/// the newline, which is kept; the stream stays open.
proof fn lemma_line_accumulates(acc: Seq<u8>, events: Seq<ReadEvent>, chunk: Vec<u8>)
    requires
        forall|j: int| 0 <= j < events.len() ==> benign_line_event(#[trigger] events[j]),
        chunk@.len() > 0,
        chunk@.last() == NL,
    ensures
        read_trace(acc, events.push(ReadEvent::Data(chunk)), false) == Some(
            (acc + data_bytes(events) + chunk@, true),
        ),
    decreases events.len(),
{
    let evs = events.push(ReadEvent::Data(chunk));
    if events.len() == 0 {
        assert(evs[0] == ReadEvent::Data(chunk));
        assert(acc + data_bytes(events) + chunk@ =~= acc + chunk@);
    } else {
        assert(evs[0] == events[0]);
        assert(benign_line_event(events[0]));
        assert(evs.drop_first() =~= events.drop_first().push(ReadEvent::Data(chunk)));
        assert forall|j: int|
            0 <= j < events.drop_first().len() implies benign_line_event(
            #[trigger] events.drop_first()[j],
        ) by {
            assert(events.drop_first()[j] == events[j + 1]);
        }
        match events[0] {
            ReadEvent::Data(first) => {
                lemma_line_accumulates(acc + first@, events.drop_first(), chunk);
                assert(acc + first@ + data_bytes(events.drop_first()) + chunk@ =~= acc
                    + data_bytes(events) + chunk@);
            },
            ReadEvent::Interrupted => {
                lemma_line_accumulates(acc, events.drop_first(), chunk);
                assert(data_bytes(events) =~= data_bytes(events.drop_first()));
            },
            _ => {
                assert(false);
            },
        }
    }
}

/// Law: a line-mode burst of data whose last chunk ends in a newline hands
/// over every byte in order, the newline kept, with the stream still open.
pub proof fn lemma_line_delivery(events: Seq<ReadEvent>, chunk: Vec<u8>)
    requires
        forall|j: int| 0 <= j < events.len() ==> benign_line_event(#[trigger] events[j]),
        chunk@.len() > 0,
        chunk@.last() == NL,
    ensures
        read_trace(Seq::<u8>::empty(), events.push(ReadEvent::Data(chunk)), false) == Some(
            (data_bytes(events) + chunk@, true),
        ),
{
    lemma_line_accumulates(Seq::<u8>::empty(), events, chunk);
    assert(Seq::<u8>::empty() + data_bytes(events) + chunk@ =~= data_bytes(events) + chunk@);
}

/// Law: a raw-mode burst of data whose last chunk ends in a carriage return
/// hands over exactly the bytes before the return — the return left out,
/// nothing else lost — with the stream still open.
pub proof fn lemma_raw_line_ready(events: Seq<ReadEvent>, chunk: Vec<u8>)
    requires
        forall|j: int| 0 <= j < events.len() ==> benign_raw_event(#[trigger] events[j]),
        chunk@.len() > 0,
        chunk@.last() == CR,
    ensures
        read_trace(Seq::<u8>::empty(), events.push(ReadEvent::Data(chunk)), true) == Some(
            (data_bytes(events) + chunk@.drop_last(), true),
        ),
{
    lemma_raw_accumulates(Seq::<u8>::empty(), events, chunk);
    assert(Seq::<u8>::empty() + data_bytes(events) + chunk@.drop_last() =~= data_bytes(events)
        + chunk@.drop_last());
}

/// Law: the cancel byte closes the raw-mode stream at once; whatever preceded
/// it — possibly nothing — is still handed over.
pub proof fn lemma_raw_cancel(events: Seq<ReadEvent>, chunk: Vec<u8>)
    requires
        forall|j: int| 0 <= j < events.len() ==> benign_raw_event(#[trigger] events[j]),
        chunk@.len() > 0,
        chunk@.last() == CANCEL,
    ensures
        read_trace(Seq::<u8>::empty(), events.push(ReadEvent::Data(chunk)), true) == Some(
            (data_bytes(events) + chunk@.drop_last(), false),
        ),
{
    lemma_raw_accumulates(Seq::<u8>::empty(), events, chunk);
    assert(Seq::<u8>::empty() + data_bytes(events) + chunk@.drop_last() =~= data_bytes(events)
        + chunk@.drop_last());
}

} // verus!
