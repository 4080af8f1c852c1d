//! The stream writer: drains a payload into a sink as the outcomes of
//! non-blocking writes allow, tolerating partial writes, and reports whether
//! the sink is still open.
//!
//! A would-block outcome ends the call with the rest of the payload given up —
//! the caller returns to the multiplexer and re-supplies a payload on the next
//! readiness event. A zero-byte acceptance means the sink has closed.

use vstd::prelude::*;
use vstd::string::StrSliceExecFns;
use vstd::utf8::{
    decode_utf8, encode_utf8, encode_utf8_decode_utf8, encode_utf8_valid_utf8, valid_utf8,
};

use crate::event::{ReadEvent, RelayError, StepStatus, WriteEvent};
use crate::reader::{benign_line_event, data_bytes, lemma_line_delivery, read_trace, NL};

verus! {

/// One draining step: what remains of the payload, and whether the call goes
/// on, once one write outcome is folded in. A sink never takes more than is
/// offered, so an acceptance is capped at what remains.
pub open spec fn spec_write_step(remaining: Seq<u8>, ev: WriteEvent) -> (Seq<u8>, StepStatus) {
    if remaining.len() == 0 {
        (remaining, StepStatus::Stop(true))
    } else {
        match ev {
            WriteEvent::Accepted(n) => {
                if n == 0 {
                    (remaining, StepStatus::Stop(false))
                } else {
                    let taken = if n <= remaining.len() {
                        n as int
                    } else {
                        remaining.len() as int
                    };
                    let rest = remaining.skip(taken);
                    if rest.len() == 0 {
                        (rest, StepStatus::Stop(true))
                    } else {
                        (rest, StepStatus::Going)
                    }
                }
            },
            WriteEvent::WouldBlock => (remaining, StepStatus::Stop(true)),
            WriteEvent::Interrupted => (remaining, StepStatus::Going),
            WriteEvent::Failed => (remaining, StepStatus::Error),
        }
    }
}

/// The writer's result over a whole sequence of write outcomes, folded in
/// order onto the remaining payload: what was left undelivered and the sink's
/// open status, or `None` once a write fails for good. Outcomes after a stop
/// are never consumed; a sequence that runs out without a stop counts as
/// would-block, leaving the sink open.
pub open spec fn write_trace(remaining: Seq<u8>, events: Seq<WriteEvent>) -> Option<(Seq<u8>, bool)>
    decreases events.len(),
{
    if events.len() == 0 {
        Some((remaining, true))
    } else {
        let stepped = spec_write_step(remaining, events[0]);
        match stepped.1 {
            StepStatus::Going => write_trace(stepped.0, events.drop_first()),
            StepStatus::Stop(open) => Some((stepped.0, open)),
            StepStatus::Error => None,
        }
    }
}

/// Removes the first `count` bytes, keeping the rest in order.
fn drop_prefix(v: &mut Vec<u8>, count: usize)
    requires
        count <= old(v)@.len(),
    ensures
        final(v)@ == old(v)@.skip(count as int),
{
    let mut kept: Vec<u8> = Vec::new();
    let mut i: usize = count;
    while i < v.len()
        invariant
            count <= i <= v@.len(),
            v@ == old(v)@,
            kept@ == old(v)@.subrange(count as int, i as int),
        decreases v@.len() - i,
    {
        kept.push(v[i]);
        proof {
            assert(old(v)@.subrange(count as int, i as int + 1) =~= old(v)@.subrange(
                count as int,
                i as int,
            ).push(old(v)@[i as int]));
        }
        i = i + 1;
    }
    proof {
        assert(kept@ =~= old(v)@.skip(count as int));
    }
    *v = kept;
}

/// Folds one write outcome into the remaining payload and says whether the
/// write call goes on, stops, or fails — exactly as [`spec_write_step`] has
/// it.
pub fn write_step(remaining: &mut Vec<u8>, ev: &WriteEvent) -> (status: StepStatus)
    ensures
        final(remaining)@ == spec_write_step(old(remaining)@, *ev).0,
        status == spec_write_step(old(remaining)@, *ev).1,
{
    if remaining.len() == 0 {
        StepStatus::Stop(true)
    } else {
        match ev {
            WriteEvent::Accepted(n) => {
                if *n == 0 {
                    StepStatus::Stop(false)
                } else {
                    let taken = if *n <= remaining.len() {
                        *n
                    } else {
                        remaining.len()
                    };
                    drop_prefix(remaining, taken);
                    if remaining.len() == 0 {
                        StepStatus::Stop(true)
                    } else {
                        StepStatus::Going
                    }
                }
            },
            WriteEvent::WouldBlock => StepStatus::Stop(true),
            WriteEvent::Interrupted => StepStatus::Going,
            WriteEvent::Failed => StepStatus::Error,
        }
    }
}

/// Writes one payload towards the sink: folds the write outcomes in order
/// over the payload's UTF-8 bytes and reports whether the sink is still open
/// — the status that [`write_trace`] gives; a fatal write outcome gives the
/// I/O error.
pub fn handle_write(sendstr: &str, events: &Vec<WriteEvent>) -> (r: Result<bool, RelayError>)
    ensures
        match write_trace(encode_utf8(sendstr@), events@) {
            Some(out) => r matches Ok(open) && open == out.1,
            None => r matches Err(e) && e == RelayError::Io,
        },
{
    let mut remaining = sendstr.as_bytes_vec();
    let mut i: usize = 0;
    proof {
        assert(events@.skip(0) =~= events@);
    }
    while i < events.len()
        invariant
            i <= events@.len(),
            write_trace(encode_utf8(sendstr@), events@) == write_trace(
                remaining@,
                events@.skip(i as int),
            ),
        decreases events@.len() - i,
    {
        let status = write_step(&mut remaining, &events[i]);
        proof {
            assert(events@.skip(i as int)[0] == events@[i as int]);
            assert(events@.skip(i as int).drop_first() =~= events@.skip(i as int + 1));
        }
        i = i + 1;
        match status {
            StepStatus::Going => {},
            StepStatus::Stop(open) => {
                return Ok(open);
            },
            StepStatus::Error => {
                return Err(RelayError::Io);
            },
        }
    }
    proof {
        assert(events@.skip(i as int) =~= Seq::<WriteEvent>::empty());
    }
    Ok(true)
}

/// Law: what the writer has not delivered is always a suffix of what it was
/// given — the sink receives the payload's bytes in order, as an unbroken
/// prefix, never reordered and never resent.
pub proof fn lemma_write_remainder_is_suffix(remaining: Seq<u8>, events: Seq<WriteEvent>)
    requires
        write_trace(remaining, events) is Some,
    ensures
        ({
            let rest = write_trace(remaining, events).unwrap().0;
            rest.len() <= remaining.len() && rest == remaining.skip(
                remaining.len() - rest.len(),
            )
        }),
    decreases events.len(),
{
    if events.len() == 0 {
        assert(remaining.skip(0) =~= remaining);
    } else {
        let stepped = spec_write_step(remaining, events[0]);
        match stepped.1 {
            StepStatus::Going => {
                lemma_write_remainder_is_suffix(stepped.0, events.drop_first());
                let rest = write_trace(remaining, events).unwrap().0;
                let taken = remaining.len() - stepped.0.len();
                assert(stepped.0 =~= remaining.skip(taken as int));
                assert(stepped.0.skip(stepped.0.len() - rest.len()) =~= remaining.skip(
                    remaining.len() - rest.len(),
                ));
            },
            StepStatus::Stop(_) => {
                let rest = write_trace(remaining, events).unwrap().0;
                assert(rest == stepped.0);
                assert(stepped.0 =~= remaining.skip(remaining.len() - stepped.0.len()));
            },
            StepStatus::Error => {},
        }
    }
}

/// Law: a payload the writer drained completely, read back in line mode from
/// the same byte stream — however that stream is chunked on the way back —
/// comes back byte for byte, and decodes to the very text it encodes, once it
/// ends in a newline.
pub proof fn lemma_write_read_round_trip(
    text: Seq<char>,
    wevents: Seq<WriteEvent>,
    revents: Seq<ReadEvent>,
    last: Vec<u8>,
)
    requires
        write_trace(encode_utf8(text), wevents) matches Some(out) && out.0.len() == 0,
        data_bytes(revents) + last@ == encode_utf8(text),
        forall|j: int| 0 <= j < revents.len() ==> benign_line_event(#[trigger] revents[j]),
        last@.len() > 0,
        last@.last() == NL,
    ensures
        read_trace(Seq::<u8>::empty(), revents.push(ReadEvent::Data(last)), false) == Some(
            (encode_utf8(text), true),
        ),
        valid_utf8(encode_utf8(text)),
        decode_utf8(encode_utf8(text)) == text,
{
    lemma_line_delivery(revents, last);
    encode_utf8_valid_utf8(text);
    encode_utf8_decode_utf8(text);
}

} // verus!
