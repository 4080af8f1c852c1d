//! The relay state machine: per-stream open and waiting flags, the single
//! pending outbound buffer, and the rules that sequence reads and writes.
//!
//! The machine is driven from outside: each readiness notification is handed
//! to [`RelayState::on_poll_event`], the outcome of each read or write is
//! folded back in through the `absorb` methods, and the `should` methods give
//! the servicing decisions — writes to the child before reads from it, and
//! the session ends when the user disconnects or both child streams close.

use vstd::prelude::*;
use vstd::string::StringExecFns;

verus! {

/// The three managed byte streams.
#[derive(Clone, Copy, Debug, PartialEq, Eq, Structural)]
pub enum Endpoint {
    /// The terminal's input, read in raw-escape mode.
    UserInput,
    /// The child's standard output, read in line mode.
    ChildOutput,
    /// The child's standard input, the sink for the pending buffer.
    ChildInput,
}

/// One readiness notification from the multiplexer.
#[derive(Clone, Copy, Debug)]
pub struct PollEvent {
    /// Which stream became ready.
    pub endpoint: Endpoint,
    /// Whether the stream is ready for reading.
    pub readable: bool,
    /// Whether the stream is ready for writing.
    pub writable: bool,
}

/// The relay's whole state between readiness notifications.
pub struct RelayState {
    /// Whether the terminal's input is still open.
    pub user_open: bool,
    /// Whether the child's output is still open.
    pub child_out_open: bool,
    /// Whether the child's input is still open.
    pub child_in_open: bool,
    /// A readable event on the child's output has arrived but not yet been
    /// acted on.
    pub child_out_waiting: bool,
    /// A writable event on the child's input has arrived but not yet been
    /// acted on.
    pub child_in_waiting: bool,
    /// The single pending outbound buffer: text collected from the user,
    /// awaiting delivery to the child's input.
    pub pending: Option<String>,
    /// The session is over.
    pub finished: bool,
}

impl RelayState {
    /// A waiting flag is only ever set while its stream is open.
    pub open spec fn wf(self) -> bool {
        &&& self.child_in_waiting ==> self.child_in_open
        &&& self.child_out_waiting ==> self.child_out_open
    }

    /// The pending buffer's text; the empty text when no buffer exists.
    pub open spec fn pending_text(self) -> Seq<char> {
        match self.pending {
            Some(s) => s@,
            None => Seq::<char>::empty(),
        }
    }

    /// Fresh state: every stream open, nothing waiting, no pending buffer.
    pub fn new() -> (s: Self)
        ensures
            s.user_open,
            s.child_out_open,
            s.child_in_open,
            !s.child_out_waiting,
            !s.child_in_waiting,
            s.pending is None,
            !s.finished,
            s.wf(),
    {
        RelayState {
            user_open: true,
            child_out_open: true,
            child_in_open: true,
            child_out_waiting: false,
            child_in_waiting: false,
            pending: None,
            finished: false,
        }
    }

    /// Handles one readiness notification: a readable child output or a
    /// writable child input is marked waiting (deferred to the servicing
    /// steps); the answer says whether the user's input must be read now.
    /// Notifications for closed streams fall through unheeded.
    pub fn on_poll_event(&mut self, ev: &PollEvent) -> (read_user: bool)
        ensures
            read_user == (ev.endpoint == Endpoint::UserInput && ev.readable && old(self).user_open),
            final(self).child_out_waiting == (old(self).child_out_waiting || (ev.endpoint
                == Endpoint::ChildOutput && ev.readable && old(self).child_out_open)),
            final(self).child_in_waiting == (old(self).child_in_waiting || (ev.endpoint
                == Endpoint::ChildInput && ev.writable && old(self).child_in_open)),
            final(self).user_open == old(self).user_open,
            final(self).child_out_open == old(self).child_out_open,
            final(self).child_in_open == old(self).child_in_open,
            final(self).pending == old(self).pending,
            final(self).finished == old(self).finished,
            old(self).wf() ==> final(self).wf(),
    {
        match ev.endpoint {
            Endpoint::UserInput => ev.readable && self.user_open,
            Endpoint::ChildOutput => {
                if ev.readable && self.child_out_open {
                    self.child_out_waiting = true;
                }
                false
            },
            Endpoint::ChildInput => {
                if ev.writable && self.child_in_open {
                    self.child_in_waiting = true;
                }
                false
            },
        }
    }

    /// Folds one user-input read into the state: the text joins the pending
    /// buffer — a fresh buffer holds exactly the text when none existed, an
    /// existing one grows by it at the end — the stream's open flag follows
    /// the read, and a user disconnect ends the session at once.
    pub fn absorb_user_input(&mut self, open: bool, text: &str)
        requires
            old(self).user_open,
        ensures
            final(self).user_open == open,
            final(self).pending matches Some(b) && b@ == old(self).pending_text() + text@,
            old(self).pending is None ==> (final(self).pending matches Some(b) && b@ == text@),
            final(self).finished == (old(self).finished || !open),
            final(self).child_out_open == old(self).child_out_open,
            final(self).child_in_open == old(self).child_in_open,
            final(self).child_out_waiting == old(self).child_out_waiting,
            final(self).child_in_waiting == old(self).child_in_waiting,
            old(self).wf() ==> final(self).wf(),
    {
        self.user_open = open;
        let mut buffer = match self.pending.take() {
            Some(b) => b,
            None => String::new(),
        };
        buffer.append(text);
        self.pending = Some(buffer);
        if !open {
            self.finished = true;
        }
    }

    /// The write-before-read priority: deliver to the child exactly when its
    /// input stream is waiting and a pending buffer exists.
    pub fn should_write_child(&self) -> (deliver: bool)
        ensures
            deliver == (self.child_in_waiting && self.pending is Some),
    {
        self.child_in_waiting && self.pending.is_some()
    }

    /// Hands the pending buffer out for delivery and clears it.
    pub fn take_pending(&mut self) -> (buffer: Option<String>)
        ensures
            buffer == old(self).pending,
            final(self).pending is None,
            final(self).user_open == old(self).user_open,
            final(self).child_out_open == old(self).child_out_open,
            final(self).child_in_open == old(self).child_in_open,
            final(self).child_out_waiting == old(self).child_out_waiting,
            final(self).child_in_waiting == old(self).child_in_waiting,
            final(self).finished == old(self).finished,
            old(self).wf() ==> final(self).wf(),
    {
        self.pending.take()
    }

    /// Folds the outcome of one delivery to the child's input back in: the
    /// stream's open flag follows the write, and the wait is over.
    pub fn absorb_child_write(&mut self, open: bool)
        requires
            old(self).child_in_open,
        ensures
            final(self).child_in_open == open,
            !final(self).child_in_waiting,
            final(self).user_open == old(self).user_open,
            final(self).child_out_open == old(self).child_out_open,
            final(self).child_out_waiting == old(self).child_out_waiting,
            final(self).pending == old(self).pending,
            final(self).finished == old(self).finished,
            old(self).wf() ==> final(self).wf(),
    {
        self.child_in_open = open;
        self.child_in_waiting = false;
    }

    /// Read the child's output only when no delivery to its input is waiting
    /// — freshly typed input reaches the child before more of its output is
    /// consumed.
    pub fn should_read_child(&self) -> (read: bool)
        ensures
            read == (!self.child_in_waiting && self.child_out_waiting),
    {
        !self.child_in_waiting && self.child_out_waiting
    }

    /// Folds the outcome of one child-output read back in: the stream's open
    /// flag follows the read, and the stream stays eligible for servicing
    /// exactly while it is open.
    pub fn absorb_child_read(&mut self, open: bool)
        requires
            old(self).child_out_open,
        ensures
            final(self).child_out_open == open,
            final(self).child_out_waiting == open,
            final(self).user_open == old(self).user_open,
            final(self).child_in_open == old(self).child_in_open,
            final(self).child_in_waiting == old(self).child_in_waiting,
            final(self).pending == old(self).pending,
            final(self).finished == old(self).finished,
            old(self).wf() ==> final(self).wf(),
    {
        self.child_out_open = open;
        self.child_out_waiting = open;
    }

    /// The session is over when the user has disconnected or both child
    /// streams have closed; any pending buffer is then discarded undelivered.
    pub fn should_stop(&self) -> (stop: bool)
        ensures
            stop == (self.finished || (!self.child_out_open && !self.child_in_open)),
    {
        self.finished || (!self.child_out_open && !self.child_in_open)
    }
}

/// The buffer's text after each fragment of `texts` joins it in turn, oldest
/// first, starting from `start`.
pub open spec fn buffer_after_appends(start: Seq<char>, texts: Seq<Seq<char>>) -> Seq<char>
    decreases texts.len(),
{
    if texts.len() == 0 {
        start
    } else {
        buffer_after_appends(start + texts[0], texts.drop_first())
    }
}

/// The ordered concatenation of the fragments.
pub open spec fn concat_texts(texts: Seq<Seq<char>>) -> Seq<char>
    decreases texts.len(),
{
    if texts.len() == 0 {
        Seq::<char>::empty()
    } else {
        texts[0] + concat_texts(texts.drop_first())
    }
}

/// Law: however many fragments join the buffer, one at a time, the result is
/// their ordered concatenation after what the buffer already held — nothing lost,
/// nothing duplicated, order kept.
pub proof fn lemma_appends_keep_order(start: Seq<char>, texts: Seq<Seq<char>>)
    ensures
        buffer_after_appends(start, texts) == start + concat_texts(texts),
    decreases texts.len(),
{
    if texts.len() == 0 {
        assert(start + Seq::<char>::empty() =~= start);
    } else {
        lemma_appends_keep_order(start + texts[0], texts.drop_first());
        assert((start + texts[0]) + concat_texts(texts.drop_first()) =~= start + (texts[0]
            + concat_texts(texts.drop_first())));
    }
}

} // verus!
