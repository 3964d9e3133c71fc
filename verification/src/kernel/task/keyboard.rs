//! Scancodes on their way from the keyboard interrupt to the task that
//! reads them.

use vstd::prelude::*;
use crate::kernel::shell::{shell_output, shutdown_command, Shell};
use crate::shared::logger::{after_text, is_basic_latin};

verus! {

/// The scancodes that the queue holds at most.
pub const SCANCODE_QUEUE_SIZE: usize = 100;

#[verifier::external_type_specification]
#[verifier::external_body]
#[verifier::reject_recursive_types(T)]
pub struct ExArrayQueue<T>(crossbeam_queue::ArrayQueue<T>);

/// The bytes that a queue holds, the one to leave next first.
pub uninterp spec fn queue_items(queue: crossbeam_queue::ArrayQueue<u8>) -> Seq<u8>;

/// The number of bytes that a queue was made to hold.
pub uninterp spec fn queue_limit(queue: crossbeam_queue::ArrayQueue<u8>) -> nat;

/// `crossbeam_queue::ArrayQueue::new`: an empty queue that holds up to
/// `limit` bytes. The outside function panics for a limit of zero and for
/// one too large to round up to a power of two.
#[verifier::external_body]
fn queue_new(limit: usize) -> (queue: crossbeam_queue::ArrayQueue<u8>)
    requires
        0 < limit <= 0x1_0000,
    ensures
        queue_items(queue) == Seq::<u8>::empty(),
        queue_limit(queue) == limit,
{
    crossbeam_queue::ArrayQueue::new(limit)
}

/// `crossbeam_queue::ArrayQueue::push`: the byte joins the end of the queue,
/// unless the queue is full; then nothing changes and the push is refused.
#[verifier::external_body]
fn queue_push(queue: &mut crossbeam_queue::ArrayQueue<u8>, byte: u8) -> (pushed: bool)
    ensures
        pushed == (queue_items(*old(queue)).len() < queue_limit(*old(queue))),
        queue_items(*final(queue)) == (if pushed {
            queue_items(*old(queue)).push(byte)
        } else {
            queue_items(*old(queue))
        }),
        queue_limit(*final(queue)) == queue_limit(*old(queue)),
{
    queue.push(byte).is_ok()
}

/// `crossbeam_queue::ArrayQueue::pop`: the byte at the head of the queue
/// leaves it, or `None` where the queue is empty.
#[verifier::external_body]
fn queue_pop(queue: &mut crossbeam_queue::ArrayQueue<u8>) -> (byte: Option<u8>)
    ensures
        byte == (if queue_items(*old(queue)).len() > 0 {
            Some(queue_items(*old(queue))[0])
        } else {
            None
        }),
        queue_items(*final(queue)) == (if queue_items(*old(queue)).len() > 0 {
            queue_items(*old(queue)).subrange(1, queue_items(*old(queue)).len() as int)
        } else {
            queue_items(*old(queue))
        }),
        queue_limit(*final(queue)) == queue_limit(*old(queue)),
{
    queue.pop()
}

/// The queue of scancodes between the keyboard interrupt, which adds them,
/// and the keyboard task, which takes them in the order they came.
pub struct ScancodeStream {
    queue: crossbeam_queue::ArrayQueue<u8>,
}

impl ScancodeStream {
    /// The scancodes that wait, the oldest first.
    pub closed spec fn view(&self) -> Seq<u8> {
        queue_items(self.queue)
    }

    /// The queue holds no more than it was made for, which is
    /// `SCANCODE_QUEUE_SIZE`.
    pub closed spec fn wf(&self) -> bool {
        queue_limit(self.queue) == SCANCODE_QUEUE_SIZE && queue_items(self.queue).len()
            <= SCANCODE_QUEUE_SIZE
    }

    /// An empty stream.
    pub fn new() -> (stream: ScancodeStream)
        ensures
            stream.wf(),
            stream@ == Seq::<u8>::empty(),
    {
        ScancodeStream { queue: queue_new(SCANCODE_QUEUE_SIZE) }
    }

    /// Adds a scancode; the keyboard interrupt calls this. Returns `false`,
    /// and drops the scancode, where the queue is full.
    pub fn add_scancode(&mut self, scancode: u8) -> (added: bool)
        requires
            old(self).wf(),
        ensures
            final(self).wf(),
            added == (old(self)@.len() < SCANCODE_QUEUE_SIZE),
            final(self)@ == after_add(old(self)@, scancode),
    {
        queue_push(&mut self.queue, scancode)
    }

    /// Takes the oldest scancode, or `None` where none waits.
    pub fn poll_next(&mut self) -> (scancode: Option<u8>)
        requires
            old(self).wf(),
        ensures
            final(self).wf(),
            scancode == (if old(self)@.len() > 0 {
                Some(old(self)@[0])
            } else {
                None
            }),
            final(self)@ == after_take(old(self)@),
    {
        queue_pop(&mut self.queue)
    }
}

/// The waiting scancodes after one more came.
pub open spec fn after_add(waiting: Seq<u8>, scancode: u8) -> Seq<u8> {
    if waiting.len() < SCANCODE_QUEUE_SIZE {
        waiting.push(scancode)
    } else {
        waiting
    }
}

/// The waiting scancodes after the oldest was taken.
pub open spec fn after_take(waiting: Seq<u8>) -> Seq<u8> {
    if waiting.len() > 0 {
        waiting.subrange(1, waiting.len() as int)
    } else {
        waiting
    }
}

/// The waiting scancodes after the scancodes of `incoming` came, one by one.
pub open spec fn after_adds(waiting: Seq<u8>, incoming: Seq<u8>) -> Seq<u8>
    decreases incoming.len(),
{
    if incoming.len() == 0 {
        waiting
    } else {
        after_add(after_adds(waiting, incoming.drop_last()), incoming.last())
    }
}

/// The waiting scancodes after `count` were taken.
pub open spec fn after_takes(waiting: Seq<u8>, count: nat) -> Seq<u8>
    decreases count,
{
    if count == 0 {
        waiting
    } else {
        after_take(after_takes(waiting, (count - 1) as nat))
    }
}

/// Scancodes that find room wait behind those that waited before, in the
/// order they came.
pub proof fn lemma_adds_append(waiting: Seq<u8>, incoming: Seq<u8>)
    requires
        waiting.len() + incoming.len() <= SCANCODE_QUEUE_SIZE,
    ensures
        after_adds(waiting, incoming) == waiting + incoming,
    decreases incoming.len(),
{
    if incoming.len() == 0 {
        assert(waiting + incoming =~= waiting);
    } else {
        lemma_adds_append(waiting, incoming.drop_last());
        assert((waiting + incoming.drop_last()).push(incoming.last()) =~= waiting + incoming);
    }
}

/// Taking `count` scancodes takes the `count` oldest.
pub proof fn lemma_takes_skip(waiting: Seq<u8>, count: nat)
    requires
        count <= waiting.len(),
    ensures
        after_takes(waiting, count) == waiting.skip(count as int),
    decreases count,
{
    if count == 0 {
        assert(waiting.skip(0) =~= waiting);
    } else {
        lemma_takes_skip(waiting, (count - 1) as nat);
        assert(waiting.skip(count - 1).subrange(1, waiting.len() - count + 1) =~= waiting.skip(
            count as int,
        ));
    }
}

/// Scancodes leave the stream in the order they entered it: of the
/// scancodes that came into an empty stream, the one taken after `k` others
/// is the one that came after `k` others.
pub proof fn lemma_scancodes_in_order(incoming: Seq<u8>, k: nat)
    requires
        incoming.len() <= SCANCODE_QUEUE_SIZE,
        k < incoming.len(),
    ensures
        after_takes(after_adds(Seq::<u8>::empty(), incoming), k).len() > 0,
        after_takes(after_adds(Seq::<u8>::empty(), incoming), k)[0] == incoming[k as int],
{
    lemma_adds_append(Seq::<u8>::empty(), incoming);
    assert(Seq::<u8>::empty() + incoming =~= incoming);
    lemma_takes_skip(incoming, k);
}

/// What a scancode turned out to be.
#[derive(Clone, Copy, PartialEq, Eq, Structural, Debug)]
pub enum KeyPress {
    /// The scancode completes no key press.
    Nothing,
    /// A key that stands for a character.
    Character(char),
    /// A key that stands for no character.
    Raw,
}

/// The key press is a character that the shell can take.
pub open spec fn typed(key: KeyPress) -> bool {
    key is Character && is_basic_latin(key->Character_0)
}

/// One step of the keyboard task, for a key press that the decoder of
/// scancodes made out: a character of Basic Latin is typed into the shell,
/// anything else is passed over. Returns `true` where the shell asks the
/// kernel to stop.
pub fn print_keypresses(shell: &mut Shell, key: KeyPress) -> (stop: bool)
    requires
        old(shell).wf(),
    ensures
        final(shell).wf(),
        stop == (typed(key) && key->Character_0 == '\n' && old(shell).line() == shutdown_command()),
        !typed(key) ==> final(shell).line() == old(shell).line() && final(shell).console().text()
            == old(shell).console().text(),
        typed(key) ==> final(shell).console().text() == after_text(
            old(shell).console().text(),
            shell_output(old(shell).line(), key->Character_0),
            old(shell).console().columns(),
            old(shell).console().rows(),
        ),
        typed(key) ==> final(shell).line() == (if key->Character_0 != '\n' {
            old(shell).line().push(key->Character_0)
        } else if stop {
            old(shell).line()
        } else {
            Seq::<char>::empty()
        }),
{
    match key {
        KeyPress::Character(c) => {
            if (c as u32) < 128 {
                shell.char_input(c)
            } else {
                false
            }
        },
        _ => false,
    }
}

} // verus!
