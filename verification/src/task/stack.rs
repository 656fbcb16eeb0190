//! Fixed-storage kernel stacks for cooperative tasks.

use vstd::prelude::*;

use super::context::TaskContext;

verus! {

/// Bytes of one task stack.
pub const TASK_STACK_SIZE: usize = 4096;

/// Words of the initial frame a context switch pops from a fresh stack.
pub const STACK_FRAME_WORDS: usize = 7;

#[derive(Clone, Copy)]
pub struct TaskStack {
    bytes: [u8; TASK_STACK_SIZE],
}

impl View for TaskStack {
    type V = Seq<u8>;

    /// The bytes of the stack.
    closed spec fn view(&self) -> Seq<u8> {
        self.bytes@
    }
}

/// The address of the first byte of `bytes`.
///
/// Calls `<[u8]>::as_ptr` and reads the pointer as an integer.  The contract
/// claims only what every allocation guarantees: the byte one past its end
/// is still an address, so `address + TASK_STACK_SIZE` does not wrap.  The
/// address itself is left unstated: it depends on where the stack lives.
#[verifier::external_body]
fn base_address(bytes: &[u8; TASK_STACK_SIZE]) -> (address: usize)
    ensures
        address + TASK_STACK_SIZE <= usize::MAX,
{
    bytes.as_ptr() as usize
}

impl TaskStack {
    /// A zero-filled stack.
    pub fn new() -> (stack: TaskStack)
        ensures
            stack@ == Seq::new(TASK_STACK_SIZE as nat, |i: int| 0u8),
    {
        let stack = TaskStack { bytes: [0u8; TASK_STACK_SIZE] };
        assert(stack@ =~= Seq::new(TASK_STACK_SIZE as nat, |i: int| 0u8));
        stack
    }

    /// The 16-byte-aligned top of this stack: its end address rounded down
    /// to a multiple of 16.  The end address is where the stack lives, so it
    /// is stated only as the end of some `TASK_STACK_SIZE`-byte storage.
    pub fn top(&self) -> (top: usize)
        ensures
            top % 16 == 0,
            top >= TASK_STACK_SIZE - 15,
            exists|base: usize| base + TASK_STACK_SIZE <= usize::MAX && #[trigger] aligned_top(base) == top,
    {
        let base = base_address(&self.bytes);
        top_for(base)
    }
}

/// The top of a stack whose storage starts at `base`: its end rounded down
/// to a multiple of 16.
pub open spec fn aligned_top(base: usize) -> int {
    (base + TASK_STACK_SIZE) - (base + TASK_STACK_SIZE) % 16
}

/// The 16-byte-aligned top of a stack whose storage starts at `base`.
pub fn top_for(base: usize) -> (top: usize)
    requires
        base + TASK_STACK_SIZE <= usize::MAX,
    ensures
        top == aligned_top(base),
        top % 16 == 0,
        base + TASK_STACK_SIZE - 15 <= top <= base + TASK_STACK_SIZE,
{
    let end = base + TASK_STACK_SIZE;
    let top = end & !15usize;
    assert(top == end - end % 16 && top % 16 == 0) by (bit_vector)
        requires
            top == end & !15usize;
    top
}

/// Bytes of one saved word.
pub const WORD_BYTES: usize = 8;

/// The words of a fresh task's first frame, lowest address first: the
/// callee-saved registers a context switch pops, then the address it
/// returns to.
pub open spec fn frame_words(context: TaskContext, return_address: usize) -> Seq<usize> {
    seq![context.rbx, context.rbp, context.r12, context.r13, context.r14, context.r15, return_address]
}

/// Byte `b` (least significant first) of `word`.
pub open spec fn word_byte(word: usize, b: int) -> u8 {
    ((word as u64 >> (8 * b) as u64) & 0xff) as u8
}

/// `bytes` with `words` stored from `offset`, least significant byte first.
pub open spec fn with_words(bytes: Seq<u8>, offset: int, words: Seq<usize>) -> Seq<u8> {
    Seq::new(
        bytes.len(),
        |i: int|
            if offset <= i < offset + words.len() * WORD_BYTES {
                word_byte(words[(i - offset) / WORD_BYTES as int], (i - offset) % WORD_BYTES as int)
            } else {
                bytes[i]
            },
    )
}

/// Writes `word` at `offset`, least significant byte first.
fn store_word(bytes: &mut [u8; TASK_STACK_SIZE], offset: usize, word: usize)
    requires
        offset + WORD_BYTES <= TASK_STACK_SIZE,
    ensures
        forall|i: int|
            0 <= i < TASK_STACK_SIZE ==> #[trigger] final(bytes)@[i] == if offset <= i < offset + WORD_BYTES {
                word_byte(word, i - offset)
            } else {
                old(bytes)@[i]
            },
{
    let value = word as u64;
    let mut b: usize = 0;
    while b < WORD_BYTES
        invariant
            b <= WORD_BYTES,
            offset + WORD_BYTES <= TASK_STACK_SIZE,
            value == word as u64,
            forall|i: int|
                0 <= i < TASK_STACK_SIZE ==> #[trigger] bytes@[i] == if offset <= i < offset + b {
                    word_byte(word, i - offset)
                } else {
                    old(bytes)@[i]
                },
        decreases WORD_BYTES - b,
    {
        let shift = (8 * b) as u64;
        bytes[offset + b] = ((value >> shift) & 0xff) as u8;
        b += 1;
    }
}

impl TaskStack {
    /// Builds the first frame a context switch pops when it starts the task:
    /// the context's callee-saved registers, then `return_address`, in the
    /// last words below the stack's top.  Returns the stack pointer that
    /// addresses the frame.
    pub fn initialize_frame(&mut self, context: &TaskContext, return_address: usize) -> (stack_pointer: usize)
        ensures
            stack_pointer % 16 == 8,
            stack_pointer >= TASK_STACK_SIZE - 15 - STACK_FRAME_WORDS * WORD_BYTES,
            exists|base: usize|
                {
                    let offset = stack_pointer - base;
                    &&& base + TASK_STACK_SIZE <= usize::MAX
                    &&& stack_pointer + STACK_FRAME_WORDS * WORD_BYTES == aligned_top(base)
                    &&& 0 <= offset
                    &&& offset + STACK_FRAME_WORDS * WORD_BYTES <= TASK_STACK_SIZE
                    &&& final(self)@ == #[trigger] with_words(old(self)@, stack_pointer - base, frame_words(*context, return_address))
                },
    {
        let base = base_address(&self.bytes);
        let top = top_for(base);
        let stack_pointer = top - STACK_FRAME_WORDS * WORD_BYTES;
        let offset = stack_pointer - base;
        let words = [context.rbx, context.rbp, context.r12, context.r13, context.r14, context.r15, return_address];
        let ghost target = with_words(self@, offset as int, frame_words(*context, return_address));
        assert(words@ =~= frame_words(*context, return_address));
        let mut bytes = self.bytes;
        let mut w: usize = 0;
        while w < STACK_FRAME_WORDS
            invariant
                w <= STACK_FRAME_WORDS,
                offset + STACK_FRAME_WORDS * WORD_BYTES <= TASK_STACK_SIZE,
                words@ == frame_words(*context, return_address),
                forall|i: int|
                    0 <= i < TASK_STACK_SIZE ==> #[trigger] bytes@[i] == if offset <= i < offset + w * WORD_BYTES {
                        target[i]
                    } else {
                        self@[i]
                    },
                target == with_words(self@, offset as int, frame_words(*context, return_address)),
                self@.len() == TASK_STACK_SIZE,
            decreases STACK_FRAME_WORDS - w,
        {
            let ghost previous = bytes@;
            store_word(&mut bytes, offset + w * WORD_BYTES, words[w]);
            assert forall|i: int| 0 <= i < TASK_STACK_SIZE implies #[trigger] bytes@[i] == if offset <= i < offset + (w + 1) * WORD_BYTES {
                target[i]
            } else {
                self@[i]
            } by {
                if offset + w * WORD_BYTES <= i < offset + (w + 1) * WORD_BYTES {
                    assert((i - offset) / WORD_BYTES as int == w);
                    assert((i - offset) % WORD_BYTES as int == i - (offset + w * WORD_BYTES));
                }
            }
            w += 1;
        }
        let ghost old_view = self@;
        *self = TaskStack { bytes };
        assert(self@ =~= target);
        stack_pointer
    }
}

} // verus!
