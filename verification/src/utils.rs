use vstd::prelude::*;

verus! {

/// The cursor `pos` moved `steps` items back, stopping at the start.
pub open spec fn rewound(pos: nat, steps: nat) -> nat {
    if pos >= steps {
        (pos - steps) as nat
    } else {
        0
    }
}

/// The cursor `pos` moved `steps` items forward, stopping at `usize::MAX`.
pub open spec fn forwarded(pos: nat, steps: nat) -> nat {
    if pos + steps <= usize::MAX {
        (pos + steps) as nat
    } else {
        usize::MAX as nat
    }
}

/// Rewinding by the steps just moved forward puts the cursor back where it was,
/// where moving forward did not stop at `usize::MAX`.
pub proof fn lemma_rewind_undoes_forward(pos: nat, steps: nat)
    requires
        pos + steps <= usize::MAX,
    ensures
        rewound(forwarded(pos, steps), steps) == pos,
{
}

/// `rewind(1)` undoes `next`, which moves the cursor one item on, past the end too.
pub proof fn lemma_rewind_undoes_next(pos: nat)
    ensures
        rewound(pos + 1, 1) == pos,
{
}

/// Moving forward twice is moving forward once by the sum of the steps.
pub proof fn lemma_forward_adds(pos: nat, a: nat, b: nat)
    ensures
        forwarded(forwarded(pos, a), b) == forwarded(pos, a + b),
{
}

/// Rewinding twice is rewinding once by the sum of the steps.
pub proof fn lemma_rewind_adds(pos: nat, a: nat, b: nat)
    ensures
        rewound(rewound(pos, a), b) == rewound(pos, a + b),
{
}

/// Peekable, rewindable, and forwardable iterator for tokenizers and parsers.
///
/// Its abstract state is the sequence of items it was made from and a cursor
/// `pos`, which may run past the end of the items: reading past the end still
/// advances the cursor, so that a following `rewind(1)` undoes the read.
#[derive(Debug)]
pub struct TokenIterator<I> where I: Clone {
    buf: Vec<I>,
    pos: usize,
}

impl<I> TokenIterator<I> where I: Clone {
    /// The items the iterator walks over.
    pub closed spec fn items(&self) -> Seq<I> {
        self.buf@
    }

    /// The cursor: the index of the next item to be returned.
    pub closed spec fn pos(&self) -> nat {
        self.pos as nat
    }

    pub fn new(arr: &[I]) -> (it: Self)
        ensures
            it.pos() == 0,
            it.items().len() == arr@.len(),
            forall|i: int| 0 <= i < arr@.len() ==> cloned::<I>(arr@[i], #[trigger] it.items()[i]),
    {
        let mut buf: Vec<I> = Vec::new();
        let mut k: usize = 0;
        while k < arr.len()
            invariant
                k <= arr@.len(),
                buf@.len() == k,
                forall|i: int| 0 <= i < k ==> cloned::<I>(arr@[i], #[trigger] buf@[i]),
            decreases arr@.len() - k,
        {
            buf.push(arr[k].clone());
            k += 1;
        }
        Self { buf, pos: 0 }
    }

    /// Returns the item under the cursor (a clone of it) and advances the cursor,
    /// also when it is already past the end.
    pub fn next(&mut self) -> (r: Option<I>)
        requires
            old(self).pos() < usize::MAX,
        ensures
            final(self).items() == old(self).items(),
            final(self).pos() == old(self).pos() + 1,
            match r {
                Some(x) => old(self).pos() < old(self).items().len() && cloned::<I>(
                    old(self).items()[old(self).pos() as int],
                    x,
                ),
                None => old(self).pos() >= old(self).items().len(),
            },
    {
        if self.pos < self.buf.len() {
            let item = self.buf[self.pos].clone();
            self.pos += 1;
            Some(item)
        } else {
            self.pos += 1;
            None
        }
    }

    /// The item under the cursor, without moving it.
    pub fn peek(&self) -> (r: Option<&I>)
        ensures
            match r {
                Some(x) => self.pos() < self.items().len() && *x == self.items()[self.pos() as int],
                None => self.pos() >= self.items().len(),
            },
    {
        if self.pos < self.buf.len() {
            Some(&self.buf[self.pos])
        } else {
            None
        }
    }

    /// The `size` items from the cursor on, `None` for each position past the end.
    pub fn peek_chunk(&self, size: usize) -> (r: Vec<Option<&I>>)
        requires
            size == 0 || self.pos() + size - 1 <= usize::MAX,
        ensures
            r@.len() == size,
            forall|i: int|
                0 <= i < size ==> (match #[trigger] r@[i] {
                    Some(x) => self.pos() + i < self.items().len() && *x == self.items()[self.pos()
                        + i],
                    None => self.pos() + i >= self.items().len(),
                }),
    {
        let mut chunk: Vec<Option<&I>> = Vec::new();
        let mut i: usize = 0;
        while i < size
            invariant
                i <= size,
                size == 0 || self.pos() + size - 1 <= usize::MAX,
                chunk@.len() == i,
                forall|j: int|
                    0 <= j < i ==> (match #[trigger] chunk@[j] {
                        Some(x) => self.pos() + j < self.items().len() && *x == self.items()[self.pos()
                            + j],
                        None => self.pos() + j >= self.items().len(),
                    }),
            decreases size - i,
        {
            let idx = self.pos + i;
            if idx < self.buf.len() {
                chunk.push(Some(&self.buf[idx]));
            } else {
                chunk.push(None);
            }
            i += 1;
        }
        chunk
    }

    /// Moves the cursor `steps` items back, stopping at the start.
    pub fn rewind(&mut self, steps: usize)
        ensures
            final(self).items() == old(self).items(),
            final(self).pos() == rewound(old(self).pos(), steps as nat),
    {
        self.pos = self.pos.saturating_sub(steps);
    }

    /// Moves the cursor `steps` items forward, stopping at `usize::MAX`.
    pub fn forward(&mut self, steps: usize)
        ensures
            final(self).items() == old(self).items(),
            final(self).pos() == forwarded(old(self).pos(), steps as nat),
    {
        self.pos = self.pos.saturating_add(steps);
    }

    /// The item just before the cursor, that is, the one the last `next` returned.
    pub fn get_last_consumed(&self) -> (r: Option<&I>)
        requires
            self.pos() >= 1,
        ensures
            match r {
                Some(x) => self.pos() - 1 < self.items().len() && *x == self.items()[self.pos() - 1],
                None => self.pos() - 1 >= self.items().len(),
            },
    {
        let i = self.pos - 1;
        if i < self.buf.len() {
            Some(&self.buf[i])
        } else {
            None
        }
    }
}

} // verus!
