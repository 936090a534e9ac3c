//! The code typed on the entry screen, and the seed derived from it.

use vstd::prelude::*;
use crate::random::{xorshift, xorshift_step};

verus! {

/// Number of characters the code can hold.
pub const CODE_CAPACITY: usize = 80;

/// Seed of a typed code: start from 5040 and, for each character in order,
/// apply the xorshift transform and then xor in the character's code point.
pub open spec fn seed_of(text: Seq<char>) -> u64
    decreases text.len(),
{
    if text.len() == 0 {
        5040
    } else {
        xorshift(seed_of(text.drop_last())) ^ (text.last() as u64)
    }
}

/// Typing a character and deleting it again leaves the text, and so the seed,
/// as it was.
pub proof fn lemma_type_then_backspace(text: Seq<char>, c: char)
    ensures
        text.push(c).drop_last() == text,
        seed_of(text.push(c).drop_last()) == seed_of(text),
{
    assert(text.push(c).drop_last() =~= text);
}

/// A fixed-capacity buffer of typed characters; unused slots hold `'\0'`.
pub struct GameCode {
    code: [char; CODE_CAPACITY],
    cursor: usize,
}

impl View for GameCode {
    type V = Seq<char>;

    /// The characters typed and not deleted, in order.
    closed spec fn view(&self) -> Seq<char> {
        self.code@.subrange(0, self.cursor as int)
    }
}

impl GameCode {
    /// At most `CODE_CAPACITY` characters are held and every unused slot is `'\0'`.
    pub closed spec fn wf(&self) -> bool {
        &&& self.cursor <= CODE_CAPACITY
        &&& forall|i: int| self.cursor <= i < CODE_CAPACITY ==> self.code@[i] == '\0'
    }

    /// An empty code.
    pub fn new() -> (r: GameCode)
        ensures
            r.wf(),
            r@ == Seq::<char>::empty(),
    {
        let r = GameCode { code: ['\0'; CODE_CAPACITY], cursor: 0 };
        assert(r@ =~= Seq::<char>::empty());
        r
    }

    /// Appends `c` if there is room; a full buffer is left as it is.
    pub fn type_char(&mut self, c: char)
        requires
            old(self).wf(),
        ensures
            final(self).wf(),
            final(self)@ == if old(self)@.len() < CODE_CAPACITY {
                old(self)@.push(c)
            } else {
                old(self)@
            },
    {
        if self.cursor < CODE_CAPACITY {
            self.code[self.cursor] = c;
            self.cursor = self.cursor + 1;
            assert(self@ =~= old(self)@.push(c));
        }
    }

    /// Removes the last character, if any, and clears its slot.
    pub fn backspace(&mut self)
        requires
            old(self).wf(),
        ensures
            final(self).wf(),
            final(self)@ == if old(self)@.len() > 0 {
                old(self)@.drop_last()
            } else {
                old(self)@
            },
    {
        if self.cursor > 0 {
            self.cursor = self.cursor - 1;
            self.code[self.cursor] = '\0';
            assert(self@ =~= old(self)@.drop_last());
        }
    }

    /// The seed derived from the typed characters; 5040 for an empty code.
    pub fn hash(&self) -> (r: u64)
        requires
            self.wf(),
        ensures
            r == seed_of(self@),
            self@.len() == 0 ==> r == 5040,
    {
        let mut x: u64 = 5040;
        let mut i: usize = 0;
        while i < self.cursor
            invariant
                self.wf(),
                i <= self.cursor,
                x == seed_of(self.code@.subrange(0, i as int)),
            decreases self.cursor - i,
        {
            assert(self.code@.subrange(0, i + 1).drop_last() =~= self.code@.subrange(0, i as int));
            x = xorshift_step(x) ^ (self.code[i] as u64);
            i = i + 1;
        }
        x
    }

    /// Number of characters typed.
    pub fn len(&self) -> (r: usize)
        requires
            self.wf(),
        ensures
            r == self@.len(),
    {
        self.cursor
    }

    /// A copy of every slot of the buffer: the typed characters, then `'\0'`.
    pub fn chars(&self) -> (r: [char; CODE_CAPACITY])
        requires
            self.wf(),
        ensures
            r@.subrange(0, self@.len() as int) == self@,
            forall|i: int| self@.len() <= i < CODE_CAPACITY ==> r@[i] == '\0',
    {
        self.code
    }
}

} // verus!
