//! The decoded-instruction model and a forward-only cursor over one method body.
//!
//! The bytecode container is decoded by an outside collaborator; the unpacking
//! logic only ever looks at the small fixed vocabulary below, so each decoded
//! instruction is modelled as one of these variants.
use vstd::prelude::*;

verus! {

/// One decoded instruction, reduced to the vocabulary the call idiom uses.
#[derive(Debug, Clone, Copy, PartialEq, Eq, Structural)]
pub enum Ins {
    /// Push a constant-pool string; the operand is the pool index.
    PushString(u32),
    /// Push a byte literal.
    PushByte(u8),
    /// String concatenation.
    Add,
    /// Load the current object ("load self").
    GetLocal0,
    /// Call a named property on the object; the operand names the method.
    CallProperty(u32),
    /// Construct the superclass.
    ConstructSuper,
    /// Any instruction the idiom does not care about.
    Other,
}

/// The two-instruction idiom starts at `i`: "load self" immediately
/// followed by "call a named property on it".
pub open spec fn idiom_at(code: Seq<Ins>, i: int) -> bool {
    0 <= i && i + 1 < code.len() && code[i] is GetLocal0 && code[i + 1] is CallProperty
}

/// Position `i` looks like the continuation of an obfuscated string:
/// either a joining "add" or a fresh idiom occurrence.
pub open spec fn chain_head(code: Seq<Ins>, i: int) -> bool {
    (0 <= i < code.len() && code[i] is Add) || idiom_at(code, i)
}

/// First position at or after `i` that is not an "add" instruction.
pub open spec fn adds_end(code: Seq<Ins>, i: int) -> int
    decreases code.len() - i when 0 <= i <= code.len()
{
    if i < code.len() && code[i] is Add {
        adds_end(code, i + 1)
    } else {
        i
    }
}

pub proof fn lemma_adds_end(code: Seq<Ins>, i: int)
    requires
        0 <= i <= code.len(),
    ensures
        i <= adds_end(code, i) <= code.len(),
        adds_end(code, i) < code.len() ==> !(code[adds_end(code, i)] is Add),
        forall|k: int| i <= k < adds_end(code, i) ==> code[k] is Add,
    decreases code.len() - i,
{
    if i < code.len() && code[i] is Add {
        lemma_adds_end(code, i + 1);
    }
}

/// The index of the first "push string constant" operand at or after `i`.
pub open spec fn first_push_string_from(code: Seq<Ins>, i: int) -> Option<u32>
    decreases code.len() - i when 0 <= i <= code.len()
{
    if i >= code.len() {
        None
    } else if code[i] is PushString {
        Some(code[i]->PushString_0)
    } else {
        first_push_string_from(code, i + 1)
    }
}

/// The operand of the first "push byte literal" at or after `i`.
pub open spec fn first_push_byte_from(code: Seq<Ins>, i: int) -> Option<u8>
    decreases code.len() - i when 0 <= i <= code.len()
{
    if i >= code.len() {
        None
    } else if code[i] is PushByte {
        Some(code[i]->PushByte_0)
    } else {
        first_push_byte_from(code, i + 1)
    }
}

/// The first position at or after `i` holding "construct superclass".
pub open spec fn find_super_from(code: Seq<Ins>, i: int) -> Option<int>
    decreases code.len() - i when 0 <= i <= code.len()
{
    if i >= code.len() {
        None
    } else if code[i] is ConstructSuper {
        Some(i)
    } else {
        find_super_from(code, i + 1)
    }
}

/// The first position at or after `i` where the two-instruction idiom starts.
pub open spec fn next_idiom_from(code: Seq<Ins>, i: int) -> Option<int>
    decreases code.len() - i when 0 <= i <= code.len()
{
    if i >= code.len() {
        None
    } else if idiom_at(code, i) {
        Some(i)
    } else {
        next_idiom_from(code, i + 1)
    }
}

pub proof fn lemma_next_idiom_from(code: Seq<Ins>, i: int)
    requires
        0 <= i <= code.len(),
    ensures
        match next_idiom_from(code, i) {
            Some(q) => i <= q && idiom_at(code, q),
            None => true,
        },
    decreases code.len() - i,
{
    if i < code.len() && !idiom_at(code, i) {
        lemma_next_idiom_from(code, i + 1);
    }
}

/// An owned copy of one decoded instruction list.
pub fn copy_code(v: &Vec<Ins>) -> (r: Vec<Ins>)
    ensures
        r@ == v@,
{
    let mut r: Vec<Ins> = Vec::new();
    let n = v.len();
    let mut i: usize = 0;
    while i < n
        invariant
            i <= n,
            n == v@.len(),
            r@ == v@.take(i as int),
        decreases n - i,
    {
        r.push(v[i]);
        i = i + 1;
        proof {
            assert(r@ =~= v@.take(i as int));
        }
    }
    proof {
        assert(v@.take(n as int) =~= v@);
    }
    r
}

/// Linear, forward-only view over one method's decoded instruction list.
pub struct Cursor {
    pub code: Vec<Ins>,
    pub pos: usize,
}

impl Cursor {
    /// The position never runs past the end of the list.
    pub open spec fn wf(&self) -> bool {
        self.pos <= self.code@.len()
    }

    pub fn new(code: Vec<Ins>) -> (r: Cursor)
        ensures
            r.wf(),
            r.pos == 0,
            r.code@ == code@,
    {
        Cursor { code, pos: 0 }
    }

    /// Whether an instruction remains at the current position.
    pub fn has_next(&self) -> (r: bool)
        ensures
            r == (self.pos < self.code@.len()),
    {
        self.pos < self.code.len()
    }

    /// Peek the current instruction without consuming it.
    pub fn current(&self) -> (r: Ins)
        requires
            self.pos < self.code@.len(),
        ensures
            r == self.code@[self.pos as int],
    {
        self.code[self.pos]
    }

    /// Consume the current instruction.
    pub fn advance(&mut self)
        requires
            old(self).pos < old(self).code@.len(),
        ensures
            final(self).code@ == old(self).code@,
            final(self).pos == old(self).pos + 1,
    {
        let n = self.code.len();
        assert(self.pos < n);
        self.pos = self.pos + 1;
    }

    /// Skip forward until "construct superclass"; leave the cursor on it.
    /// Reports whether one was found; on failure the cursor rests at the end.
    pub fn skip_to_super(&mut self) -> (r: bool)
        requires
            old(self).wf(),
        ensures
            final(self).code@ == old(self).code@,
            final(self).wf(),
            match find_super_from(old(self).code@, old(self).pos as int) {
                Some(q) => r && final(self).pos == q,
                None => !r && final(self).pos == old(self).code@.len(),
            },
    {
        loop
            invariant
                self.wf(),
                self.code@ == old(self).code@,
                old(self).pos <= self.pos,
                find_super_from(self.code@, self.pos as int)
                    == find_super_from(old(self).code@, old(self).pos as int),
            decreases self.code@.len() - self.pos,
        {
            if self.pos >= self.code.len() {
                return false;
            }
            assert(self.pos < self.code@.len());
            if matches!(self.current(), Ins::ConstructSuper) {
                return true;
            }
            self.pos = self.pos + 1;
        }
    }

    /// Skip forward until the two-instruction idiom starts at the cursor;
    /// do not consume it. Reports whether one was found; on failure the
    /// cursor rests at the end.
    pub fn skip_to_idiom(&mut self) -> (r: bool)
        requires
            old(self).wf(),
        ensures
            final(self).code@ == old(self).code@,
            final(self).wf(),
            match next_idiom_from(old(self).code@, old(self).pos as int) {
                Some(q) => r && final(self).pos == q,
                None => !r && final(self).pos == old(self).code@.len(),
            },
    {
        loop
            invariant
                self.wf(),
                self.code@ == old(self).code@,
                old(self).pos <= self.pos,
                next_idiom_from(self.code@, self.pos as int)
                    == next_idiom_from(old(self).code@, old(self).pos as int),
            decreases self.code@.len() - self.pos,
        {
            if self.pos == self.code.len() {
                return false;
            }
            if self.at_idiom() {
                return true;
            }
            self.pos = self.pos + 1;
        }
    }

    /// Whether the two-instruction idiom starts at the cursor.
    pub fn at_idiom(&self) -> (r: bool)
        requires
            self.wf(),
        ensures
            r == idiom_at(self.code@, self.pos as int),
    {
        if self.pos < self.code.len() && self.pos + 1 < self.code.len() {
            matches!(self.code[self.pos], Ins::GetLocal0)
                && matches!(self.code[self.pos + 1], Ins::CallProperty(_))
        } else {
            false
        }
    }

    /// Whether the cursor sits on a joining "add" or an idiom occurrence.
    pub fn at_chain(&self) -> (r: bool)
        requires
            self.wf(),
        ensures
            r == chain_head(self.code@, self.pos as int),
    {
        (self.pos < self.code.len() && matches!(self.code[self.pos], Ins::Add)) || self.at_idiom()
    }
}

} // verus!
