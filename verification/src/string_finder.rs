//! The pattern engine that recognizes the fixed call idiom and reconstructs
//! obfuscated strings character by character.
//!
//! One obfuscated character is the two-instruction idiom "load self, call a
//! named property"; consecutive occurrences may be joined by an intervening
//! "add" that stands for string concatenation.
use crate::ins::adds_end;
use crate::ins::chain_head;
use crate::ins::idiom_at;
use crate::ins::lemma_adds_end;
use crate::ins::next_idiom_from;
use crate::ins::Cursor;
use crate::ins::Ins;
use crate::table::CharTable;
use vstd::prelude::*;

verus! {

/// What one `next_char` call returns and where it leaves the cursor, as a
/// function of the code and the starting position: skip the joining "add"s,
/// consume the "load self", then consume and report the "call property" —
/// or report nothing where the shape is not the expected one.
pub open spec fn next_char_spec(code: Seq<Ins>, i: int) -> (Option<u32>, int) {
    if !chain_head(code, i) {
        (None::<u32>, i)
    } else {
        let j = adds_end(code, i);
        if j >= code.len() {
            (None::<u32>, j)
        } else if j + 1 >= code.len() {
            (None::<u32>, j + 1)
        } else if code[j + 1] is CallProperty {
            (Some(code[j + 1]->CallProperty_0), j + 2)
        } else {
            (None::<u32>, j + 1)
        }
    }
}

pub proof fn lemma_next_char_spec_bounds(code: Seq<Ins>, i: int)
    requires
        0 <= i <= code.len(),
    ensures
        i <= next_char_spec(code, i).1 <= code.len(),
        chain_head(code, i) ==> next_char_spec(code, i).1 > i,
        next_char_spec(code, i).0 is Some ==> next_char_spec(code, i).1 >= i + 2,
{
    if chain_head(code, i) {
        lemma_adds_end(code, i);
    }
}

/// Where the skip over the remainder of the current obfuscated string ends:
/// one position per joining "add", two per idiom occurrence, stopping as soon
/// as neither continues the chain.
pub open spec fn chain_end(code: Seq<Ins>, i: int) -> int
    decreases code.len() - i when 0 <= i <= code.len()
{
    if !chain_head(code, i) {
        i
    } else if code[i] is Add {
        chain_end(code, i + 1)
    } else {
        chain_end(code, i + 2)
    }
}

pub proof fn lemma_chain_end_bounds(code: Seq<Ins>, i: int)
    requires
        0 <= i <= code.len(),
    ensures
        i <= chain_end(code, i) <= code.len(),
    decreases code.len() - i,
{
    if chain_head(code, i) {
        if code[i] is Add {
            lemma_chain_end_bounds(code, i + 1);
        } else {
            lemma_chain_end_bounds(code, i + 2);
        }
    }
}

pub proof fn lemma_chain_end_through_adds(code: Seq<Ins>, i: int)
    requires
        0 <= i <= code.len(),
    ensures
        chain_end(code, i) == chain_end(code, adds_end(code, i)),
    decreases code.len() - i,
{
    if i < code.len() && code[i] is Add {
        lemma_chain_end_through_adds(code, i + 1);
    }
}

/// A well-formed obfuscated string sits at `i`: as long as the chain
/// continues, each group of joining "add"s is followed by a proper idiom
/// occurrence. (`next_char` reads such a chain without ever misstepping.)
pub open spec fn chain_wf(code: Seq<Ins>, i: int) -> bool
    decreases code.len() - i when 0 <= i <= code.len()
{
    if !chain_head(code, i) {
        true
    } else {
        let j = adds_end(code, i);
        if i <= j && j + 1 < code.len() && idiom_at(code, j) {
            chain_wf(code, j + 2)
        } else {
            false
        }
    }
}

/// Whether matching `target` from `i` succeeds, and where it leaves the
/// cursor: on success directly after the last consumed idiom occurrence, on
/// failure after the skip past the remainder of the current string.
pub open spec fn match_result(code: Seq<Ins>, i: int, target: Seq<u8>, table: Map<u32, u8>) -> (
    bool,
    int,
)
    decreases target.len()
{
    if target.len() == 0 {
        (true, i)
    } else {
        let s = next_char_spec(code, i);
        if s.0 matches Some(id) && table.contains_key(id) && table[id] == target[0] {
            match_result(code, s.1, target.drop_first(), table)
        } else {
            (false, chain_end(code, s.1))
        }
    }
}

pub proof fn lemma_match_result_bounds(code: Seq<Ins>, i: int, target: Seq<u8>, table: Map<
    u32,
    u8,
>)
    requires
        0 <= i <= code.len(),
    ensures
        i <= match_result(code, i, target, table).1 <= code.len(),
        target.len() > 0 && chain_head(code, i) ==> match_result(code, i, target, table).1 > i,
    decreases target.len(),
{
    if target.len() > 0 {
        let s = next_char_spec(code, i);
        lemma_next_char_spec_bounds(code, i);
        if s.0 matches Some(id) && table.contains_key(id) && table[id] == target[0] {
            lemma_match_result_bounds(code, s.1, target.drop_first(), table);
        } else {
            lemma_chain_end_bounds(code, s.1);
        }
    }
}

/// The position after reading `n` characters in a row from `i`.
pub open spec fn units_end(code: Seq<Ins>, i: int, n: nat) -> int
    decreases n
{
    if n == 0 {
        i
    } else {
        units_end(code, next_char_spec(code, i).1, (n - 1) as nat)
    }
}

/// Each of the `n` character reads starting at `i` yields an identifier,
/// that is, each consumes one idiom occurrence (plus its joining "add"s).
pub open spec fn reads_units(code: Seq<Ins>, i: int, n: nat) -> bool
    decreases n
{
    n == 0 || (next_char_spec(code, i).0 is Some && reads_units(
        code,
        next_char_spec(code, i).1,
        (n - 1) as nat,
    ))
}

/// A successful match of `target` consumes exactly `target.len()` idiom
/// occurrences and leaves the cursor immediately after the last one.
pub proof fn lemma_match_success_consumes(
    code: Seq<Ins>,
    i: int,
    target: Seq<u8>,
    table: Map<u32, u8>,
)
    requires
        0 <= i <= code.len(),
        match_result(code, i, target, table).0,
    ensures
        match_result(code, i, target, table).1 == units_end(code, i, target.len()),
        reads_units(code, i, target.len()),
    decreases target.len(),
{
    if target.len() > 0 {
        let s = next_char_spec(code, i);
        lemma_next_char_spec_bounds(code, i);
        lemma_match_success_consumes(code, s.1, target.drop_first(), table);
    }
}

/// A failed match of a well-formed obfuscated string leaves the cursor
/// immediately after the entire string, so that searching onward finds the
/// next string, never a partial one.
pub proof fn lemma_match_failure_resync(
    code: Seq<Ins>,
    i: int,
    target: Seq<u8>,
    table: Map<u32, u8>,
)
    requires
        0 <= i <= code.len(),
        chain_wf(code, i),
        !match_result(code, i, target, table).0,
    ensures
        match_result(code, i, target, table).1 == chain_end(code, i),
    decreases target.len(),
{
    if target.len() > 0 {
        let s = next_char_spec(code, i);
        if !chain_head(code, i) {
            // nothing was read; the string was already over
        } else {
            let j = adds_end(code, i);
            lemma_adds_end(code, i);
            lemma_chain_end_through_adds(code, i);
            if s.0 matches Some(id) && table.contains_key(id) && table[id] == target[0] {
                lemma_match_failure_resync(code, s.1, target.drop_first(), table);
            }
        }
    }
}

/// The bytes `build` accumulates from `i` and the position where it stops:
/// every decodable character whose identifier the table knows is appended,
/// identifiers the table does not know are skipped silently, and the walk
/// ends on the first position where no character can be read.
pub open spec fn build_spec(code: Seq<Ins>, i: int, table: Map<u32, u8>) -> (Seq<u8>, int)
    decreases code.len() - i when 0 <= i <= code.len()
{
    let s = next_char_spec(code, i);
    match s.0 {
        Some(id) => {
            if i < s.1 <= code.len() {
                let rest = build_spec(code, s.1, table);
                if table.contains_key(id) {
                    (seq![table[id]] + rest.0, rest.1)
                } else {
                    rest
                }
            } else {
                // a successful read always advances, so this arm is never taken
                (Seq::<u8>::empty(), i)
            }
        },
        None => (Seq::<u8>::empty(), s.1),
    }
}

pub proof fn lemma_build_spec_bounds(code: Seq<Ins>, i: int, table: Map<u32, u8>)
    requires
        0 <= i <= code.len(),
    ensures
        i <= build_spec(code, i, table).1 <= code.len(),
    decreases code.len() - i,
{
    let s = next_char_spec(code, i);
    lemma_next_char_spec_bounds(code, i);
    if s.0 is Some && i < s.1 <= code.len() {
        lemma_build_spec_bounds(code, s.1, table);
    }
}

/// What `build` yields when the cursor must first be moved up to the next
/// idiom occurrence (it is left wherever the search ends when none remains).
pub open spec fn build_from(code: Seq<Ins>, i: int, table: Map<u32, u8>) -> (Seq<u8>, int) {
    if idiom_at(code, i) {
        build_spec(code, i, table)
    } else {
        match next_idiom_from(code, i) {
            Some(q) => build_spec(code, q, table),
            None => build_spec(code, code.len() as int, table),
        }
    }
}

/// Recognizes the call idiom over one method body and decodes obfuscated
/// strings through the method-character table.
pub struct StringFinder<'a> {
    pub cur: Cursor,
    pub table: &'a CharTable,
}

impl<'a> StringFinder<'a> {
    pub fn new(cur: Cursor, table: &'a CharTable) -> (r: StringFinder<'a>)
        ensures
            r.cur == cur,
            r.table == table,
    {
        StringFinder { cur, table }
    }

    /// True if the current instruction continues an obfuscated string:
    /// a joining "add", or the two instructions here exactly match the idiom.
    pub fn is_add_string(&self) -> (r: bool)
        requires
            self.cur.wf(),
        ensures
            r == chain_head(self.cur.code@, self.cur.pos as int),
    {
        self.cur.at_chain()
    }

    /// Advance until the idiom is found; do not consume it.
    pub fn next_string(&mut self) -> (r: bool)
        requires
            old(self).cur.wf(),
        ensures
            final(self).cur.code@ == old(self).cur.code@,
            final(self).table == old(self).table,
            final(self).cur.wf(),
            match next_idiom_from(old(self).cur.code@, old(self).cur.pos as int) {
                Some(q) => r && final(self).cur.pos == q,
                None => !r && final(self).cur.pos == old(self).cur.code@.len(),
            },
    {
        self.cur.skip_to_idiom()
    }

    /// Read one obfuscated character: skip the joining "add"s, consume the
    /// "load self", and return the identifier the following "call property"
    /// names — or nothing, if the shape here is not the idiom.
    pub fn next_char(&mut self) -> (r: Option<u32>)
        requires
            old(self).cur.wf(),
        ensures
            final(self).cur.code@ == old(self).cur.code@,
            final(self).table == old(self).table,
            final(self).cur.wf(),
            ({
                let s = next_char_spec(old(self).cur.code@, old(self).cur.pos as int);
                r == s.0 && final(self).cur.pos == s.1
            }),
    {
        if !self.cur.at_chain() {
            return None;
        }
        loop
            invariant
                self.cur.wf(),
                self.cur.code@ == old(self).cur.code@,
                self.table == old(self).table,
                adds_end(self.cur.code@, self.cur.pos as int) == adds_end(
                    old(self).cur.code@,
                    old(self).cur.pos as int,
                ),
            ensures
                self.cur.wf(),
                self.cur.code@ == old(self).cur.code@,
                self.table == old(self).table,
                self.cur.pos == adds_end(old(self).cur.code@, old(self).cur.pos as int),
            decreases self.cur.code@.len() - self.cur.pos,
        {
            if self.cur.pos >= self.cur.code.len() {
                break ;
            }
            if !matches!(self.cur.current(), Ins::Add) {
                break ;
            }
            self.cur.advance();
        }
        if self.cur.pos >= self.cur.code.len() {
            return None;
        }
        self.cur.advance();
        if self.cur.pos >= self.cur.code.len() {
            return None;
        }
        if let Ins::CallProperty(p) = self.cur.current() {
            self.cur.advance();
            Some(p)
        } else {
            None
        }
    }

    /// Match the target bytes character by character. On the first character
    /// that cannot be read, is unknown to the table, or differs, skip the
    /// remainder of the current string and report failure.
    pub fn match_target(&mut self, target: &Vec<u8>) -> (r: bool)
        requires
            old(self).cur.wf(),
        ensures
            final(self).cur.code@ == old(self).cur.code@,
            final(self).table == old(self).table,
            final(self).cur.wf(),
            ({
                let m = match_result(
                    old(self).cur.code@,
                    old(self).cur.pos as int,
                    target@,
                    old(self).table@,
                );
                r == m.0 && final(self).cur.pos == m.1
            }),
    {
        let n = target.len();
        let mut k: usize = 0;
        proof {
            assert(target@.skip(0) =~= target@);
        }
        loop
            invariant
                k <= n,
                n == target@.len(),
                self.cur.wf(),
                self.cur.code@ == old(self).cur.code@,
                self.table == old(self).table,
                match_result(
                    self.cur.code@,
                    self.cur.pos as int,
                    target@.skip(k as int),
                    self.table@,
                ) == match_result(
                    old(self).cur.code@,
                    old(self).cur.pos as int,
                    target@,
                    old(self).table@,
                ),
            decreases n - k,
        {
            if k >= n {
                return true;
            }
            let tb = target[k];
            let got = self.next_char();
            let ok = match got {
                Some(id) => self.table.get(id) == Some(tb),
                None => false,
            };
            if ok {
                proof {
                    assert(target@.skip(k as int).drop_first() =~= target@.skip(k as int + 1));
                }
                k = k + 1;
            } else {
                self.skip_string();
                return false;
            }
        }
    }

    /// Consume the remainder of the current obfuscated string, discarding it,
    /// to resynchronize past a string that was not the sought target.
    pub fn skip_string(&mut self)
        requires
            old(self).cur.wf(),
        ensures
            final(self).cur.code@ == old(self).cur.code@,
            final(self).table == old(self).table,
            final(self).cur.wf(),
            final(self).cur.pos == chain_end(old(self).cur.code@, old(self).cur.pos as int),
    {
        loop
            invariant
                self.cur.wf(),
                self.cur.code@ == old(self).cur.code@,
                self.table == old(self).table,
                chain_end(self.cur.code@, self.cur.pos as int) == chain_end(
                    old(self).cur.code@,
                    old(self).cur.pos as int,
                ),
            ensures
                self.cur.wf(),
                self.cur.code@ == old(self).cur.code@,
                self.table == old(self).table,
                self.cur.pos == chain_end(old(self).cur.code@, old(self).cur.pos as int),
            decreases self.cur.code@.len() - self.cur.pos,
        {
            if !self.cur.at_chain() {
                break ;
            }
            if matches!(self.cur.current(), Ins::Add) {
                self.cur.advance();
            } else {
                self.cur.advance();
                self.cur.advance();
            }
        }
    }

    /// Decode the obfuscated string at (or next after) the cursor: read
    /// characters until none can be read, appending each byte whose
    /// identifier the table knows and silently skipping the others.
    pub fn build(&mut self) -> (r: Vec<u8>)
        requires
            old(self).cur.wf(),
        ensures
            final(self).cur.code@ == old(self).cur.code@,
            final(self).table == old(self).table,
            final(self).cur.wf(),
            ({
                let b = build_from(old(self).cur.code@, old(self).cur.pos as int, old(self).table@);
                r@ == b.0 && final(self).cur.pos == b.1
            }),
    {
        if !self.cur.at_idiom() {
            self.cur.skip_to_idiom();
        }
        let ghost target = build_from(old(self).cur.code@, old(self).cur.pos as int, old(self).table@);
        let mut out: Vec<u8> = Vec::new();
        proof {
            assert(out@ + build_spec(self.cur.code@, self.cur.pos as int, self.table@).0
                =~= build_spec(self.cur.code@, self.cur.pos as int, self.table@).0);
        }
        loop
            invariant_except_break
                self.cur.wf(),
                self.cur.code@ == old(self).cur.code@,
                self.table == old(self).table,
                target.0 == out@ + build_spec(self.cur.code@, self.cur.pos as int, self.table@).0,
                target.1 == build_spec(self.cur.code@, self.cur.pos as int, self.table@).1,
            ensures
                self.cur.wf(),
                self.cur.code@ == old(self).cur.code@,
                self.table == old(self).table,
                target.0 == out@,
                target.1 == self.cur.pos,
            decreases self.cur.code@.len() - self.cur.pos,
        {
            proof {
                lemma_next_char_spec_bounds(self.cur.code@, self.cur.pos as int);
            }
            let got = self.next_char();
            match got {
                None => {
                    break ;
                },
                Some(id) => {
                    match self.table.get(id) {
                        Some(c) => {
                            out.push(c);
                            proof {
                                assert(target.0 == out@ + build_spec(
                                    self.cur.code@,
                                    self.cur.pos as int,
                                    self.table@,
                                ).0);
                            }
                        },
                        None => {},
                    }
                },
            }
        }
        out
    }
}

} // verus!
