//! The unpacking pipeline: resolve the keymap, build the character table,
//! discover the resource order, resolve the resource store, and emit the
//! resources' bytes in the discovered order.
use crate::error::MissingError;
use crate::error::UnpackerError;
use crate::ins::first_push_byte_from;
use crate::ins::first_push_string_from;
use crate::ins::Ins;
use crate::order::scan_order;
use crate::order::scan_order_spec;
use crate::order::walk_names;
use crate::store::build_store;
use crate::store::copy_bytes;
use crate::store::first_missing;
use crate::store::store_after;
use crate::store::write_ordered;
use crate::store::written_bytes;
use crate::store::BinaryTag;
use crate::store::Store;
use crate::store::SymbolEntry;
use crate::table::CharTable;
use vstd::prelude::*;

verus! {

/// One instance member method of the first declared class, as decoded by
/// the bytecode provider: its identifier, whether it accepts a
/// variable-length trailing argument, its operand-stack depth, and its body.
pub struct HelperMethod {
    pub name: u32,
    pub need_rest: bool,
    pub max_stack: u32,
    pub code: Vec<Ins>,
}

/// The decoded program parts the pipeline reads: the constant-pool strings,
/// the static initializer body, the instance constructor body, and the
/// first class's instance member methods.
pub struct AbcModel {
    pub strings: Vec<Vec<u8>>,
    pub cinit: Vec<Ins>,
    pub iinit: Vec<Ins>,
    pub methods: Vec<HelperMethod>,
}

/// The keymap the static initializer yields: the constant-pool string named
/// by the first "push string constant" instruction, if both exist.
pub open spec fn keymap_spec(cinit: Seq<Ins>, strings: Seq<Vec<u8>>) -> Option<Seq<u8>> {
    match first_push_string_from(cinit, 0) {
        Some(v) => if v < strings.len() {
            Some(strings[v as int]@)
        } else {
            None
        },
        None => None,
    }
}

/// The helper-method heuristic: a variable-length trailing argument and an
/// operand-stack depth of exactly two.
pub open spec fn qualifies(m: HelperMethod) -> bool {
    m.need_rest && m.max_stack == 2
}

/// The character table after registering the given methods over `acc`: each
/// qualifying method's first byte literal indexes the keymap; an index out
/// of the keymap's bounds aborts the build with exactly that index.
pub open spec fn table_after(ms: Seq<HelperMethod>, keymap: Seq<u8>, acc: Map<u32, u8>) -> Result<
    Map<u32, u8>,
    u8,
>
    decreases ms.len()
{
    if ms.len() == 0 {
        Ok(acc)
    } else {
        let m = ms.first();
        if qualifies(m) {
            match first_push_byte_from(m.code@, 0) {
                Some(b) => if b < keymap.len() {
                    table_after(ms.drop_first(), keymap, acc.insert(m.name, keymap[b as int]))
                } else {
                    Err(b)
                },
                None => table_after(ms.drop_first(), keymap, acc),
            }
        } else {
            table_after(ms.drop_first(), keymap, acc)
        }
    }
}

/// The character table after registering the given methods over `acc`,
/// stopping quietly at the first out-of-bounds index: what the table holds
/// when the build aborts there.
pub open spec fn table_partial(ms: Seq<HelperMethod>, keymap: Seq<u8>, acc: Map<u32, u8>) -> Map<
    u32,
    u8,
>
    decreases ms.len()
{
    if ms.len() == 0 {
        acc
    } else {
        let m = ms.first();
        if qualifies(m) {
            match first_push_byte_from(m.code@, 0) {
                Some(b) => if b < keymap.len() {
                    table_partial(ms.drop_first(), keymap, acc.insert(m.name, keymap[b as int]))
                } else {
                    acc
                },
                None => table_partial(ms.drop_first(), keymap, acc),
            }
        } else {
            table_partial(ms.drop_first(), keymap, acc)
        }
    }
}

/// For any keymap and any qualifying helper method whose first decoded
/// byte-literal operand is `b`: with `b` inside the keymap's bounds the
/// table maps the method's identifier to the keymap character at `b`; out
/// of bounds, the build fails carrying exactly `b`.
pub proof fn lemma_helper_char(m: HelperMethod, keymap: Seq<u8>, acc: Map<u32, u8>, b: u8)
    requires
        qualifies(m),
        first_push_byte_from(m.code@, 0) == Some(b),
    ensures
        b < keymap.len() ==> table_after(seq![m], keymap, acc) == Ok::<Map<u32, u8>, u8>(
            acc.insert(m.name, keymap[b as int]),
        ),
        b >= keymap.len() ==> table_after(seq![m], keymap, acc) == Err::<Map<u32, u8>, u8>(b),
    {
    assert(seq![m].first() == m);
    assert(seq![m].drop_first() =~= Seq::<HelperMethod>::empty());
    if b < keymap.len() {
        assert(table_after(Seq::<HelperMethod>::empty(), keymap, acc.insert(m.name, keymap[b as int]))
            == Ok::<Map<u32, u8>, u8>(acc.insert(m.name, keymap[b as int])));
    }
}

/// What the whole order resolution yields from the decoded program and the
/// table entries already registered: the resource names in program order,
/// or the first error of the fixed phase sequence.
pub open spec fn order_result(abc: AbcModel, acc: Map<u32, u8>) -> Result<
    Seq<Seq<u8>>,
    UnpackerError,
> {
    match keymap_spec(abc.cinit@, abc.strings@) {
        None => Err(UnpackerError::Missing(MissingError::MissingKeymap)),
        Some(km) => match table_after(abc.methods@, km, acc) {
            Err(b) => Err(UnpackerError::KeymapIndexError(b)),
            Ok(t) => scan_order_spec(abc.iinit@, t),
        },
    }
}

/// The names one order resolution appends, whether or not it ends cleanly:
/// nothing before the constructor walk can start, and on an aborted walk
/// exactly the names discovered before the invalid one.
pub open spec fn appended_names(abc: AbcModel, acc: Map<u32, u8>) -> Seq<Seq<u8>> {
    match keymap_spec(abc.cinit@, abc.strings@) {
        None => Seq::<Seq<u8>>::empty(),
        Some(km) => match table_after(abc.methods@, km, acc) {
            Err(_) => Seq::<Seq<u8>>::empty(),
            Ok(t) => walk_names(abc.iinit@, t),
        },
    }
}

/// The order resolution is deterministic: it is a function of the decoded
/// input bytecode alone, so identical input always yields an identical name
/// sequence — same elements, same order, duplicates preserved.
pub proof fn lemma_order_deterministic(a1: AbcModel, a2: AbcModel)
    requires
        a1 == a2,
    ensures
        order_result(a1, Map::<u32, u8>::empty()) == order_result(a2, Map::<u32, u8>::empty()),
{
}

/// The first "push string constant" operand of a method body.
pub fn find_push_string(code: &Vec<Ins>) -> (r: Option<u32>)
    ensures
        r == first_push_string_from(code@, 0),
{
    let n = code.len();
    let mut i: usize = 0;
    while i < n
        invariant
            i <= n,
            n == code@.len(),
            first_push_string_from(code@, 0) == first_push_string_from(code@, i as int),
        decreases n - i,
    {
        if let Ins::PushString(v) = code[i] {
            return Some(v);
        }
        i = i + 1;
    }
    None
}

/// The first "push byte literal" operand of a method body.
pub fn find_push_byte(code: &Vec<Ins>) -> (r: Option<u8>)
    ensures
        r == first_push_byte_from(code@, 0),
{
    let n = code.len();
    let mut i: usize = 0;
    while i < n
        invariant
            i <= n,
            n == code@.len(),
            first_push_byte_from(code@, 0) == first_push_byte_from(code@, i as int),
        decreases n - i,
    {
        if let Ins::PushByte(v) = code[i] {
            return Some(v);
        }
        i = i + 1;
    }
    None
}

/// The unpacking pipeline's state: the decoded input and, phase by phase,
/// the keymap, the character table, the resolved order and the store.
pub struct Unpacker {
    pub abc: AbcModel,
    pub tags: Vec<BinaryTag>,
    pub symbols: Vec<SymbolEntry>,
    pub keymap: Option<Vec<u8>>,
    pub methods: CharTable,
    pub order: Vec<Vec<u8>>,
    pub binaries: Store,
}

impl Unpacker {
    /// A fresh pipeline over one decoded input.
    pub fn new(abc: AbcModel, tags: Vec<BinaryTag>, symbols: Vec<SymbolEntry>) -> (r: Unpacker)
        ensures
            r.abc == abc,
            r.tags == tags,
            r.symbols == symbols,
            r.keymap is None,
            r.methods@ == Map::<u32, u8>::empty(),
            r.order@ == Seq::<Vec<u8>>::empty(),
            r.binaries@ == Map::<Seq<u8>, Seq<u8>>::empty(),
    {
        Unpacker {
            abc,
            tags,
            symbols,
            keymap: None,
            methods: CharTable::new(),
            order: Vec::new(),
            binaries: Store::new(),
        }
    }

    /// Scan the static initializer for the first string constant and keep it
    /// as the keymap; finding none, or a dangling pool index, leaves the
    /// keymap unset (the consumers raise the error).
    pub fn resolve_keymap(&mut self)
        ensures
            final(self).abc == old(self).abc,
            final(self).tags == old(self).tags,
            final(self).symbols == old(self).symbols,
            final(self).methods == old(self).methods,
            final(self).order == old(self).order,
            final(self).binaries == old(self).binaries,
            match keymap_spec(old(self).abc.cinit@, old(self).abc.strings@) {
                Some(km) => final(self).keymap matches Some(v) && v@ == km,
                None => final(self).keymap is None,
            },
    {
        self.keymap = match find_push_string(&self.abc.cinit) {
            Some(v) => {
                if (v as usize) < self.abc.strings.len() {
                    Some(copy_bytes(&self.abc.strings[v as usize]))
                } else {
                    None
                }
            },
            None => None,
        };
    }

    /// Build the character table: every qualifying helper method registers
    /// its identifier under the keymap character its first byte literal
    /// indexes. Requires the keymap already resolved; an index outside the
    /// keymap's bounds fails carrying that index.
    pub fn resolve_methods(&mut self) -> (r: Result<(), UnpackerError>)
        ensures
            final(self).abc == old(self).abc,
            final(self).tags == old(self).tags,
            final(self).symbols == old(self).symbols,
            final(self).keymap == old(self).keymap,
            final(self).order == old(self).order,
            final(self).binaries == old(self).binaries,
            match old(self).keymap {
                None => r matches Err(e) && e == UnpackerError::Missing(MissingError::MissingKeymap)
                    && final(self).methods == old(self).methods,
                Some(km) => {
                    &&& final(self).methods@ == table_partial(
                        old(self).abc.methods@,
                        km@,
                        old(self).methods@,
                    )
                    &&& match table_after(old(self).abc.methods@, km@, old(self).methods@) {
                        Ok(t) => r is Ok && final(self).methods@ == t,
                        Err(b) => r matches Err(e) && e == UnpackerError::KeymapIndexError(b),
                    }
                },
            },
    {
        let keymap = match &self.keymap {
            Some(km) => copy_bytes(km),
            None => {
                return Err(UnpackerError::Missing(MissingError::MissingKeymap));
            },
        };
        let n = self.abc.methods.len();
        let mut i: usize = 0;
        proof {
            assert(self.abc.methods@.skip(0) =~= self.abc.methods@);
        }
        while i < n
            invariant
                i <= n,
                n == self.abc.methods@.len(),
                old(self).keymap is Some,
                keymap@ == old(self).keymap.unwrap()@,
                self.abc == old(self).abc,
                self.tags == old(self).tags,
                self.symbols == old(self).symbols,
                self.keymap == old(self).keymap,
                self.order == old(self).order,
                self.binaries == old(self).binaries,
                table_after(old(self).abc.methods@, keymap@, old(self).methods@) == table_after(
                    self.abc.methods@.skip(i as int),
                    keymap@,
                    self.methods@,
                ),
                table_partial(old(self).abc.methods@, keymap@, old(self).methods@)
                    == table_partial(self.abc.methods@.skip(i as int), keymap@, self.methods@),
            decreases n - i,
        {
            proof {
                assert(self.abc.methods@.skip(i as int).first() == self.abc.methods@[i as int]);
                assert(self.abc.methods@.skip(i as int).drop_first() =~= self.abc.methods@.skip(
                    i as int + 1,
                ));
            }
            let m = &self.abc.methods[i];
            if m.need_rest && m.max_stack == 2 {
                if let Some(b) = find_push_byte(&m.code) {
                    if (b as usize) < keymap.len() {
                        let c = keymap[b as usize];
                        let name = m.name;
                        self.methods.insert(name, c);
                    } else {
                        return Err(UnpackerError::KeymapIndexError(b));
                    }
                }
            }
            i = i + 1;
        }
        proof {
            assert(self.abc.methods@.skip(n as int) =~= Seq::<HelperMethod>::empty());
        }
        Ok(())
    }

    /// Resolve the keymap, build the character table, then walk the instance
    /// constructor appending, in program order, every resource name a
    /// "writeBytes" marker announces. A name that is not valid UTF-8 aborts
    /// the walk: the names appended before it stay, it is never appended.
    pub fn resolve_order(&mut self) -> (r: Result<(), UnpackerError>)
        ensures
            final(self).abc == old(self).abc,
            final(self).tags == old(self).tags,
            final(self).symbols == old(self).symbols,
            final(self).binaries == old(self).binaries,
            match keymap_spec(old(self).abc.cinit@, old(self).abc.strings@) {
                Some(km) => final(self).keymap matches Some(v) && v@ == km,
                None => final(self).keymap is None,
            },
            match keymap_spec(old(self).abc.cinit@, old(self).abc.strings@) {
                None => final(self).methods == old(self).methods,
                Some(km) => final(self).methods@ == table_partial(
                    old(self).abc.methods@,
                    km,
                    old(self).methods@,
                ),
            },
            final(self).order.deep_view() == old(self).order.deep_view() + appended_names(
                old(self).abc,
                old(self).methods@,
            ),
            match order_result(old(self).abc, old(self).methods@) {
                Ok(_) => r is Ok,
                Err(e) => r matches Err(e2) && e2 == e,
            },
    {
        self.resolve_keymap();
        match self.resolve_methods() {
            Ok(()) => {},
            Err(e) => {
                proof {
                    let o0 = old(self).order.deep_view();
                    assert(o0 + Seq::<Seq<u8>>::empty() =~= o0);
                }
                return Err(e);
            },
        }
        match scan_order(&self.abc.iinit, &self.methods, &mut self.order) {
            Ok(()) => Ok(()),
            Err(e) => Err(e),
        }
    }

    /// Resolve the store: each tagged resource with a known symbol name is
    /// registered under that name less its prefix up to the first separator;
    /// on a collision the last write wins.
    pub fn resolve_binaries(&mut self) -> (r: Result<(), UnpackerError>)
        ensures
            r is Ok,
            final(self).abc == old(self).abc,
            final(self).tags == old(self).tags,
            final(self).symbols == old(self).symbols,
            final(self).keymap == old(self).keymap,
            final(self).methods == old(self).methods,
            final(self).order == old(self).order,
            final(self).binaries@ == store_after(old(self).tags@, old(self).symbols@, Map::empty()),
    {
        self.binaries = build_store(&self.tags, &self.symbols);
        Ok(())
    }

    /// For each name of the resolved order: append its payload to the sink
    /// at once, or stop and report that name as missing. Bytes already
    /// appended are not rolled back.
    pub fn write_binaries(&self, out: &mut Vec<u8>) -> (missing: Option<Vec<u8>>)
        ensures
            final(out)@ == old(out)@ + written_bytes(self.order.deep_view(), self.binaries@),
            match first_missing(self.order.deep_view(), self.binaries@) {
                Some(nm) => missing matches Some(v) && v@ == nm,
                None => missing is None,
            },
    {
        write_ordered(&self.order, &self.binaries, out)
    }

    /// Run the whole pipeline and write the resolved resources to the sink.
    pub fn unpack(&mut self, out: &mut Vec<u8>) -> (r: Result<Option<Vec<u8>>, UnpackerError>)
        ensures
            final(self).abc == old(self).abc,
            final(self).tags == old(self).tags,
            final(self).symbols == old(self).symbols,
            final(self).order.deep_view() == old(self).order.deep_view() + appended_names(
                old(self).abc,
                old(self).methods@,
            ),
            match order_result(old(self).abc, old(self).methods@) {
                Err(e) => r matches Err(e2) && e2 == e && final(out)@ == old(out)@
                    && final(self).binaries == old(self).binaries,
                Ok(o) => {
                    &&& final(self).order.deep_view() == old(self).order.deep_view() + o
                    &&& final(self).binaries@ == store_after(
                        old(self).tags@,
                        old(self).symbols@,
                        Map::empty(),
                    )
                    &&& final(out)@ == old(out)@ + written_bytes(
                        final(self).order.deep_view(),
                        final(self).binaries@,
                    )
                    &&& (r matches Ok(missing) && (match first_missing(
                        final(self).order.deep_view(),
                        final(self).binaries@,
                    ) {
                        Some(nm) => missing matches Some(v) && v@ == nm,
                        None => missing is None,
                    }))
                },
            },
    {
        match self.resolve_order() {
            Ok(()) => {},
            Err(e) => {
                return Err(e);
            },
        }
        match self.resolve_binaries() {
            Ok(()) => {},
            Err(e) => {
                return Err(e);
            },
        }
        Ok(self.write_binaries(out))
    }
}

} // verus!
