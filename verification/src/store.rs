//! The resource store: mapping resolved names onto resource payloads, and
//! the ordered write that concatenates them.
//!
//! Keys are derived from the resources' symbol names by discarding the
//! prefix up to the first separator; on a key collision the last write wins.
use vstd::prelude::*;

verus! {

/// The separator between the discarded prefix and the resolved key.
pub const SEPARATOR: u8 = 95;

/// One tagged binary resource: a numeric identifier and its raw payload.
pub struct BinaryTag {
    pub char_id: u16,
    pub data: Vec<u8>,
}

/// One symbol-table entry: a numeric identifier and its full symbol name.
pub struct SymbolEntry {
    pub char_id: u16,
    pub name: Vec<u8>,
}

/// An owned copy of a byte string.
pub fn copy_bytes(v: &Vec<u8>) -> (r: Vec<u8>)
    ensures
        r@ == v@,
{
    let mut r: Vec<u8> = Vec::new();
    let n = v.len();
    let mut i: usize = 0;
    while i < n
        invariant
            i <= n,
            n == v@.len(),
            r@ == v@.take(i as int),
        decreases n - i,
    {
        r.push(v[i]);
        i = i + 1;
        proof {
            assert(r@ =~= v@.take(i as int));
        }
    }
    proof {
        assert(v@.take(n as int) =~= v@);
    }
    r
}

/// Append a byte string to a sink.
pub fn append_bytes(out: &mut Vec<u8>, b: &Vec<u8>)
    ensures
        final(out)@ == old(out)@ + b@,
{
    let n = b.len();
    let mut i: usize = 0;
    proof {
        assert(out@ =~= old(out)@ + b@.take(0));
    }
    while i < n
        invariant
            i <= n,
            n == b@.len(),
            out@ == old(out)@ + b@.take(i as int),
        decreases n - i,
    {
        out.push(b[i]);
        i = i + 1;
        proof {
            assert(out@ =~= old(out)@ + b@.take(i as int));
        }
    }
    proof {
        assert(old(out)@ + b@.take(n as int) =~= old(out)@ + b@);
    }
}

/// Whether two byte strings hold the same bytes.
pub fn bytes_eq(a: &Vec<u8>, b: &Vec<u8>) -> (r: bool)
    ensures
        r == (a@ == b@),
{
    if a.len() != b.len() {
        return false;
    }
    let n = a.len();
    let mut i: usize = 0;
    while i < n
        invariant
            i <= n,
            n == a@.len() == b@.len(),
            forall|k: int| 0 <= k < i ==> a@[k] == b@[k],
        decreases n - i,
    {
        if a[i] != b[i] {
            return false;
        }
        i = i + 1;
    }
    proof {
        assert(a@ =~= b@);
    }
    true
}

/// The index of the first separator at or after `i`.
pub open spec fn sep_index_from(name: Seq<u8>, i: int) -> Option<int>
    decreases name.len() - i when 0 <= i <= name.len()
{
    if i >= name.len() {
        None
    } else if name[i] == SEPARATOR {
        Some(i)
    } else {
        sep_index_from(name, i + 1)
    }
}

/// The resolved key of a symbol name: what follows the first separator; a
/// name without a separator resolves to no key at all.
pub open spec fn strip_prefix(name: Seq<u8>) -> Option<Seq<u8>> {
    match sep_index_from(name, 0) {
        Some(k) => Some(name.skip(k + 1)),
        None => None,
    }
}

/// Split the symbol name at the first separator and keep the remainder.
pub fn strip_prefix_vec(name: &Vec<u8>) -> (r: Option<Vec<u8>>)
    ensures
        match strip_prefix(name@) {
            Some(key) => r matches Some(v) && v@ == key,
            None => r is None,
        },
{
    let n = name.len();
    let mut i: usize = 0;
    while i < n
        invariant
            i <= n,
            n == name@.len(),
            sep_index_from(name@, 0) == sep_index_from(name@, i as int),
        decreases n - i,
    {
        if name[i] == SEPARATOR {
            let mut out: Vec<u8> = Vec::new();
            let mut j: usize = i + 1;
            proof {
                assert(out@ =~= name@.subrange(i as int + 1, i as int + 1));
            }
            while j < n
                invariant
                    i < j <= n,
                    n == name@.len(),
                    out@ == name@.subrange(i as int + 1, j as int),
                decreases n - j,
            {
                out.push(name[j]);
                j = j + 1;
                proof {
                    assert(out@ =~= name@.subrange(i as int + 1, j as int));
                }
            }
            proof {
                assert(name@.subrange(i as int + 1, n as int) =~= name@.skip(i as int + 1));
            }
            return Some(out);
        }
        i = i + 1;
    }
    None
}

/// The first symbol name registered for the identifier.
pub open spec fn symbol_for(symbols: Seq<SymbolEntry>, id: u16) -> Option<Seq<u8>>
    decreases symbols.len()
{
    if symbols.len() == 0 {
        None
    } else if symbols.first().char_id == id {
        Some(symbols.first().name@)
    } else {
        symbol_for(symbols.drop_first(), id)
    }
}

/// Look the identifier up in the symbol table.
pub fn find_symbol<'a>(symbols: &'a Vec<SymbolEntry>, id: u16) -> (r: Option<&'a Vec<u8>>)
    ensures
        match symbol_for(symbols@, id) {
            Some(nm) => r matches Some(v) && v@ == nm,
            None => r is None,
        },
{
    let n = symbols.len();
    let mut i: usize = 0;
    proof {
        assert(symbols@.skip(0) =~= symbols@);
    }
    while i < n
        invariant
            i <= n,
            n == symbols@.len(),
            symbol_for(symbols@, id) == symbol_for(symbols@.skip(i as int), id),
        decreases n - i,
    {
        proof {
            assert(symbols@.skip(i as int).first() == symbols@[i as int]);
            assert(symbols@.skip(i as int).drop_first() =~= symbols@.skip(i as int + 1));
        }
        if symbols[i].char_id == id {
            return Some(&symbols[i].name);
        }
        i = i + 1;
    }
    None
}

/// The map meaning of the store's entry list: later entries overwrite
/// earlier ones.
pub open spec fn store_entries_map(s: Seq<(Vec<u8>, Vec<u8>)>) -> Map<Seq<u8>, Seq<u8>>
    decreases s.len()
{
    if s.len() == 0 {
        Map::empty()
    } else {
        store_entries_map(s.drop_last()).insert(s.last().0@, s.last().1@)
    }
}

/// Mapping from resolved name to a resource's raw byte payload.
pub struct Store {
    pub entries: Vec<(Vec<u8>, Vec<u8>)>,
}

impl View for Store {
    type V = Map<Seq<u8>, Seq<u8>>;

    open spec fn view(&self) -> Map<Seq<u8>, Seq<u8>> {
        store_entries_map(self.entries@)
    }
}

impl Store {
    pub fn new() -> (r: Store)
        ensures
            r@ == Map::<Seq<u8>, Seq<u8>>::empty(),
    {
        Store { entries: Vec::new() }
    }

    pub fn insert(&mut self, name: Vec<u8>, data: Vec<u8>)
        ensures
            final(self)@ == old(self)@.insert(name@, data@),
    {
        self.entries.push((name, data));
        proof {
            assert(self.entries@.drop_last() =~= old(self).entries@);
        }
    }

    /// Look a resolved name up; the latest entry for it wins.
    pub fn get<'a>(&'a self, name: &Vec<u8>) -> (r: Option<&'a Vec<u8>>)
        ensures
            match r {
                Some(v) => self@.contains_key(name@) && v@ == self@[name@],
                None => !self@.contains_key(name@),
            },
    {
        let mut j: usize = self.entries.len();
        proof {
            assert(self.entries@.take(j as int) =~= self.entries@);
        }
        while j > 0
            invariant
                j <= self.entries@.len(),
                store_entries_map(self.entries@).contains_key(name@) <==> store_entries_map(
                    self.entries@.take(j as int),
                ).contains_key(name@),
                store_entries_map(self.entries@).contains_key(name@) ==> store_entries_map(
                    self.entries@.take(j as int),
                )[name@] == store_entries_map(self.entries@)[name@],
            decreases j,
        {
            j = j - 1;
            proof {
                assert(self.entries@.take(j as int + 1).drop_last() =~= self.entries@.take(
                    j as int,
                ));
                assert(self.entries@.take(j as int + 1).last() == self.entries@[j as int]);
            }
            if bytes_eq(&self.entries[j].0, name) {
                return Some(&self.entries[j].1);
            }
        }
        proof {
            assert(self.entries@.take(0) =~= Seq::<(Vec<u8>, Vec<u8>)>::empty());
        }
        None
    }
}

/// The store that results from resolving the tagged resources against the
/// symbol table, later insertions overwriting earlier ones on a collision.
pub open spec fn store_after(
    tags: Seq<BinaryTag>,
    symbols: Seq<SymbolEntry>,
    acc: Map<Seq<u8>, Seq<u8>>,
) -> Map<Seq<u8>, Seq<u8>>
    decreases tags.len()
{
    if tags.len() == 0 {
        acc
    } else {
        let t = tags.first();
        let acc2 = match symbol_for(symbols, t.char_id) {
            Some(nm) => match strip_prefix(nm) {
                Some(key) => acc.insert(key, t.data@),
                None => acc,
            },
            None => acc,
        };
        store_after(tags.drop_first(), symbols, acc2)
    }
}

/// Build the resource store: for each tagged resource with a known symbol,
/// strip the prefix up to the first separator and register the payload
/// under the remainder.
pub fn build_store(tags: &Vec<BinaryTag>, symbols: &Vec<SymbolEntry>) -> (r: Store)
    ensures
        r@ == store_after(tags@, symbols@, Map::empty()),
{
    let mut store = Store::new();
    let n = tags.len();
    let mut i: usize = 0;
    proof {
        assert(tags@.skip(0) =~= tags@);
    }
    while i < n
        invariant
            i <= n,
            n == tags@.len(),
            store_after(tags@, symbols@, Map::empty()) == store_after(
                tags@.skip(i as int),
                symbols@,
                store@,
            ),
        decreases n - i,
    {
        proof {
            assert(tags@.skip(i as int).first() == tags@[i as int]);
            assert(tags@.skip(i as int).drop_first() =~= tags@.skip(i as int + 1));
        }
        if let Some(symbol) = find_symbol(symbols, tags[i].char_id) {
            if let Some(key) = strip_prefix_vec(symbol) {
                store.insert(key, copy_bytes(&tags[i].data));
            }
        }
        i = i + 1;
    }
    proof {
        assert(tags@.skip(n as int) =~= Seq::<BinaryTag>::empty());
    }
    store
}

/// The bytes the ordered write emits: the payloads of the longest prefix of
/// the order whose names the store all holds, concatenated in order.
pub open spec fn written_bytes(order: Seq<Seq<u8>>, store: Map<Seq<u8>, Seq<u8>>) -> Seq<u8>
    decreases order.len()
{
    if order.len() == 0 {
        Seq::<u8>::empty()
    } else if store.contains_key(order.first()) {
        store[order.first()] + written_bytes(order.drop_first(), store)
    } else {
        Seq::<u8>::empty()
    }
}

/// The first name of the order the store does not hold, if any.
pub open spec fn first_missing(order: Seq<Seq<u8>>, store: Map<Seq<u8>, Seq<u8>>) -> Option<
    Seq<u8>,
>
    decreases order.len()
{
    if order.len() == 0 {
        None
    } else if store.contains_key(order.first()) {
        first_missing(order.drop_first(), store)
    } else {
        Some(order.first())
    }
}

/// For each name in order: append its payload to the sink at once, or stop
/// and report the name as missing. Bytes already appended stay appended.
pub fn write_ordered(order: &Vec<Vec<u8>>, store: &Store, out: &mut Vec<u8>) -> (missing: Option<
    Vec<u8>,
>)
    ensures
        final(out)@ == old(out)@ + written_bytes(order.deep_view(), store@),
        match first_missing(order.deep_view(), store@) {
            Some(nm) => missing matches Some(v) && v@ == nm,
            None => missing is None,
        },
{
    let n = order.len();
    let mut i: usize = 0;
    proof {
        assert(out@ =~= old(out)@ + Seq::<u8>::empty());
        assert(order.deep_view().skip(0) =~= order.deep_view());
    }
    while i < n
        invariant
            i <= n,
            n == order@.len(),
            order.deep_view().len() == order@.len(),
            forall|k: int| 0 <= k < n ==> order.deep_view()[k] == #[trigger] order@[k]@,
            old(out)@ + written_bytes(order.deep_view(), store@) == out@ + written_bytes(
                order.deep_view().skip(i as int),
                store@,
            ),
            first_missing(order.deep_view(), store@) == first_missing(
                order.deep_view().skip(i as int),
                store@,
            ),
        decreases n - i,
    {
        proof {
            assert(order.deep_view().skip(i as int).first() == order.deep_view()[i as int]);
            assert(order.deep_view().skip(i as int).drop_first() =~= order.deep_view().skip(
                i as int + 1,
            ));
        }
        match store.get(&order[i]) {
            Some(data) => {
                append_bytes(out, data);
            },
            None => {
                return Some(copy_bytes(&order[i]));
            },
        }
        i = i + 1;
    }
    proof {
        assert(order.deep_view().skip(n as int) =~= Seq::<Seq<u8>>::empty());
        assert(out@ =~= out@ + Seq::<u8>::empty());
    }
    None
}

/// The ordered write is order-preserving and fails closed: where the store
/// holds the first name but not the second, the sink receives exactly the
/// first name's full payload, the second name is reported missing, and no
/// byte beyond the first payload is written.
pub proof fn lemma_write_fails_closed(n1: Seq<u8>, n2: Seq<u8>, store: Map<Seq<u8>, Seq<u8>>)
    requires
        store.contains_key(n1),
        !store.contains_key(n2),
    ensures
        written_bytes(seq![n1, n2], store) == store[n1],
        first_missing(seq![n1, n2], store) == Some(n2),
{
    let o2 = seq![n2];
    let o12 = seq![n1, n2];
    assert(o12.drop_first() =~= o2);
    assert(o12.first() == n1);
    assert(o2.first() == n2);
    assert(written_bytes(o2, store) == Seq::<u8>::empty());
    assert(first_missing(o2, store) == Some(n2));
    assert(written_bytes(o12, store) == store[n1] + written_bytes(o2, store));
    assert(store[n1] + Seq::<u8>::empty() =~= store[n1]);
}

} // verus!
