use vstd::prelude::*;

verus! {

/// The per-address record of the ledger: the class deployed there and the
/// account's nonce. An address nobody deployed to holds the zero record.
#[derive(Clone, Copy, Debug)]
pub struct AccountRecord {
    pub class_hash: [u8; 32],
    pub nonce: u64,
}

/// The record of an address that was never deployed to: no class, nonce zero.
pub open spec fn is_uninitialized(r: AccountRecord) -> bool {
    r.class_hash@ == Seq::new(32, |_i: int| 0u8) && r.nonce == 0
}

/// Writes in the order they were made: later entries override earlier ones.
pub open spec fn writes_map(w: Seq<([u8; 32], AccountRecord)>) -> Map<Seq<u8>, AccountRecord>
    decreases w.len(),
{
    if w.len() == 0 {
        Map::empty()
    } else {
        writes_map(w.drop_last()).insert(w.last().0@, w.last().1)
    }
}

/// A store of account records, read by address: the backing store beneath a
/// layer, or a parent layer.
pub struct AccountStore {
    pub writes: Vec<([u8; 32], AccountRecord)>,
}

impl View for AccountStore {
    type V = Map<Seq<u8>, AccountRecord>;

    open spec fn view(&self) -> Map<Seq<u8>, AccountRecord> {
        writes_map(self.writes@)
    }
}

/// A copy-on-write layer over a store: its own writes, read before the store's.
pub struct CachedState {
    pub overlay: AccountStore,
}

/// What a read through a layer sees: the layer's own write, else the store's
/// record; `None` where neither holds one.
pub open spec fn read_through(layer: Map<Seq<u8>, AccountRecord>, backing: Map<Seq<u8>, AccountRecord>, address: Seq<u8>) -> Option<AccountRecord> {
    if layer.contains_key(address) {
        Some(layer[address])
    } else if backing.contains_key(address) {
        Some(backing[address])
    } else {
        None
    }
}

fn same_address(a: &[u8; 32], b: &[u8; 32]) -> (r: bool)
    ensures
        r == (a@ == b@),
{
    let mut i: usize = 0;
    while i < 32
        invariant
            0 <= i <= 32,
            a@.len() == 32,
            b@.len() == 32,
            forall|j: int| 0 <= j < i ==> a@[j] == b@[j],
        decreases 32 - i,
    {
        if a[i] != b[i] {
            return false;
        }
        i = i + 1;
    }
    assert(a@ =~= b@);
    true
}

proof fn lemma_writes_map_append(a: Seq<([u8; 32], AccountRecord)>, b: Seq<([u8; 32], AccountRecord)>)
    ensures
        writes_map(a + b) == writes_map(a).union_prefer_right(writes_map(b)),
    decreases b.len(),
{
    if b.len() == 0 {
        assert(a + b =~= a);
        assert(writes_map(a).union_prefer_right(writes_map(b)) =~= writes_map(a));
    } else {
        assert((a + b).drop_last() =~= a + b.drop_last());
        lemma_writes_map_append(a, b.drop_last());
        assert(writes_map(a + b) =~= writes_map(a).union_prefer_right(writes_map(b)));
    }
}

impl AccountStore {
    /// A store that holds no record.
    pub fn new() -> (r: AccountStore)
        ensures
            r@ == Map::<Seq<u8>, AccountRecord>::empty(),
    {
        AccountStore { writes: Vec::new() }
    }

    /// The record written last for the address, if any.
    pub fn get(&self, address: &[u8; 32]) -> (r: Option<AccountRecord>)
        ensures
            match r {
                Some(v) => self@.contains_key(address@) && self@[address@] == v,
                None => !self@.contains_key(address@),
            },
    {
        let ghost w = self.writes@;
        let mut i: usize = self.writes.len();
        proof {
            assert(w.subrange(0, i as int) =~= w);
        }
        while i > 0
            invariant
                0 <= i <= w.len(),
                w == self.writes@,
                writes_map(w).contains_key(address@) == writes_map(w.subrange(0, i as int)).contains_key(address@),
                writes_map(w).contains_key(address@) ==> writes_map(w)[address@] == writes_map(w.subrange(0, i as int))[address@],
            decreases i,
        {
            let ghost pre = w.subrange(0, i as int);
            assert(pre.drop_last() =~= w.subrange(0, i - 1));
            if same_address(&self.writes[i - 1].0, address) {
                return Some(self.writes[i - 1].1);
            }
            i = i - 1;
        }
        None
    }

    /// Records a write; it overrides any earlier one to the same address.
    pub fn set(&mut self, address: [u8; 32], record: AccountRecord)
        ensures
            final(self)@ == old(self)@.insert(address@, record),
    {
        let ghost before = self.writes@;
        self.writes.push((address, record));
        assert(self.writes@.drop_last() =~= before);
    }
}

impl CachedState {
    /// A layer with no writes of its own.
    pub fn new() -> (r: CachedState)
        ensures
            r.overlay@ == Map::<Seq<u8>, AccountRecord>::empty(),
    {
        CachedState { overlay: AccountStore::new() }
    }

    /// The record at an address as this layer sees it: its own write first,
    /// then the backing store's, else the uninitialized record.
    pub fn get_account_record(&self, backing: &AccountStore, address: &[u8; 32]) -> (r: AccountRecord)
        ensures
            match read_through(self.overlay@, backing@, address@) {
                Some(v) => r == v,
                None => is_uninitialized(r),
            },
    {
        match self.overlay.get(address) {
            Some(v) => v,
            None => match backing.get(address) {
                Some(v) => v,
                None => {
                    let r = AccountRecord { class_hash: [0u8; 32], nonce: 0 };
                    assert(r.class_hash@ =~= Seq::new(32, |_i: int| 0u8));
                    r
                },
            },
        }
    }

    /// Writes a record into this layer only.
    pub fn set_account_record(&mut self, address: [u8; 32], record: AccountRecord)
        ensures
            final(self).overlay@ == old(self).overlay@.insert(address@, record),
    {
        self.overlay.set(address, record);
    }

    /// Applies this layer's writes, in the order made, to a parent store.
    pub fn merge_into(&self, parent: &mut AccountStore)
        ensures
            final(parent)@ == old(parent)@.union_prefer_right(self.overlay@),
    {
        let ghost start = parent.writes@;
        let ghost w = self.overlay.writes@;
        let mut i: usize = 0;
        proof {
            assert(start + w.subrange(0, 0) =~= start);
        }
        while i < self.overlay.writes.len()
            invariant
                0 <= i <= w.len(),
                w == self.overlay.writes@,
                parent.writes@ == start + w.subrange(0, i as int),
            decreases w.len() - i,
        {
            parent.writes.push(self.overlay.writes[i]);
            assert(start + w.subrange(0, i + 1) =~= (start + w.subrange(0, i as int)).push(w[i as int]));
            i = i + 1;
        }
        assert(w.subrange(0, i as int) =~= w);
        proof {
            lemma_writes_map_append(start, w);
        }
    }
}

/// Two layers over one store do not see each other's writes: an address that
/// only the first layer wrote reads, through the second, as the store holds it;
/// and every read through the second gives its own write, else the store's.
pub proof fn lemma_sibling_layers_isolated(
    store: Map<Seq<u8>, AccountRecord>,
    first: Seq<([u8; 32], AccountRecord)>,
    second: Seq<([u8; 32], AccountRecord)>,
    address: Seq<u8>,
)
    ensures
        writes_map(first).contains_key(address) && !writes_map(second).contains_key(address)
            ==> read_through(writes_map(second), store, address) == read_through(Map::empty(), store, address),
        read_through(writes_map(second), store, address) == (if writes_map(second).contains_key(address) {
            Some(writes_map(second)[address])
        } else {
            read_through(Map::empty(), store, address)
        }),
{
}

/// A layer dropped without merging leaves the store as it was; merging makes
/// the store read as the layer did.
pub proof fn lemma_merge_commits_layer(
    store: Map<Seq<u8>, AccountRecord>,
    layer: Map<Seq<u8>, AccountRecord>,
    address: Seq<u8>,
)
    ensures
        read_through(Map::empty(), store.union_prefer_right(layer), address) == read_through(layer, store, address),
{
}

} // verus!
