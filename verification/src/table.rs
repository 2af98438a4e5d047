use vstd::prelude::*;
use crate::category::Category;
use crate::currency::Currency;

verus! {

/// The identity of one directed route for one vehicle class:
/// (normalized entry station, normalized exit station, category).
/// Direction matters; the symmetric loaders insert both directions
/// themselves.
pub struct PriceKey {
    pub entry: String,
    pub exit: String,
    pub category: Category,
}

/// The mathematical identity of a key.
pub type KeyModel = (Seq<char>, Seq<char>, Category);

impl PriceKey {
    pub open spec fn model(self) -> KeyModel {
        (self.entry@, self.exit@, self.category)
    }

    pub fn duplicate(&self) -> (r: PriceKey)
        ensures
            r.model() == self.model(),
    {
        PriceKey {
            entry: self.entry.clone(),
            exit: self.exit.clone(),
            category: self.category,
        }
    }
}

/// A stored price: the amount, the vintage year it was published
/// for, and the source file it came from.  The source exists only
/// for diagnostics, never for lookup.
pub struct Price {
    pub price: Currency,
    pub year: u16,
    pub file: String,
}

/// The mathematical content of a stored price: (amount, year, source
/// file text).
pub type PriceModel = (Currency, u16, Seq<char>);

impl Price {
    pub open spec fn model(self) -> PriceModel {
        (self.price, self.year, self.file@)
    }

    pub fn duplicate(&self) -> (r: Price)
        ensures
            r.model() == self.model(),
    {
        Price { price: self.price, year: self.year, file: self.file.clone() }
    }
}

/// One insertion under the recency rule: an existing strictly newer
/// price survives; anything else is replaced by the incoming price.
pub open spec fn table_insert(m: Map<KeyModel, PriceModel>, k: KeyModel, p: PriceModel) -> Map<
    KeyModel,
    PriceModel,
> {
    if m.contains_key(k) && m[k].1 > p.1 {
        m
    } else {
        m.insert(k, p)
    }
}

/// Whether an insertion under the recency rule takes effect.
pub open spec fn insert_applies(m: Map<KeyModel, PriceModel>, k: KeyModel, year: u16) -> bool {
    !(m.contains_key(k) && m[k].1 > year)
}

/// The map denoted by an association list, later entries shadowing
/// earlier ones.
pub open spec fn entries_map(s: Seq<(PriceKey, Price)>) -> Map<KeyModel, PriceModel>
    decreases s.len(),
{
    if s.len() == 0 {
        Map::empty()
    } else {
        entries_map(s.drop_last()).insert(s.last().0.model(), s.last().1.model())
    }
}

/// The merged, de-duplicated price table: the authoritative mapping
/// from route key to most recent known price.
pub struct PriceTable {
    entries: Vec<(PriceKey, Price)>,
}

impl View for PriceTable {
    type V = Map<KeyModel, PriceModel>;

    closed spec fn view(&self) -> Map<KeyModel, PriceModel> {
        entries_map(self.entries@)
    }
}

proof fn lemma_entries_map_found(s: Seq<(PriceKey, Price)>, i: int)
    requires
        0 <= i < s.len(),
        forall|j: int|
            #![trigger s[j]]
            0 <= j < s.len() && j != i ==> s[j].0.model() != s[i].0.model(),
    ensures
        entries_map(s).contains_key(s[i].0.model()),
        entries_map(s)[s[i].0.model()] == s[i].1.model(),
    decreases s.len(),
{
    if i == s.len() - 1 {
    } else {
        assert(s.drop_last()[i] == s[i]);
        lemma_entries_map_found(s.drop_last(), i);
        assert(s.last().0.model() != s[i].0.model());
    }
}

proof fn lemma_entries_map_absent(s: Seq<(PriceKey, Price)>, k: KeyModel)
    requires
        forall|j: int| #![trigger s[j]] 0 <= j < s.len() ==> s[j].0.model() != k,
    ensures
        !entries_map(s).contains_key(k),
    decreases s.len(),
{
    if s.len() > 0 {
        assert(forall|j: int|
            #![trigger s.drop_last()[j]]
            0 <= j < s.len() - 1 ==> s.drop_last()[j] == s[j]);
        lemma_entries_map_absent(s.drop_last(), k);
    }
}

proof fn lemma_entries_map_update(s: Seq<(PriceKey, Price)>, i: int, e: (PriceKey, Price))
    requires
        0 <= i < s.len(),
        e.0.model() == s[i].0.model(),
        forall|j: int|
            #![trigger s[j]]
            0 <= j < s.len() && j != i ==> s[j].0.model() != s[i].0.model(),
    ensures
        entries_map(s.update(i, e)) =~= entries_map(s).insert(e.0.model(), e.1.model()),
    decreases s.len(),
{
    let t = s.update(i, e);
    if i == s.len() - 1 {
        assert(t.drop_last() =~= s.drop_last());
        assert(t.last() == e);
    } else {
        assert(t.drop_last() =~= s.drop_last().update(i, e));
        assert(s.drop_last()[i] == s[i]);
        assert(forall|j: int|
            #![trigger s.drop_last()[j]]
            0 <= j < s.len() - 1 ==> s.drop_last()[j] == s[j]);
        lemma_entries_map_update(s.drop_last(), i, e);
        assert(t.last() == s.last());
        assert(s.last().0.model() != e.0.model());
    }
}

impl PriceTable {
    /// Keys are unique: the table is a genuine mapping.
    pub closed spec fn wf(self) -> bool {
        forall|i: int, j: int|
            #![trigger self.entries@[i], self.entries@[j]]
            0 <= i < self.entries@.len() && 0 <= j < self.entries@.len() && i != j
                ==> self.entries@[i].0.model() != self.entries@[j].0.model()
    }

    /// How many routes the table holds.
    pub closed spec fn spec_len(self) -> nat {
        self.entries@.len()
    }

    /// The stored entries in insertion order; the substring queries
    /// report in this order.
    pub closed spec fn entry_seq(self) -> Seq<(KeyModel, PriceModel)> {
        self.entries@.map_values(|e: (PriceKey, Price)| (e.0.model(), e.1.model()))
    }

    pub fn new() -> (r: PriceTable)
        ensures
            r.wf(),
            r@ =~= Map::<KeyModel, PriceModel>::empty(),
            r.spec_len() == 0,
            r.entry_seq() =~= Seq::<(KeyModel, PriceModel)>::empty(),
    {
        PriceTable { entries: Vec::new() }
    }

    pub fn len(&self) -> (r: usize)
        ensures
            r == self.spec_len(),
            r == self.entry_seq().len(),
    {
        self.entries.len()
    }

    /// The position holding `key`, if any.
    fn find(&self, key: &PriceKey) -> (r: Option<usize>)
        ensures
            match r {
                Some(i) => i < self.entries@.len() && self.entries@[i as int].0.model()
                    == key.model(),
                None => forall|j: int|
                    #![trigger self.entries@[j]]
                    0 <= j < self.entries@.len() ==> self.entries@[j].0.model() != key.model(),
            },
    {
        let mut i: usize = 0;
        while i < self.entries.len()
            invariant
                0 <= i <= self.entries@.len(),
                forall|j: int|
                    #![trigger self.entries@[j]]
                    0 <= j < i ==> self.entries@[j].0.model() != key.model(),
            decreases self.entries@.len() - i,
        {
            let e = &self.entries[i];
            if e.0.entry == key.entry && e.0.exit == key.exit && e.0.category == key.category {
                return Some(i);
            }
            i += 1;
        }
        None
    }

    /// The key of the stored entry at position `i`.
    pub fn key_at(&self, i: usize) -> (r: &PriceKey)
        requires
            i < self.spec_len(),
        ensures
            r.model() == self.entry_seq()[i as int].0,
    {
        &self.entries[i].0
    }

    /// The price of the stored entry at position `i`.
    pub fn price_at(&self, i: usize) -> (r: &Price)
        requires
            i < self.spec_len(),
        ensures
            r.model() == self.entry_seq()[i as int].1,
    {
        &self.entries[i].1
    }

    /// Looks a route up.  Returns the stored price exactly when the
    /// key is present.
    pub fn get(&self, key: &PriceKey) -> (r: Option<&Price>)
        requires
            self.wf(),
        ensures
            match r {
                Some(p) => self@.contains_key(key.model()) && p.model() == self@[key.model()],
                None => !self@.contains_key(key.model()),
            },
    {
        match self.find(key) {
            Some(i) => {
                proof {
                    lemma_entries_map_found(self.entries@, i as int);
                }
                Some(&self.entries[i].1)
            },
            None => {
                proof {
                    lemma_entries_map_absent(self.entries@, key.model());
                }
                None
            },
        }
    }

    /// Inserts under the recency rule of the price grid: a missing
    /// key is added; an existing entry is replaced unless its year is
    /// strictly greater than the incoming one.  Returns whether the
    /// incoming price was stored.
    pub fn insert(&mut self, key: PriceKey, price: Price) -> (applied: bool)
        requires
            old(self).wf(),
        ensures
            final(self).wf(),
            applied == insert_applies(old(self)@, key.model(), price.year),
            final(self)@ =~= table_insert(old(self)@, key.model(), price.model()),
            applied && old(self)@.contains_key(key.model()) ==> final(self).spec_len() == old(
                self,
            ).spec_len(),
            applied && !old(self)@.contains_key(key.model()) ==> final(self).spec_len() == old(
                self,
            ).spec_len() + 1,
            !applied ==> *final(self) == *old(self),
    {
        match self.find(&key) {
            Some(i) => {
                proof {
                    lemma_entries_map_found(self.entries@, i as int);
                }
                if self.entries[i].1.year > price.year {
                    return false;
                }
                let ghost pre = self.entries@;
                let ghost km = key.model();
                let ghost pm = price.model();
                let slot = vstd::std_specs::vec::vec_index_mut(&mut self.entries, i);
                *slot = (key, price);
                proof {
                    let e = self.entries@[i as int];
                    assert(self.entries@ == pre.update(i as int, e));
                    assert(e.0.model() == km);
                    assert(e.1.model() == pm);
                    lemma_entries_map_update(pre, i as int, e);
                    assert forall|a: int, b: int|
                        0 <= a < self.entries@.len() && 0 <= b < self.entries@.len() && a
                            != b implies #[trigger] self.entries@[a].0.model()
                        != #[trigger] self.entries@[b].0.model() by {
                        assert(pre[a].0.model() != pre[b].0.model());
                    }
                }
                true
            },
            None => {
                proof {
                    lemma_entries_map_absent(self.entries@, key.model());
                }
                self.entries.push((key, price));
                proof {
                    assert(self.entries@.drop_last() =~= old(self).entries@);
                }
                true
            },
        }
    }
}

// ===== Laws of the recency rule =====

/// Inserting the same (key, price, year) twice leaves the table
/// exactly as one insertion leaves it: the mapping, and with it the
/// table size, is unchanged by the repetition.
pub proof fn lemma_insert_idempotent(m: Map<KeyModel, PriceModel>, k: KeyModel, p: PriceModel)
    ensures
        table_insert(table_insert(m, k, p), k, p) =~= table_insert(m, k, p),
{
    let m1 = table_insert(m, k, p);
    if m.contains_key(k) && m[k].1 > p.1 {
    } else {
        assert(m1 == m.insert(k, p));
        assert(m1[k] == p);
    }
}

/// Recency precedence: starting from a table without the key, two
/// insertions with years `y1 < y2` leave the `y2` price, whichever
/// order they arrive in.
pub proof fn lemma_insert_recency(
    m: Map<KeyModel, PriceModel>,
    k: KeyModel,
    p1: PriceModel,
    p2: PriceModel,
)
    requires
        !m.contains_key(k),
        p1.1 < p2.1,
    ensures
        table_insert(table_insert(m, k, p1), k, p2)[k] == p2,
        table_insert(table_insert(m, k, p2), k, p1)[k] == p2,
{
}

/// Equal-year tie break: with the same year on both sides, the later
/// insertion wins.
pub proof fn lemma_insert_equal_year(
    m: Map<KeyModel, PriceModel>,
    k: KeyModel,
    p1: PriceModel,
    p2: PriceModel,
)
    requires
        !m.contains_key(k),
        p1.1 == p2.1,
    ensures
        table_insert(table_insert(m, k, p1), k, p2)[k] == p2,
        table_insert(table_insert(m, k, p2), k, p1)[k] == p1,
{
}

/// The symmetric pair insertion of the triangle loader: when neither
/// directed key holds a strictly newer price, inserting the same
/// price under (i, j) and then (j, i) leaves both directions present
/// with that equal value.
pub proof fn lemma_insert_pair_symmetric(
    m: Map<KeyModel, PriceModel>,
    e: Seq<char>,
    x: Seq<char>,
    cat: Category,
    p: PriceModel,
)
    requires
        !m.contains_key((e, x, cat)) || m[(e, x, cat)].1 <= p.1,
        !m.contains_key((x, e, cat)) || m[(x, e, cat)].1 <= p.1,
    ensures
        ({
            let m2 = table_insert(table_insert(m, (e, x, cat), p), (x, e, cat), p);
            &&& m2.contains_key((e, x, cat))
            &&& m2.contains_key((x, e, cat))
            &&& m2[(e, x, cat)] == p
            &&& m2[(x, e, cat)] == p
        }),
{
    let m1 = table_insert(m, (e, x, cat), p);
    assert(m1 == m.insert((e, x, cat), p));
}

} // verus!
