//! A list of entries keyed by currency code in which no code occurs twice.
use crate::text::same_text;
use vstd::prelude::*;

verus! {

/// One currency code with what is stored for it.
#[derive(Debug)]
pub struct Entry<V> {
    pub code: String,
    pub value: V,
}

/// No code occurs twice in `es`.
pub open spec fn codes_distinct<V>(es: Seq<Entry<V>>) -> bool {
    forall|i: int, j: int| 0 <= i < j < es.len() ==> es[i].code@ != es[j].code@
}

/// Some entry of `es` carries `code`.
pub open spec fn holds_code<V>(es: Seq<Entry<V>>, code: Seq<char>) -> bool {
    exists|i: int| 0 <= i < es.len() && es[i].code@ == code
}

/// An index at which `es` carries `code`.
pub open spec fn position_of<V>(es: Seq<Entry<V>>, code: Seq<char>) -> int {
    choose|i: int| 0 <= i < es.len() && es[i].code@ == code
}

/// The mapping that a list of entries with distinct codes stands for.
pub open spec fn table_of<V>(es: Seq<Entry<V>>) -> Map<Seq<char>, V> {
    Map::new(|code: Seq<char>| holds_code(es, code), |code: Seq<char>| es[position_of(es, code)].value)
}

/// In a list with distinct codes, the entry at `i` is the one its code maps to.
pub proof fn lemma_table_entry<V>(es: Seq<Entry<V>>, i: int)
    requires
        codes_distinct(es),
        0 <= i < es.len(),
    ensures
        table_of(es).contains_key(es[i].code@),
        table_of(es)[es[i].code@] == es[i].value,
        position_of(es, es[i].code@) == i,
{
    let code = es[i].code@;
    assert(holds_code(es, code));
    let p = position_of(es, code);
    assert(0 <= p < es.len() && es[p].code@ == code);
    if p < i {
        assert(es[p].code@ != es[i].code@);
    } else if i < p {
        assert(es[i].code@ != es[p].code@);
    }
}

/// Appending an entry with a new code adds exactly that pair to the mapping.
pub proof fn lemma_table_push<V>(es: Seq<Entry<V>>, e: Entry<V>)
    requires
        codes_distinct(es),
        !holds_code(es, e.code@),
    ensures
        codes_distinct(es.push(e)),
        table_of(es.push(e)) == table_of(es).insert(e.code@, e.value),
{
    let es2 = es.push(e);
    assert(codes_distinct(es2)) by {
        assert forall|i: int, j: int| 0 <= i < j < es2.len() implies es2[i].code@ != es2[j].code@ by {
            if j < es.len() {
                assert(es[i].code@ != es[j].code@);
            } else {
                if es2[i].code@ == es2[j].code@ {
                    assert(es[i].code@ == e.code@);
                    assert(holds_code(es, e.code@));
                }
            }
        }
    }
    let m1 = table_of(es2);
    let m2 = table_of(es).insert(e.code@, e.value);
    assert forall|code: Seq<char>| m1.contains_key(code) <==> m2.contains_key(code) by {
        if m1.contains_key(code) {
            let i = choose|i: int| 0 <= i < es2.len() && es2[i].code@ == code;
            if i < es.len() {
                assert(es[i].code@ == code);
                assert(holds_code(es, code));
            }
        }
        if m2.contains_key(code) {
            if code == e.code@ {
                assert(es2[es.len() as int].code@ == code);
            } else {
                let i = choose|i: int| 0 <= i < es.len() && es[i].code@ == code;
                assert(es2[i].code@ == code);
            }
        }
    }
    assert forall|code: Seq<char>| m1.contains_key(code) implies m1[code] == m2[code] by {
        let i = position_of(es2, code);
        assert(0 <= i < es2.len() && es2[i].code@ == code);
        lemma_table_entry(es2, i);
        if i < es.len() {
            assert(es[i].code@ == code);
            lemma_table_entry(es, i);
        }
    }
    assert(m1 =~= m2);
}

/// A list with distinct codes stands for a finite mapping with one pair for
/// each of its entries.
pub proof fn lemma_table_size<V>(es: Seq<Entry<V>>)
    requires
        codes_distinct(es),
    ensures
        table_of(es).dom().finite(),
        table_of(es).dom().len() == es.len(),
    decreases es.len(),
{
    if es.len() == 0 {
        assert(table_of(es).dom() =~= Set::<Seq<char>>::empty());
    } else {
        let front = es.drop_last();
        let last = es.last();
        assert(codes_distinct(front));
        if holds_code(front, last.code@) {
            let j = choose|j: int| 0 <= j < front.len() && front[j].code@ == last.code@;
            assert(es[j].code@ != es[es.len() - 1].code@);
        }
        lemma_table_size(front);
        lemma_table_push(front, last);
        assert(front.push(last) =~= es);
        assert(table_of(es).dom() =~= table_of(front).dom().insert(last.code@));
    }
}

/// A mapping from currency code to value in which no code occurs twice.
/// Entries keep the order in which they were added.
#[derive(Debug)]
pub struct CodeTable<V> {
    entries: Vec<Entry<V>>,
}

impl<V> View for CodeTable<V> {
    type V = Map<Seq<char>, V>;

    closed spec fn view(&self) -> Map<Seq<char>, V> {
        table_of(self.entries@)
    }
}

impl<V> CodeTable<V> {
    #[verifier::type_invariant]
    spec fn distinct(&self) -> bool {
        codes_distinct(self.entries@)
    }

    /// The entries in the order in which they were added.
    pub closed spec fn listing(&self) -> Seq<Entry<V>> {
        self.entries@
    }

    /// The empty table.
    pub fn new() -> (t: Self)
        ensures
            t@ == Map::<Seq<char>, V>::empty(),
            t.listing().len() == 0,
    {
        let t = CodeTable { entries: Vec::new() };
        assert(t@ =~= Map::<Seq<char>, V>::empty());
        t
    }

    /// The number of currencies in the table.
    pub fn len(&self) -> (n: usize)
        ensures
            self@.dom().finite(),
            n == self@.len(),
            n == self.listing().len(),
    {
        proof {
            use_type_invariant(self);
            lemma_table_size(self.entries@);
        }
        self.entries.len()
    }

    /// The entries in the order in which they were added: their codes are
    /// distinct, and together they are exactly the pairs of the mapping.
    pub fn entries(&self) -> (es: &Vec<Entry<V>>)
        ensures
            es@ == self.listing(),
            codes_distinct(es@),
            self@ == table_of(es@),
    {
        proof {
            use_type_invariant(self);
        }
        &self.entries
    }

    /// Where `code` stands in the listing, if it is in the table.
    fn find(&self, code: &str) -> (at: Option<usize>)
        ensures
            match at {
                Some(i) => i < self.entries@.len() && self.entries@[i as int].code@ == code@,
                None => !holds_code(self.entries@, code@),
            },
    {
        let n = self.entries.len();
        let mut i: usize = 0;
        while i < n
            invariant
                n == self.entries@.len(),
                i <= n,
                forall|j: int| 0 <= j < i ==> self.entries@[j].code@ != code@,
            decreases n - i,
        {
            if same_text(self.entries[i].code.as_str(), code) {
                return Some(i);
            }
            i += 1;
        }
        None
    }

    /// What is stored for `code`, if anything.
    pub fn get(&self, code: &str) -> (r: Option<&V>)
        ensures
            r == (if self@.contains_key(code@) {
                Some(&self@[code@])
            } else {
                None
            }),
    {
        proof {
            use_type_invariant(self);
        }
        match self.find(code) {
            Some(i) => {
                proof {
                    lemma_table_entry(self.entries@, i as int);
                }
                Some(&self.entries[i].value)
            },
            None => None,
        }
    }

    /// Whether the table holds a value for `code`.
    pub fn contains(&self, code: &str) -> (b: bool)
        ensures
            b == self@.contains_key(code@),
    {
        self.find(code).is_some()
    }

    /// Stores `value` for `code` unless the table already holds one for it,
    /// and says whether it was stored.
    pub fn insert_if_absent(&mut self, code: String, value: V) -> (stored: bool)
        ensures
            stored == !old(self)@.contains_key(code@),
            final(self)@ == (if stored {
                old(self)@.insert(code@, value)
            } else {
                old(self)@
            }),
            final(self).listing() == (if stored {
                old(self).listing().push(Entry { code, value })
            } else {
                old(self).listing()
            }),
    {
        proof {
            use_type_invariant(&*self);
        }
        if self.find(code.as_str()).is_some() {
            false
        } else {
            let entry = Entry { code, value };
            proof {
                lemma_table_push(self.entries@, entry);
            }
            // The list leaves the table while it grows, so that the table
            // never holds a list that is not yet checked.
            let mut entries: Vec<Entry<V>> = Vec::new();
            core::mem::swap(&mut self.entries, &mut entries);
            entries.push(entry);
            self.entries = entries;
            true
        }
    }
}

/// The entries of `other`, in order, whose code `have` lacks.
pub open spec fn missing_from<V>(other: Seq<Entry<V>>, have: Map<Seq<char>, V>) -> Seq<Entry<V>>
    decreases other.len(),
{
    if other.len() == 0 {
        Seq::empty()
    } else {
        let earlier = missing_from(other.drop_last(), have);
        if have.contains_key(other.last().code@) {
            earlier
        } else {
            earlier.push(other.last())
        }
    }
}

impl<V: Copy> CodeTable<V> {
    /// Takes from `other` every currency that this table lacks and keeps its
    /// own value wherever both have one. What it takes is listed after its
    /// own entries, in the order of `other`.
    pub fn fill_gaps(&mut self, other: &CodeTable<V>)
        ensures
            final(self)@ == other@.union_prefer_right(old(self)@),
            final(self).listing() == old(self).listing() + missing_from(
                other.listing(),
                old(self)@,
            ),
    {
        let ghost before = self@;
        let ghost listed = self.listing();
        let n = other.entries.len();
        let mut i: usize = 0;
        proof {
            use_type_invariant(other);
            assert(table_of(other.entries@.take(0)) =~= Map::<Seq<char>, V>::empty());
            assert(self@ =~= table_of(other.entries@.take(0)).union_prefer_right(before));
            assert(self.listing() =~= listed + missing_from(other.entries@.take(0), before));
        }
        while i < n
            invariant
                n == other.entries@.len(),
                i <= n,
                codes_distinct(other.entries@),
                self@ == table_of(other.entries@.take(i as int)).union_prefer_right(before),
                self.listing() == listed + missing_from(other.entries@.take(i as int), before),
            decreases n - i,
        {
            let entry = &other.entries[i];
            let ghost seen = other.entries@.take(i as int);
            proof {
                let upto = other.entries@.take(i + 1);
                assert(upto =~= seen.push(*entry));
                assert(upto.drop_last() =~= seen);
                assert(codes_distinct(seen));
                if holds_code(seen, entry.code@) {
                    let j = choose|j: int| 0 <= j < seen.len() && seen[j].code@ == entry.code@;
                    assert(other.entries@[j].code@ != other.entries@[i as int].code@);
                }
                lemma_table_push(seen, *entry);
            }
            self.insert_if_absent(entry.code.clone(), entry.value);
            proof {
                let grown = table_of(seen).insert(entry.code@, entry.value);
                assert(self@ =~= grown.union_prefer_right(before));
                assert(self.listing() =~= listed + missing_from(
                    other.entries@.take(i + 1),
                    before,
                ));
            }
            i += 1;
        }
        proof {
            assert(other.entries@.take(n as int) =~= other.entries@);
        }
    }
}

impl<V: Copy> Clone for CodeTable<V> {
    fn clone(&self) -> (t: Self)
        ensures
            t@ == self@,
            t.listing() == self.listing(),
    {
        proof {
            use_type_invariant(self);
        }
        let n = self.entries.len();
        let mut entries: Vec<Entry<V>> = Vec::with_capacity(n);
        let mut i: usize = 0;
        while i < n
            invariant
                n == self.entries@.len(),
                i <= n,
                entries@ == self.entries@.take(i as int),
            decreases n - i,
        {
            let entry = &self.entries[i];
            entries.push(Entry { code: entry.code.clone(), value: entry.value });
            proof {
                assert(entries@ =~= self.entries@.take(i + 1));
            }
            i += 1;
        }
        proof {
            assert(self.entries@.take(n as int) =~= self.entries@);
        }
        CodeTable { entries }
    }
}

} // verus!
