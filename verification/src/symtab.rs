//! The symbol table: declared names (labels and constants share one
//! namespace) mapped to their 16-bit values, declaration spans and a usage
//! flag. Declaration inserts only if the name is absent — a duplicate is
//! reported with both spans, never silently overwritten — and a successful
//! lookup marks the symbol used.

use crate::arch::MAX_LOAD_VALUE;
use crate::diag::Span;
use vstd::prelude::*;

verus! {

/// What the table records about one declared name.
#[derive(Clone, Copy, Debug, PartialEq, Eq, Structural)]
pub struct ColType {
    /// The symbol's resolved 16-bit value: a label's address or a constant's
    /// literal.
    pub val: u16,
    /// Where the name was declared.
    pub span: Span,
    /// Whether the symbol has been successfully resolved at least once.
    pub visited: bool,
}

/// The index of the first entry carrying `name`, or the length when no
/// entry does.
pub open spec fn tab_find(t: Seq<(Seq<char>, ColType)>, name: Seq<char>) -> int
    decreases t.len(),
{
    if t.len() == 0 {
        0
    } else if t[0].0 == name {
        0
    } else {
        1 + tab_find(t.drop_first(), name)
    }
}

/// Whether some entry carries `name`.
pub open spec fn tab_contains(t: Seq<(Seq<char>, ColType)>, name: Seq<char>) -> bool {
    tab_find(t, name) < t.len()
}

/// The record of the first entry carrying `name`.
pub open spec fn tab_get(t: Seq<(Seq<char>, ColType)>, name: Seq<char>) -> ColType {
    t[tab_find(t, name)].1
}

/// The table with the first entry carrying `name` marked used.
pub open spec fn tab_mark(t: Seq<(Seq<char>, ColType)>, name: Seq<char>) -> Seq<
    (Seq<char>, ColType),
> {
    let k = tab_find(t, name);
    t.update(k, (t[k].0, ColType { val: t[k].1.val, span: t[k].1.span, visited: true }))
}

/// Every value the table holds fits the loadable range.
pub open spec fn tab_vals_ok(t: Seq<(Seq<char>, ColType)>) -> bool {
    forall|k: int| 0 <= k < t.len() ==> (#[trigger] t[k]).1.val <= MAX_LOAD_VALUE
}

/// Name uniqueness: no two entries carry the same name.
pub open spec fn tab_wf(t: Seq<(Seq<char>, ColType)>) -> bool {
    forall|k1: int, k2: int| 0 <= k1 < k2 < t.len() ==> (#[trigger] t[k1]).0 != (#[trigger] t[k2]).0
}

/// Marking a symbol used moves no entry, renames none, and changes no
/// value: uniqueness and the value bound survive.
pub proof fn lemma_tab_mark_props(t: Seq<(Seq<char>, ColType)>, name: Seq<char>)
    requires
        tab_contains(t, name),
    ensures
        tab_mark(t, name).len() == t.len(),
        forall|k: int| 0 <= k < t.len() ==> (#[trigger] tab_mark(t, name)[k]).0 == t[k].0,
        forall|k: int| 0 <= k < t.len() ==> (#[trigger] tab_mark(t, name)[k]).1.val == t[k].1.val,
        forall|k: int| 0 <= k < t.len() ==> (#[trigger] tab_mark(t, name)[k]).1.span == t[k].1.span,
        tab_wf(t) ==> tab_wf(tab_mark(t, name)),
        tab_vals_ok(t) ==> tab_vals_ok(tab_mark(t, name)),
{
    lemma_tab_find(t, name);
}

pub proof fn lemma_tab_find(t: Seq<(Seq<char>, ColType)>, name: Seq<char>)
    ensures
        0 <= tab_find(t, name) <= t.len(),
        tab_find(t, name) < t.len() ==> t[tab_find(t, name)].0 == name,
        forall|k: int| 0 <= k < tab_find(t, name) ==> (#[trigger] t[k]).0 != name,
    decreases t.len(),
{
    if t.len() > 0 && t[0].0 != name {
        lemma_tab_find(t.drop_first(), name);
        assert forall|k: int| 0 <= k < tab_find(t, name) implies (#[trigger] t[k]).0 != name by {
            if k > 0 {
                assert(t.drop_first()[k - 1] == t[k]);
            }
        }
    }
}

/// Pins `tab_find` from a scan that found no earlier entry with the name.
pub proof fn lemma_tab_find_at(t: Seq<(Seq<char>, ColType)>, name: Seq<char>, i: int)
    requires
        0 <= i <= t.len(),
        forall|k: int| 0 <= k < i ==> (#[trigger] t[k]).0 != name,
        i < t.len() ==> t[i].0 == name,
    ensures
        tab_find(t, name) == i,
    decreases t.len(),
{
    if t.len() == 0 {
    } else if i == 0 {
    } else {
        assert(t[0].0 != name);
        assert(forall|k: int| 0 <= k < i - 1 ==> t.drop_first()[k] == t[k + 1]);
        lemma_tab_find_at(t.drop_first(), name, i - 1);
    }
}

/// The `(name, span)` pairs of the entries never marked used, in
/// declaration order.
pub open spec fn unused_list(t: Seq<(Seq<char>, ColType)>) -> Seq<(Seq<char>, Span)>
    decreases t.len(),
{
    if t.len() == 0 {
        Seq::empty()
    } else {
        unused_list(t.drop_last()) + (if !t.last().1.visited {
            seq![(t.last().0, t.last().1.span)]
        } else {
            Seq::empty()
        })
    }
}

/// The symbol table: names are unique across both symbol kinds.
#[derive(Debug)]
pub struct SymbolTable {
    entries: Vec<(String, ColType)>,
}

impl View for SymbolTable {
    type V = Seq<(Seq<char>, ColType)>;

    closed spec fn view(&self) -> Seq<(Seq<char>, ColType)> {
        self.entries@.map(|k: int, e: (String, ColType)| (e.0@, e.1))
    }
}

impl SymbolTable {
    /// Name uniqueness: no two entries carry the same name.
    pub open spec fn wf(&self) -> bool {
        tab_wf(self@)
    }

    /// An empty table.
    pub fn new() -> (r: SymbolTable)
        ensures
            r@ == Seq::<(Seq<char>, ColType)>::empty(),
            r.wf(),
    {
        let r = SymbolTable { entries: Vec::new() };
        proof {
            assert(r@ =~= Seq::<(Seq<char>, ColType)>::empty());
        }
        r
    }

    /// The index of the entry carrying `name`, or the table's length.
    fn find(&self, name: &String) -> (r: usize)
        ensures
            r == tab_find(self@, name@),
    {
        let ghost t = self@;
        let n = self.entries.len();
        let mut i: usize = 0;
        while i < n
            invariant
                0 <= i <= n,
                n == t.len(),
                t == self@,
                forall|k: int| 0 <= k < i ==> (#[trigger] t[k]).0 != name@,
            decreases n - i,
        {
            if self.entries[i].0 == *name {
                proof {
                    lemma_tab_find_at(t, name@, i as int);
                }
                return i;
            }
            i += 1;
        }
        proof {
            lemma_tab_find_at(t, name@, n as int);
        }
        n
    }

    /// Looks a name up without touching the usage flag.
    pub fn get(&self, name: &String) -> (r: Option<ColType>)
        ensures
            tab_contains(self@, name@) ==> r == Some(tab_get(self@, name@)),
            !tab_contains(self@, name@) ==> r is None,
    {
        let k = self.find(name);
        if k < self.entries.len() {
            Some(self.entries[k].1)
        } else {
            None
        }
    }

    /// How many names are declared.
    pub fn len(&self) -> (r: usize)
        ensures
            r == self@.len(),
    {
        self.entries.len()
    }

    /// Declares a name: inserts only if absent; on a conflict nothing
    /// changes and the span of the original declaration comes back.
    pub fn declare(&mut self, name: &String, val: u16, span: Span) -> (r: Result<(), Span>)
        ensures
            !tab_contains(old(self)@, name@) ==> {
                &&& r is Ok
                &&& final(self)@ == old(self)@.push(
                    (name@, ColType { val, span, visited: false }),
                )
            },
            tab_contains(old(self)@, name@) ==> {
                &&& r == Err::<(), Span>(tab_get(old(self)@, name@).span)
                &&& final(self)@ == old(self)@
            },
            old(self).wf() ==> final(self).wf(),
    {
        let ghost t = old(self)@;
        let k = self.find(name);
        if k < self.entries.len() {
            let prev = self.entries[k].1;
            proof {
                lemma_tab_find(t, name@);
            }
            Err(prev.span)
        } else {
            proof {
                lemma_tab_find(t, name@);
            }
            let entry = (name.clone(), ColType { val, span, visited: false });
            self.entries.push(entry);
            proof {
                assert(final(self)@ =~= t.push((name@, ColType { val, span, visited: false })));
                if old(self).wf() {
                    let t2 = final(self)@;
                    assert forall|k1: int, k2: int| 0 <= k1 < k2 < t2.len() implies (
                    #[trigger] t2[k1]).0 != (#[trigger] t2[k2]).0 by {
                        assert(t2[k1] == t[k1]);
                        if k2 == t2.len() - 1 {
                            assert(t[k1].0 != name@);
                        } else {
                            assert(t2[k2] == t[k2]);
                        }
                    }
                }
            }
            Ok(())
        }
    }

    /// Resolves a name: a successful lookup returns its value and marks the
    /// symbol used; an unknown name changes nothing.
    pub fn resolve(&mut self, name: &String) -> (r: Option<u16>)
        ensures
            tab_contains(old(self)@, name@) ==> {
                &&& r == Some(tab_get(old(self)@, name@).val)
                &&& final(self)@ == tab_mark(old(self)@, name@)
            },
            !tab_contains(old(self)@, name@) ==> {
                &&& r is None
                &&& final(self)@ == old(self)@
            },
    {
        let ghost t = old(self)@;
        let k = self.find(name);
        if k < self.entries.len() {
            let mut e = self.entries.remove(k);
            let val = e.1.val;
            e.1.visited = true;
            self.entries.insert(k, e);
            proof {
                lemma_tab_find(t, name@);
                assert(final(self)@ =~= tab_mark(t, name@));
            }
            Some(val)
        } else {
            None
        }
    }

    /// Every declared-but-never-resolved symbol, with its declaration span,
    /// in declaration order.
    pub fn unused_symbols(&self) -> (r: Vec<(String, Span)>)
        ensures
            r@.map(|k: int, e: (String, Span)| (e.0@, e.1)) == unused_list(self@),
    {
        let ghost t = self@;
        let n = self.entries.len();
        let mut r: Vec<(String, Span)> = Vec::new();
        let mut i: usize = 0;
        while i < n
            invariant
                0 <= i <= n,
                n == t.len(),
                t == self@,
                r@.map(|k: int, e: (String, Span)| (e.0@, e.1)) =~= unused_list(
                    t.take(i as int),
                ),
            decreases n - i,
        {
            let ghost prev = r@;
            if !self.entries[i].1.visited {
                let e = &self.entries[i];
                r.push((e.0.clone(), e.1.span));
            }
            i += 1;
            proof {
                assert(t.take(i as int).drop_last() =~= t.take(i - 1));
                assert(t.take(i as int).last() == t[i - 1]);
                assert(r@.map(|k: int, e: (String, Span)| (e.0@, e.1)) =~= unused_list(
                    t.take(i as int),
                ));
            }
        }
        proof {
            assert(t.take(n as int) =~= t);
        }
        r
    }
}

} // verus!
