use vstd::prelude::*;
use vstd::arithmetic::div_mod::{
    lemma_add_mod_noop, lemma_mod_add_multiples_vanish, lemma_mod_bound, lemma_mod_self_0,
    lemma_small_mod,
};

verus! {

/// One dated journal record, backed one-to-one by a storage file.
/// The date string (format `YYYY-MM-DD`) doubles as the unique
/// identifier and the sort key; `size` is the byte length of the
/// backing file and `content` its full text.
pub struct JournalEntry {
    pub date: String,
    pub size: u64,
    pub content: String,
}

/// Mathematical model of a `JournalEntry`: the same record over
/// sequences of characters.
pub ghost struct EntryModel {
    pub date: Seq<char>,
    pub size: u64,
    pub content: Seq<char>,
}

impl View for JournalEntry {
    type V = EntryModel;

    open spec fn view(&self) -> EntryModel {
        EntryModel { date: self.date@, size: self.size, content: self.content@ }
    }
}

/// The selection index that `next` produces on a list of length `len`.
pub open spec fn nav_next(len: nat, sel: Option<usize>) -> Option<usize> {
    if len == 0 {
        sel
    } else {
        match sel {
            None => Some(0usize),
            Some(i) => Some((((i + 1) % (len as int)) as usize)),
        }
    }
}

/// The selection index that `previous` produces on a list of length `len`.
pub open spec fn nav_previous(len: nat, sel: Option<usize>) -> Option<usize> {
    if len == 0 {
        sel
    } else {
        match sel {
            None => Some(0usize),
            Some(i) => Some((((i + len - 1) % (len as int)) as usize)),
        }
    }
}

/// A selection is valid for a list of length `len` when it is either
/// absent or a position inside the list.
pub open spec fn nav_valid(len: nat, sel: Option<usize>) -> bool {
    match sel {
        Some(i) => i < len,
        None => true,
    }
}

/// A cursor-bearing wrapper over an ordered sequence, supporting cyclic
/// navigation. A fresh list carries no selection, even when non-empty;
/// the first navigation key selects position 0.
pub struct StatefulList<T> {
    pub items: Vec<T>,
    pub selected: Option<usize>,
}

impl<T> StatefulList<T> {
    /// Well-formedness: the selection, if present, indexes into `items`.
    pub open spec fn wf(&self) -> bool {
        nav_valid(self.items@.len(), self.selected)
    }

    /// Constructs a list with no selection.
    pub fn with_items(items: Vec<T>) -> (r: Self)
        ensures
            r.items == items,
            r.selected is None,
            r.wf(),
    {
        StatefulList { items, selected: None }
    }

    /// Advances the selection cyclically; selects position 0 when
    /// nothing was selected; does nothing on an empty list.
    pub fn next(&mut self)
        requires
            old(self).wf(),
        ensures
            final(self).wf(),
            final(self).items == old(self).items,
            final(self).selected == nav_next(old(self).items@.len(), old(self).selected),
    {
        let n: usize = self.items.len();
        if n == 0 {
            return;
        }
        match self.selected {
            None => {
                self.selected = Some(0);
            },
            Some(i) => {
                let j: usize = if i + 1 < n {
                    i + 1
                } else {
                    0
                };
                proof {
                    if i + 1 < n {
                        lemma_small_mod((i + 1) as nat, n as nat);
                    } else {
                        lemma_mod_self_0(n as int);
                    }
                }
                self.selected = Some(j);
            },
        }
    }

    /// Moves the selection back cyclically; selects position 0 when
    /// nothing was selected; does nothing on an empty list.
    pub fn previous(&mut self)
        requires
            old(self).wf(),
        ensures
            final(self).wf(),
            final(self).items == old(self).items,
            final(self).selected == nav_previous(old(self).items@.len(), old(self).selected),
    {
        let n: usize = self.items.len();
        if n == 0 {
            return;
        }
        match self.selected {
            None => {
                self.selected = Some(0);
            },
            Some(i) => {
                let j: usize = if i == 0 {
                    n - 1
                } else {
                    i - 1
                };
                proof {
                    lemma_mod_add_multiples_vanish((j) as int, n as int);
                    lemma_small_mod(j as nat, n as nat);
                    assert(i + n - 1 == if i == 0 { (n - 1) as int } else { n + (i - 1) });
                }
                self.selected = Some(j);
            },
        }
    }

    /// Returns the item under the cursor, if any.
    pub fn selected_item(&self) -> (r: Option<&T>)
        requires
            self.wf(),
        ensures
            match self.selected {
                Some(i) => r matches Some(e) && *e == self.items@[i as int],
                None => r is None,
            },
    {
        match self.selected {
            Some(i) => Some(&self.items[i]),
            None => None,
        }
    }
}

/// The selection reached from `sel` after `k` calls of `next` on a list
/// of length `len`.
pub open spec fn nav_next_iter(len: nat, sel: Option<usize>, k: nat) -> Option<usize>
    decreases k,
{
    if k == 0 {
        sel
    } else {
        nav_next(len, nav_next_iter(len, sel, (k - 1) as nat))
    }
}

/// Navigation totality: one step of `next` or `previous` keeps the
/// selection valid, so any sequence of navigation calls leaves it
/// either absent or inside the list.
pub proof fn lemma_nav_preserves_valid(len: nat, sel: Option<usize>)
    requires
        nav_valid(len, sel),
    ensures
        nav_valid(len, nav_next(len, sel)),
        nav_valid(len, nav_previous(len, sel)),
{
    if len > 0 {
        match sel {
            Some(i) => {
                lemma_mod_bound((i + 1) as int, len as int);
                lemma_mod_bound((i + len - 1) as int, len as int);
            },
            None => {},
        }
    }
}

/// After `k` steps of `next`, a selection at `i` stands at `(i + k)`
/// reduced modulo the list length.
proof fn lemma_nav_next_iter_index(len: nat, i: usize, k: nat)
    requires
        i < len,
        len <= usize::MAX,
    ensures
        nav_next_iter(len, Some(i), k) == Some((((i + k) % (len as int)) as usize)),
    decreases k,
{
    let m: int = len as int;
    if k == 0 {
        lemma_small_mod(i as nat, len);
    } else {
        lemma_nav_next_iter_index(len, i, (k - 1) as nat);
        let j: int = (i + k - 1) % m;
        lemma_mod_bound(i + k - 1, m);
        assert(nav_next_iter(len, Some(i), k) == nav_next(len, Some(j as usize)));
        lemma_add_mod_noop(i + k - 1, 1, m);
        if len == 1 {
            lemma_mod_bound(j + 1, m);
            lemma_mod_bound(i + k, m);
        } else {
            lemma_small_mod(1, len);
        }
        assert((j + 1) % m == (i + k) % m);
        assert(j as usize + 1 == j + 1);
        assert(nav_next(len, Some(j as usize)) == Some((((i + k) % m) as usize)));
    }
}

/// Cyclic navigation: on a non-empty list with a selection, as many
/// `next` steps as the list has items return to the same selection.
pub proof fn lemma_nav_next_cycle(len: nat, i: usize)
    requires
        i < len,
        len <= usize::MAX,
    ensures
        nav_next_iter(len, Some(i), len) == Some(i),
{
    lemma_nav_next_iter_index(len, i, len);
    lemma_mod_add_multiples_vanish(i as int, len as int);
    lemma_small_mod(i as nat, len);
}

/// On an empty list any number of `next` steps changes nothing, so
/// the selection stays absent.
pub proof fn lemma_nav_next_empty(sel: Option<usize>, k: nat)
    ensures
        nav_next_iter(0, sel, k) == sel,
    decreases k,
{
    if k > 0 {
        lemma_nav_next_empty(sel, (k - 1) as nat);
    }
}

} // verus!
