//! For each account, the places in the history of the operations that mention
//! it.

use vstd::hash_map::StringHashMap;
use vstd::prelude::*;

verus! {

/// A map from account names to lists of places in the history. The list of an
/// account only grows, at its end.
///
/// Each name has a slot of its own in `entries`; `slots` says which.
pub struct AccountIndex {
    slots: StringHashMap<usize>,
    entries: Vec<Vec<usize>>,
}

impl View for AccountIndex {
    type V = Map<Seq<char>, Seq<usize>>;

    closed spec fn view(&self) -> Map<Seq<char>, Seq<usize>> {
        Map::new(
            |name: Seq<char>| self.slots@.contains_key(name),
            |name: Seq<char>| self.entries@[self.slots@[name] as int]@,
        )
    }
}

impl AccountIndex {
    /// Every name's slot is there, and no two names share one.
    pub closed spec fn wf(&self) -> bool {
        &&& forall|name: Seq<char>| #[trigger]
            self.slots@.contains_key(name) ==> self.slots@[name] < self.entries@.len()
        &&& forall|a: Seq<char>, b: Seq<char>|
            #![trigger self.slots@[a], self.slots@[b]]
            self.slots@.contains_key(a) && self.slots@.contains_key(b) && self.slots@[a]
                == self.slots@[b] ==> a == b
    }

    /// An index without names.
    pub fn new() -> (index: AccountIndex)
        ensures
            index.wf(),
            index@ == Map::<Seq<char>, Seq<usize>>::empty(),
    {
        let index = AccountIndex { slots: StringHashMap::new(), entries: Vec::new() };
        assert(index@ =~= Map::<Seq<char>, Seq<usize>>::empty());
        index
    }

    /// The number of names that have a list.
    pub fn len(&self) -> (count: usize)
        ensures
            count == self@.len(),
    {
        assert(self@.dom() =~= self.slots@.dom());
        self.slots.len()
    }

    /// The list of `account`, or `None` where nothing was recorded for it.
    pub fn get(&self, account: &str) -> (ids: Option<&Vec<usize>>)
        requires
            self.wf(),
        ensures
            match ids {
                Some(list) => self@.contains_key(account@) && list@ == self@[account@],
                None => !self@.contains_key(account@),
            },
    {
        match self.slots.get(account) {
            Some(slot) => Some(&self.entries[*slot]),
            None => None,
        }
    }

    /// Puts `id` at the end of the list of `account`, and starts a list for an
    /// account that has none. No other list changes.
    pub fn record(&mut self, account: String, id: usize)
        requires
            old(self).wf(),
        ensures
            final(self).wf(),
            final(self)@ == old(self)@.insert(
                account@,
                if old(self)@.contains_key(account@) {
                    old(self)@[account@].push(id)
                } else {
                    seq![id]
                },
            ),
    {
        match self.slots.get(account.as_str()) {
            Some(slot) => {
                let slot = *slot;
                self.entries[slot].push(id);
                assert(self@ =~= old(self)@.insert(account@, old(self)@[account@].push(id)));
            },
            None => {
                let slot = self.entries.len();
                let list: Vec<usize> = vec![id];
                assert(list@ =~= seq![id]);
                self.entries.push(list);
                self.slots.insert(account, slot);
                assert(self@ =~= old(self)@.insert(account@, seq![id]));
            },
        }
    }
}

} // verus!
