//! Rotation through the accounts of a site after login failures.
use vstd::prelude::*;

verus! {

/// Accounts in the order they are tried, and the one in use.
#[derive(Debug)]
pub struct AccountRotation {
    ordered_accounts: Vec<String>,
    current_index: usize,
}

/// `order` extended by every non-empty name of `accounts` that it does not
/// hold yet, in input order.
pub open spec fn extend_order(order: Seq<Seq<char>>, accounts: Seq<Seq<char>>) -> Seq<Seq<char>>
    decreases accounts.len(),
{
    if accounts.len() == 0 {
        order
    } else {
        let prev = extend_order(order, accounts.drop_last());
        let a = accounts.last();
        if a.len() > 0 && !prev.contains(a) {
            prev.push(a)
        } else {
            prev
        }
    }
}

/// The order in which accounts are tried: the active account (when given and
/// non-empty) first, then the others as listed, without repeats or empty names.
pub open spec fn rotation_order(active: Option<Seq<char>>, accounts: Seq<Seq<char>>) -> Seq<Seq<char>> {
    let start = match active {
        Some(a) => if a.len() > 0 { seq![a] } else { Seq::<Seq<char>>::empty() },
        None => Seq::<Seq<char>>::empty(),
    };
    extend_order(start, accounts)
}

pub open spec fn no_repeats(s: Seq<Seq<char>>) -> bool {
    forall|i: int, j: int| 0 <= i < j < s.len() ==> s[i] != s[j]
}

pub open spec fn all_non_empty(s: Seq<Seq<char>>) -> bool {
    forall|i: int| 0 <= i < s.len() ==> (#[trigger] s[i]).len() > 0
}

impl AccountRotation {
    /// The account names in rotation order.
    pub closed spec fn order(&self) -> Seq<Seq<char>> {
        self.ordered_accounts@.map_values(|s: String| s@)
    }

    /// Index of the account in use.
    pub closed spec fn index(&self) -> nat {
        self.current_index as nat
    }

    /// The rotation is consistent: the index points into the order, or is 0
    /// for an empty order, and no account is listed twice.
    pub closed spec fn wf(&self) -> bool {
        &&& self.current_index < self.ordered_accounts@.len() || self.current_index == 0
        &&& no_repeats(self.order())
    }

    pub fn new(active_account: Option<&str>, accounts: Vec<String>) -> (r: Self)
        ensures
            r.wf(),
            r.index() == 0,
            r.order() == rotation_order(
                match active_account {
                    Some(a) => Some(a@),
                    None => None,
                },
                accounts@.map_values(|s: String| s@),
            ),
    {
        let ghost names = accounts@.map_values(|s: String| s@);
        let mut ordered_accounts: Vec<String> = Vec::new();
        if let Some(active) = active_account {
            if !active.is_empty() {
                ordered_accounts.push(active.to_owned());
                proof {
                    assert(active@.len() > 0);
                }
            } else {
                proof {
                    assert(active@.len() == 0);
                }
            }
        }
        let ghost start = ordered_accounts@.map_values(|s: String| s@);
        assert(start =~= match active_account {
            Some(a) => if a@.len() > 0 { seq![a@] } else { Seq::<Seq<char>>::empty() },
            None => Seq::<Seq<char>>::empty(),
        });
        let mut i: usize = 0;
        assert(names.take(0) =~= Seq::<Seq<char>>::empty());
        while i < accounts.len()
            invariant
                i <= accounts.len(),
                names == accounts@.map_values(|s: String| s@),
                ordered_accounts@.map_values(|s: String| s@) == extend_order(start, names.take(i as int)),
            decreases accounts.len() - i,
        {
            let ghost prev = ordered_accounts@.map_values(|s: String| s@);
            assert(names.take(i + 1).drop_last() =~= names.take(i as int));
            let account = &accounts[i];
            let mut seen = false;
            let mut k: usize = 0;
            while k < ordered_accounts.len()
                invariant
                    k <= ordered_accounts.len(),
                    prev == ordered_accounts@.map_values(|s: String| s@),
                    seen == (exists|m: int| 0 <= m < k && prev[m] == account@),
                decreases ordered_accounts.len() - k,
            {
                assert(prev[k as int] == ordered_accounts@[k as int]@);
                if ordered_accounts[k] == *account {
                    seen = true;
                }
                k = k + 1;
            }
            assert(seen == prev.contains(account@));
            if !account.as_str().is_empty() && !seen {
                ordered_accounts.push(account.clone());
                assert(ordered_accounts@.map_values(|s: String| s@) =~= prev.push(account@));
            }
            i = i + 1;
        }
        assert(names.take(accounts.len() as int) =~= names);
        proof {
            lemma_rotation_order(
                match active_account {
                    Some(a) => Some(a@),
                    None => None,
                },
                names,
            );
        }
        AccountRotation { ordered_accounts, current_index: 0 }
    }

    /// The account in use, if any.
    pub fn current(&self) -> (r: Option<&str>)
        requires
            self.wf(),
        ensures
            match r {
                Some(name) => self.index() < self.order().len() && name@ == self.order()[self.index() as int],
                None => self.index() >= self.order().len(),
            },
    {
        if self.current_index < self.ordered_accounts.len() {
            Some(self.ordered_accounts[self.current_index].as_str())
        } else {
            None
        }
    }

    /// Moves to the next account after a failure and returns it; at the last
    /// account nothing changes and `None` is returned.
    pub fn mark_failed(&mut self) -> (r: Option<&str>)
        requires
            old(self).wf(),
        ensures
            final(self).wf(),
            final(self).order() == old(self).order(),
            old(self).index() + 1 >= old(self).order().len() ==> {
                &&& final(self).index() == old(self).index()
                &&& r is None
            },
            old(self).index() + 1 < old(self).order().len() ==> {
                &&& final(self).index() == old(self).index() + 1
                &&& r matches Some(name) && name@ == old(self).order()[old(self).index() + 1 as int]
            },
            r matches Some(name) ==> name@ != old(self).order()[old(self).index() as int],
    {
        if self.ordered_accounts.len() == 0 || self.current_index >= self.ordered_accounts.len() - 1 {
            return None;
        }
        self.current_index = self.current_index + 1;
        self.current()
    }
}


proof fn lemma_extend_order(order: Seq<Seq<char>>, accounts: Seq<Seq<char>>)
    requires
        no_repeats(order),
        all_non_empty(order),
    ensures
        no_repeats(extend_order(order, accounts)),
        all_non_empty(extend_order(order, accounts)),
        extend_order(order, accounts).len() >= order.len(),
        forall|i: int| 0 <= i < order.len() ==> extend_order(order, accounts)[i] == order[i],
        forall|i: int|
            0 <= i < accounts.len() && (#[trigger] accounts[i]).len() > 0 ==> extend_order(
                order,
                accounts,
            ).contains(accounts[i]),
    decreases accounts.len(),
{
    if accounts.len() > 0 {
        let prev = extend_order(order, accounts.drop_last());
        lemma_extend_order(order, accounts.drop_last());
        let a = accounts.last();
        let next = extend_order(order, accounts);
        assert forall|i: int|
            0 <= i < accounts.len() && (#[trigger] accounts[i]).len() > 0 implies next.contains(
            accounts[i],
        ) by {
            if i < accounts.len() - 1 {
                assert(accounts.drop_last()[i] == accounts[i]);
                let w = choose|w: int| 0 <= w < prev.len() && prev[w] == accounts[i];
                assert(next[w] == accounts[i]);
            } else if !prev.contains(a) {
                assert(next[prev.len() as int] == a);
            }
        }
    }
}

/// Law: the rotation tries each account at most once, never an empty name,
/// puts a non-empty active account first, and tries every non-empty
/// account it is given.
pub proof fn lemma_rotation_order(active: Option<Seq<char>>, accounts: Seq<Seq<char>>)
    ensures
        no_repeats(rotation_order(active, accounts)),
        all_non_empty(rotation_order(active, accounts)),
        (active matches Some(a) && a.len() > 0) ==> rotation_order(active, accounts)[0] == active->0,
        forall|i: int|
            0 <= i < accounts.len() && (#[trigger] accounts[i]).len() > 0 ==> rotation_order(
                active,
                accounts,
            ).contains(accounts[i]),
{
    let start = match active {
        Some(a) => if a.len() > 0 { seq![a] } else { Seq::<Seq<char>>::empty() },
        None => Seq::<Seq<char>>::empty(),
    };
    lemma_extend_order(start, accounts);
    if start.len() > 0 {
        assert(rotation_order(active, accounts)[0] == start[0]);
    }
}

/// The accounts a rotation at `index` hands out: the one `current` gives,
/// then each one that a further `mark_failed` gives, up to the first `None`.
pub open spec fn rotation_chain(order: Seq<Seq<char>>, index: nat) -> Seq<Seq<char>>
    decreases order.len() - index,
{
    if index >= order.len() {
        Seq::empty()
    } else {
        seq![order[index as int]] + rotation_chain(order, index + 1)
    }
}

proof fn lemma_chain_is_rest(order: Seq<Seq<char>>, index: nat)
    requires
        index <= order.len(),
    ensures
        rotation_chain(order, index) == order.skip(index as int),
    decreases order.len() - index,
{
    if index < order.len() {
        lemma_chain_is_rest(order, index + 1);
        assert(order.skip(index as int) =~= seq![order[index as int]] + order.skip(index + 1 as int));
    } else {
        assert(order.skip(index as int) =~= Seq::<Seq<char>>::empty());
    }
}

/// Law: a new rotation hands out, through `current` and then `mark_failed`
/// until it gives `None`, exactly the active account (when given and not
/// empty) followed by the listed accounts without empty names or repeats,
/// in order; so the active account comes first, no name is empty or handed
/// out twice, every non-empty listed account is handed out, and `current`
/// gives nothing exactly when that list is empty.
pub proof fn lemma_rotation_chain(active: Option<Seq<char>>, accounts: Seq<Seq<char>>)
    ensures
        rotation_chain(rotation_order(active, accounts), 0) == rotation_order(active, accounts),
        no_repeats(rotation_chain(rotation_order(active, accounts), 0)),
        all_non_empty(rotation_chain(rotation_order(active, accounts), 0)),
        (active matches Some(a) && a.len() > 0) ==> rotation_chain(rotation_order(active, accounts), 0)[0] == active->0,
        forall|i: int|
            0 <= i < accounts.len() && (#[trigger] accounts[i]).len() > 0 ==> rotation_chain(
                rotation_order(active, accounts),
                0,
            ).contains(accounts[i]),
        rotation_chain(rotation_order(active, accounts), 0).len() == 0 <==> (!(active matches Some(a) && a.len() > 0)
            && forall|i: int| 0 <= i < accounts.len() ==> (#[trigger] accounts[i]).len() == 0),
{
    let order = rotation_order(active, accounts);
    lemma_chain_is_rest(order, 0);
    assert(order.skip(0) =~= order);
    lemma_rotation_order(active, accounts);
    let start = match active {
        Some(a) => if a.len() > 0 { seq![a] } else { Seq::<Seq<char>>::empty() },
        None => Seq::<Seq<char>>::empty(),
    };
    lemma_extend_order(start, accounts);
    if order.len() == 0 {
        assert(start.len() == 0);
    } else {
        if !(active matches Some(a) && a.len() > 0) && forall|i: int| 0 <= i < accounts.len() ==> (#[trigger] accounts[i]).len() == 0 {
            lemma_order_from_empty_names(accounts);
        }
    }
}

proof fn lemma_order_from_empty_names(accounts: Seq<Seq<char>>)
    requires
        forall|i: int| 0 <= i < accounts.len() ==> (#[trigger] accounts[i]).len() == 0,
    ensures
        extend_order(Seq::empty(), accounts).len() == 0,
    decreases accounts.len(),
{
    if accounts.len() > 0 {
        assert forall|i: int| 0 <= i < accounts.drop_last().len() implies (#[trigger] accounts.drop_last()[i]).len() == 0 by {
            assert(accounts.drop_last()[i] == accounts[i]);
        }
        lemma_order_from_empty_names(accounts.drop_last());
        assert(accounts[accounts.len() - 1] == accounts.last());
    }
}

} // verus!
