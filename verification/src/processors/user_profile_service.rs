//! The users of the exchange, kept and walked in the order of their ids.

use std::collections::BTreeMap;

use vstd::prelude::*;
use vstd::std_specs::btree::{increasing_seq, key_obeys_cmp_spec};
use vstd::std_specs::cmp::OrdSpec;
use vstd::std_specs::iter::IteratorSpec;

use super::parallel::{single_valued, single_valued_at};
use crate::common::command_result_code::CommandResultCode;
use crate::common::user_profile::UserProfile;

verus! {

/// Whether every uid is smaller than those after it.
pub open spec fn ascending(uids: Seq<i64>) -> bool {
    forall|i: int, j: int| 0 <= i < j < uids.len() ==> uids[i] < uids[j]
}

/// The uids of `users`, from the smallest to the largest.
pub open spec fn uids_in_order(users: Map<i64, UserProfile>) -> Seq<i64> {
    users.dom().to_sorted_seq(|a: i64, b: i64| a <= b)
}

/// The profiles of `users`, in the order of their uids.
pub open spec fn profiles_in_order(users: Map<i64, UserProfile>) -> Seq<UserProfile> {
    uids_in_order(users).map_values(|uid: i64| users[uid])
}

/// Whether every user is filed under their own uid.
pub open spec fn filed_by_uid(users: Map<i64, UserProfile>) -> bool {
    forall|uid: i64| #[trigger] users.contains_key(uid) ==> users[uid].uid == uid
}

/// `users` and, where the uid is not taken yet, a user with nothing but that uid.
pub open spec fn with_empty_user(users: Map<i64, UserProfile>, uid: i64) -> Map<i64, UserProfile> {
    if users.contains_key(uid) {
        users
    } else {
        users.insert(uid, UserProfile { uid })
    }
}

/// `users` after adding the given uids, one after the other.
pub open spec fn with_empty_users(
    users: Map<i64, UserProfile>,
    uids: Seq<i64>,
) -> Map<i64, UserProfile>
    decreases uids.len(),
{
    if uids.len() == 0 {
        users
    } else {
        with_empty_user(with_empty_users(users, uids.drop_last()), uids.last())
    }
}

/// The users of the exchange, by uid.
pub struct UserProfileService {
    pub users: BTreeMap<i64, UserProfile>,
}

impl UserProfileService {
    /// Whether every user is filed under their own uid.
    pub open spec fn wf(self) -> bool {
        filed_by_uid(self.users@)
    }

    /// A service without users.
    pub fn new() -> (ups: Self)
        ensures
            ups.users@ == Map::<i64, UserProfile>::empty(),
            ups.wf(),
    {
        UserProfileService { users: BTreeMap::new() }
    }

    /// Adds a user with the given uid; a uid that is taken is refused, and its user kept.
    pub fn add_empty_user_profile(&mut self, uid: i64) -> (code: CommandResultCode)
        ensures
            code == if old(self).users@.contains_key(uid) {
                CommandResultCode::UserMgmtUserAlreadyExists
            } else {
                CommandResultCode::Success
            },
            final(self).users@ == with_empty_user(old(self).users@, uid),
            old(self).users@.contains_key(uid) ==> final(self).users@ == old(self).users@,
            !old(self).users@.contains_key(uid) ==> final(self).users@ == old(self).users@.insert(
                uid,
                UserProfile { uid },
            ),
            old(self).wf() ==> final(self).wf(),
    {
        broadcast use vstd::std_specs::btree::group_btree_axioms;
        broadcast use vstd::laws_cmp::group_laws_cmp;

        if self.users.contains_key(&uid) {
            CommandResultCode::UserMgmtUserAlreadyExists
        } else {
            self.users.insert(uid, UserProfile { uid });
            CommandResultCode::Success
        }
    }
}

/// Two ascending sequences of the same uids are equal.
pub proof fn lemma_ascending_unique(a: Seq<i64>, b: Seq<i64>)
    requires
        ascending(a),
        ascending(b),
        a.to_set() == b.to_set(),
    ensures
        a == b,
    decreases a.len(),
{
    if a.len() == 0 {
        if b.len() > 0 {
            assert(b.to_set().contains(b[0]));
            assert(a.contains(b[0]));
        }
        assert(a =~= b);
    } else {
        assert(a.to_set().contains(a.last()));
        assert(b.contains(a.last()));
        assert(b.to_set().contains(b.last()));
        assert(a.contains(b.last()));
        assert(a.last() == b.last());
        let x = a.drop_last();
        let y = b.drop_last();
        assert forall|uid: i64| x.to_set().contains(uid) == y.to_set().contains(uid) by {
            if x.contains(uid) {
                let i = choose|i: int| 0 <= i < x.len() && x[i] == uid;
                assert(a[i] == uid && uid < a.last());
                assert(a.to_set().contains(uid));
                assert(b.contains(uid));
                let j = choose|j: int| 0 <= j < b.len() && b[j] == uid;
                assert(y[j] == uid);
            }
            if y.contains(uid) {
                let i = choose|i: int| 0 <= i < y.len() && y[i] == uid;
                assert(b[i] == uid && uid < b.last());
                assert(b.to_set().contains(uid));
                assert(a.contains(uid));
                let j = choose|j: int| 0 <= j < a.len() && a[j] == uid;
                assert(x[j] == uid);
            }
        }
        assert(x.to_set() =~= y.to_set());
        lemma_ascending_unique(x, y);
        assert(a =~= x.push(a.last()));
        assert(b =~= y.push(b.last()));
    }
}

/// Listing a finite set repeats nothing.
proof fn lemma_to_seq_no_duplicates(s: Set<i64>)
    requires
        s.finite(),
    ensures
        s.to_seq().no_duplicates(),
    decreases s.len(),
{
    if s.len() > 0 {
        let x = s.choose();
        let rest = s.remove(x);
        lemma_to_seq_no_duplicates(rest);
        rest.lemma_to_seq_to_set_id();
        assert(!rest.to_seq().to_set().contains(x));
        assert(!rest.to_seq().contains(x));
        assert(s.to_seq() =~= seq![x] + rest.to_seq());
    }
}

/// Sorting uids that do not repeat puts them into strictly ascending order, and keeps them all.
pub proof fn lemma_sorted_is_ascending(uids: Seq<i64>)
    requires
        uids.no_duplicates(),
    ensures
        ascending(uids.sort_by(|a: i64, b: i64| a <= b)),
        uids.sort_by(|a: i64, b: i64| a <= b).to_set() == uids.to_set(),
{
    let leq = |a: i64, b: i64| a <= b;
    let sorted = uids.sort_by(leq);
    assert(vstd::relations::total_ordering(leq));
    uids.lemma_sort_by_ensures(leq);
    uids.lemma_multiset_has_no_duplicates();
    sorted.lemma_multiset_has_no_duplicates_conv();
    assert forall|i: int, j: int| 0 <= i < j < sorted.len() implies sorted[i] < sorted[j] by {
        assert(leq(sorted[i], sorted[j]));
    }
    uids.to_multiset_ensures();
    sorted.to_multiset_ensures();
    assert forall|uid: i64| sorted.to_set().contains(uid) == uids.to_set().contains(uid) by {
        assert(sorted.contains(uid) <==> sorted.to_multiset().count(uid) > 0);
        assert(uids.contains(uid) <==> uids.to_multiset().count(uid) > 0);
    }
    assert(sorted.to_set() =~= uids.to_set());
}

/// The uids in order are all the uids, each once, in strictly ascending order.
pub proof fn lemma_uids_in_order(users: Map<i64, UserProfile>)
    requires
        users.dom().finite(),
    ensures
        ascending(uids_in_order(users)),
        uids_in_order(users).to_set() == users.dom(),
{
    users.dom().lemma_to_seq_to_set_id();
    lemma_to_seq_no_duplicates(users.dom());
    lemma_sorted_is_ascending(users.dom().to_seq());
}

/// An ascending sequence that holds the uids of `users` lists them in order.
pub proof fn lemma_uids_in_order_unique(users: Map<i64, UserProfile>, uids: Seq<i64>)
    requires
        users.dom().finite(),
        ascending(uids),
        uids.to_set() == users.dom(),
    ensures
        uids == uids_in_order(users),
{
    lemma_uids_in_order(users);
    lemma_ascending_unique(uids, uids_in_order(users));
}

/// A `BTreeMap` keeps uids in their order.
proof fn lemma_uids_are_ordered()
    ensures
        key_obeys_cmp_spec::<i64>(),
{
    broadcast use vstd::std_specs::btree::group_btree_axioms;
    broadcast use vstd::laws_cmp::group_laws_cmp;

}

/// A sequence that a `BTreeMap` calls increasing is ascending.
proof fn lemma_increasing_is_ascending(uids: Seq<i64>)
    requires
        increasing_seq(uids),
    ensures
        ascending(uids),
{
    broadcast use vstd::std_specs::btree::group_btree_axioms;
    broadcast use vstd::laws_cmp::group_laws_cmp;

    assert forall|i: int, j: int| 0 <= i < j < uids.len() implies uids[i] < uids[j] by {
        assert(uids[i].cmp_spec(&uids[j]) is Less);
    }
}

/// Whether `kept` holds, in order, those of `users` for which calling `select` answered `true`.
pub open spec fn keeps<F: Fn(&UserProfile) -> bool>(
    select: F,
    users: Seq<UserProfile>,
    kept: Seq<UserProfile>,
) -> bool
    decreases users.len(),
{
    if users.len() == 0 {
        kept.len() == 0
    } else {
        ||| {
            &&& call_ensures(select, (&users.last(),), false)
            &&& keeps(select, users.drop_last(), kept)
        }
        ||| {
            &&& call_ensures(select, (&users.last(),), true)
            &&& kept.len() > 0
            &&& kept.last() == users.last()
            &&& keeps(select, users.drop_last(), kept.drop_last())
        }
    }
}

/// A user that is kept is one of the users, and `select` answered `true` for them.
pub proof fn lemma_kept_are_selected<F: Fn(&UserProfile) -> bool>(
    select: F,
    users: Seq<UserProfile>,
    kept: Seq<UserProfile>,
)
    requires
        keeps(select, users, kept),
    ensures
        forall|i: int| 0 <= i < kept.len() ==> users.contains(#[trigger] kept[i]),
        forall|i: int|
            0 <= i < kept.len() ==> call_ensures(select, (&#[trigger] kept[i],), true),
    decreases users.len(),
{
    if users.len() > 0 {
        let rest = users.drop_last();
        if call_ensures(select, (&users.last(),), false) && keeps(select, rest, kept) {
            lemma_kept_are_selected(select, rest, kept);
            assert forall|i: int| 0 <= i < kept.len() implies users.contains(
                #[trigger] kept[i],
            ) by {
                let j = choose|j: int| 0 <= j < rest.len() && rest[j] == kept[i];
                assert(users[j] == kept[i]);
            }
        } else {
            let front = kept.drop_last();
            lemma_kept_are_selected(select, rest, front);
            assert forall|i: int| 0 <= i < kept.len() implies users.contains(#[trigger] kept[i])
                && call_ensures(select, (&kept[i],), true) by {
                if i == kept.len() - 1 {
                    assert(users[users.len() - 1] == kept[i]);
                } else {
                    assert(front[i] == kept[i]);
                    let j = choose|j: int| 0 <= j < rest.len() && rest[j] == front[i];
                    assert(users[j] == kept[i]);
                }
            }
        }
    }
}

/// The profiles in order are the profiles that `users` holds.
pub proof fn lemma_profiles_in_order(users: Map<i64, UserProfile>)
    requires
        users.dom().finite(),
    ensures
        profiles_in_order(users).len() == uids_in_order(users).len(),
        forall|i: int|
            0 <= i < uids_in_order(users).len() ==> users.contains_key(
                #[trigger] uids_in_order(users)[i],
            ),
{
    lemma_uids_in_order(users);
    let uids = uids_in_order(users);
    assert forall|i: int| 0 <= i < uids.len() implies users.contains_key(#[trigger] uids[i]) by {
        assert(uids.to_set().contains(uids[i]));
    }
}

impl UserProfileService {
    /// The users for which `select` answers `true`, in the order of their uids.
    pub(crate) fn select_users<F: Fn(&UserProfile) -> bool>(&self, select: &F) -> (kept: Vec<
        &UserProfile,
    >)
        requires
            forall|uid: i64| #[trigger]
                self.users@.contains_key(uid) ==> call_requires(*select, (&self.users@[uid],)),
        ensures
            keeps(*select, profiles_in_order(self.users@), kept@.unref()),
    {
        broadcast use vstd::std_specs::btree::group_btree_axioms;

        proof {
            lemma_uids_are_ordered();
        }
        let mut kept: Vec<&UserProfile> = Vec::new();
        let ghost all = profiles_in_order(self.users@);
        let values = self.users.values();
        proof {
            let uids = choose|uids: Seq<i64>|
                {
                    &&& increasing_seq(uids)
                    &&& uids.to_set() == self.users@.dom()
                    &&& uids.no_duplicates()
                    &&& values.remaining() == uids.map(|i: int, k| &self.users@[k])
                };
            lemma_increasing_is_ascending(uids);
            lemma_uids_in_order_unique(self.users@, uids);
            assert(values.remaining().unref() =~= all);
            assert forall|i: int| 0 <= i < all.len() implies call_requires(
                *select,
                (&#[trigger] all[i],),
            ) by {
                assert(uids.to_set().contains(uids[i]));
            }
        }
        for user in it: values
            invariant
                it.seq().unref() == all,
                forall|i: int| 0 <= i < all.len() ==> call_requires(*select, (&#[trigger] all[i],)),
                keeps(*select, all.take(it.index()), kept@.unref()),
        {
            let ghost before = kept@.unref();
            assert(*user == all[it.index()]);
            assert(all.take(it.index() + 1).drop_last() =~= all.take(it.index()));
            if select(user) {
                kept.push(user);
                assert(kept@.unref().drop_last() =~= before);
            }
        }
        assert(all.take(all.len() as int) =~= all);
        kept
    }
}

/// A selection that answers the same for the same user keeps the same users.
pub proof fn lemma_keeps_single_valued<F: Fn(&UserProfile) -> bool>(
    select: F,
    users: Seq<UserProfile>,
    kept1: Seq<UserProfile>,
    kept2: Seq<UserProfile>,
)
    requires
        single_valued(select, users),
        keeps(select, users, kept1),
        keeps(select, users, kept2),
    ensures
        kept1 == kept2,
    decreases users.len(),
{
    if users.len() == 0 {
        assert(kept1 =~= kept2);
    } else {
        let rest = users.drop_last();
        assert(users[users.len() - 1] == users.last());
        assert(single_valued_at(select, users.last()));
        assert forall|i: int| 0 <= i < rest.len() implies single_valued_at(
            select,
            #[trigger] rest[i],
        ) by {
            assert(rest[i] == users[i]);
        }
        if call_ensures(select, (&users.last(),), false) {
            assert(!call_ensures(select, (&users.last(),), true));
            lemma_keeps_single_valued(select, rest, kept1, kept2);
        } else {
            lemma_keeps_single_valued(select, rest, kept1.drop_last(), kept2.drop_last());
            assert(kept1 =~= kept1.drop_last().push(kept1.last()));
            assert(kept2 =~= kept2.drop_last().push(kept2.last()));
        }
    }
}

/// A selection that computes the predicate `p` keeps the users that fulfil it.
pub proof fn lemma_keeps_filter<F: Fn(&UserProfile) -> bool>(
    select: F,
    p: spec_fn(UserProfile) -> bool,
    users: Seq<UserProfile>,
    kept: Seq<UserProfile>,
)
    requires
        forall|i: int, b: bool|
            0 <= i < users.len() && #[trigger] call_ensures(select, (&users[i],), b) ==> b == p(
                users[i],
            ),
        keeps(select, users, kept),
    ensures
        kept == users.filter(p),
    decreases users.len(),
{
    reveal(Seq::filter);
    if users.len() == 0 {
        assert(kept =~= users.filter(p));
    } else {
        let rest = users.drop_last();
        assert(users[users.len() - 1] == users.last());
        assert forall|i: int, b: bool|
            0 <= i < rest.len() && #[trigger] call_ensures(select, (&rest[i],), b) implies b == p(
            rest[i],
        ) by {
            assert(rest[i] == users[i]);
        }
        if p(users.last()) {
            lemma_keeps_filter(select, p, rest, kept.drop_last());
            assert(kept =~= kept.drop_last().push(kept.last()));
        } else {
            lemma_keeps_filter(select, p, rest, kept);
        }
    }
}

/// A selection that never answers `false` keeps every user.
pub proof fn lemma_keeps_everyone<F: Fn(&UserProfile) -> bool>(
    select: F,
    users: Seq<UserProfile>,
    kept: Seq<UserProfile>,
)
    requires
        forall|i: int|
            0 <= i < users.len() ==> !call_ensures(select, (&#[trigger] users[i],), false),
        keeps(select, users, kept),
    ensures
        kept == users,
    decreases users.len(),
{
    if users.len() == 0 {
        assert(kept =~= users);
    } else {
        let rest = users.drop_last();
        assert(users[users.len() - 1] == users.last());
        assert forall|i: int| 0 <= i < rest.len() implies !call_ensures(
            select,
            (&#[trigger] rest[i],),
            false,
        ) by {
            assert(rest[i] == users[i]);
        }
        lemma_keeps_everyone(select, rest, kept.drop_last());
        assert(kept =~= kept.drop_last().push(kept.last()));
        assert(users =~= users.drop_last().push(users.last()));
    }
}

/// Whether the positions are strictly ascending and below `bound`.
pub open spec fn picks(at: Seq<int>, bound: nat) -> bool {
    &&& forall|k: int| 0 <= k < at.len() ==> 0 <= #[trigger] at[k] < bound
    &&& forall|j: int, k: int| 0 <= j < k < at.len() ==> at[j] < at[k]
}

/// The kept users stand at ascending positions among the users, and `select` answered `false` for
/// those at the other positions.
pub proof fn lemma_kept_positions<F: Fn(&UserProfile) -> bool>(
    select: F,
    users: Seq<UserProfile>,
    kept: Seq<UserProfile>,
) -> (at: Seq<int>)
    requires
        keeps(select, users, kept),
    ensures
        at.len() == kept.len(),
        picks(at, users.len()),
        forall|k: int| 0 <= k < at.len() ==> kept[k] == users[#[trigger] at[k]],
        forall|k: int|
            0 <= k < at.len() ==> call_ensures(select, (&users[#[trigger] at[k]],), true),
        forall|i: int|
            0 <= i < users.len() && !at.contains(i) ==> call_ensures(
                select,
                (&#[trigger] users[i],),
                false,
            ),
    decreases users.len(),
{
    if users.len() == 0 {
        Seq::empty()
    } else {
        let rest = users.drop_last();
        let last = users.len() - 1;
        assert(users[last] == users.last());
        if call_ensures(select, (&users.last(),), false) && keeps(select, rest, kept) {
            let at = lemma_kept_positions(select, rest, kept);
            assert forall|i: int| 0 <= i < users.len() && !at.contains(i) implies call_ensures(
                select,
                (&#[trigger] users[i],),
                false,
            ) by {
                if i < last {
                    assert(rest[i] == users[i]);
                }
            }
            at
        } else {
            let front = lemma_kept_positions(select, rest, kept.drop_last());
            let at = front.push(last);
            assert forall|i: int| 0 <= i < users.len() && !at.contains(i) implies call_ensures(
                select,
                (&#[trigger] users[i],),
                false,
            ) by {
                assert(at[front.len() as int] == last);
                if front.contains(i) {
                    let k = front.index_of(i);
                    assert(at[k] == i);
                }
                assert(i < last);
                assert(rest[i] == users[i]);
            }
            assert forall|k: int| 0 <= k < at.len() implies kept[k] == users[#[trigger] at[k]]
                && call_ensures(select, (&users[at[k]],), true) by {
                if k < front.len() {
                    assert(at[k] == front[k]);
                    assert(rest[front[k]] == users[at[k]]);
                    assert(kept.drop_last()[k] == kept[k]);
                }
            }
            at
        }
    }
}

/// The order in which users are added leaves no trace.
pub proof fn law_adding_users_commutes(users: Map<i64, UserProfile>, a: i64, b: i64)
    ensures
        with_empty_user(with_empty_user(users, a), b) == with_empty_user(
            with_empty_user(users, b),
            a,
        ),
{
    assert(with_empty_user(with_empty_user(users, a), b) =~= with_empty_user(
        with_empty_user(users, b),
        a,
    ));
}

/// Adding uids one after the other adds, for each that was not taken, a user with that uid.
proof fn lemma_with_empty_users(users: Map<i64, UserProfile>, uids: Seq<i64>)
    ensures
        forall|uid: i64| #[trigger]
            with_empty_users(users, uids).contains_key(uid) <==> users.contains_key(uid)
                || uids.contains(uid),
        forall|uid: i64| #[trigger]
            with_empty_users(users, uids).contains_key(uid) ==> with_empty_users(users, uids)[uid]
                == if users.contains_key(uid) {
                users[uid]
            } else {
                UserProfile { uid }
            },
    decreases uids.len(),
{
    if uids.len() > 0 {
        let rest = uids.drop_last();
        let before = with_empty_users(users, rest);
        let after = with_empty_users(users, uids);
        lemma_with_empty_users(users, rest);
        assert(after == with_empty_user(before, uids.last()));
        assert forall|uid: i64| #[trigger]
            after.contains_key(uid) <==> users.contains_key(uid) || uids.contains(uid) by {
            assert(before.contains_key(uid) <==> users.contains_key(uid) || rest.contains(uid));
            assert(uids[uids.len() - 1] == uids.last());
            if rest.contains(uid) {
                let k = rest.index_of(uid);
                assert(uids[k] == uid);
            }
            if uids.contains(uid) && uid != uids.last() {
                let k = uids.index_of(uid);
                assert(rest[k] == uid);
            }
        }
        assert forall|uid: i64| #[trigger] after.contains_key(uid) implies after[uid]
            == if users.contains_key(uid) {
            users[uid]
        } else {
            UserProfile { uid }
        } by {
            assert(before.contains_key(uid) || uid == uids.last());
        }
    }
}

/// Adding the same uids in any two orders, and any number of times, gives the same users.
pub proof fn law_users_do_not_depend_on_the_order_of_adding(
    users: Map<i64, UserProfile>,
    uids1: Seq<i64>,
    uids2: Seq<i64>,
)
    requires
        uids1.to_set() == uids2.to_set(),
    ensures
        with_empty_users(users, uids1) == with_empty_users(users, uids2),
{
    lemma_with_empty_users(users, uids1);
    lemma_with_empty_users(users, uids2);
    assert forall|uid: i64| uids1.contains(uid) == uids2.contains(uid) by {
        assert(uids1.to_set().contains(uid) == uids1.contains(uid));
        assert(uids2.to_set().contains(uid) == uids2.contains(uid));
    }
    assert(with_empty_users(users, uids1) =~= with_empty_users(users, uids2));
}

/// Adding a user who is there already changes nothing.
pub proof fn law_adding_a_user_twice_is_adding_them_once(users: Map<i64, UserProfile>, uid: i64)
    ensures
        with_empty_user(with_empty_user(users, uid), uid) == with_empty_user(users, uid),
{
}

/// Adding a user keeps the other users as they are.
pub proof fn law_adding_a_user_keeps_the_others(users: Map<i64, UserProfile>, uid: i64, other: i64)
    requires
        users.contains_key(other),
    ensures
        with_empty_user(users, uid).contains_key(other),
        with_empty_user(users, uid)[other] == users[other],
{
}

/// After adding, the uid is taken, and users who were filed under their own uids still are.
pub proof fn law_added_users_are_filed_by_uid(users: Map<i64, UserProfile>, uid: i64)
    requires
        filed_by_uid(users),
    ensures
        with_empty_user(users, uid).contains_key(uid),
        filed_by_uid(with_empty_user(users, uid)),
{
}

/// Adding a user takes the uid, and no other; the users who were there, the one with that uid among
/// them, stay as they are, and a new user has nothing but the uid.
pub proof fn law_adding_a_user_adds_that_user_alone(users: Map<i64, UserProfile>, uid: i64)
    ensures
        with_empty_user(users, uid).dom() == users.dom().insert(uid),
        forall|other: i64|
            users.contains_key(other) ==> #[trigger] with_empty_user(users, uid)[other]
                == users[other],
        !users.contains_key(uid) ==> with_empty_user(users, uid)[uid].uid == uid,
{
    assert(with_empty_user(users, uid).dom() =~= users.dom().insert(uid));
}

} // verus!
