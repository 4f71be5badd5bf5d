//! Commands that first collect, read-only and in parallel, and then apply.

use vstd::prelude::*;

use super::mapping::{on_references, Mapping};
use super::parallel::{
    law_map_applies_the_function, law_map_is_worker_invariant, maps_to, single_valued,
    single_valued_at,
};
use super::risk_engine::RiskEngine;
use super::symbol_specification_provider::SymbolSpecificationProvider;
use super::user_profile_service::{
    ascending, filed_by_uid, keeps, lemma_ascending_unique, lemma_keeps_everyone,
    lemma_keeps_filter, lemma_keeps_single_valued, lemma_kept_are_selected, lemma_kept_positions,
    lemma_profiles_in_order, lemma_sorted_is_ascending, lemma_uids_in_order, profiles_in_order,
    uids_in_order, UserProfileService,
};
use crate::common::command_result_code::CommandResultCode;
use crate::common::order_command::OrderCommand;
use crate::common::user_profile::UserProfile;

verus! {

/// What a command works on while it is processed.
pub struct TwoStepContext<'a> {
    /// The risk engine, with the pool that scans run on.
    pub risk: &'a mut RiskEngine,
    /// The users.
    pub ups: &'a mut UserProfileService,
    /// The symbols that can be traded.
    pub ssp: &'a SymbolSpecificationProvider,
}

impl<'a> TwoStepContext<'a> {
    /// The users that the context gives access to, by uid.
    pub open spec fn users(&self) -> Map<i64, UserProfile> {
        self.ups.users@
    }

    /// A context on the given parts; what is changed through it is changed in them.
    pub fn new(
        risk: &'a mut RiskEngine,
        ups: &'a mut UserProfileService,
        ssp: &'a SymbolSpecificationProvider,
    ) -> (ctx: Self)
        ensures
            *ctx.risk == *old(risk),
            *ctx.ups == *old(ups),
            *ctx.ssp == *ssp,
            *final(ctx.risk) == *final(risk),
            *final(ctx.ups) == *final(ups),
    {
        TwoStepContext { risk, ups, ssp }
    }
}

/// Whether `out` comes of going through `users` in the order of their uids, keeping those for which
/// `select` answered `true`, and mapping them, in that order, with `map_user`.
pub open spec fn scans_to<T, S: Fn(&UserProfile) -> bool, M: Fn(&UserProfile) -> T>(
    select: S,
    map_user: M,
    users: Map<i64, UserProfile>,
    out: Seq<T>,
) -> bool {
    exists|kept: Seq<UserProfile>|
        {
            &&& #[trigger] keeps(select, profiles_in_order(users), kept)
            &&& maps_to(map_user, kept, out)
        }
}

/// A command that is processed in two steps: it first collects what there is to do, and then
/// applies it.
pub trait TwoStepCommandProcessor {
    /// The first step: finds out what the command has to do.
    fn collect(&self, ctx: &mut TwoStepContext, cmd: &mut OrderCommand) -> CommandResultCode;

    /// The second step: does it.
    fn apply(&self, ctx: &mut TwoStepContext, cmd: &mut OrderCommand);

    /// Calls `map_user` on every user for which `select` answers `true`, and returns the results in
    /// the ascending order of the users' uids.
    ///
    /// `select` is asked on the calling thread, about each user once; `map_user` runs on the pool
    /// of the risk engine, which decides by the number of selected users whether its worker
    /// threads share the work.
    ///
    /// A processor that replaces this implementation has to meet the same postcondition.
    fn map_users<T: Send>(
        &self,
        ctx: &TwoStepContext,
        select: impl Fn(&UserProfile) -> bool,
        map_user: impl Fn(&UserProfile) -> T + Sync,
    ) -> (out: Vec<T>)
        requires
            forall|uid: i64| #[trigger]
                ctx.users().contains_key(uid) ==> call_requires(select, (&ctx.users()[uid],)),
            forall|uid: i64| #[trigger]
                ctx.users().contains_key(uid) && call_ensures(select, (&ctx.users()[uid],), true)
                    ==> call_requires(map_user, (&ctx.users()[uid],)),
        ensures
            scans_to(select, map_user, ctx.users(), out@),
            exists|uids: Seq<i64>, scanned: &[&UserProfile], mapped|
                {
                    &&& #[trigger] uids.len() == out@.len()
                    &&& forall|j: int, k: int| 0 <= j < k < uids.len() ==> uids[j] < uids[k]
                    &&& forall|k: int|
                        0 <= k < uids.len() ==> {
                            &&& old(ctx.ups).users@.contains_key(#[trigger] uids[k])
                            &&& call_ensures(select, (&old(ctx.ups).users@[uids[k]],), true)
                            &&& call_ensures(map_user, (&old(ctx.ups).users@[uids[k]],), out@[k])
                        }
                    &&& forall|uid: i64| #[trigger]
                        old(ctx.ups).users@.contains_key(uid) && !uids.contains(uid)
                            ==> call_ensures(select, (&old(ctx.ups).users@[uid],), false)
                    &&& scanned@.len() == uids.len()
                    &&& forall|k: int|
                        0 <= k < uids.len() ==> *#[trigger] scanned@[k] == old(
                            ctx.ups,
                        ).users@[uids[k]]
                    &&& call_ensures(on_references, (&map_user,), mapped)
                    &&& #[trigger] mapped.mapped_by(old(ctx.risk).pool(), scanned, out)
                },
    {
        assert(ctx.users() == ctx.ups.users@);
        let users: Vec<&UserProfile> = ctx.ups.select_users(&select);
        proof {
            let kept = users@.unref();
            lemma_kept_are_selected(select, profiles_in_order(ctx.users()), kept);
            lemma_profiles_in_order(ctx.users());
            assert forall|i: int| 0 <= i < users@.len() implies call_requires(
                map_user,
                (#[trigger] users@[i],),
            ) by {
                assert(kept[i] == *users@[i]);
                let j = profiles_in_order(ctx.users()).index_of(kept[i]);
                assert(ctx.users().contains_key(uids_in_order(ctx.users())[j]));
            }
        }
        let mapped = on_references(&map_user);
        let scanned: &[&UserProfile] = users.as_slice();
        let out: Vec<T> = mapped.map_by(ctx.risk.compute_pool(), scanned);
        proof {
            let kept = users@.unref();
            assert forall|k: int| 0 <= k < kept.len() implies call_ensures(
                map_user,
                (&kept[k],),
                #[trigger] out@[k],
            ) by {
                assert(kept[k] == *users@[k]);
            }
            assert(maps_to(map_user, kept, out@));
            let uids = lemma_kept_in_uid_order(select, ctx.users(), kept);
            assert(uids.len() == out@.len());
            assert forall|k: int| 0 <= k < uids.len() implies call_ensures(
                map_user,
                (&ctx.users()[#[trigger] uids[k]],),
                out@[k],
            ) by {
                assert(call_ensures(map_user, (&kept[k],), out@[k]));
            }
            assert(mapped.mapped_by(ctx.risk.pool(), scanned, out));
        }
        out
    }
}

/// The users that a context gives access to are those of its user service: all of them, no others,
/// and each with the profile that is filed there.
pub proof fn law_users_of_a_context_are_those_of_its_service(ctx: &TwoStepContext, uid: i64)
    ensures
        ctx.users().contains_key(uid) <==> old(ctx.ups).users@.contains_key(uid),
        old(ctx.ups).users@.contains_key(uid) ==> ctx.users()[uid] == old(ctx.ups).users@[uid],
{
}

/// Every user of the service is scanned: the results stand for strictly ascending uids, each the
/// result for the user who is filed under that uid and for whom `select` answered `true`, and for
/// every user who is not among them `select` answered `false`.
pub proof fn law_map_users_scans_every_user<
    P: TwoStepCommandProcessor,
    T: Send,
    S: Fn(&UserProfile) -> bool,
    M: Fn(&UserProfile) -> T + Sync,
>(
    processor: &P,
    ctx: &TwoStepContext,
    users: Map<i64, UserProfile>,
    select: S,
    map_user: M,
    out: Vec<T>,
) -> (uids: Seq<i64>)
    requires
        users == ctx.ups.users@,
        call_ensures(P::map_users, (processor, ctx, select, map_user), out),
    ensures
        uids.len() == out@.len(),
        forall|j: int, k: int| 0 <= j < k < uids.len() ==> uids[j] < uids[k],
        forall|k: int|
            0 <= k < uids.len() ==> {
                &&& users.contains_key(#[trigger] uids[k])
                &&& call_ensures(select, (&users[uids[k]],), true)
                &&& call_ensures(map_user, (&users[uids[k]],), out@[k])
            },
        forall|uid: i64| #[trigger]
            users.contains_key(uid) ==> uids.contains(uid) || call_ensures(
                select,
                (&users[uid],),
                false,
            ),
{
    choose|uids: Seq<i64>|
        {
            &&& #[trigger] uids.len() == out@.len()
            &&& forall|j: int, k: int| 0 <= j < k < uids.len() ==> uids[j] < uids[k]
            &&& forall|k: int|
                0 <= k < uids.len() ==> {
                    &&& users.contains_key(#[trigger] uids[k])
                    &&& call_ensures(select, (&users[uids[k]],), true)
                    &&& call_ensures(map_user, (&users[uids[k]],), out@[k])
                }
            &&& forall|uid: i64| #[trigger]
                users.contains_key(uid) && !uids.contains(uid) ==> call_ensures(
                    select,
                    (&users[uid],),
                    false,
                )
        }
}

/// The pool of the risk engine maps `map_user` over the selected users, however many they are: what
/// [`TwoStepCommandProcessor::map_users`] returns is what that pool returned.
pub proof fn law_map_users_runs_on_the_pool_of_the_engine<
    P: TwoStepCommandProcessor,
    T: Send,
    S: Fn(&UserProfile) -> bool,
    M: Fn(&UserProfile) -> T + Sync,
>(
    processor: &P,
    ctx: &TwoStepContext,
    select: S,
    map_user: M,
    out: Vec<T>,
)
    requires
        call_ensures(P::map_users, (processor, ctx, select, map_user), out),
    ensures
        exists|scanned: &[&UserProfile], mapped|
            {
                &&& scanned@.len() == out@.len()
                &&& call_ensures(on_references, (&map_user,), mapped)
                &&& #[trigger] mapped.mapped_by(old(ctx.risk).pool(), scanned, out)
            },
{
}

/// A scan does not depend on the pool that it runs on: whatever the numbers of workers and the
/// thresholds are, two scans of the same users return the same results, provided that the answers
/// of `select`, and the results of `map_user` for the users it selects, depend on the user alone.
pub proof fn law_scan_is_worker_invariant<
    T,
    S: Fn(&UserProfile) -> bool,
    M: Fn(&UserProfile) -> T,
>(select: S, map_user: M, users: Map<i64, UserProfile>, out1: Seq<T>, out2: Seq<T>)
    requires
        single_valued(select, profiles_in_order(users)),
        forall|i: int|
            0 <= i < profiles_in_order(users).len() && call_ensures(
                select,
                (&#[trigger] profiles_in_order(users)[i],),
                true,
            ) ==> single_valued_at(map_user, profiles_in_order(users)[i]),
        scans_to(select, map_user, users, out1),
        scans_to(select, map_user, users, out2),
    ensures
        out1 == out2,
{
    let all = profiles_in_order(users);
    let kept = choose|kept: Seq<UserProfile>|
        #[trigger] keeps(select, all, kept) && maps_to(map_user, kept, out1);
    let kept2 = choose|kept: Seq<UserProfile>|
        #[trigger] keeps(select, all, kept) && maps_to(map_user, kept, out2);
    lemma_keeps_single_valued(select, all, kept, kept2);
    lemma_kept_are_selected(select, all, kept);
    assert forall|i: int| 0 <= i < kept.len() implies single_valued_at(
        map_user,
        #[trigger] kept[i],
    ) by {
        let j = all.index_of(kept[i]);
        assert(all[j] == kept[i]);
    }
    law_map_is_worker_invariant(map_user, kept, out1, out2);
}

/// Two contexts with the same users give the same results, whatever their pools are and in whatever
/// order their users came to be there: a processor that is handed the one or the other, and whose
/// `select` and `map_user` depend on the user alone, finds the same.
pub proof fn law_map_users_depends_on_the_users_alone<
    T,
    S: Fn(&UserProfile) -> bool,
    M: Fn(&UserProfile) -> T,
>(
    ctx1: &TwoStepContext,
    ctx2: &TwoStepContext,
    select: S,
    map_user: M,
    out1: Seq<T>,
    out2: Seq<T>,
)
    requires
        forall|uid: i64| #[trigger]
            ctx1.users().contains_key(uid) <==> #[trigger] ctx2.users().contains_key(uid),
        forall|uid: i64| #[trigger]
            ctx1.users().contains_key(uid) ==> ctx1.users()[uid] == ctx2.users()[uid],
        ctx1.users().dom().finite(),
        forall|uid: i64| #[trigger]
            ctx1.users().contains_key(uid) ==> single_valued_at(select, ctx1.users()[uid]),
        forall|uid: i64| #[trigger]
            ctx1.users().contains_key(uid) && call_ensures(select, (&ctx1.users()[uid],), true)
                ==> single_valued_at(map_user, ctx1.users()[uid]),
        scans_to(select, map_user, ctx1.users(), out1),
        scans_to(select, map_user, ctx2.users(), out2),
    ensures
        out1 == out2,
{
    let users = ctx1.users();
    assert(users =~= ctx2.users());
    lemma_profiles_in_order(users);
    assert forall|i: int| 0 <= i < profiles_in_order(users).len() implies single_valued_at(
        select,
        #[trigger] profiles_in_order(users)[i],
    ) && (call_ensures(select, (&profiles_in_order(users)[i],), true) ==> single_valued_at(
        map_user,
        profiles_in_order(users)[i],
    )) by {
        assert(users.contains_key(uids_in_order(users)[i]));
    }
    law_scan_is_worker_invariant(select, map_user, users, out1, out2);
}

/// A scan with a `select` that computes `p` and a `map_user` that computes `g` returns the values
/// of `g` for the users that fulfil `p`, in the order of their uids.
pub proof fn law_scan_filters_and_maps<T, S: Fn(&UserProfile) -> bool, M: Fn(&UserProfile) -> T>(
    select: S,
    p: spec_fn(UserProfile) -> bool,
    map_user: M,
    g: spec_fn(UserProfile) -> T,
    users: Map<i64, UserProfile>,
    out: Seq<T>,
)
    requires
        forall|i: int, b: bool|
            0 <= i < profiles_in_order(users).len() && #[trigger] call_ensures(
                select,
                (&profiles_in_order(users)[i],),
                b,
            ) ==> b == p(profiles_in_order(users)[i]),
        forall|i: int, t: T|
            0 <= i < profiles_in_order(users).len() && p(profiles_in_order(users)[i])
                && #[trigger] call_ensures(map_user, (&profiles_in_order(users)[i],), t) ==> t
                == g(profiles_in_order(users)[i]),
        scans_to(select, map_user, users, out),
    ensures
        out == profiles_in_order(users).filter(p).map_values(g),
{
    let all = profiles_in_order(users);
    let kept = choose|kept: Seq<UserProfile>|
        #[trigger] keeps(select, all, kept) && maps_to(map_user, kept, out);
    lemma_keeps_filter(select, p, all, kept);
    lemma_kept_are_selected(select, all, kept);
    assert forall|i: int, t: T|
        0 <= i < kept.len() && #[trigger] call_ensures(map_user, (&kept[i],), t) implies t == g(
        kept[i],
    ) by {
        let j = all.index_of(kept[i]);
        assert(all[j] == kept[i]);
        assert(call_ensures(select, (&all[j],), true));
    }
    law_map_applies_the_function(map_user, g, kept, out);
}

/// The kept users stand for ascending uids, `select` answered `true` for them, and `false` for all
/// the others.
proof fn lemma_kept_in_uid_order<S: Fn(&UserProfile) -> bool>(
    select: S,
    users: Map<i64, UserProfile>,
    kept: Seq<UserProfile>,
) -> (uids: Seq<i64>)
    requires
        users.dom().finite(),
        keeps(select, profiles_in_order(users), kept),
    ensures
        uids.len() == kept.len(),
        forall|j: int, k: int| 0 <= j < k < uids.len() ==> uids[j] < uids[k],
        forall|k: int|
            0 <= k < uids.len() ==> {
                &&& users.contains_key(#[trigger] uids[k])
                &&& users[uids[k]] == kept[k]
                &&& call_ensures(select, (&users[uids[k]],), true)
            },
        forall|uid: i64| #[trigger]
            users.contains_key(uid) && !uids.contains(uid) ==> call_ensures(
                select,
                (&users[uid],),
                false,
            ),
{
    let order = uids_in_order(users);
    let all = profiles_in_order(users);
    lemma_uids_in_order(users);
    lemma_profiles_in_order(users);
    let at = lemma_kept_positions(select, all, kept);
    let uids = at.map_values(|i: int| order[i]);
    assert forall|k: int| 0 <= k < uids.len() implies {
        &&& users.contains_key(#[trigger] uids[k])
        &&& users[uids[k]] == kept[k]
        &&& call_ensures(select, (&users[uids[k]],), true)
    } by {
        assert(uids[k] == order[at[k]]);
        assert(users.contains_key(order[at[k]]));
        assert(all[at[k]] == users[uids[k]]);
        assert(kept[k] == all[at[k]]);
    }
    assert forall|j: int, k: int| 0 <= j < k < uids.len() implies uids[j] < uids[k] by {
        assert(at[j] < at[k]);
        assert(0 <= at[j] && at[k] < order.len());
    }
    assert forall|uid: i64| #[trigger]
        users.contains_key(uid) && !uids.contains(uid) implies call_ensures(
        select,
        (&users[uid],),
        false,
    ) by {
        assert(order.to_set().contains(uid));
        let i = order.index_of(uid);
        assert(order[i] == uid);
        if at.contains(i) {
            let k = at.index_of(i);
            assert(uids[k] == uid);
        }
        assert(all[i] == users[uid]);
    }
    uids
}

/// A scan goes through the users by strictly ascending uid: its results stand for ascending uids,
/// each the result for the user of that uid; `select` answered `true` for the users that are in,
/// and `false` for all the others.
pub proof fn law_scan_is_in_uid_order<T, S: Fn(&UserProfile) -> bool, M: Fn(&UserProfile) -> T>(
    select: S,
    map_user: M,
    users: Map<i64, UserProfile>,
    out: Seq<T>,
) -> (uids: Seq<i64>)
    requires
        users.dom().finite(),
        scans_to(select, map_user, users, out),
    ensures
        ascending(uids),
        forall|j: int, k: int| 0 <= j < k < uids.len() ==> uids[j] < uids[k],
        uids.len() == out.len(),
        forall|k: int|
            0 <= k < uids.len() ==> {
                &&& users.contains_key(#[trigger] uids[k])
                &&& call_ensures(select, (&users[uids[k]],), true)
                &&& call_ensures(map_user, (&users[uids[k]],), out[k])
            },
        forall|uid: i64| #[trigger]
            users.contains_key(uid) && !uids.contains(uid) ==> call_ensures(
                select,
                (&users[uid],),
                false,
            ),
{
    let kept = choose|kept: Seq<UserProfile>|
        #[trigger] keeps(select, profiles_in_order(users), kept) && maps_to(map_user, kept, out);
    let uids = lemma_kept_in_uid_order(select, users, kept);
    assert forall|k: int| 0 <= k < uids.len() implies call_ensures(
        map_user,
        (&users[#[trigger] uids[k]],),
        out[k],
    ) by {
        assert(call_ensures(map_user, (&kept[k],), out[k]));
    }
    uids
}

/// A scan that selects everyone returns one result per user, in the order of their uids.
pub proof fn law_scan_of_everyone<T, S: Fn(&UserProfile) -> bool, M: Fn(&UserProfile) -> T>(
    select: S,
    map_user: M,
    users: Map<i64, UserProfile>,
    out: Seq<T>,
)
    requires
        forall|i: int|
            0 <= i < profiles_in_order(users).len() ==> !call_ensures(
                select,
                (&#[trigger] profiles_in_order(users)[i],),
                false,
            ),
        scans_to(select, map_user, users, out),
    ensures
        maps_to(map_user, profiles_in_order(users), out),
{
    let all = profiles_in_order(users);
    let kept = choose|kept: Seq<UserProfile>|
        #[trigger] keeps(select, all, kept) && maps_to(map_user, kept, out);
    lemma_keeps_everyone(select, all, kept);
}

/// A scan that selects nobody returns nothing.
pub proof fn law_scan_of_nobody<T, S: Fn(&UserProfile) -> bool, M: Fn(&UserProfile) -> T>(
    select: S,
    map_user: M,
    users: Map<i64, UserProfile>,
    out: Seq<T>,
)
    requires
        forall|i: int|
            0 <= i < profiles_in_order(users).len() ==> !call_ensures(
                select,
                (&#[trigger] profiles_in_order(users)[i],),
                true,
            ),
        scans_to(select, map_user, users, out),
    ensures
        out.len() == 0,
{
    let all = profiles_in_order(users);
    let kept = choose|kept: Seq<UserProfile>|
        #[trigger] keeps(select, all, kept) && maps_to(map_user, kept, out);
    lemma_kept_are_selected(select, all, kept);
    if kept.len() > 0 {
        assert(call_ensures(select, (&kept[0],), true));
        assert(all[all.index_of(kept[0])] == kept[0]);
    }
}

/// The uids that a scan returns, where `map_user` returns the uid of the user: in ascending order,
/// uids of users for which `select` answered `true`, and it answered `false` for all the others.
proof fn lemma_scan_of_uids<S: Fn(&UserProfile) -> bool, M: Fn(&UserProfile) -> i64>(
    select: S,
    map_user: M,
    users: Map<i64, UserProfile>,
    out: Seq<i64>,
)
    requires
        users.dom().finite(),
        filed_by_uid(users),
        forall|uid: i64, t: i64|
            users.contains_key(uid) && #[trigger] call_ensures(map_user, (&users[uid],), t) ==> t
                == users[uid].uid,
        scans_to(select, map_user, users, out),
    ensures
        ascending(out),
        forall|uid: i64| #[trigger]
            out.contains(uid) ==> users.contains_key(uid) && call_ensures(
                select,
                (&users[uid],),
                true,
            ),
        forall|uid: i64| #[trigger]
            users.contains_key(uid) && !out.contains(uid) ==> call_ensures(
                select,
                (&users[uid],),
                false,
            ),
{
    let uids = law_scan_is_in_uid_order(select, map_user, users, out);
    assert forall|k: int| 0 <= k < uids.len() implies uids[k] == out[k] by {
        assert(users.contains_key(uids[k]));
        assert(call_ensures(map_user, (&users[uids[k]],), out[k]));
    }
    assert(uids =~= out);
}

/// Scanning with a selection and scanning with its negation split the users: where `map_user`
/// returns the uid of the user, the two results have no uid in common, their lengths add up to the
/// number of users, and merged in ascending order they are the scan of everyone.
pub proof fn law_scans_with_a_selection_and_its_negation_split_the_users<
    S: Fn(&UserProfile) -> bool,
    N: Fn(&UserProfile) -> bool,
    E: Fn(&UserProfile) -> bool,
    M: Fn(&UserProfile) -> i64,
>(
    select: S,
    negation: N,
    everyone: E,
    map_user: M,
    users: Map<i64, UserProfile>,
    yes: Seq<i64>,
    no: Seq<i64>,
    all: Seq<i64>,
)
    requires
        users.dom().finite(),
        filed_by_uid(users),
        forall|uid: i64| #[trigger]
            users.contains_key(uid) ==> single_valued_at(select, users[uid]),
        forall|uid: i64, b: bool|
            users.contains_key(uid) && #[trigger] call_ensures(negation, (&users[uid],), b)
                ==> call_ensures(select, (&users[uid],), !b),
        forall|uid: i64| #[trigger]
            users.contains_key(uid) ==> !call_ensures(everyone, (&users[uid],), false),
        forall|uid: i64, t: i64|
            users.contains_key(uid) && #[trigger] call_ensures(map_user, (&users[uid],), t) ==> t
                == users[uid].uid,
        scans_to(select, map_user, users, yes),
        scans_to(negation, map_user, users, no),
        scans_to(everyone, map_user, users, all),
    ensures
        forall|uid: i64| !(#[trigger] yes.contains(uid) && #[trigger] no.contains(uid)),
        yes.len() + no.len() == users.dom().len(),
        all == (yes + no).sort_by(|a: i64, b: i64| a <= b),
{
    lemma_scan_of_uids(select, map_user, users, yes);
    lemma_scan_of_uids(negation, map_user, users, no);
    lemma_scan_of_uids(everyone, map_user, users, all);
    assert forall|uid: i64| !(#[trigger] yes.contains(uid) && #[trigger] no.contains(uid)) by {
        if yes.contains(uid) && no.contains(uid) {
            assert(single_valued_at(select, users[uid]));
            assert(call_ensures(select, (&users[uid],), true));
            assert(call_ensures(negation, (&users[uid],), true));
            assert(call_ensures(select, (&users[uid],), false));
        }
    }
    let both = yes + no;
    assert forall|i: int, j: int| 0 <= i < both.len() && 0 <= j < both.len() && i
        != j implies both[i] != both[j] by {
        if i < yes.len() && j >= yes.len() {
            assert(yes.contains(both[i]) && no.contains(both[j])) by {
                assert(yes[i] == both[i] && no[j - yes.len()] == both[j]);
            }
        } else if j < yes.len() && i >= yes.len() {
            assert(yes.contains(both[j]) && no.contains(both[i])) by {
                assert(yes[j] == both[j] && no[i - yes.len()] == both[i]);
            }
        } else if i < yes.len() {
            assert(both[i] == yes[i] && both[j] == yes[j]);
        } else {
            assert(both[i] == no[i - yes.len()] && both[j] == no[j - yes.len()]);
        }
    }
    assert forall|uid: i64| both.to_set().contains(uid) == users.dom().contains(uid)
        && all.to_set().contains(uid) == users.dom().contains(uid) by {
        if both.contains(uid) {
            let k = both.index_of(uid);
            if k < yes.len() {
                assert(yes[k] == uid);
                assert(yes.contains(uid));
            } else {
                assert(no[k - yes.len()] == uid);
                assert(no.contains(uid));
            }
        }
        if users.contains_key(uid) {
            assert(single_valued_at(select, users[uid]));
            if !yes.contains(uid) && !no.contains(uid) {
                assert(call_ensures(select, (&users[uid],), false));
                assert(call_ensures(negation, (&users[uid],), false));
                assert(call_ensures(select, (&users[uid],), true));
            }
            if yes.contains(uid) {
                let k = yes.index_of(uid);
                assert(both[k] == uid);
            } else {
                let k = no.index_of(uid);
                assert(both[yes.len() + k] == uid);
            }
            assert(all.contains(uid));
        }
        if all.contains(uid) {
            assert(users.contains_key(uid));
        }
    }
    assert(both.to_set() =~= users.dom());
    assert(all.to_set() =~= users.dom());
    both.unique_seq_to_set();
    lemma_sorted_is_ascending(both);
    lemma_ascending_unique(all, both.sort_by(|a: i64, b: i64| a <= b));
}

} // verus!
