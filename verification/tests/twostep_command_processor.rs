use exchange_core_rs::common::command_result_code::CommandResultCode;
use exchange_core_rs::common::core_symbol_specification::CoreSymbolSpecification;
use exchange_core_rs::common::order_command::OrderCommand;
use exchange_core_rs::common::user_profile::UserProfile;
use exchange_core_rs::processors::parallel::ComputeConfig;
use exchange_core_rs::processors::risk_engine::RiskEngine;
use exchange_core_rs::processors::symbol_specification_provider::SymbolSpecificationProvider;
use exchange_core_rs::processors::twostep_command_processor::{
    TwoStepCommandProcessor, TwoStepContext,
};
use exchange_core_rs::processors::user_profile_service::UserProfileService;

struct Dummy;

impl TwoStepCommandProcessor for Dummy {
    fn collect(&self, _c: &mut TwoStepContext, _cmd: &mut OrderCommand) -> CommandResultCode {
        CommandResultCode::Success
    }

    fn apply(&self, _c: &mut TwoStepContext, _cmd: &mut OrderCommand) {}
}

#[test]
fn map_users_returns_per_user_in_uid_order() {
    let mut risk = RiskEngine::new();
    let mut ups = UserProfileService::new();
    for uid in [3i64, 1, 2] {
        assert_eq!(ups.add_empty_user_profile(uid), CommandResultCode::Success);
    }
    let ssp = SymbolSpecificationProvider::new();
    let ctx = TwoStepContext::new(&mut risk, &mut ups, &ssp);
    let out = Dummy.map_users(&ctx, |_| true, |u| u.uid);
    assert_eq!(out, vec![1, 2, 3], "BTreeMap values() 有序 -> 结果按 uid 升序");
}

fn users(uids: &[i64]) -> UserProfileService {
    let mut ups = UserProfileService::new();
    for uid in uids {
        assert_eq!(ups.add_empty_user_profile(*uid), CommandResultCode::Success);
    }
    ups
}

fn engine(workers: usize, serial_threshold: usize) -> RiskEngine {
    let mut risk = RiskEngine::new();
    risk.set_compute_config(ComputeConfig { workers, serial_threshold }).unwrap();
    risk
}

fn scan<T: Send>(
    risk: &mut RiskEngine,
    ups: &mut UserProfileService,
    select: impl Fn(&UserProfile) -> bool,
    map_user: impl Fn(&UserProfile) -> T + Sync,
) -> Vec<T> {
    let ssp = SymbolSpecificationProvider::new();
    let ctx = TwoStepContext::new(risk, ups, &ssp);
    Dummy.map_users(&ctx, select, map_user)
}

#[test]
fn scan_is_worker_invariant() {
    let uids: Vec<i64> = (0..3_000).map(|i: i64| (i * 7_919) % 3_001 - 1_500).collect();
    let mut ups = users(&uids);
    let expect = scan(&mut engine(1, 1024), &mut ups, |u| u.uid % 3 != 0, |u| u.uid * 2);
    assert_eq!(expect[0], -2_998);
    let configs = [(8usize, 0usize), (8, 1_999), (8, 2_000), (8, 2_001), (2, 1), (0, 0)];
    for (workers, threshold) in configs {
        let mut risk = engine(workers, threshold);
        assert_eq!(scan(&mut risk, &mut ups, |u| u.uid % 3 != 0, |u| u.uid * 2), expect);
    }
}

#[test]
fn scan_selects_before_it_maps() {
    let mut ups = users(&[5, -4, 8, 1, -9, 2]);
    for (workers, threshold) in [(1usize, 1024usize), (4, 0)] {
        let mut risk = engine(workers, threshold);
        let out = scan(
            &mut risk,
            &mut ups,
            |u| u.uid % 2 == 0,
            |u| {
                assert!(u.uid % 2 == 0);
                100 / u.uid
            },
        );
        assert_eq!(out, vec![-25, 50, 12]);
    }
}

#[test]
fn scan_is_in_uid_order_from_the_smallest_to_the_largest() {
    let mut ups = users(&[0, i64::MAX, -1, i64::MIN, 1]);
    for (workers, threshold) in [(1usize, 1024usize), (4, 0)] {
        let mut risk = engine(workers, threshold);
        let out = scan(&mut risk, &mut ups, |_| true, |u| u.uid);
        assert_eq!(out, vec![i64::MIN, -1, 0, 1, i64::MAX]);
    }
}

#[test]
fn scan_of_everyone_and_of_nobody() {
    let mut ups = users(&[4, 2]);
    let mut risk = engine(2, 0);
    assert_eq!(scan(&mut risk, &mut ups, |_| true, |u| u.uid), vec![2, 4]);
    assert!(scan(&mut risk, &mut ups, |_| false, |u| u.uid).is_empty());
    let mut none = UserProfileService::new();
    assert!(scan(&mut risk, &mut none, |_| true, |u| u.uid).is_empty());
}

#[test]
fn scan_counts_selected_users_against_the_threshold() {
    let uids: Vec<i64> = (0..20).collect();
    let mut ups = users(&uids);
    let mut risk = engine(3, 10);
    let few = scan(&mut risk, &mut ups, |u| u.uid < 9, |_| rayon::current_thread_index());
    assert_eq!(few, vec![None; 9]);
    let many = scan(&mut risk, &mut ups, |u| u.uid < 10, |_| rayon::current_thread_index());
    assert_eq!(many.len(), 10);
    assert!(many.iter().all(|i| i.is_some()));
}

#[test]
fn users_can_be_added_in_any_order() {
    let a = users(&[3, 1, 2]);
    let b = users(&[2, 3, 1]);
    assert_eq!(a.users, b.users);
    let uids: Vec<i64> = a.users.keys().copied().collect();
    assert_eq!(uids, vec![1, 2, 3]);
}

#[test]
fn scan_does_not_depend_on_how_the_users_came_to_be_there() {
    let mut ups1 = users(&[3, 1, 2]);
    let mut ups2 = users(&[2, 9, 3, 4, 1]);
    ups2.users.remove(&9);
    ups2.users.remove(&4);
    assert_eq!(ups2.add_empty_user_profile(3), CommandResultCode::UserMgmtUserAlreadyExists);
    let out1 = scan(&mut engine(1, 1024), &mut ups1, |u| u.uid != 2, |u| u.uid * 10);
    let out2 = scan(&mut engine(8, 0), &mut ups2, |u| u.uid != 2, |u| u.uid * 10);
    assert_eq!(out1, vec![10, 30]);
    assert_eq!(out2, out1);
}

#[test]
fn a_selection_and_its_negation_split_the_users() {
    let mut ups = users(&[5, -4, 8, 1, -9, 2, 0]);
    let mut risk = engine(4, 0);
    let yes = scan(&mut risk, &mut ups, |u| u.uid % 2 == 0, |u| u.uid);
    let no = scan(&mut risk, &mut ups, |u| u.uid % 2 != 0, |u| u.uid);
    assert_eq!(yes, vec![-4, 0, 2, 8]);
    assert_eq!(no, vec![-9, 1, 5]);
    assert!(yes.iter().all(|uid| !no.contains(uid)));
    assert_eq!(yes.len() + no.len(), ups.users.len());
    let mut merged = yes;
    merged.extend(no);
    merged.sort();
    assert_eq!(merged, scan(&mut risk, &mut ups, |_| true, |u| u.uid));
}

#[test]
fn a_taken_uid_is_refused() {
    let mut ups = users(&[7, 8]);
    let before = ups.users.clone();
    assert_eq!(ups.add_empty_user_profile(7), CommandResultCode::UserMgmtUserAlreadyExists);
    assert_eq!(ups.users, before);
    assert_eq!(ups.add_empty_user_profile(9), CommandResultCode::Success);
    assert_eq!(ups.users.get(&7), Some(&UserProfile { uid: 7 }));
    assert_eq!(ups.users.get(&9), Some(&UserProfile { uid: 9 }));
    assert_eq!(ups.users.len(), 3);
}

#[test]
fn context_hands_on_what_it_was_given() {
    let mut risk = RiskEngine::new();
    let mut ups = users(&[1]);
    let mut ssp = SymbolSpecificationProvider::new();
    assert!(ssp.symbols.is_empty());
    let spec = CoreSymbolSpecification { symbol_id: 100, base_currency: 1, quote_currency: 2 };
    ssp.symbols.insert(100, spec);
    {
        let ctx = TwoStepContext::new(&mut risk, &mut ups, &ssp);
        assert_eq!(ctx.ssp.symbols.get(&100), Some(&spec));
        assert_eq!(ctx.ups.users.len(), 1);
        assert_eq!(ctx.ups.add_empty_user_profile(2), CommandResultCode::Success);
        let config = ComputeConfig { workers: 1, serial_threshold: 5 };
        ctx.risk.set_compute_config(config).unwrap();
    }
    assert_eq!(ups.users.len(), 2);
    assert_eq!(risk.compute_pool().config().serial_threshold, 5);
}

#[test]
fn engine_starts_serial_and_takes_on_a_configuration() {
    let mut risk = RiskEngine::new();
    assert_eq!(*risk.compute_pool().config(), ComputeConfig::default());
    let config = ComputeConfig { workers: 4, serial_threshold: 2 };
    risk.set_compute_config(config).unwrap();
    assert_eq!(*risk.compute_pool().config(), config);
    assert!(risk.compute_pool().uses_workers(2));
    assert!(!risk.compute_pool().uses_workers(1));
}

struct Counter;

impl TwoStepCommandProcessor for Counter {
    fn collect(&self, ctx: &mut TwoStepContext, cmd: &mut OrderCommand) -> CommandResultCode {
        let limit = cmd.uid;
        let hits = self.map_users(ctx, |u| u.uid <= limit, |_| 1i64);
        cmd.size = hits.iter().sum();
        CommandResultCode::Success
    }

    fn apply(&self, ctx: &mut TwoStepContext, cmd: &mut OrderCommand) {
        cmd.result_code = Some(ctx.ups.add_empty_user_profile(cmd.uid));
    }
}

#[test]
fn a_command_collects_and_then_applies() {
    let mut risk = RiskEngine::new();
    let mut ups = users(&[10, 20, 30]);
    let ssp = SymbolSpecificationProvider::new();
    let mut cmd = OrderCommand {
        order_id: 1,
        uid: 20,
        symbol: 0,
        price: 0,
        size: 0,
        timestamp: 0,
        result_code: None,
    };
    let mut ctx = TwoStepContext::new(&mut risk, &mut ups, &ssp);
    assert_eq!(Counter.collect(&mut ctx, &mut cmd), CommandResultCode::Success);
    Counter.apply(&mut ctx, &mut cmd);
    assert_eq!(cmd.size, 2);
    assert_eq!(cmd.result_code, Some(CommandResultCode::UserMgmtUserAlreadyExists));
}

fn assert_sync<T: Sync>() {}

#[test]
fn scanned_types_can_be_shared_between_threads() {
    assert_sync::<UserProfile>();
    assert_sync::<SymbolSpecificationProvider>();
}
