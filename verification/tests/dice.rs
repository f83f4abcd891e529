use std::sync::Arc;

use buck2::dice_ctx::ActivationData;
use buck2::dice_ctx::AsyncEvaluator;
use buck2::dice_ctx::BaseComputeCtx;
use buck2::dice_ctx::CacheState;
use buck2::dice_ctx::Cancelled;
use buck2::dice_ctx::DiceError;
use buck2::dice_ctx::DiceKey;
use buck2::dice_ctx::DicePromise;
use buck2::dice_ctx::DiceValidity;
use buck2::dice_ctx::EvaluationData;
use buck2::dice_ctx::KeyComputingUserCycleDetectorData;
use buck2::dice_ctx::ModernComputeCtx;
use buck2::dice_ctx::OpaqueValueModern;
use buck2::dice_ctx::ParentKey;
use buck2::dice_ctx::ProjectionPromise;
use buck2::dice_ctx::RecordingDepsTracker;
use buck2::dice_ctx::SharedCache;
use buck2::dice_ctx::SharedLiveTransactionCtx;
use buck2::dice_ctx::VersionEpoch;
use buck2::dice_ctx::VersionNumber;

fn transaction() -> SharedLiveTransactionCtx {
    SharedLiveTransactionCtx::new(VersionNumber(4), VersionEpoch(2))
}

fn parent(n: u32) -> ParentKey {
    ParentKey::Key(DiceKey(n))
}

#[test]
fn a_key_is_computed_once() {
    let ctx = transaction();
    assert_eq!(ctx.get_version(), VersionNumber(4));
    let mut cache: SharedCache<&str> = SharedCache::new();
    let key = DiceKey(1);
    let first = ctx.compute_opaque(&mut cache, key, parent(9)).ok().unwrap();
    let spawn = first.spawn.unwrap();
    assert_eq!((spawn.key, spawn.version_epoch), (key, VersionEpoch(2)));
    assert_eq!(spawn.previously_cancelled, None);
    let second = ctx.compute_opaque(&mut cache, key, parent(8)).ok().unwrap();
    assert!(second.spawn.is_none());
    assert!(matches!(second.promise, DicePromise::Task(t) if t == spawn.task));
    assert_eq!(cache.tasks[&1].dependents, vec![parent(9), parent(8)]);
    let other = ctx.compute_opaque(&mut cache, DiceKey(2), ParentKey::Root).ok().unwrap();
    assert_ne!(other.spawn.unwrap().task, spawn.task);
    cache.completed.insert(1, Arc::new("v"));
    let third = ctx.compute_opaque(&mut cache, key, parent(7)).ok().unwrap();
    assert!(matches!(third.promise, DicePromise::Ready(v) if *v == "v"));
    assert!(matches!(cache.get(key), CacheState::Computed(_)));
}

#[test]
fn cancelled_tasks_are_taken_over() {
    let ctx = transaction();
    let mut cache: SharedCache<&str> = SharedCache::new();
    let key = DiceKey(1);
    let first = ctx.compute_opaque(&mut cache, key, ParentKey::Root).ok().unwrap().spawn.unwrap();
    cache.tasks.get_mut(&1).unwrap().cancelled = true;
    assert!(matches!(cache.get(key), CacheState::TaskCancelled(t) if t == first.task));
    let again = ctx.compute_opaque(&mut cache, key, ParentKey::Root).ok().unwrap().spawn.unwrap();
    assert_eq!(again.previously_cancelled, Some(first.task));
    assert_ne!(again.task, first.task);
    cache.is_cancelled = true;
    assert!(ctx.compute_opaque(&mut cache, key, ParentKey::Root).is_err());
    assert!(matches!(cache.get(key), CacheState::TransactionCancelled));
}

#[test]
fn projections_are_computed_in_place() {
    let ctx = transaction();
    let mut cache: SharedCache<&str> = SharedCache::new();
    let key = DiceKey(1);
    let task = match ctx.compute_projection(&mut cache, key, parent(9)) {
        ProjectionPromise::Compute(t) => t,
        _ => panic!("nothing is known yet"),
    };
    assert!(matches!(
        ctx.compute_projection(&mut cache, key, parent(8)),
        ProjectionPromise::Existing(t) if t == task
    ));
    cache.completed.insert(1, Arc::new("v"));
    assert!(matches!(
        ctx.compute_projection(&mut cache, key, parent(8)),
        ProjectionPromise::Ready(v) if *v == "v"
    ));
    cache.is_cancelled = true;
    let tasks = cache.tasks.len();
    assert!(matches!(
        ctx.compute_projection(&mut cache, DiceKey(3), parent(8)),
        ProjectionPromise::Compute(_)
    ));
    assert_eq!(cache.tasks.len(), tasks);
}

fn evaluator() -> AsyncEvaluator<&'static str, &'static str> {
    AsyncEvaluator {
        per_live_version_ctx: transaction(),
        user_data: Arc::new("user"),
        dice: Arc::new("dice"),
    }
}

type Ctx<'a> = ModernComputeCtx<'a, &'static str, &'static str, u8>;

#[test]
fn dependencies_are_recorded() {
    let mut ctx: Ctx = ModernComputeCtx::new(
        ParentKey::Root,
        KeyComputingUserCycleDetectorData::Detecting(3),
        evaluator(),
    );
    assert_eq!(ctx.get_version(), VersionNumber(4));
    let opaque = OpaqueValueModern {
        derive_from_key: DiceKey(5),
        derive_from: Arc::new("v"),
        validity: DiceValidity::Valid,
    };
    assert_eq!(*ctx.opaque_into_value(opaque), "v");
    assert!(ctx.data().dep_trackers.deps.contains(&5));
    assert_eq!(ctx.data().dep_trackers.validity, DiceValidity::Valid);
    let mut part = ctx.borrowed();
    assert_eq!(part.get_version(), VersionNumber(4));
    let projected =
        part.projection(DiceKey(6), Ok((Arc::new("p"), DiceValidity::Transient)));
    assert_eq!(*projected.ok().unwrap(), "p");
    let cancelled = part.projection::<&str>(DiceKey(7), Err(Cancelled));
    assert!(matches!(cancelled, Err(DiceError::Cancelled)));
    assert!(matches!(part, ModernComputeCtx::Borrowed(_)));
    let (deps, _, cycles) = ctx.finalize();
    assert!(deps.deps.contains(&5) && deps.deps.contains(&6) && !deps.deps.contains(&7));
    assert_eq!(deps.validity, DiceValidity::Transient);
    assert_eq!(cycles, KeyComputingUserCycleDetectorData::Detecting(3));
}

#[test]
fn a_projection_is_recorded_where_asked() {
    let mut tracker = RecordingDepsTracker::new();
    let ctx: Ctx =
        ModernComputeCtx::new(ParentKey::Root, KeyComputingUserCycleDetectorData::Untracked, evaluator());
    let core = &ctx.data().ctx_data;
    let projected =
        core.project(DiceKey(6), Ok((Arc::new("p"), DiceValidity::Transient)), &mut tracker);
    assert_eq!(*projected.ok().unwrap(), "p");
    assert!(tracker.deps.contains(&6));
    assert_eq!(tracker.validity, DiceValidity::Transient);
}

#[test]
fn evaluation_data_is_stored_once() {
    let mut base: BaseComputeCtx<&str, &str, u8> =
        BaseComputeCtx::new(transaction(), Arc::new("user"), Arc::new("dice"), 11);
    assert_eq!(base.get_version(), VersionNumber(4));
    let mut ctx = base.as_computations_mut();
    assert!(ctx.store_evaluation_data(1).is_ok());
    assert!(matches!(ctx.store_evaluation_data(2), Err(DiceError::DuplicateActivationData)));
    assert!(ctx.compute(DiceKey(8), Ok((Arc::new("v"), DiceValidity::Valid))).is_ok());
    assert!(base.as_computations().dep_trackers.deps.contains(&8));
    assert_eq!(base.as_computations().ctx_data.evaluation_data.0, Some(1));
    let copy = base.dupe();
    assert_eq!(copy.live_version_guard, 11);
    assert!(copy.data.ctx_data.evaluation_data.0.is_none());
    let updater = base.into_updater();
    assert_eq!((*updater.dice, *updater.user_data), ("dice", "user"));
    let evaluated: ActivationData<u8> = EvaluationData(Some(3)).into_activation_data();
    assert!(matches!(evaluated, ActivationData::Evaluated(Some(3))));
    let none: ActivationData<u8> = EvaluationData::none().into_activation_data();
    assert!(matches!(none, ActivationData::Evaluated(None)));
}

#[test]
fn a_computation_depends_on_what_it_looks_at() {
    let mut ctx: Ctx =
        ModernComputeCtx::new(ParentKey::Root, KeyComputingUserCycleDetectorData::Untracked, evaluator());
    let opaque = ctx
        .compute_opaque(DiceKey(3), Ok((Arc::new("v"), DiceValidity::Transient)))
        .ok()
        .unwrap();
    assert_eq!(opaque.derive_from_key, DiceKey(3));
    assert_eq!((*opaque.derive_from, opaque.validity), ("v", DiceValidity::Transient));
    assert!(ctx.data().dep_trackers.deps.is_empty());

    let value = ctx.compute(DiceKey(4), Ok((Arc::new("w"), DiceValidity::Valid)));
    assert_eq!(*value.ok().unwrap(), "w");
    let cancelled = ctx.compute::<&str>(DiceKey(5), Err(Cancelled));
    assert_eq!(cancelled.err(), Some(DiceError::Cancelled));

    let (reported, _, _) = ctx.finalize();
    assert!(reported.deps.contains(&4));
    assert!(!reported.deps.contains(&3) && !reported.deps.contains(&5));
    assert_eq!(reported.validity, DiceValidity::Valid);
}
