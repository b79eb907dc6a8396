//! Keeping the runtime and updates apart.

use std::sync::{Arc, Mutex};

use staged_update::path::Platform;
use staged_update::plan::{PreparedUpdate, UpdatePlan};
use staged_update::runtime::{check_open, let_in, reopens, UpdateCoordinator, UpdatePermit};
use staged_update::session::{install_prepared_update, SessionStage};

async fn begin(coordinator: &Arc<UpdateCoordinator>) -> Result<UpdatePermit, String> {
    let permit = coordinator.update_lock().write_owned().await;
    coordinator.clone().begin_update(permit)
}

#[test]
fn failed_update_reopens_runtime_but_success_keeps_it_closed() {
    let runtime = tokio::runtime::Runtime::new().unwrap();
    let coordinator = Arc::new(UpdateCoordinator::default());

    runtime.block_on(async {
        let update = begin(&coordinator).await.unwrap();
        assert!(coordinator.try_runtime_operation().is_err());
        drop(update);

        assert!(coordinator.try_runtime_operation().is_ok());

        let mut update = begin(&coordinator).await.unwrap();
        update.keep_runtime_closed();
        drop(update);

        assert!(coordinator.try_runtime_operation().is_err());
    });
}

#[test]
fn operations_share_the_lock_and_updates_have_it_alone() {
    let runtime = tokio::runtime::Runtime::new().unwrap();
    let coordinator = Arc::new(UpdateCoordinator::default());
    runtime.block_on(async {
        let lock = coordinator.operation_lock().unwrap();
        let share = lock.read_owned().await;
        let first = coordinator.runtime_operation(share).unwrap();
        let second = coordinator.try_runtime_operation().unwrap();
        assert!(coordinator.update_lock().try_write_owned().is_err());
        drop(first);
        drop(second);
        let update = begin(&coordinator).await.unwrap();
        assert!(coordinator.is_update_in_progress());
        assert_eq!(
            coordinator.operation_lock().unwrap_err(),
            "Update in progress"
        );
        assert_eq!(
            coordinator.try_runtime_operation().unwrap_err(),
            "Update in progress"
        );
        drop(update);
        assert!(!coordinator.is_update_in_progress());
        assert!(coordinator.operation_lock().is_ok());
    });
}

#[test]
fn no_update_begins_after_one_has_succeeded() {
    let runtime = tokio::runtime::Runtime::new().unwrap();
    let coordinator = Arc::new(UpdateCoordinator::default());
    runtime.block_on(async {
        let mut update = begin(&coordinator).await.unwrap();
        update.keep_runtime_closed();
        drop(update);
        match begin(&coordinator).await {
            Ok(_) => panic!(),
            Err(message) => assert_eq!(message, "Update already in progress"),
        }
        assert!(coordinator.is_update_in_progress());
    });
}

#[test]
fn a_share_is_of_no_use_once_an_update_is_done() {
    let runtime = tokio::runtime::Runtime::new().unwrap();
    let coordinator = Arc::new(UpdateCoordinator::default());
    runtime.block_on(async {
        let lock = coordinator.operation_lock().unwrap();
        let mut update = begin(&coordinator).await.unwrap();
        update.keep_runtime_closed();
        drop(update);
        let share = lock.read_owned().await;
        assert_eq!(
            coordinator.runtime_operation(share).unwrap_err(),
            "Update in progress"
        );
    });
}

#[test]
fn a_waiting_update_goes_before_a_later_operation() {
    for succeeds in [false, true] {
        let runtime = tokio::runtime::Builder::new_current_thread().build().unwrap();
        let coordinator = Arc::new(UpdateCoordinator::default());
        runtime.block_on(async {
            let held = coordinator.try_runtime_operation().unwrap();
            let order = Arc::new(Mutex::new(Vec::new()));

            let (first, seen) = (coordinator.clone(), order.clone());
            let update = tokio::spawn(async move {
                let mut update = begin(&first).await.unwrap();
                seen.lock().unwrap().push("begun");
                tokio::task::yield_now().await;
                if succeeds {
                    update.keep_runtime_closed();
                }
                seen.lock().unwrap().push("given up");
                drop(update);
            });
            tokio::task::yield_now().await;
            assert!(coordinator.try_runtime_operation().is_err());

            let (second, seen) = (coordinator.clone(), order.clone());
            let operation = tokio::spawn(async move {
                let share = second.operation_lock().unwrap().read_owned().await;
                seen.lock().unwrap().push("turn of the operation");
                second.runtime_operation(share).map(|_| ())
            });
            tokio::task::yield_now().await;
            assert!(order.lock().unwrap().is_empty());

            drop(held);
            update.await.unwrap();
            let result = operation.await.unwrap();
            assert_eq!(
                *order.lock().unwrap(),
                vec!["begun", "given up", "turn of the operation"]
            );
            if succeeds {
                assert_eq!(result, Err("Update in progress".to_string()));
            } else {
                assert_eq!(result, Ok(()));
            }
        });
    }
}

#[test]
fn decisions_follow_the_flag() {
    assert_eq!(check_open(false), Ok(()));
    assert_eq!(check_open(true), Err("Update in progress".to_string()));
    let lock = UpdateCoordinator::default().update_lock();
    let share = || lock.clone().try_read_owned().unwrap();
    assert!(let_in(share(), false).is_ok());
    assert_eq!(let_in(share(), true).unwrap_err(), "Update in progress");
    assert!(reopens(false) && !reopens(true));
}

fn prepared() -> PreparedUpdate {
    PreparedUpdate {
        platform: Platform::Unix,
        staging: "/s".to_string(),
        target: "/t".to_string(),
        plan: UpdatePlan {
            backup: vec![],
            apply: vec![],
        },
    }
}

#[test]
fn a_session_keeps_the_runtime_closed_after_success_only() {
    let runtime = tokio::runtime::Runtime::new().unwrap();
    let coordinator = Arc::new(UpdateCoordinator::default());
    runtime.block_on(async {
        for succeeds in [false, true] {
            let mut session = install_prepared_update("/s".to_string(), "/t".to_string());
            assert_eq!(session.stage(), SessionStage::Prepare);
            session.prepared(Ok(prepared()));
            assert_eq!(session.stage(), SessionStage::Enter);
            session.entered(begin(&coordinator).await);
            assert_eq!(session.stage(), SessionStage::Quiesce);
            assert!(coordinator.is_update_in_progress());
            let update = session.quiesced(Ok(()));
            assert_eq!(update.unwrap().target, "/t");
            assert_eq!(session.stage(), SessionStage::Install);
            let result = if succeeds {
                Ok(())
            } else {
                Err("broken".to_string())
            };
            session.installed(result.clone());
            assert_eq!(session.outcome(), Some(result));
            drop(session);
            assert_eq!(coordinator.is_update_in_progress(), succeeds);
        }
    });
}

#[test]
fn a_session_ends_at_the_first_error() {
    let runtime = tokio::runtime::Runtime::new().unwrap();
    let coordinator = Arc::new(UpdateCoordinator::default());
    let fault = || "fault".to_string();
    let mut session = install_prepared_update("/s".to_string(), "/t".to_string());
    assert_eq!(session.outcome(), None);
    session.prepared(Err(fault()));
    assert_eq!(session.stage(), SessionStage::Finished);
    assert_eq!(session.outcome(), Some(Err(fault())));
    assert!(!coordinator.is_update_in_progress());

    let mut session = install_prepared_update("/s".to_string(), "/t".to_string());
    session.prepared(Ok(prepared()));
    session.entered(Err(fault()));
    assert_eq!(session.outcome(), Some(Err(fault())));

    runtime.block_on(async {
        let mut session = install_prepared_update("/s".to_string(), "/t".to_string());
        session.prepared(Ok(prepared()));
        session.entered(begin(&coordinator).await);
        assert!(session.quiesced(Err(fault())).is_none());
        assert_eq!(session.outcome(), Some(Err(fault())));
        assert!(!coordinator.is_update_in_progress());
    });
}
