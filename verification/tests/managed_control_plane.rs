//! The managed control plane: its status, its changes, its audit trail and its tenants' requests.

use std::cell::Cell;
use std::cell::RefCell;

use tsink_server::budget::QueryBudgetError;
use tsink_server::budget::QueryLimitExceeded;
use tsink_server::budget::QueryLimitReason;
use tsink_server::managed_control_plane::fields::normalize_optional_field;
use tsink_server::managed_control_plane::fields::normalize_string_list;
use tsink_server::managed_control_plane::fields::validate_resource_id;
use tsink_server::managed_control_plane::plane::ManagedControlPlane;
use tsink_server::managed_control_plane::plane::ManagedControlPlaneMutationError;
use tsink_server::managed_control_plane::state::accept_state_file;
use tsink_server::managed_control_plane::state::ManagedControlPlaneState;
use tsink_server::managed_control_plane::status::keep_status_projection;
use tsink_server::managed_control_plane::status::modeled_managed_status_projection_retained_bytes;
use tsink_server::managed_control_plane::tenant_policy::ManagedTenantRequestGuard;
use tsink_server::managed_control_plane::tenant_policy::TenantAdmissionSurface;
use tsink_server::managed_control_plane::tenant_policy::TenantRequestError;
use tsink_server::managed_control_plane::types::BackupRunOutcome;
use tsink_server::managed_control_plane::types::DeploymentLifecycleState;
use tsink_server::managed_control_plane::types::Labels;
use tsink_server::managed_control_plane::types::ManagedBackupPolicy;
use tsink_server::managed_control_plane::types::ManagedBackupPolicyApplyRequest;
use tsink_server::managed_control_plane::types::ManagedBackupRunRecordRequest;
use tsink_server::managed_control_plane::types::ManagedControlPlaneActor;
use tsink_server::managed_control_plane::types::ManagedControlPlaneAuditEntry;
use tsink_server::managed_control_plane::types::ManagedControlPlaneAuditFilter;
use tsink_server::managed_control_plane::types::ManagedDeployment;
use tsink_server::managed_control_plane::types::ManagedDeploymentProvisionRequest;
use tsink_server::managed_control_plane::types::ManagedMaintenanceApplyRequest;
use tsink_server::managed_control_plane::types::ManagedMaintenancePolicy;
use tsink_server::managed_control_plane::types::ManagedTenant;
use tsink_server::managed_control_plane::types::ManagedTenantApplyRequest;
use tsink_server::managed_control_plane::types::ManagedTenantLifecycleRequest;
use tsink_server::managed_control_plane::types::ManagedUpgradeApplyRequest;
use tsink_server::managed_control_plane::types::ManagedUpgradePlan;
use tsink_server::managed_control_plane::types::TenantLifecycleState;
use tsink_server::managed_control_plane::types::UpgradeRolloutState;
use tsink_server::ordered::KeyMap;

const STATE_PATH: &str = "data/control-plane/state.json";

fn actor() -> ManagedControlPlaneActor {
    ManagedControlPlaneActor { id: "test-admin".to_string(), scope: "test".to_string() }
}

fn labels(pairs: &[(&str, &str)]) -> Labels {
    let mut labels = Labels::new();
    for (name, value) in pairs {
        labels.insert(name.to_string(), value.to_string());
    }
    labels
}

fn deployment_request(deployment_id: &str) -> ManagedDeploymentProvisionRequest {
    ManagedDeploymentProvisionRequest {
        deployment_id: deployment_id.to_string(),
        display_name: Some(format!("Deployment {deployment_id}")),
        region: Some("us-east-1".to_string()),
        plan: Some("ha".to_string()),
        lifecycle: Some(DeploymentLifecycleState::Ready),
        ..ManagedDeploymentProvisionRequest::default()
    }
}

fn kept(_state: &ManagedControlPlaneState) -> Result<(), String> {
    Ok(())
}

fn go_on() -> Result<(), QueryBudgetError> {
    Ok(())
}

fn grant(_bytes: u64) -> Result<(), QueryBudgetError> {
    Ok(())
}

fn status_projection_test_deployment(
    id: &str,
    region: &str,
    plan: &str,
    lifecycle: DeploymentLifecycleState,
    backup_enabled: bool,
    maintenance_active: bool,
    upgrade: (UpgradeRolloutState, Option<&str>, Option<&str>),
) -> ManagedDeployment {
    let (upgrade_state, desired_version, observed_version) = upgrade;
    ManagedDeployment {
        id: id.to_string(),
        display_name: format!("display {id}"),
        region: region.to_string(),
        plan: plan.to_string(),
        control_plane_endpoint: Some(format!("https://cp-{id}.example")),
        data_plane_endpoint: Some(format!("https://dp-{id}.example")),
        object_store_path: Some(format!("s3://bucket/{id}")),
        lifecycle,
        labels: labels(&[("environment", "test")]),
        created_unix_ms: 101,
        updated_unix_ms: 102,
        backup_policy: ManagedBackupPolicy {
            enabled: backup_enabled,
            ..ManagedBackupPolicy::default()
        },
        maintenance: ManagedMaintenancePolicy {
            active: maintenance_active,
            reason: Some("maintenance diagnostic".to_string()),
            ..ManagedMaintenancePolicy::default()
        },
        upgrade: ManagedUpgradePlan {
            desired_version: desired_version.map(str::to_string),
            observed_version: observed_version.map(str::to_string),
            state: upgrade_state,
            notes: Some("upgrade diagnostic".to_string()),
            ..ManagedUpgradePlan::default()
        },
    }
}

fn status_projection_test_store() -> ManagedControlPlane {
    let mut state = ManagedControlPlaneState::new(777);
    state.deployments.insert(
        "z-map-key".to_string(),
        status_projection_test_deployment(
            "deployment-alpha",
            "region-\"alpha",
            "plan-alpha\n",
            DeploymentLifecycleState::Ready,
            false,
            false,
            (UpgradeRolloutState::Complete, Some("2.0.0"), None),
        ),
    );
    state.deployments.insert(
        "a-map-key".to_string(),
        status_projection_test_deployment(
            "deployment-zeta",
            "region-zeta",
            "plan-zeta",
            DeploymentLifecycleState::Provisioning,
            true,
            true,
            (UpgradeRolloutState::InProgress, Some("3.0.0"), Some("2.9.0")),
        ),
    );
    state.tenants.insert(
        "Current-Tenant-Key".to_string(),
        ManagedTenant {
            id: "tenant-value-id".to_string(),
            deployment_id: "deployment-zeta".to_string(),
            display_name: "Current \"Tenant\"\n".to_string(),
            lifecycle: TenantLifecycleState::Suspended,
            retention_days: Some(31),
            storage_limit_bytes: Some(1_234_567),
            ingest_rate_limit_per_sec: Some(8_765),
            query_concurrency_limit: Some(9),
            labels: labels(&[("z-label", "z-value\n"), ("a-label", "a-\"value")]),
            created_unix_ms: 201,
            updated_unix_ms: 202,
            lifecycle_note: Some("billing \"hold\"\n".to_string()),
        },
    );
    state.tenants.insert(
        "other-tenant".to_string(),
        ManagedTenant {
            id: "other-tenant".to_string(),
            deployment_id: "deployment-alpha".to_string(),
            display_name: "Other Tenant".to_string(),
            lifecycle: TenantLifecycleState::Active,
            retention_days: None,
            storage_limit_bytes: None,
            ingest_rate_limit_per_sec: None,
            query_concurrency_limit: None,
            labels: labels(&[]),
            created_unix_ms: 301,
            updated_unix_ms: 302,
            lifecycle_note: None,
        },
    );
    state.audit_entries.push(ManagedControlPlaneAuditEntry {
        seq: 1,
        unix_ms: 401,
        actor_id: "status-test".to_string(),
        actor_scope: "test".to_string(),
        operation: "fixture".to_string(),
        target_kind: "control-plane".to_string(),
        target_id: "fixture".to_string(),
        outcome: "success".to_string(),
        detail: Some("not retained by status projection".to_string()),
    });
    ManagedControlPlane::open(Some(STATE_PATH.to_string()), state)
}

fn tenant_plane(policy: ManagedTenantApplyRequest) -> ManagedControlPlane {
    let mut plane = ManagedControlPlane::open(None, ManagedControlPlaneState::new(0));
    plane
        .provision_deployment(&actor(), &deployment_request("prod"), 1, kept)
        .expect("the deployment is made");
    plane
        .apply_tenant(
            &actor(),
            &ManagedTenantApplyRequest {
                tenant_id: "acme".to_string(),
                deployment_id: Some("prod".to_string()),
                lifecycle: Some(TenantLifecycleState::Active),
                ..policy
            },
            2,
            kept,
        )
        .expect("the tenant is made");
    plane
}

fn ask(
    plane: &mut ManagedControlPlane,
    surface: TenantAdmissionSurface,
    units: usize,
    stored: Option<u64>,
    now: u64,
) -> Result<ManagedTenantRequestGuard, TenantRequestError> {
    plane.admit_tenant_request("acme", surface, units, stored, now).expect("the tenant is known")
}

#[test]
fn status_projection_preserves_all_legacy_inputs_and_map_order() {
    let store = status_projection_test_store();
    let legacy_status = store.status_snapshot();
    let legacy_deployments = store.deployment_summaries();
    let legacy_current_tenant = store.tenant_snapshot("Current-Tenant-Key");
    let held = Cell::new(0u64);
    let (projection, accounted_bytes) = store
        .status_projection_for_with_execution(
            "Current-Tenant-Key",
            &go_on,
            |bytes: u64| {
                held.set(bytes);
                Ok(())
            },
            |bytes: u64| {
                held.set(bytes);
                Ok(())
            },
        )
        .expect("schema-complete managed status projection should succeed");
    assert_eq!(projection.status, legacy_status);
    assert_eq!(projection.deployments, legacy_deployments);
    assert_eq!(projection.current_tenant, legacy_current_tenant);
    assert_eq!(
        projection
            .deployments
            .iter()
            .map(|deployment| deployment.id.as_str())
            .collect::<Vec<_>>(),
        vec!["deployment-zeta", "deployment-alpha"],
        "deployment summaries must preserve map key order rather than sort by value id"
    );
    let tenant_labels =
        &projection.current_tenant.as_ref().expect("current tenant should be present").labels;
    assert_eq!(
        (0..tenant_labels.len())
            .map(|index| tenant_labels.key_at(index).as_str())
            .collect::<Vec<_>>(),
        vec!["a-label", "z-label"]
    );
    assert_eq!(accounted_bytes, modeled_managed_status_projection_retained_bytes(&projection));
    assert_eq!(held.get(), accounted_bytes);
    assert_eq!(projection.status.state_path.as_deref(), Some(STATE_PATH));
    assert!(projection.status.durable);
    assert_eq!(projection.status.deployments_total, 2);
    assert_eq!(projection.status.tenants_total, 2);
    assert_eq!(projection.status.active_tenants_total, 1);
    assert_eq!(projection.status.maintenance_active_total, 1);
    assert_eq!(projection.status.upgrade_rollouts_in_progress_total, 1);
    assert_eq!(projection.status.backup_policies_total, 1);
    assert_eq!(projection.status.audit_records_total, 1);
    assert_eq!(projection.status.updated_unix_ms, 777);
}

#[test]
fn status_projection_enforces_exact_peak_before_any_output_clone() {
    let store = status_projection_test_store();
    let peak = Cell::new(0u64);
    let raise = |bytes: u64| {
        peak.set(peak.get().max(bytes));
        Ok(())
    };
    let (_, exact_bytes) = store
        .status_projection_for_with_execution("Current-Tenant-Key", &go_on, raise, raise)
        .expect("calibration projection should succeed");
    assert!(exact_bytes > 0);
    assert_eq!(
        peak.get(),
        exact_bytes,
        "the complete retained projection must be its materialization peak"
    );

    let within = |limit: u64| {
        move |bytes: u64| {
            if bytes <= limit {
                Ok(())
            } else {
                Err(QueryBudgetError::LimitExceeded(QueryLimitExceeded {
                    reason: QueryLimitReason::PerQueryMemoryBytes,
                    limit,
                    current: 0,
                    requested: bytes,
                }))
            }
        }
    };
    let (_, charged) = store
        .status_projection_for_with_execution(
            "Current-Tenant-Key",
            &go_on,
            within(exact_bytes),
            within(exact_bytes),
        )
        .expect("the exact managed status peak should pass");
    assert_eq!(charged, exact_bytes);

    let resized = Cell::new(false);
    let error = store
        .status_projection_for_with_execution(
            "Current-Tenant-Key",
            &go_on,
            within(exact_bytes - 1),
            |_bytes: u64| {
                resized.set(true);
                Ok(())
            },
        )
        .expect_err("one byte below the complete managed status peak must reject");
    match error {
        QueryBudgetError::LimitExceeded(exceeded) => {
            assert_eq!(exceeded.reason, QueryLimitReason::PerQueryMemoryBytes);
            assert_eq!(exceeded.current, 0);
            assert_eq!(exceeded.requested, exact_bytes);
        }
        other => panic!("unexpected managed status projection error: {other:?}"),
    }
    assert!(!resized.get(), "nothing is copied once the peak was refused");

    let (projection, _) = store
        .status_projection_for_with_execution("Current-Tenant-Key", &go_on, raise, raise)
        .expect("calibration projection should succeed");
    let (projection, charged) =
        keep_status_projection(projection, exact_bytes + 7, &go_on, within(exact_bytes + 7))
            .expect("what is held is charged exactly");
    assert_eq!(charged, exact_bytes + 7);
    keep_status_projection(projection, exact_bytes + 7, &go_on, within(exact_bytes + 6))
        .expect_err("one byte below what is held must reject");
}

#[test]
fn status_projection_honors_precancellation_without_residual_memory() {
    let store = status_projection_test_store();
    let reserved = Cell::new(false);
    let error = store
        .status_projection_for_with_execution(
            "Current-Tenant-Key",
            &|| Err(QueryBudgetError::Cancelled),
            |_bytes: u64| {
                reserved.set(true);
                Ok(())
            },
            grant,
        )
        .expect_err("a pre-cancelled managed status projection must stop");
    assert!(matches!(error, QueryBudgetError::Cancelled));
    assert!(!reserved.get());
}

#[test]
fn managed_control_plane_persists_hosted_state_and_audit() {
    let file = RefCell::new(ManagedControlPlaneState::new(1));
    let persist = |state: &ManagedControlPlaneState| {
        *file.borrow_mut() = state.copied();
        Ok(())
    };
    let mut store = ManagedControlPlane::open(
        Some(STATE_PATH.to_string()),
        ManagedControlPlaneState::new(1),
    );

    let deployment = store
        .provision_deployment(
            &actor(),
            &ManagedDeploymentProvisionRequest {
                deployment_id: "prod-us-east".to_string(),
                display_name: Some("Production US East".to_string()),
                region: Some("us-east-1".to_string()),
                plan: Some("ha".to_string()),
                control_plane_endpoint: Some("https://cp.example".to_string()),
                data_plane_endpoint: Some("https://dp.example".to_string()),
                object_store_path: Some("s3://tsink-prod-east".to_string()),
                lifecycle: Some(DeploymentLifecycleState::Ready),
                labels: Some(labels(&[("environment", "prod")])),
            },
            1_000,
            persist,
        )
        .expect("deployment should provision");
    assert_eq!(deployment.lifecycle, DeploymentLifecycleState::Ready);

    let deployment = store
        .apply_backup_policy(
            &actor(),
            &ManagedBackupPolicyApplyRequest {
                deployment_id: "prod-us-east".to_string(),
                enabled: Some(true),
                schedule: Some("0 */6 * * *".to_string()),
                retention_copies: Some(14),
                target: Some("s3://tsink-prod-east/backups".to_string()),
            },
            1_001,
            persist,
        )
        .expect("backup policy should apply");
    assert!(deployment.backup_policy.enabled);

    let deployment = store
        .record_backup_run(
            &actor(),
            &ManagedBackupRunRecordRequest {
                deployment_id: "prod-us-east".to_string(),
                outcome: BackupRunOutcome::Success,
                completed_unix_ms: Some(1234),
                snapshot_path: Some("/srv/tsink-admin/backups/prod-us-east-20260307".to_string()),
                error: None,
            },
            1_235,
            persist,
        )
        .expect("backup run should record");
    assert_eq!(deployment.backup_policy.last_success_unix_ms, Some(1234));

    let deployment = store
        .apply_maintenance(
            &actor(),
            &ManagedMaintenanceApplyRequest {
                deployment_id: "prod-us-east".to_string(),
                active: Some(true),
                reason: Some("kernel rollout".to_string()),
                window_start_unix_ms: Some(10),
                window_end_unix_ms: Some(20),
                allowed_mutations: Some(vec!["backup".to_string(), "upgrade".to_string()]),
            },
            1_236,
            persist,
        )
        .expect("maintenance should apply");
    assert!(deployment.maintenance.active);

    let deployment = store
        .apply_upgrade(
            &actor(),
            &ManagedUpgradeApplyRequest {
                deployment_id: "prod-us-east".to_string(),
                desired_version: Some("1.2.3".to_string()),
                observed_version: Some("1.2.2".to_string()),
                channel: Some("stable".to_string()),
                strategy: Some("canary".to_string()),
                state: Some(UpgradeRolloutState::InProgress),
                notes: Some("begin with canary ring".to_string()),
            },
            1_237,
            persist,
        )
        .expect("upgrade plan should apply");
    assert_eq!(deployment.upgrade.state, UpgradeRolloutState::InProgress);

    let tenant = store
        .apply_tenant(
            &actor(),
            &ManagedTenantApplyRequest {
                tenant_id: "acme".to_string(),
                deployment_id: Some("prod-us-east".to_string()),
                display_name: Some("Acme".to_string()),
                lifecycle: Some(TenantLifecycleState::Active),
                retention_days: Some(30),
                storage_limit_bytes: Some(1_000_000),
                ingest_rate_limit_per_sec: Some(10_000),
                query_concurrency_limit: Some(8),
                labels: Some(labels(&[("tier", "gold")])),
            },
            1_238,
            persist,
        )
        .expect("tenant should apply");
    assert_eq!(tenant.lifecycle, TenantLifecycleState::Active);

    let tenant = store
        .apply_tenant_lifecycle(
            &actor(),
            &ManagedTenantLifecycleRequest {
                tenant_id: "acme".to_string(),
                lifecycle: TenantLifecycleState::Suspended,
                note: Some("billing hold".to_string()),
            },
            1_239,
            persist,
        )
        .expect("tenant lifecycle should update");
    assert_eq!(tenant.lifecycle, TenantLifecycleState::Suspended);

    let snapshot = store.state_snapshot();
    assert_eq!(snapshot.deployments.len(), 1);
    assert_eq!(snapshot.tenants.len(), 1);
    assert_eq!(snapshot.status.audit_records_total, 7);

    let reopened =
        ManagedControlPlane::open(Some(STATE_PATH.to_string()), file.borrow().copied());
    let snapshot = reopened.state_snapshot();
    assert_eq!(snapshot.deployments[0].backup_policy.retention_copies, 14);
    assert_eq!(snapshot.tenants[0].lifecycle, TenantLifecycleState::Suspended);
    assert_eq!(snapshot.status.audit_records_total, 7);
}

#[test]
fn managed_control_plane_audits_failed_mutations_without_committing_them() {
    let mut store = ManagedControlPlane::open(None, ManagedControlPlaneState::new(1));
    let err = store
        .apply_backup_policy(
            &actor(),
            &ManagedBackupPolicyApplyRequest {
                deployment_id: "missing".to_string(),
                enabled: Some(true),
                schedule: Some("0 * * * *".to_string()),
                retention_copies: Some(7),
                target: Some("s3://missing".to_string()),
            },
            2,
            kept,
        )
        .expect_err("missing deployment should fail");
    assert!(matches!(
        &err,
        ManagedControlPlaneMutationError::Rejected(detail)
            if detail.contains("unknown deployment")
    ));

    let snapshot = store.state_snapshot();
    assert!(snapshot.deployments.is_empty());
    assert_eq!(snapshot.status.audit_records_total, 1);
    let audit = store.query_audit(ManagedControlPlaneAuditFilter::default());
    assert_eq!(audit[0].outcome, "error");
}

#[test]
fn managed_control_plane_disk_quota_rejection_does_not_publish_candidate_state() {
    let mut store = ManagedControlPlane::open(
        Some(STATE_PATH.to_string()),
        ManagedControlPlaneState::new(1),
    );
    let err = store
        .provision_deployment(&actor(), &deployment_request("quota-rejected"), 2, |offered| {
            assert_eq!(offered.deployments.len(), 1);
            Err("disk quota exceeded".to_string())
        })
        .expect_err("growing the state file should exceed the quota");
    assert_eq!(
        err,
        ManagedControlPlaneMutationError::Persistence("disk quota exceeded".to_string())
    );
    assert_eq!(
        err.message(),
        "managed control-plane state persistence failed: disk quota exceeded"
    );
    let state = store.state_snapshot();
    assert!(state.deployments.is_empty());
    assert_eq!(state.status.audit_records_total, 0);
}

#[test]
fn state_files_are_told_by_their_head() {
    assert_eq!(accept_state_file("p", "tsink-managed-control-plane", 1), Ok(()));
    assert_eq!(
        accept_state_file("p", "other", 1),
        Err("managed control-plane state p has unsupported magic 'other'".to_string())
    );
    assert_eq!(
        accept_state_file("p", "tsink-managed-control-plane", 2),
        Err("managed control-plane state p has unsupported schema version 2".to_string())
    );
}

#[test]
fn audit_answers_come_latest_first_and_filtered() {
    let mut plane = ManagedControlPlane::open(None, ManagedControlPlaneState::new(0));
    for (now, id) in [(1, "a"), (2, "b"), (3, "c")] {
        plane
            .provision_deployment(&actor(), &deployment_request(id), now, kept)
            .expect("the deployment is made");
    }
    let all = plane.query_audit(ManagedControlPlaneAuditFilter::default());
    assert_eq!(all.iter().map(|entry| entry.seq).collect::<Vec<_>>(), vec![3, 2, 1]);
    let two = plane.query_audit(ManagedControlPlaneAuditFilter {
        limit: 2,
        ..ManagedControlPlaneAuditFilter::default()
    });
    assert_eq!(two.iter().map(|entry| entry.target_id.as_str()).collect::<Vec<_>>(), vec![
        "c", "b"
    ]);
    let one = plane.query_audit(ManagedControlPlaneAuditFilter {
        limit: 0,
        target_kind: Some(" deployment ".to_string()),
        target_id: Some("b".to_string()),
        operation: Some("provision_deployment".to_string()),
    });
    assert_eq!(one.len(), 1);
    assert_eq!(one[0].unix_ms, 2);
    assert_eq!(one[0].actor_id, "test-admin");
}

#[test]
fn identifiers_and_lists_are_cleaned() {
    assert_eq!(validate_resource_id("id", "  prod-1 "), Ok("prod-1".to_string()));
    assert!(validate_resource_id("id", "  ").is_err());
    assert_eq!(
        validate_resource_id("id", "a\u{7}b"),
        Err("id must not contain control characters".to_string())
    );
    assert_eq!(
        validate_resource_id("id", &"x".repeat(129)),
        Err("id must be at most 128 characters".to_string())
    );
    assert!(validate_resource_id("id", &"x".repeat(128)).is_ok());
    assert!(validate_resource_id("id", &"x".repeat(129)).is_err());
    assert_eq!(normalize_optional_field(&Some("  ".to_string())), None);
    assert_eq!(normalize_optional_field(&Some(" a\u{3000}".to_string())), Some("a".to_string()));
    assert_eq!(
        normalize_string_list(
            &vec!["b".to_string(), " a ".to_string(), "b".to_string()],
            "allowedMutations"
        ),
        Ok(vec!["a".to_string(), "b".to_string()])
    );
}

#[test]
fn tenants_need_a_ready_deployment_and_deployments_outlive_their_tenants() {
    let mut plane = tenant_plane(ManagedTenantApplyRequest::default());
    let decommission = ManagedDeploymentProvisionRequest {
        lifecycle: Some(DeploymentLifecycleState::Decommissioned),
        ..deployment_request("prod")
    };
    assert!(plane.provision_deployment(&actor(), &decommission, 3, kept).is_err());
    plane
        .apply_tenant_lifecycle(
            &actor(),
            &ManagedTenantLifecycleRequest {
                tenant_id: "acme".to_string(),
                lifecycle: TenantLifecycleState::Deleted,
                note: None,
            },
            4,
            kept,
        )
        .expect("the tenant is deleted");
    assert!(plane.provision_deployment(&actor(), &decommission, 5, kept).is_ok());
    assert!(plane
        .apply_tenant_lifecycle(
            &actor(),
            &ManagedTenantLifecycleRequest {
                tenant_id: "acme".to_string(),
                lifecycle: TenantLifecycleState::Active,
                note: None,
            },
            6,
            kept,
        )
        .is_err());
}

#[test]
fn queries_of_a_tenant_share_their_units() {
    let mut plane = tenant_plane(ManagedTenantApplyRequest {
        query_concurrency_limit: Some(2),
        ..ManagedTenantApplyRequest::default()
    });
    let first = ask(&mut plane, TenantAdmissionSurface::Query, 0, None, 10).expect("one fits");
    let second = ask(&mut plane, TenantAdmissionSurface::Query, 1, None, 10).expect("two fit");
    let refusal = ask(&mut plane, TenantAdmissionSurface::Query, 1, None, 10)
        .expect_err("a third does not");
    assert_eq!(refusal.status, 429);
    assert_eq!(refusal.code, "tenant_managed_query_concurrency_limit_exceeded");
    assert_eq!(
        refusal.message,
        "tenant 'acme' exceeded managed query concurrency limit: 3 > 2"
    );
    plane.release_tenant_request("acme", first);
    let third = ask(&mut plane, TenantAdmissionSurface::Query, 1, None, 10).expect("room again");
    plane.release_tenant_request("acme", second);
    plane.release_tenant_request("acme", third);
    assert!(plane
        .admit_tenant_request("unknown", TenantAdmissionSurface::Query, 1, None, 10)
        .is_none());
}

#[test]
fn ingest_is_bounded_by_rate_and_storage() {
    let mut plane = tenant_plane(ManagedTenantApplyRequest {
        ingest_rate_limit_per_sec: Some(10),
        storage_limit_bytes: Some(100),
        ..ManagedTenantApplyRequest::default()
    });
    assert!(ask(&mut plane, TenantAdmissionSurface::Ingest, 6, Some(99), 5_000).is_ok());
    let fast = ask(&mut plane, TenantAdmissionSurface::Ingest, 5, None, 5_500)
        .expect_err("eleven rows in a second are too many");
    assert_eq!(fast.code, "tenant_managed_ingest_rate_limit_exceeded");
    assert_eq!(
        fast.message,
        "tenant 'acme' exceeded managed ingest rate limit: 11 > 10 rows/sec"
    );
    assert!(ask(&mut plane, TenantAdmissionSurface::Ingest, 5, None, 6_001).is_ok());
    let full = ask(&mut plane, TenantAdmissionSurface::Ingest, 1, Some(100), 9_000)
        .expect_err("the storage is used up");
    assert_eq!((full.status, full.code), (413, "tenant_managed_storage_limit_exceeded"));
    assert_eq!(full.message, "tenant 'acme' exceeded managed storage limit: 100 >= 100");
}

#[test]
fn suspended_tenants_are_turned_away() {
    let mut plane = tenant_plane(ManagedTenantApplyRequest::default());
    plane
        .apply_tenant_lifecycle(
            &actor(),
            &ManagedTenantLifecycleRequest {
                tenant_id: "acme".to_string(),
                lifecycle: TenantLifecycleState::Suspended,
                note: None,
            },
            3,
            kept,
        )
        .expect("the tenant is suspended");
    let refusal = ask(&mut plane, TenantAdmissionSurface::Metadata, 1, None, 10)
        .expect_err("a suspended tenant is turned away");
    assert_eq!((refusal.status, refusal.code), (403, "tenant_managed_lifecycle_blocked"));
    assert_eq!(
        refusal.message,
        "tenant 'acme' is suspended and not accepting data-plane traffic"
    );
}

#[test]
fn a_projection_asks_the_budget_at_each_label() {
    let asked = |labels: &[(&str, &str)]| {
        let mut map = KeyMap::new();
        for (name, value) in labels {
            map.insert(name.to_string(), value.to_string());
        }
        let plane = tenant_plane(ManagedTenantApplyRequest {
            labels: Some(map),
            ..ManagedTenantApplyRequest::default()
        });
        let count = Cell::new(0usize);
        let counting = || {
            count.set(count.get() + 1);
            Ok(())
        };
        let (projection, _) = plane
            .status_projection_for_with_execution("acme", &counting, grant, grant)
            .expect("the budget grants all");
        assert_eq!(projection.current_tenant, plane.tenant_snapshot("acme"));
        for stop in 1..=count.get() {
            let left = Cell::new(stop);
            let stopping = || {
                left.set(left.get() - 1);
                if left.get() == 0 { Err(QueryBudgetError::Cancelled) } else { Ok(()) }
            };
            assert_eq!(
                plane.status_projection_for_with_execution("acme", &stopping, grant, grant),
                Err(QueryBudgetError::Cancelled)
            );
        }
        count.get()
    };
    let without = asked(&[]);
    assert_eq!(asked(&[("a", "1")]), without + 2);
    assert_eq!(asked(&[("a", "1"), ("b", "2"), ("c", "3")]), without + 6);
}

#[test]
fn a_status_that_was_stopped_is_not_kept() {
    let store = status_projection_test_store();
    let (projection, charged) = store
        .status_projection_for_with_execution("Current-Tenant-Key", &go_on, grant, grant)
        .expect("the status should be shown");
    let late = keep_status_projection(
        projection,
        charged,
        &|| Err(QueryBudgetError::DeadlineExceeded),
        grant,
    )
    .expect_err("the time is over");
    assert_eq!(late, QueryBudgetError::DeadlineExceeded);
    let early = store
        .status_projection_for_with_execution(
            "Current-Tenant-Key",
            &|| Err(QueryBudgetError::DeadlineExceeded),
            |_bytes: u64| panic!("nothing is reserved"),
            |_bytes: u64| panic!("nothing is charged"),
        )
        .expect_err("the time is over");
    assert_eq!(early, QueryBudgetError::DeadlineExceeded);
}
