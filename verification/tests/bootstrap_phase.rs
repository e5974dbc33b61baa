//! Phases and their errors.

use ferrosa_cluster::controller::bootstrap::phase::{BootstrapError, BootstrapPhase};

/// Each phase carries pre/post conditions through
/// the `Result<(), BootstrapError>` type and `BootstrapError`
/// distinguishes phases by name.
#[test]
fn bootstrap_phase_pre_post_conditions() {
    // Every phase must round-trip through the `as_str` table.
    for p in BootstrapPhase::all() {
        assert!(!p.as_str().is_empty(), "phase {p:?} missing label");
    }

    // The eight phases are enumerated; if a future change adds a
    // ninth, this assertion forces the docs to be updated.
    assert_eq!(BootstrapPhase::all().len(), 8);

    // BootstrapError distinguishes phases by `name`.
    let a = BootstrapError::phase(BootstrapPhase::DeliverInvites, "boom");
    let b = BootstrapError::phase(BootstrapPhase::WaitLeader, "boom");
    assert_eq!(a.name(), BootstrapPhase::DeliverInvites);
    assert_eq!(b.name(), BootstrapPhase::WaitLeader);
    assert_ne!(a.name(), b.name());

    // Display includes the phase id so log scraping can group by it.
    let rendered = a.message();
    assert!(
        rendered.contains("deliver_invites"),
        "expected phase id in display: {rendered}"
    );

    // Pre/post-condition signatures: a `Result<(), BootstrapError>`
    // returned from a closure typed for `precondition` is valid.
    let pre: fn() -> Result<(), BootstrapError> = || Ok(());
    let post: fn() -> Result<(), BootstrapError> = || {
        Err(BootstrapError::phase(
            BootstrapPhase::Promote,
            "post failed",
        ))
    };
    assert!(pre().is_ok());
    let err = post().unwrap_err();
    assert_eq!(err.name(), BootstrapPhase::Promote);
}
