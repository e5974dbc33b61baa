//! Retirement gate.

use ferrosa_cluster::controller::bootstrap::retirement_gate::{
    manifest_path, parse_manifest, prerequisite_satisfied, JepsenWindowSummary,
};

#[test]
fn gate_rejects_insufficient_runs() {
    let summary = JepsenWindowSummary {
        runs: 5,
        storm_term_jumps_total: 0,
        runaway_term_repro_advanced: false,
    };
    let err = prerequisite_satisfied(&summary).expect_err("too few runs");
    let msg = err.message();
    assert!(msg.contains("Jepsen run"), "{msg}");
}

#[test]
fn gate_rejects_storm_term_jumps() {
    let summary = JepsenWindowSummary {
        runs: 14,
        storm_term_jumps_total: 1,
        runaway_term_repro_advanced: false,
    };
    let err = prerequisite_satisfied(&summary).expect_err("storm increment");
    let msg = err.message();
    assert!(msg.contains("STORM"), "{msg}");
}

#[test]
fn gate_rejects_runaway_term_advance() {
    let summary = JepsenWindowSummary {
        runs: 14,
        storm_term_jumps_total: 0,
        runaway_term_repro_advanced: true,
    };
    assert!(prerequisite_satisfied(&summary).is_err());
}

#[test]
fn gate_accepts_clean_window() {
    let summary = JepsenWindowSummary {
        runs: 14,
        storm_term_jumps_total: 0,
        runaway_term_repro_advanced: false,
    };
    prerequisite_satisfied(&summary).expect("clean window passes");
}

#[test]
fn parse_manifest_reads_all_three_fields() {
    let text = r#"{
      "runs": 28,
      "storm_term_jumps_total": 0,
      "runaway_term_repro_advanced": false
    }"#;
    let s = parse_manifest(text).unwrap();
    assert_eq!(s.runs, 28);
    assert_eq!(s.storm_term_jumps_total, 0);
    assert!(!s.runaway_term_repro_advanced);
}

#[test]
fn parse_manifest_takes_any_order_and_spacing() {
    let text = "\n{\t\"runaway_term_repro_advanced\" :\ttrue,\"storm_term_jumps_total\":\n 7 \
                ,\r\n\"runs\":18446744073709551615}";
    let s = parse_manifest(text).unwrap();
    assert_eq!(s.runs, u64::MAX);
    assert_eq!(s.storm_term_jumps_total, 7);
    assert!(s.runaway_term_repro_advanced);
}

#[test]
fn manifest_lies_below_the_workspace() {
    let expected = "/work/specs/in-process/sprint-04-jepsen-window.json";
    assert_eq!(manifest_path("/work"), expected);
    assert_eq!(manifest_path("/work/"), expected);
}
