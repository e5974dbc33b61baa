//! Texts, byte formats and bounded indexes.

use ferrosa_cluster::accord::conflict_index::{
    ConflictIndex, ConflictIndexFull, InFlightWrite, TokenRange, TxnStatus,
};
use ferrosa_cluster::accord::delete_target::DeleteTarget;
use ferrosa_cluster::accord::state_machine::choose_execution_time;
use ferrosa_cluster::accord::two_phase_ddl::{DdlOperation, TwoPhaseDdlManager};
use ferrosa_cluster::accord::types::{Timestamp, TxnId};
use ferrosa_cluster::address::PeerAddr;
use ferrosa_cluster::parse::{parse_flag, parse_numeral};
use ferrosa_cluster::text::{append_decimal, append_duration, append_host};

fn ts(micros: u64) -> Timestamp {
    Timestamp::synthetic(micros)
}

#[test]
fn host_ids_are_written_as_uuids_are() {
    for id in [0u128, 1, u128::MAX, 0x0123_4567_89ab_cdef_0123_4567_89ab_cdef] {
        let mut t = String::new();
        append_host(&mut t, id);
        assert_eq!(t, uuid::Uuid::from_u128(id).to_string());
    }
}

#[test]
fn numbers_and_durations_are_written() {
    let mut t = String::new();
    for n in [0u64, 7, 10, u64::MAX] {
        t.clear();
        append_decimal(&mut t, n);
        assert_eq!(t, n.to_string());
    }
    for ms in [0u64, 5, 40, 250, 1_000, 1_500, 6_000, 30_001] {
        t.clear();
        append_duration(&mut t, ms);
        assert_eq!(t, format!("{:?}", std::time::Duration::from_millis(ms)));
    }
}

#[test]
fn numerals_are_read_as_std_reads_them() {
    for text in ["0", "7", "+7", "0012", "", "+", "-1", " 7", "7 ", "18446744073709551615", "18446744073709551616", "1_0"] {
        assert_eq!(parse_numeral(text, u64::MAX), text.parse::<u64>().ok(), "{text:?}");
    }
    assert_eq!(parse_numeral("256", 255), None);
}

#[test]
fn flags_are_read() {
    assert_eq!(parse_flag("true"), Some(true));
    assert_eq!(parse_flag("false"), Some(false));
    assert_eq!(parse_flag("perhaps"), None);
}

#[test]
fn addresses_are_compared_and_written() {
    let a = PeerAddr::new("10.0.0.1", 7000);
    assert_eq!(a.text(), "10.0.0.1:7000");
    assert!(a.same(&a.copied()));
    assert!(!a.same(&a.at_port(7001)));
    assert_eq!(a.at_port(9042).text(), "10.0.0.1:9042");
}

#[test]
fn delete_targets_have_a_fixed_layout() {
    let column = DeleteTarget::Column { table: "ab".to_string(), column: "c".to_string() };
    assert_eq!(column.serialize(), vec![1, 2, 0, 0, 0, b'a', b'b', 1, 0, 0, 0, b'c']);
    let element = DeleteTarget::MapElement {
        table: "t".to_string(),
        column: "".to_string(),
        map_key: vec![0xFF],
    };
    assert_eq!(element.serialize(), vec![2, 1, 0, 0, 0, b't', 0, 0, 0, 0, 1, 0, 0, 0, 0xFF]);
}

#[test]
fn malformed_delete_targets_are_refused() {
    assert_eq!(DeleteTarget::deserialize(&[]), None);
    assert_eq!(DeleteTarget::deserialize(&[3, 0, 0, 0, 0]), None);
    assert_eq!(DeleteTarget::deserialize(&[1, 0, 0]), None);
    assert_eq!(DeleteTarget::deserialize(&[1, 2, 0, 0, 0, b'a']), None);
    let not_text = [1, 1, 0, 0, 0, 0xFF, 0, 0, 0, 0];
    assert_eq!(DeleteTarget::deserialize(&not_text), None);
    let accented = DeleteTarget::Column { table: "é".to_string(), column: "ß".to_string() };
    assert_eq!(DeleteTarget::deserialize(&accented.serialize()), Some(accented));
}

fn in_flight(micros: u64) -> InFlightWrite {
    InFlightWrite {
        txn_id: TxnId(ts(micros)),
        t0: ts(micros),
        accord_ts: None,
        status: TxnStatus::PreAccepted,
    }
}

#[test]
fn conflict_indexes_are_bounded() {
    let mut idx = ConflictIndex::new(2);
    assert_eq!(idx.register(b"k", in_flight(1)), Ok(()));
    assert_eq!(idx.register(b"k", in_flight(2)), Ok(()));
    assert_eq!(idx.register(b"k", in_flight(3)), Err(ConflictIndexFull));
    assert_eq!(idx.max_conflicting_timestamp(b"k"), Some(ts(2)));
    assert_eq!(idx.max_conflicting_timestamp(b"other"), None);
    assert!(idx.deps_before_t0(b"k", &ts(2)).contains(&TxnId(ts(1))));
    assert!(!idx.deps_before_t0(b"k", &ts(2)).contains(&TxnId(ts(2))));
    idx.mark_applied(&TxnId(ts(1)));
    idx.gc_applied();
    assert!(!idx.deps_before_t0(b"k", &ts(9)).contains(&TxnId(ts(1))));
    assert!(!idx.is_empty());
}

#[test]
fn ranges_overlap_at_their_ends() {
    let r = |start: i64, end: i64| TokenRange { start, end };
    assert!(r(0, 5).overlaps(&r(5, 9)));
    assert!(!r(0, 4).overlaps(&r(5, 9)));
    assert!(r(-9, 9).overlaps(&r(0, 0)));
}

#[test]
fn execution_times_pass_what_they_conflict_with() {
    assert_eq!(choose_execution_time(ts(10), None, 1), ts(10));
    assert_eq!(choose_execution_time(ts(10), Some(ts(9)), 1), ts(10));
    let later = choose_execution_time(ts(10), Some(ts(12)), 1);
    assert!(later > ts(12));
}

#[test]
fn schema_change_errors_are_told() {
    let mut m = TwoPhaseDdlManager::default();
    let drop = || DdlOperation::DropTable { table: "ks.t".to_string() };
    assert!(m.submit_marker(TxnId(ts(1)), drop()).is_ok());
    let busy = m.submit_marker(TxnId(ts(2)), drop()).expect_err("busy");
    assert!(busy.message().contains("ks.t"), "{}", busy.message());
    let absent = m.abort_timeout("ks.other", 1_000).expect_err("absent");
    assert!(absent.message().contains("ks.other"), "{}", absent.message());
    assert_eq!(m.timeout(), 30_000);
}
