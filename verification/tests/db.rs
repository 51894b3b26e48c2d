use jmapsyncd::db::{
    generate_id, integrity_verdict, IntegrityFailure, PrimaryTxn, TxnStatement, TxnStep,
};

#[test]
fn test_generate_id_is_unique() {
    let id1 = generate_id();
    let id2 = generate_id();
    assert_ne!(id1, id2);
}

#[test]
fn test_generate_id_is_uuid() {
    let id = generate_id();
    assert_eq!(id.chars().filter(|&c| c == '-').count(), 4);
}

#[test]
fn generated_id_has_v4_form() {
    let id: Vec<char> = generate_id().chars().collect();
    assert_eq!(id.len(), 36);
    for (i, c) in id.iter().enumerate() {
        if [8, 13, 18, 23].contains(&i) {
            assert_eq!(*c, '-');
        } else {
            assert!(c.is_ascii_hexdigit() && !c.is_ascii_uppercase());
        }
    }
    assert_eq!(id[14], '4');
    assert!(['8', '9', 'a', 'b'].contains(&id[19]));
}

#[test]
fn integrity_ok() {
    assert_eq!(integrity_verdict("ok"), Ok(()));
}

#[test]
fn integrity_failure_keeps_report() {
    assert_eq!(
        integrity_verdict("row 3 missing from index"),
        Err(IntegrityFailure { report: "row 3 missing from index".to_string() })
    );
    assert!(integrity_verdict("OK").is_err());
    assert!(integrity_verdict("").is_err());
}

/// Drives the transaction with the given statement outcomes and returns the
/// statements run and the result.
fn drive(outcomes: &[Result<(), &'static str>]) -> (Vec<TxnStatement>, Result<(), &'static str>) {
    let (mut state, first) = PrimaryTxn::begin();
    let mut ran = vec![first];
    for outcome in outcomes {
        match state.advance(*outcome) {
            TxnStep::Run { state: next, statement } => {
                ran.push(statement);
                state = next;
            }
            TxnStep::Done { result } => return (ran, result),
        }
    }
    panic!("transaction did not finish");
}

use TxnStatement::{Begin, ClearPrimary, Commit, MarkPrimary, Rollback};

#[test]
fn txn_all_succeed_commits() {
    let (ran, result) = drive(&[Ok(()), Ok(()), Ok(()), Ok(())]);
    assert_eq!(ran, vec![Begin, ClearPrimary, MarkPrimary, Commit]);
    assert_eq!(result, Ok(()));
}

#[test]
fn txn_begin_failure_runs_nothing_else() {
    let (ran, result) = drive(&[Err("busy")]);
    assert_eq!(ran, vec![Begin]);
    assert_eq!(result, Err("busy"));
}

#[test]
fn txn_clear_failure_rolls_back() {
    let (ran, result) = drive(&[Ok(()), Err("clear"), Ok(())]);
    assert_eq!(ran, vec![Begin, ClearPrimary, Rollback]);
    assert_eq!(result, Err("clear"));
}

#[test]
fn txn_mark_failure_rolls_back() {
    let (ran, result) = drive(&[Ok(()), Ok(()), Err("mark"), Ok(())]);
    assert_eq!(ran, vec![Begin, ClearPrimary, MarkPrimary, Rollback]);
    assert_eq!(result, Err("mark"));
}

#[test]
fn txn_failed_rollback_is_reported() {
    let (_, result) = drive(&[Ok(()), Err("clear"), Err("rollback")]);
    assert_eq!(result, Err("rollback"));
}

#[test]
fn txn_failed_commit_is_reported() {
    let (ran, result) = drive(&[Ok(()), Ok(()), Ok(()), Err("commit")]);
    assert_eq!(ran, vec![Begin, ClearPrimary, MarkPrimary, Commit]);
    assert_eq!(result, Err("commit"));
}
