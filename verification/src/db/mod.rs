//! Decision logic of the sync database: row identifiers, the verdict of the
//! integrity check, and the transaction that moves an email's primary mailbox.
//!
//! The statements themselves run against SQLite outside this crate; the
//! functions here decide what runs next and what the caller is told.

pub mod models;

use vstd::prelude::*;

use crate::text::chars_of;

verus! {

// ---------------------------------------------------------------------------
// Row identifiers
// ---------------------------------------------------------------------------

/// Whether `c` is a lowercase hexadecimal digit.
pub open spec fn is_lower_hex(c: char) -> bool {
    ('0' <= c && c <= '9') || ('a' <= c && c <= 'f')
}

/// `s` is a version-4 UUID in hyphenated lowercase form:
/// `xxxxxxxx-xxxx-4xxx-Nxxx-xxxxxxxxxxxx` with `N` one of `8 9 a b`.
pub open spec fn is_uuid_v4_text(s: Seq<char>) -> bool {
    &&& s.len() == 36
    &&& forall|i: int|
        0 <= i < 36 ==> if i == 8 || i == 13 || i == 18 || i == 23 {
            s[i] == '-'
        } else {
            is_lower_hex(#[trigger] s[i])
        }
    &&& s[14] == '4'
    &&& (s[19] == '8' || s[19] == '9' || s[19] == 'a' || s[19] == 'b')
}

/// `uuid::Uuid::new_v4`, written out with its `Display` impl (hyphenated,
/// lowercase). The value is random and is not stated; its form is: lowercase
/// hex in 8-4-4-4-12 groups, with version nibble `4` and one of `8 9 a b` as
/// the first digit of the fourth group (the RFC 4122 variant).
#[verifier::external_body]
fn random_uuid_v4_text() -> (s: String)
    ensures
        is_uuid_v4_text(s@),
{
    uuid::Uuid::new_v4().to_string()
}

/// Generate a new UUID v4 identifier for a database row.
pub fn generate_id() -> (id: String)
    ensures
        is_uuid_v4_text(id@),
{
    random_uuid_v4_text()
}

// ---------------------------------------------------------------------------
// Integrity check
// ---------------------------------------------------------------------------

/// The integrity check reported something other than `ok`.
#[derive(Debug, Clone, PartialEq)]
pub struct IntegrityFailure {
    /// What `PRAGMA integrity_check` reported.
    pub report: String,
}

/// The report of a healthy database.
pub open spec fn integrity_ok_report() -> Seq<char> {
    seq!['o', 'k']
}

/// Judges the first row of `PRAGMA integrity_check`: the database is sound
/// exactly when the report is `ok`.
pub fn integrity_verdict(report: &str) -> (r: Result<(), IntegrityFailure>)
    ensures
        r is Ok <==> report@ == integrity_ok_report(),
        r matches Err(f) ==> f.report@ == report@,
{
    let chars = chars_of(report);
    if chars.len() == 2 && chars[0] == 'o' && chars[1] == 'k' {
        assert(report@ =~= integrity_ok_report());
        Ok(())
    } else {
        proof {
            if report@ == integrity_ok_report() {
                assert(chars@[0] == 'o' && chars@[1] == 'k');
            }
        }
        Err(IntegrityFailure { report: report.to_string() })
    }
}

// ---------------------------------------------------------------------------
// Moving the primary mailbox of an email
// ---------------------------------------------------------------------------

/// One statement of the primary-mailbox transaction.
#[derive(Debug, Clone, Copy, PartialEq, Eq, Structural)]
pub enum TxnStatement {
    /// `BEGIN`.
    Begin,
    /// Clear the primary mark on every mailbox row of the email.
    ClearPrimary,
    /// Set the primary mark on the chosen mailbox row of the email.
    MarkPrimary,
    /// `COMMIT`.
    Commit,
    /// `ROLLBACK`.
    Rollback,
}

/// Where the primary-mailbox transaction stands: which statement is running.
#[derive(Debug)]
pub enum PrimaryTxn<E> {
    Beginning,
    Clearing,
    Marking,
    Committing,
    /// Rolling back after an update failed with `cause`.
    RollingBack { cause: E },
}

/// What to do after a statement finished: run another, or report the result.
#[derive(Debug)]
pub enum TxnStep<E> {
    Run { state: PrimaryTxn<E>, statement: TxnStatement },
    Done { result: Result<(), E> },
}

/// The transaction's rule: an update that fails is rolled back and its error
/// reported (unless the rollback itself fails, whose error is then reported);
/// a failed `BEGIN` or `COMMIT` is reported as it is.
pub open spec fn txn_next<E>(state: PrimaryTxn<E>, outcome: Result<(), E>) -> TxnStep<E> {
    match state {
        PrimaryTxn::Beginning => match outcome {
            Ok(()) => TxnStep::Run { state: PrimaryTxn::Clearing, statement: TxnStatement::ClearPrimary },
            Err(e) => TxnStep::Done { result: Err(e) },
        },
        PrimaryTxn::Clearing => match outcome {
            Ok(()) => TxnStep::Run { state: PrimaryTxn::Marking, statement: TxnStatement::MarkPrimary },
            Err(e) => TxnStep::Run {
                state: PrimaryTxn::RollingBack { cause: e },
                statement: TxnStatement::Rollback,
            },
        },
        PrimaryTxn::Marking => match outcome {
            Ok(()) => TxnStep::Run { state: PrimaryTxn::Committing, statement: TxnStatement::Commit },
            Err(e) => TxnStep::Run {
                state: PrimaryTxn::RollingBack { cause: e },
                statement: TxnStatement::Rollback,
            },
        },
        PrimaryTxn::Committing => TxnStep::Done { result: outcome },
        PrimaryTxn::RollingBack { cause } => match outcome {
            Ok(()) => TxnStep::Done { result: Err(cause) },
            Err(e) => TxnStep::Done { result: Err(e) },
        },
    }
}

impl<E> PrimaryTxn<E> {
    /// Opens the transaction: the first statement is `BEGIN`.
    pub fn begin() -> (r: (PrimaryTxn<E>, TxnStatement))
        ensures
            r.0 is Beginning,
            r.1 == TxnStatement::Begin,
    {
        (PrimaryTxn::Beginning, TxnStatement::Begin)
    }

    /// Given the outcome of the statement that just ran, decides the next step.
    pub fn advance(self, outcome: Result<(), E>) -> (r: TxnStep<E>)
        ensures
            r == txn_next(self, outcome),
    {
        match self {
            PrimaryTxn::Beginning => match outcome {
                Ok(()) => TxnStep::Run {
                    state: PrimaryTxn::Clearing,
                    statement: TxnStatement::ClearPrimary,
                },
                Err(e) => TxnStep::Done { result: Err(e) },
            },
            PrimaryTxn::Clearing => match outcome {
                Ok(()) => TxnStep::Run {
                    state: PrimaryTxn::Marking,
                    statement: TxnStatement::MarkPrimary,
                },
                Err(e) => TxnStep::Run {
                    state: PrimaryTxn::RollingBack { cause: e },
                    statement: TxnStatement::Rollback,
                },
            },
            PrimaryTxn::Marking => match outcome {
                Ok(()) => TxnStep::Run {
                    state: PrimaryTxn::Committing,
                    statement: TxnStatement::Commit,
                },
                Err(e) => TxnStep::Run {
                    state: PrimaryTxn::RollingBack { cause: e },
                    statement: TxnStatement::Rollback,
                },
            },
            PrimaryTxn::Committing => TxnStep::Done { result: outcome },
            PrimaryTxn::RollingBack { cause } => match outcome {
                Ok(()) => TxnStep::Done { result: Err(cause) },
                Err(e) => TxnStep::Done { result: Err(e) },
            },
        }
    }
}

/// Runs the transaction from `state` on the given statement outcomes: the
/// statements run (after those in `ran`) and the result, if it finished.
pub open spec fn txn_run<E>(
    state: PrimaryTxn<E>,
    outcomes: Seq<Result<(), E>>,
    ran: Seq<TxnStatement>,
) -> (Seq<TxnStatement>, Option<Result<(), E>>)
    decreases outcomes.len(),
{
    if outcomes.len() == 0 {
        (ran, None)
    } else {
        match txn_next(state, outcomes[0]) {
            TxnStep::Run { state: next, statement } => txn_run(
                next,
                outcomes.drop_first(),
                ran.push(statement),
            ),
            TxnStep::Done { result } => (ran, Some(result)),
        }
    }
}

/// Whatever the statements' outcomes, the transaction finishes after at most
/// four statements; a failed `BEGIN` is reported with nothing else run;
/// otherwise it ends in exactly one `COMMIT` or `ROLLBACK`, commits exactly
/// when both updates succeeded, and succeeds exactly when every statement did.
pub proof fn lemma_primary_txn_outcome<E>(outcomes: Seq<Result<(), E>>)
    requires
        outcomes.len() >= 4,
    ensures
        ({
            let (ran, result) = txn_run(
                PrimaryTxn::<E>::Beginning,
                outcomes,
                seq![TxnStatement::Begin],
            );
            &&& result is Some
            &&& ran.len() <= 4
            &&& outcomes[0] is Err ==> ran == seq![TxnStatement::Begin] && result == Some(
                outcomes[0],
            )
            &&& outcomes[0] is Ok ==> {
                &&& ran.last() == TxnStatement::Commit || ran.last() == TxnStatement::Rollback
                &&& ran.drop_last().contains(TxnStatement::Commit) == false
                &&& ran.drop_last().contains(TxnStatement::Rollback) == false
                &&& (ran.last() == TxnStatement::Commit <==> outcomes[1] is Ok && outcomes[2] is Ok)
            }
            &&& (result == Some(Ok::<(), E>(())) <==> (outcomes[0] is Ok && outcomes[1] is Ok
                && outcomes[2] is Ok && outcomes[3] is Ok))
        }),
{
    reveal_with_fuel(txn_run, 5);
    let o = outcomes;
    let (ran, result) = txn_run(PrimaryTxn::<E>::Beginning, o, seq![TxnStatement::Begin]);
    let o1 = o.drop_first();
    let o2 = o1.drop_first();
    let o3 = o2.drop_first();
    assert(o1[0] == o[1] && o2[0] == o[2] && o3[0] == o[3]);
    let b = TxnStatement::Begin;
    let c = TxnStatement::ClearPrimary;
    let m = TxnStatement::MarkPrimary;
    if o[0] is Ok {
        if o[1] is Ok {
            if o[2] is Ok {
                assert(ran =~= seq![b, c, m, TxnStatement::Commit]);
                assert(ran.drop_last() =~= seq![b, c, m]);
                assert(result == Some(o[3]));
                if let Ok(u) = o[3] {
                    assert(u == ());
                    assert(o[3] == Ok::<(), E>(()));
                }
            } else {
                assert(ran =~= seq![b, c, m, TxnStatement::Rollback]);
                assert(ran.drop_last() =~= seq![b, c, m]);
                assert(result is Some && result->0 is Err);
            }
        } else {
            assert(ran =~= seq![b, c, TxnStatement::Rollback]);
            assert(ran.drop_last() =~= seq![b, c]);
            assert(result is Some && result->0 is Err);
        }
        assert(!ran.drop_last().contains(TxnStatement::Commit));
        assert(!ran.drop_last().contains(TxnStatement::Rollback));
    } else {
        assert(ran =~= seq![b]);
    }
}

} // verus!
