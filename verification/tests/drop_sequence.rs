use databend_core::drop_sequence::unknown_sequence;
use databend_core::drop_sequence::DropSequenceEvent;
use databend_core::drop_sequence::DropSequenceInterpreter;
use databend_core::drop_sequence::DropSequencePlan;
use databend_core::drop_sequence::DropSequenceStep;
use databend_core::drop_sequence::OwnershipObject;
use databend_core::drop_sequence::SequenceIdent;
use databend_core::error::ErrorCode;

fn interpreter(name: &str, if_exists: bool) -> DropSequenceInterpreter<u8> {
    let ident = SequenceIdent { tenant: "tenant".to_string(), name: name.to_string() };
    DropSequenceInterpreter::try_create(7, DropSequencePlan { ident, if_exists }).unwrap()
}

/// Carries out a plan and notes its steps.
fn run(
    interpreter: &DropSequenceInterpreter<u8>,
    check: bool,
    success: bool,
    fail_at: Option<&str>,
) -> (Vec<String>, Result<(), ErrorCode>) {
    let mut notes = vec![];
    let mut step = interpreter.start();
    loop {
        let (note, event) = match &step {
            DropSequenceStep::GetCatalog => {
                ("catalog".to_string(), DropSequenceEvent::Succeeded)
            }
            DropSequenceStep::GetPrivilegeCheck => {
                ("setting".to_string(), DropSequenceEvent::PrivilegeCheck(check))
            }
            DropSequenceStep::RevokeOwnership {
                tenant,
                object: OwnershipObject::Sequence { name },
                ..
            } => (format!("revoke {} {}", tenant, name), DropSequenceEvent::Succeeded),
            DropSequenceStep::InvalidateRoleCache { tenant, .. } => {
                (format!("invalidate {}", tenant), DropSequenceEvent::Succeeded)
            }
            DropSequenceStep::DropSequence { req, .. } => (
                format!("drop {} {} {}", req.ident.tenant, req.ident.name, req.if_exists),
                DropSequenceEvent::Dropped { success },
            ),
            DropSequenceStep::Done(_) => break,
        };
        let failed = fail_at.map(|at| note.starts_with(at)).unwrap_or(false);
        notes.push(note);
        let event = if failed {
            DropSequenceEvent::Failed(ErrorCode::Service("down".to_string()))
        } else {
            event
        };
        step = interpreter.next(step, event);
    }
    match step {
        DropSequenceStep::Done(outcome) => (notes, outcome),
        _ => unreachable!(),
    }
}

#[test]
fn drops_without_a_privilege_check() {
    let (notes, outcome) = run(&interpreter("s", false), false, true, None);
    assert_eq!(notes, vec!["catalog", "setting", "drop tenant s false"]);
    assert!(outcome.is_ok());
}

#[test]
fn the_sequence_goes_before_its_ownership() {
    let (notes, outcome) = run(&interpreter("s", true), true, true, None);
    assert_eq!(notes, vec![
        "catalog",
        "setting",
        "drop tenant s true",
        "revoke tenant s",
        "invalidate tenant"
    ]);
    assert!(outcome.is_ok());
}

#[test]
fn the_ownership_of_a_missing_sequence_goes_too() {
    let (notes, outcome) = run(&interpreter("s", false), true, false, None);
    assert_eq!(notes, vec![
        "catalog",
        "setting",
        "drop tenant s false",
        "revoke tenant s",
        "invalidate tenant"
    ]);
    match outcome {
        Err(ErrorCode::UnknownSequence(text)) => assert_eq!(text, "unknown sequence \"s\""),
        other => panic!("{:?}", other),
    }
}

#[test]
fn an_unknown_sequence_is_an_error() {
    let (_, outcome) = run(&interpreter("a\"b\n", false), false, false, None);
    match outcome {
        Err(ErrorCode::UnknownSequence(text)) => {
            assert_eq!(text, "unknown sequence \"a\\\"b\\n\"")
        }
        other => panic!("{:?}", other),
    }
}

#[test]
fn an_unknown_sequence_is_allowed_if_asked_for() {
    let (_, outcome) = run(&interpreter("s", true), false, false, None);
    assert!(outcome.is_ok());
}

#[test]
fn a_failure_ends_the_plan() {
    for (at, steps) in [("catalog", 1), ("setting", 2), ("drop", 3), ("revoke", 4)] {
        let (notes, outcome) = run(&interpreter("s", true), true, true, Some(at));
        assert_eq!(notes.len(), steps);
        match outcome {
            Err(ErrorCode::Service(text)) => assert_eq!(text, "down"),
            other => panic!("{:?}", other),
        }
    }
}

#[test]
fn the_interpreter_knows_itself() {
    let interpreter = interpreter("s", true);
    assert_eq!(interpreter.name(), "DropSequenceInterpreter");
    assert!(interpreter.is_ddl());
    assert_eq!(interpreter.ctx, 7);
    assert_eq!(interpreter.plan.ident.name, "s");
}

#[test]
fn the_error_shows_the_name_as_given() {
    assert_eq!(unknown_sequence("x").message(), "unknown sequence x");
}
