use zenlang::dap::{
    cannot_evaluate, dap_command, evaluate_plan, parse_condition, plan_request, stopped_reason, CmpOp, DapCommand, DapEvent, DapSession, Resume,
    ResumeOutcome,
};

#[test]
fn commands_by_name() {
    assert_eq!(dap_command("initialize"), DapCommand::Initialize);
    assert_eq!(dap_command("setBreakpoints"), DapCommand::SetBreakpoints);
    assert_eq!(dap_command("stepIn"), DapCommand::StepIn);
    assert_eq!(dap_command("disconnect"), DapCommand::Terminate);
    assert_eq!(dap_command("terminate"), DapCommand::Terminate);
    assert_eq!(dap_command("restart"), DapCommand::Unknown);
}

#[test]
fn request_plans() {
    let init = plan_request(DapCommand::Initialize);
    assert!(init.success && init.initialized_event && init.resume.is_none());
    let done = plan_request(DapCommand::ConfigurationDone);
    assert_eq!(done.resume, Some(Resume::RunMain));
    assert!(done.starts_running && !done.resume_before_response);
    let next = plan_request(DapCommand::Next);
    assert_eq!(next.resume, Some(Resume::StepOver));
    assert!(next.resume_before_response);
    assert!(plan_request(DapCommand::Terminate).ends_session);
    assert!(!plan_request(DapCommand::Unknown).success);
    assert!(plan_request(DapCommand::Threads).success);
}

#[test]
fn sequence_numbers_count_from_one() {
    let mut s = DapSession::new();
    assert_eq!(s.next_seq(), 1);
    assert_eq!(s.next_seq(), 2);
    assert_eq!(s.seq, 3);
}

#[test]
fn resumption_outcomes() {
    let mut s = DapSession::new();
    assert_eq!(s.after_resume(ResumeOutcome::Paused { skip: false }), vec![DapEvent::Stopped]);
    assert_eq!(s.after_resume(ResumeOutcome::Paused { skip: true }), vec![DapEvent::ContinueAgain]);
    assert!(!s.finished);
    assert_eq!(
        s.after_resume(ResumeOutcome::Failed("division by zero".to_string())),
        vec![DapEvent::ErrorOutput("error: division by zero\n".to_string()), DapEvent::Terminated]
    );
    assert!(s.finished);
    assert!(s.after_resume(ResumeOutcome::Finished).is_empty());
}

#[test]
fn finishing_terminates() {
    let mut s = DapSession::new();
    assert_eq!(s.after_resume(ResumeOutcome::Finished), vec![DapEvent::Terminated]);
    assert!(s.finished);
}

#[test]
fn stop_reasons() {
    let bps = vec![3, 7];
    assert_eq!(stopped_reason(&bps, Some(7), true), "breakpoint");
    assert_eq!(stopped_reason(&bps, Some(8), true), "step");
    assert_eq!(stopped_reason(&bps, Some(8), false), "breakpoint");
    assert_eq!(stopped_reason(&bps, None, true), "step");
}

#[test]
fn conditions_are_read_as_comparisons() {
    assert_eq!(
        parse_condition("  x == 3 "),
        ("x == 3".to_string(), Some(("x".to_string(), CmpOp::Eq, "3".to_string())))
    );
    assert_eq!(
        parse_condition("i<=10"),
        ("i<=10".to_string(), Some(("i".to_string(), CmpOp::Le, "10".to_string())))
    );
    assert_eq!(parse_condition(" count > n").1, Some(("count".to_string(), CmpOp::Gt, "n".to_string())));
    assert_eq!(parse_condition("a != b").1, Some(("a".to_string(), CmpOp::Ne, "b".to_string())));
    assert_eq!(parse_condition("flag"), ("flag".to_string(), None));
    assert_eq!(parse_condition("a = b"), ("a = b".to_string(), None));
    assert_eq!(parse_condition("   "), (String::new(), None));
}

#[test]
fn evaluate_succeeds_only_for_a_local_of_the_frame() {
    let locals = vec!["x".to_string(), "y".to_string(), "x".to_string()];
    let (plan, found) = evaluate_plan(&locals, "x");
    assert!(plan.success);
    assert_eq!(found, Some(0));
    let (plan, found) = evaluate_plan(&locals, "y");
    assert!(plan.success);
    assert_eq!(found, Some(1));
    let (plan, found) = evaluate_plan(&locals, "z");
    assert!(!plan.success);
    assert_eq!(found, None);
    assert!(plan.resume.is_none() && !plan.ends_session);
    assert_eq!(cannot_evaluate("z + 1"), "cannot evaluate 'z + 1'");
}
