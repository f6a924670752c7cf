use cargo_stub::args::{make_input, Input, InputRequest};
use cargo_stub::driver::{next_step, Compilation, DriverEvent, DriverStep};

fn run(events: Vec<DriverEvent>) -> DriverStep {
    let mut step = DriverStep::ParseOptions;
    for e in events {
        step = next_step(step, e);
    }
    step
}

#[test]
fn a_full_run_reaches_extraction() {
    let input = make_input(&["src/main.rs".to_string()]);
    let step = run(vec![
        DriverEvent::OptionsParsed(true),
        DriverEvent::Answered(Compilation::Continue),
        DriverEvent::InputFound(input),
    ]);
    assert!(matches!(step, DriverStep::BuildSession { input_failed: false }));
    let step = next_step(step, DriverEvent::SessionBuilt);
    assert!(matches!(step, DriverStep::LateCallback));
    let step = next_step(step, DriverEvent::Answered(Compilation::Continue));
    assert!(matches!(step, DriverStep::Extract));
    assert!(matches!(next_step(step, DriverEvent::Extracted), DriverStep::Done));
}

#[test]
fn unparsed_options_stop_the_run() {
    assert!(matches!(run(vec![DriverEvent::OptionsParsed(false)]), DriverStep::Stopped));
}

#[test]
fn early_stop_stops_the_run() {
    let step = run(vec![DriverEvent::OptionsParsed(true), DriverEvent::Answered(Compilation::Stop)]);
    assert!(matches!(step, DriverStep::Stopped));
}

#[test]
fn late_stop_stops_the_run() {
    let step = run(vec![
        DriverEvent::OptionsParsed(true),
        DriverEvent::Answered(Compilation::Continue),
        DriverEvent::InputFound(Some(InputRequest::Ready(Input::File("a.rs".to_string()), Some("a.rs".to_string())))),
        DriverEvent::SessionBuilt,
        DriverEvent::Answered(Compilation::Stop),
    ]);
    assert!(matches!(step, DriverStep::Stopped));
}

#[test]
fn unreadable_stdin_fails_the_run() {
    let step = run(vec![
        DriverEvent::OptionsParsed(true),
        DriverEvent::Answered(Compilation::Continue),
        DriverEvent::InputFound(make_input(&["-".to_string()])),
    ]);
    assert!(matches!(step, DriverStep::ReadStdin));
    let step = next_step(step, DriverEvent::StdinRead(false));
    assert!(matches!(step, DriverStep::BuildSession { input_failed: true }));
    assert!(matches!(next_step(step, DriverEvent::SessionBuilt), DriverStep::InputFailed));
}

#[test]
fn callbacks_are_asked_when_no_input_is_named() {
    let step = run(vec![
        DriverEvent::OptionsParsed(true),
        DriverEvent::Answered(Compilation::Continue),
        DriverEvent::InputFound(make_input(&[])),
    ]);
    assert!(matches!(step, DriverStep::AskForInput));
    assert!(matches!(next_step(step, DriverEvent::CallbacksInput(false)), DriverStep::NoInput));
    let step = run(vec![
        DriverEvent::OptionsParsed(true),
        DriverEvent::Answered(Compilation::Continue),
        DriverEvent::InputFound(None),
        DriverEvent::CallbacksInput(true),
    ]);
    assert!(matches!(step, DriverStep::BuildSession { input_failed: false }));
}

#[test]
fn events_out_of_place_change_nothing() {
    assert!(matches!(next_step(DriverStep::ParseOptions, DriverEvent::Extracted), DriverStep::ParseOptions));
    assert!(matches!(next_step(DriverStep::Done, DriverEvent::OptionsParsed(true)), DriverStep::Done));
    assert!(matches!(
        next_step(DriverStep::Stopped, DriverEvent::Answered(Compilation::Continue)),
        DriverStep::Stopped
    ));
}

#[test]
fn a_second_answer_does_not_call_the_early_callback_again() {
    let step = run(vec![
        DriverEvent::OptionsParsed(true),
        DriverEvent::Answered(Compilation::Continue),
        DriverEvent::Answered(Compilation::Continue),
        DriverEvent::OptionsParsed(true),
    ]);
    assert!(matches!(step, DriverStep::ResolveInput));
}
