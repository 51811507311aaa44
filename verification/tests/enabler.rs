use ir_emitter::configuration::{Configuration, Configurations, V4LPath};
use ir_emitter::enabler::{Config, Effect, Enabler, Event, IsIrWorking, Message, Outcome};
use ir_emitter::xu_control::XuControl;

fn control(unit: u8, selector: u8, cur: Vec<u8>, max: Option<Vec<u8>>) -> XuControl {
    XuControl::new(unit, selector, cur, max, None, None, None, true).unwrap()
}

fn engine_config(emitters: usize, limit: Option<u16>, inc_step: u8) -> Config {
    Config { device: b"/dev/video0".to_vec(), emitters, neg_answer_limit: limit, inc_step }
}

fn empty_configuration() -> Configuration {
    Configuration::empty(V4LPath::from_bytes(b"/dev/video0".to_vec()))
}

/// The values written to the device, in order.
fn applied_values(effects: &[Effect]) -> Vec<Vec<u8>> {
    effects
        .iter()
        .filter_map(|e| match e {
            Effect::Apply(c) => Some(c.cur().clone()),
            _ => None,
        })
        .collect()
}

fn outcome(effects: &[Effect]) -> Option<Outcome> {
    effects.iter().find_map(|e| match e {
        Effect::Stop(o) => Some(*o),
        _ => None,
    })
}

fn sent_failure(effects: &[Effect]) -> bool {
    effects.iter().any(|e| matches!(e, Effect::Send(Message::Failure)))
}

#[test]
fn test_increment_carry_through_bytes() {
    // Two zero bytes, no maximum: the first byte walks 0..=255, carries
    // into the second, and the whole value is exhausted after 256 * 256
    // increments at the latest.
    let engine = Enabler::new(engine_config(1, Some(0), 1), Vec::new(), empty_configuration());
    let mut ctrl = control(1, 1, vec![0, 0], None);
    let mut cur_byte: usize = 0;
    let mut neg_answer: u16 = 0;

    for _ in 0..256 {
        engine.increment(&mut ctrl, &mut cur_byte, &mut neg_answer);
    }
    assert_eq!(ctrl.cur(), &vec![0, 1]);

    let mut last = true;
    for _ in 256..65536 {
        last = engine.increment(&mut ctrl, &mut cur_byte, &mut neg_answer);
    }
    assert!(!last);
}

#[test]
fn test_increment_with_max() {
    // One byte capped at 3: three increments reach the cap, the fourth
    // call reports exhaustion.
    let engine = Enabler::new(engine_config(1, Some(16), 1), Vec::new(), empty_configuration());
    let mut ctrl = control(1, 1, vec![0], Some(vec![3]));
    let mut cur_byte: usize = 0;
    let mut neg_answer: u16 = 0;

    for _ in 0..3 {
        assert!(engine.increment(&mut ctrl, &mut cur_byte, &mut neg_answer));
    }
    assert_eq!(ctrl.cur(), &vec![3]);
    assert!(!engine.increment(&mut ctrl, &mut cur_byte, &mut neg_answer));
}

#[test]
fn test_increment_step_does_not_overshoot_cap() {
    // Cap 4 with step 3: after one increment the value is 3; a second
    // step would pass the cap, so the byte resets and the value is
    // exhausted — the byte never silently passes its cap.
    let engine = Enabler::new(engine_config(1, Some(16), 3), Vec::new(), empty_configuration());
    let mut ctrl = control(1, 1, vec![0], Some(vec![4]));
    let mut cur_byte: usize = 0;
    let mut neg_answer: u16 = 0;

    assert!(engine.increment(&mut ctrl, &mut cur_byte, &mut neg_answer));
    assert_eq!(ctrl.cur(), &vec![3]);
    assert!(!engine.increment(&mut ctrl, &mut cur_byte, &mut neg_answer));
    assert_eq!(ctrl.cur(), &vec![0]);
}

#[test]
fn test_already_working() {
    let controls = vec![control(3, 6, vec![0], Some(vec![3]))];
    let mut engine = Enabler::new(engine_config(1, Some(2), 1), controls, empty_configuration());

    let fx = engine.step(Event::Start);
    assert!(matches!(fx[0], Effect::Send(Message::IsIrWorking)));
    assert!(matches!(fx[1], Effect::AwaitResponse));

    let fx = engine.step(Event::Response(IsIrWorking::Yes));
    assert!(matches!(fx[0], Effect::Send(Message::AlreadyWorking)));
    assert_eq!(outcome(&fx), Some(Outcome::AlreadyWorking));
    assert!(applied_values(&fx).is_empty());
    assert!(engine.is_done());
}

#[test]
fn test_single_control_single_emitter() {
    let controls = vec![control(3, 6, vec![0], Some(vec![3]))];
    let mut engine = Enabler::new(engine_config(1, Some(2), 1), controls, empty_configuration());
    let mut applies: Vec<Vec<u8>> = Vec::new();

    let fx = engine.step(Event::Start);
    assert!(matches!(fx[0], Effect::Send(Message::IsIrWorking)));

    // initial answer: not working yet
    let fx = engine.step(Event::Response(IsIrWorking::No));
    assert!(matches!(&fx[0], Effect::Send(Message::Controls(list)) if list.len() == 1));
    applies.extend(applied_values(&fx));

    // two refusals, then the third value works
    let fx = engine.step(Event::ApplyOk);
    assert!(matches!(fx[0], Effect::Send(Message::IsIrWorking)));
    let fx = engine.step(Event::Response(IsIrWorking::No));
    applies.extend(applied_values(&fx));
    let fx = engine.step(Event::ApplyOk);
    assert!(matches!(fx[0], Effect::Send(Message::IsIrWorking)));
    let fx = engine.step(Event::Response(IsIrWorking::No));
    applies.extend(applied_values(&fx));
    let fx = engine.step(Event::ApplyOk);
    assert!(matches!(fx[0], Effect::Send(Message::IsIrWorking)));
    let fx = engine.step(Event::Response(IsIrWorking::Yes));
    assert!(matches!(fx[0], Effect::Send(Message::Success)));
    assert_eq!(outcome(&fx), Some(Outcome::Succeeded));
    assert!(engine.is_done());

    // the device saw the values in walking order, then nothing more
    assert_eq!(applies, vec![vec![1], vec![2], vec![3]]);

    // the savelist holds the enabling value
    let saves = engine.configuration().savelist_entries();
    assert_eq!(saves.len(), 1);
    assert_eq!(saves[0].unit, 3);
    assert_eq!(saves[0].selector, 6);
    assert_eq!(saves[0].control, vec![3]);
    assert!(engine.configuration().blacklist_entries().is_empty());
}

#[test]
fn test_exhausted_control() {
    let controls = vec![control(3, 6, vec![0], Some(vec![3]))];
    let mut engine = Enabler::new(engine_config(1, Some(2), 1), controls, empty_configuration());
    let mut applies: Vec<Vec<u8>> = Vec::new();

    engine.step(Event::Start);
    let fx = engine.step(Event::Response(IsIrWorking::No));
    applies.extend(applied_values(&fx));

    // every answer is negative until the control is exhausted
    let mut last = Vec::new();
    loop {
        let fx = engine.step(Event::ApplyOk);
        if engine.is_done() {
            last = fx;
            break;
        }
        assert!(matches!(fx[0], Effect::Send(Message::IsIrWorking)));
        let fx = engine.step(Event::Response(IsIrWorking::No));
        applies.extend(applied_values(&fx));
        if engine.is_done() {
            last = fx;
            break;
        }
    }

    assert!(sent_failure(&last));
    assert_eq!(outcome(&last), Some(Outcome::Exhausted));
    // after the last candidate value, the control was reset and reapplied
    assert_eq!(applies, vec![vec![1], vec![2], vec![3], vec![0]]);
    assert!(engine.configuration().savelist_entries().is_empty());
    assert!(engine.configuration().blacklist_entries().is_empty());
}

#[test]
fn test_abort_mid_search() {
    let controls = vec![control(3, 6, vec![0], Some(vec![3]))];
    let mut engine = Enabler::new(engine_config(1, Some(2), 1), controls, empty_configuration());

    engine.step(Event::Start);
    let fx = engine.step(Event::Response(IsIrWorking::No));
    assert_eq!(applied_values(&fx), vec![vec![1]]);
    engine.step(Event::ApplyOk);
    let fx = engine.step(Event::Response(IsIrWorking::No));
    assert_eq!(applied_values(&fx), vec![vec![2]]);
    engine.step(Event::ApplyOk);

    // the user aborts: the control is reset on the device first
    let fx = engine.step(Event::Response(IsIrWorking::Abort));
    assert_eq!(applied_values(&fx), vec![vec![0]]);

    let fx = engine.step(Event::ApplyOk);
    assert!(
        matches!(&fx[0], Effect::Send(Message::UpdateControl(c)) if c.cur() == &vec![0u8])
    );
    assert!(matches!(fx[1], Effect::SendBestEffort(Message::Failure)));
    assert_eq!(outcome(&fx), Some(Outcome::Aborted));
    assert!(engine.is_done());

    // the configuration is still empty, so saving it removes the entry
    let mut store = Configurations::new();
    engine.configuration().save(&mut store);
    assert!(Configuration::load(
        &V4LPath::from_bytes(b"/dev/video0".to_vec()),
        &store,
    )
    .is_err());
}

#[test]
fn test_blacklist_persistence() {
    let controls = vec![control(9, 9, vec![0], Some(vec![3]))];
    let mut engine = Enabler::new(engine_config(1, Some(2), 1), controls, empty_configuration());

    engine.step(Event::Start);
    let fx = engine.step(Event::Response(IsIrWorking::No));
    assert_eq!(applied_values(&fx), vec![vec![1]]);

    // the device write fails, and so does the restoring write
    let fx = engine.step(Event::ApplyFailed(5));
    assert_eq!(applied_values(&fx), vec![vec![0]]);
    let fx = engine.step(Event::ApplyFailed(5));
    assert!(sent_failure(&fx));
    assert_eq!(outcome(&fx), Some(Outcome::DeviceBroken(5)));

    let blacks = engine.configuration().blacklist_entries();
    assert_eq!(blacks.len(), 1);
    assert_eq!((blacks[0].unit, blacks[0].selector), (9, 9));

    // persist, then run a second session for the same device: the broken
    // control is no longer a candidate
    let mut store = Configurations::new();
    engine.configuration().save(&mut store);
    let reloaded = Configuration::new(V4LPath::from_bytes(b"/dev/video0".to_vec()), &store);
    let controls = vec![control(9, 9, vec![0], Some(vec![3]))];
    let mut second = Enabler::new(engine_config(1, Some(2), 1), controls, reloaded);
    second.step(Event::Start);
    let fx = second.step(Event::Response(IsIrWorking::No));
    assert!(matches!(&fx[0], Effect::Send(Message::Controls(list)) if list.is_empty()));
    assert!(sent_failure(&fx));
    assert_eq!(outcome(&fx), Some(Outcome::Exhausted));
}

#[test]
fn test_abort_before_any_control() {
    let controls = vec![control(3, 6, vec![0], Some(vec![3]))];
    let mut engine = Enabler::new(engine_config(1, Some(2), 1), controls, empty_configuration());

    engine.step(Event::Start);
    let fx = engine.step(Event::Response(IsIrWorking::Abort));
    assert_eq!(outcome(&fx), Some(Outcome::AbortedEarly));
    assert!(applied_values(&fx).is_empty());
    assert!(engine.is_done());
}

#[test]
fn test_read_only_controls_are_not_candidates() {
    let writable = control(1, 2, vec![0], None);
    let read_only = XuControl::new(3, 4, vec![0], None, None, None, None, false).unwrap();
    let mut engine = Enabler::new(
        engine_config(1, Some(2), 1),
        vec![read_only, writable],
        empty_configuration(),
    );
    engine.step(Event::Start);
    let fx = engine.step(Event::Response(IsIrWorking::No));
    match &fx[0] {
        Effect::Send(Message::Controls(list)) => {
            assert_eq!(list.len(), 1);
            assert_eq!((list[0].unit(), list[0].selector()), (1, 2));
        }
        other => panic!("expected the candidate list, got {:?}", other),
    }
}

#[test]
fn test_second_emitter_continues_search() {
    // Two controls, two emitters wanted: a success on the first control
    // moves the search to the second without ending the session.
    let controls = vec![
        control(1, 1, vec![0], Some(vec![1])),
        control(2, 2, vec![0], Some(vec![1])),
    ];
    let mut engine = Enabler::new(engine_config(2, Some(2), 1), controls, empty_configuration());

    engine.step(Event::Start);
    let fx = engine.step(Event::Response(IsIrWorking::No));
    assert_eq!(applied_values(&fx), vec![vec![1]]);
    engine.step(Event::ApplyOk);
    let fx = engine.step(Event::Response(IsIrWorking::Yes));
    // not done: the next candidate is tried at once
    assert!(!engine.is_done());
    assert_eq!(applied_values(&fx), vec![vec![1]]);
    engine.step(Event::ApplyOk);
    let fx = engine.step(Event::Response(IsIrWorking::Yes));
    assert_eq!(outcome(&fx), Some(Outcome::Succeeded));
    assert_eq!(engine.configuration().savelist_entries().len(), 2);
}
