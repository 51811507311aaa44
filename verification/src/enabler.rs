use vstd::prelude::*;

use crate::configuration::{black_of, saved_of, Configuration, ConfigurationModel};
use crate::xu_control::{XuControl, XuControlModel};

verus! {

// ---------------------------------------------------------------------------
// Protocol messages
// ---------------------------------------------------------------------------

/// Requests sent from the enabler to its collaborator.
#[derive(Debug)]
pub enum Message {
    /// Asks if the IR emitter is working.  Expects a response of type
    /// [`IsIrWorking`].
    IsIrWorking,
    /// Contains a snapshot of every candidate control of the device, each
    /// reduced to its identity, current value and writability.  Does not
    /// expect a response.
    Controls(Vec<XuControl>),
    /// Carries the updated value of one control, identified by its unit and
    /// selector.  Does not expect a response.
    UpdateControl(XuControl),
    /// The IR emitter is already working.  Does not expect a response.
    AlreadyWorking,
    /// The configuration ended and was successful.  Does not expect a
    /// response.
    Success,
    /// The configuration ended and failed.  Does not expect a response.
    Failure,
}

/// Model of a request message.
pub enum MessageModel {
    IsIrWorking,
    Controls(Seq<XuControlModel>),
    UpdateControl(XuControlModel),
    AlreadyWorking,
    Success,
    Failure,
}

impl View for Message {
    type V = MessageModel;

    open spec fn view(&self) -> MessageModel {
        match self {
            Message::IsIrWorking => MessageModel::IsIrWorking,
            Message::Controls(v) => MessageModel::Controls(
                v@.map_values(|c: XuControl| c@),
            ),
            Message::UpdateControl(c) => MessageModel::UpdateControl(c@),
            Message::AlreadyWorking => MessageModel::AlreadyWorking,
            Message::Success => MessageModel::Success,
            Message::Failure => MessageModel::Failure,
        }
    }
}

/// Responses to a [`Message::IsIrWorking`] request.
#[derive(Debug, PartialEq, Eq, Structural, Clone, Copy)]
pub enum IsIrWorking {
    Yes,
    No,
    /// Sent when the configuration process should be aborted.
    Abort,
}

/// What the enabler observed: the start of the session, a response to an
/// `IsIrWorking` question, or the result of a device write.
#[derive(Debug, PartialEq, Eq, Structural, Clone, Copy)]
pub enum Event {
    Start,
    Response(IsIrWorking),
    ApplyOk,
    ApplyFailed(i32),
}

/// How a configuration session ended.
#[derive(Debug, PartialEq, Eq, Structural, Clone, Copy)]
pub enum Outcome {
    /// The emitter was already working; reported as an error.
    AlreadyWorking,
    /// The user aborted before any control was touched; the session ends
    /// cleanly.
    AbortedEarly,
    /// The user aborted mid-search; the control was restored first and the
    /// session ends cleanly.
    Aborted,
    /// Enough enabling controls were found.
    Succeeded,
    /// Every candidate was exhausted without meeting the emitter quota.
    Exhausted,
    /// Restoring a control failed with the given OS error; the control was
    /// blacklisted and the device may need a reboot.
    DeviceBroken(i32),
}

/// What the caller must do next: send a message (blocking, or best-effort
/// for the final failure note after an abort), write a control value to the
/// device and report the result, wait for a response, or stop.
#[derive(Debug)]
pub enum Effect {
    Send(Message),
    SendBestEffort(Message),
    Apply(XuControl),
    AwaitResponse,
    Stop(Outcome),
}

/// Model of an effect.
pub enum EffectModel {
    Send(MessageModel),
    SendBestEffort(MessageModel),
    Apply(XuControlModel),
    AwaitResponse,
    Stop(Outcome),
}

impl View for Effect {
    type V = EffectModel;

    open spec fn view(&self) -> EffectModel {
        match self {
            Effect::Send(m) => EffectModel::Send(m@),
            Effect::SendBestEffort(m) => EffectModel::SendBestEffort(m@),
            Effect::Apply(c) => EffectModel::Apply(c@),
            Effect::AwaitResponse => EffectModel::AwaitResponse,
            Effect::Stop(o) => EffectModel::Stop(*o),
        }
    }
}

/// The sequence of effect models a vector of effects stands for.
pub open spec fn effects_model(fx: Seq<Effect>) -> Seq<EffectModel> {
    fx.map_values(|e: Effect| e@)
}

// ---------------------------------------------------------------------------
// Search configuration
// ---------------------------------------------------------------------------

/// Device configuration for the enabler.
#[derive(Debug)]
pub struct Config {
    /// Path of the UVC device, for the caller's use.
    pub device: Vec<u8>,
    /// Number of IR emitters on the device.
    pub emitters: usize,
    /// Maximum number of negative answers before incrementing the next byte
    /// of a control.  `None` stands for 256, the hard ceiling.
    pub neg_answer_limit: Option<u16>,
    /// Increment step for each byte of a control.
    pub inc_step: u8,
}

// ---------------------------------------------------------------------------
// The increment operation
// ---------------------------------------------------------------------------

/// The cap of one byte of a control: the corresponding byte of the maximum
/// when the control has one, 255 otherwise.
pub open spec fn byte_cap(c: XuControlModel, i: int) -> u8 {
    match c.max {
        Some(m) => m[i],
        None => 255,
    }
}

/// One increment of a control value, seen as a little-endian multi-byte
/// counter.  When every byte is exhausted the operation reports `false`.
/// When the negative-answer budget is spent, or one more step would pass
/// the byte's cap, the byte returns to its initial value and the next byte
/// is incremented instead.  Otherwise the current byte grows by the step.
pub open spec fn spec_increment(
    c: XuControlModel,
    i: nat,
    neg: u16,
    limit: u16,
    step: u8,
) -> (XuControlModel, nat, u16, bool)
    decreases c.cur.len() - i,
{
    if i >= c.cur.len() {
        (c, i, neg, false)
    } else if neg > limit || c.cur[i as int] + step > byte_cap(c, i as int) {
        let c2 = XuControlModel { cur: c.cur.update(i as int, c.init[i as int]), ..c };
        spec_increment(c2, i + 1, 0, limit, step)
    } else {
        (
            XuControlModel {
                cur: c.cur.update(i as int, (c.cur[i as int] + step) as u8),
                ..c
            },
            i,
            neg,
            true,
        )
    }
}

/// The increment never touches anything but the current value, never
/// changes its length, and never moves the byte index backwards.
pub proof fn lemma_increment_frame(c: XuControlModel, i: nat, neg: u16, limit: u16, step: u8)
    ensures
        ({
            let (c2, i2, n2, ok) = spec_increment(c, i, neg, limit, step);
            &&& c2.unit == c.unit
            &&& c2.selector == c.selector
            &&& c2.init == c.init
            &&& c2.max == c.max
            &&& c2.min == c.min
            &&& c2.res == c.res
            &&& c2.def == c.def
            &&& c2.writable == c.writable
            &&& c2.cur.len() == c.cur.len()
            &&& i2 >= i
            &&& (c.wf() ==> c2.wf())
        }),
    decreases c.cur.len() - i,
{
    if i >= c.cur.len() {
    } else if neg > limit || c.cur[i as int] + step > byte_cap(c, i as int) {
        let c2 = XuControlModel { cur: c.cur.update(i as int, c.init[i as int]), ..c };
        lemma_increment_frame(c2, i + 1, 0, limit, step);
    } else {
    }
}

// ---------------------------------------------------------------------------
// The enabler state machine
// ---------------------------------------------------------------------------

/// Where the session stands between two events.
#[derive(Debug, PartialEq, Eq, Structural, Clone, Copy)]
pub enum Phase {
    /// Nothing happened yet.
    Init,
    /// The initial `IsIrWorking` question is out.
    AwaitInitial,
    /// A candidate value was handed to the device.
    AwaitApply,
    /// The device took the value; the `IsIrWorking` question is out.
    AwaitAnswer,
    /// A control is being restored to its initial value on the device.
    AwaitResetApply,
    /// The session ended.
    Done,
}

/// Model of the enabler: the filtered candidates, the position of the
/// search, the counters, the per-device configuration and the phase.
#[verifier::ext_equal]
pub struct EnablerModel {
    pub candidates: Seq<XuControlModel>,
    pub idx: int,
    pub cur_byte: int,
    pub neg_answer: u16,
    pub neg_answer_limit: u16,
    pub inc_step: u8,
    pub emitters: int,
    pub configuration: ConfigurationModel,
    pub abort: bool,
    pub phase: Phase,
}

impl EnablerModel {
    /// The running invariant of the machine.
    pub open spec fn wf(self) -> bool {
        &&& 0 <= self.idx <= self.candidates.len()
        &&& forall|i: int| 0 <= i < self.candidates.len() ==> (#[trigger] self.candidates[i]).wf()
        &&& (self.phase == Phase::AwaitApply || self.phase == Phase::AwaitAnswer || self.phase
            == Phase::AwaitResetApply) ==> self.idx < self.candidates.len()
        &&& self.phase != Phase::Done ==> self.emitters >= 1
        &&& self.cur_byte >= 0
    }
}

/// The writable, not blacklisted controls, in discovery order.
pub open spec fn spec_candidates(s: Seq<XuControlModel>, cfg: ConfigurationModel) -> Seq<
    XuControlModel,
>
    decreases s.len(),
{
    if s.len() == 0 {
        s
    } else {
        let rest = spec_candidates(s.drop_first(), cfg);
        if s[0].writable && !cfg.spec_blacklisted(s[0].unit, s[0].selector) {
            seq![s[0]] + rest
        } else {
            rest
        }
    }
}

/// The snapshot of a control shipped in an update message: identity,
/// current value and writability only.
pub open spec fn essential_model(c: XuControlModel) -> XuControlModel {
    XuControlModel {
        unit: c.unit,
        selector: c.selector,
        cur: c.cur,
        init: Seq::<u8>::empty(),
        max: None,
        min: None,
        res: None,
        def: None,
        writable: c.writable,
    }
}

/// A control restored to its initial value.
pub open spec fn reset_model(c: XuControlModel) -> XuControlModel {
    XuControlModel { cur: c.init, ..c }
}

/// A configuration with a control added to its savelist.
pub open spec fn with_saved(cfg: ConfigurationModel, c: XuControlModel) -> ConfigurationModel {
    ConfigurationModel {
        savelist: if cfg.savelist.contains(saved_of(c)) {
            cfg.savelist
        } else {
            cfg.savelist.push(saved_of(c))
        },
        ..cfg
    }
}

/// A configuration with a control added to its blacklist.
pub open spec fn with_black(cfg: ConfigurationModel, c: XuControlModel) -> ConfigurationModel {
    ConfigurationModel {
        blacklist: if cfg.blacklist.contains(black_of(c)) {
            cfg.blacklist
        } else {
            cfg.blacklist.push(black_of(c))
        },
        ..cfg
    }
}

/// Turning to candidate `j`: a first increment is tried on it.  When it
/// succeeds, the new value is announced and handed to the device.  When the
/// candidate is exhausted at once, it is restored instead.  Past the last
/// candidate the session ends in failure.
pub open spec fn spec_advance(m: EnablerModel, j: int) -> (EnablerModel, Seq<EffectModel>) {
    if j >= m.candidates.len() {
        (
            EnablerModel { idx: m.candidates.len() as int, phase: Phase::Done, ..m },
            seq![
                EffectModel::Send(MessageModel::Failure),
                EffectModel::Stop(Outcome::Exhausted),
            ],
        )
    } else {
        let c = m.candidates[j];
        let (c2, i2, n2, ok) = spec_increment(c, 0, 0, m.neg_answer_limit, m.inc_step);
        if ok {
            (
                EnablerModel {
                    candidates: m.candidates.update(j, c2),
                    idx: j,
                    cur_byte: i2 as int,
                    neg_answer: n2,
                    phase: Phase::AwaitApply,
                    ..m
                },
                seq![
                    EffectModel::Send(MessageModel::UpdateControl(essential_model(c2))),
                    EffectModel::Apply(c2),
                ],
            )
        } else {
            let c3 = reset_model(c2);
            (
                EnablerModel {
                    candidates: m.candidates.update(j, c3),
                    idx: j,
                    cur_byte: i2 as int,
                    neg_answer: n2,
                    phase: Phase::AwaitResetApply,
                    ..m
                },
                seq![EffectModel::Apply(c3)],
            )
        }
    }
}

/// The transition of the enabler: from the current state and an observed
/// event to the next state and the effects the caller must carry out.
/// An event that the current phase does not expect changes nothing.
pub open spec fn spec_step(m: EnablerModel, ev: Event) -> (EnablerModel, Seq<EffectModel>) {
    match m.phase {
        Phase::Init => match ev {
            Event::Start => (
                EnablerModel { phase: Phase::AwaitInitial, ..m },
                seq![
                    EffectModel::Send(MessageModel::IsIrWorking),
                    EffectModel::AwaitResponse,
                ],
            ),
            _ => (m, Seq::<EffectModel>::empty()),
        },
        Phase::AwaitInitial => match ev {
            Event::Response(IsIrWorking::Yes) => (
                EnablerModel { phase: Phase::Done, ..m },
                seq![
                    EffectModel::Send(MessageModel::AlreadyWorking),
                    EffectModel::Stop(Outcome::AlreadyWorking),
                ],
            ),
            Event::Response(IsIrWorking::Abort) => (
                EnablerModel { phase: Phase::Done, abort: true, ..m },
                seq![EffectModel::Stop(Outcome::AbortedEarly)],
            ),
            Event::Response(IsIrWorking::No) => {
                let (m2, fx) = spec_advance(m, 0);
                (
                    m2,
                    seq![
                        EffectModel::Send(
                            MessageModel::Controls(
                                m.candidates.map_values(|c: XuControlModel| essential_model(c)),
                            ),
                        ),
                    ] + fx,
                )
            },
            _ => (m, Seq::<EffectModel>::empty()),
        },
        Phase::AwaitApply => match ev {
            Event::ApplyOk => (
                EnablerModel { phase: Phase::AwaitAnswer, ..m },
                seq![
                    EffectModel::Send(MessageModel::IsIrWorking),
                    EffectModel::AwaitResponse,
                ],
            ),
            Event::ApplyFailed(_) => {
                let c3 = reset_model(m.candidates[m.idx]);
                (
                    EnablerModel {
                        candidates: m.candidates.update(m.idx, c3),
                        phase: Phase::AwaitResetApply,
                        ..m
                    },
                    seq![EffectModel::Apply(c3)],
                )
            },
            _ => (m, Seq::<EffectModel>::empty()),
        },
        Phase::AwaitAnswer => match ev {
            Event::Response(IsIrWorking::Yes) => {
                let c = m.candidates[m.idx];
                let m1 = EnablerModel {
                    configuration: with_saved(m.configuration, c),
                    emitters: m.emitters - 1,
                    ..m
                };
                if m.emitters == 1 {
                    (
                        EnablerModel { phase: Phase::Done, ..m1 },
                        seq![
                            EffectModel::Send(MessageModel::Success),
                            EffectModel::Stop(Outcome::Succeeded),
                        ],
                    )
                } else {
                    spec_advance(m1, m.idx + 1)
                }
            },
            Event::Response(IsIrWorking::No) => {
                let neg1: u16 = if m.neg_answer < u16::MAX {
                    (m.neg_answer + 1) as u16
                } else {
                    m.neg_answer
                };
                let (c2, i2, n2, ok) = spec_increment(
                    m.candidates[m.idx],
                    m.cur_byte as nat,
                    neg1,
                    m.neg_answer_limit,
                    m.inc_step,
                );
                if ok {
                    (
                        EnablerModel {
                            candidates: m.candidates.update(m.idx, c2),
                            cur_byte: i2 as int,
                            neg_answer: n2,
                            phase: Phase::AwaitApply,
                            ..m
                        },
                        seq![
                            EffectModel::Send(MessageModel::UpdateControl(essential_model(c2))),
                            EffectModel::Apply(c2),
                        ],
                    )
                } else {
                    let c3 = reset_model(c2);
                    (
                        EnablerModel {
                            candidates: m.candidates.update(m.idx, c3),
                            cur_byte: i2 as int,
                            neg_answer: n2,
                            phase: Phase::AwaitResetApply,
                            ..m
                        },
                        seq![EffectModel::Apply(c3)],
                    )
                }
            },
            Event::Response(IsIrWorking::Abort) => {
                let c3 = reset_model(m.candidates[m.idx]);
                (
                    EnablerModel {
                        candidates: m.candidates.update(m.idx, c3),
                        abort: true,
                        phase: Phase::AwaitResetApply,
                        ..m
                    },
                    seq![EffectModel::Apply(c3)],
                )
            },
            _ => (m, Seq::<EffectModel>::empty()),
        },
        Phase::AwaitResetApply => match ev {
            Event::ApplyOk => {
                let upd = EffectModel::Send(
                    MessageModel::UpdateControl(essential_model(m.candidates[m.idx])),
                );
                if m.abort {
                    (
                        EnablerModel { phase: Phase::Done, ..m },
                        seq![
                            upd,
                            EffectModel::SendBestEffort(MessageModel::Failure),
                            EffectModel::Stop(Outcome::Aborted),
                        ],
                    )
                } else {
                    let (m2, fx) = spec_advance(m, m.idx + 1);
                    (m2, seq![upd] + fx)
                }
            },
            Event::ApplyFailed(e) => (
                EnablerModel {
                    configuration: with_black(m.configuration, m.candidates[m.idx]),
                    phase: Phase::Done,
                    ..m
                },
                seq![
                    EffectModel::Send(MessageModel::Failure),
                    EffectModel::Stop(Outcome::DeviceBroken(e)),
                ],
            ),
            _ => (m, Seq::<EffectModel>::empty()),
        },
        Phase::Done => (m, Seq::<EffectModel>::empty()),
    }
}

/// Tool that searches the control values enabling the IR emitter(s).  It is
/// a pure state machine: the caller performs the returned effects (channel
/// sends, device writes) and feeds the observed events back in.
#[derive(Debug)]
pub struct Enabler {
    candidates: Vec<XuControl>,
    idx: usize,
    cur_byte: usize,
    neg_answer: u16,
    neg_answer_limit: u16,
    inc_step: u8,
    emitters: usize,
    configuration: Configuration,
    abort: bool,
    phase: Phase,
}

impl View for Enabler {
    type V = EnablerModel;

    closed spec fn view(&self) -> EnablerModel {
        EnablerModel {
            candidates: self.candidates@.map_values(|c: XuControl| c@),
            idx: self.idx as int,
            cur_byte: self.cur_byte as int,
            neg_answer: self.neg_answer,
            neg_answer_limit: self.neg_answer_limit,
            inc_step: self.inc_step,
            emitters: self.emitters as int,
            configuration: self.configuration@,
            abort: self.abort,
            phase: self.phase,
        }
    }
}

impl Enabler {
    /// Creates a new enabler over the controls discovered on the device and
    /// the configuration loaded for it.  Controls that are read-only or
    /// blacklisted are dropped from the candidates; discovery order is
    /// kept.
    pub fn new(config: Config, controls: Vec<XuControl>, configuration: Configuration) -> (r:
        Enabler)
        requires
            config.emitters >= 1,
            forall|i: int|
                0 <= i < controls@.len() ==> (#[trigger] controls@[i]@).wf(),
        ensures
            r@ == (EnablerModel {
                candidates: spec_candidates(
                    controls@.map_values(|c: XuControl| c@),
                    configuration@,
                ),
                idx: 0,
                cur_byte: 0,
                neg_answer: 0,
                neg_answer_limit: match config.neg_answer_limit {
                    Some(l) => l,
                    None => 256,
                },
                inc_step: config.inc_step,
                emitters: config.emitters as int,
                configuration: configuration@,
                abort: false,
                phase: Phase::Init,
            }),
            r@.wf(),
    {
        let ghost all = controls@.map_values(|c: XuControl| c@);
        let n = controls.len();
        let mut candidates: Vec<XuControl> = Vec::new();
        assert(all.skip(0) =~= all);
        assert(candidates@.map_values(|c: XuControl| c@) =~= Seq::<XuControlModel>::empty());
        let mut i: usize = 0;
        while i < n
            invariant
                n == controls@.len(),
                all == controls@.map_values(|c: XuControl| c@),
                i <= n,
                candidates@.map_values(|c: XuControl| c@) + spec_candidates(
                    all.skip(i as int),
                    configuration@,
                ) =~= spec_candidates(all, configuration@),
            decreases n - i,
        {
            proof {
                assert(all.skip(i as int)[0] == all[i as int]);
                assert(all.skip(i as int).drop_first() =~= all.skip(i + 1));
            }
            let c = &controls[i];
            if c.writable() && !configuration.is_blacklisted(c) {
                let ghost prev = candidates@.map_values(|cc: XuControl| cc@);
                candidates.push(c.duplicate());
                assert(candidates@.map_values(|cc: XuControl| cc@) =~= prev + seq![
                    all[i as int],
                ]);
            }
            i += 1;
        }
        assert(all.skip(n as int) =~= Seq::<XuControlModel>::empty());
        let r = Enabler {
            candidates,
            idx: 0,
            cur_byte: 0,
            neg_answer: 0,
            neg_answer_limit: match config.neg_answer_limit {
                Some(l) => l,
                None => 256,
            },
            inc_step: config.inc_step,
            emitters: config.emitters,
            configuration,
            abort: false,
            phase: Phase::Init,
        };
        proof {
            lemma_candidates_wf(all, r@.configuration);
        }
        r
    }

    /// The per-device configuration as the search left it.  The caller
    /// persists it on every exit path, so that the blacklist survives.
    pub fn configuration(&self) -> (r: &Configuration)
        ensures
            r@ == self@.configuration,
    {
        &self.configuration
    }

    /// Whether the session has ended.
    pub fn is_done(&self) -> (r: bool)
        ensures
            r == (self@.phase == Phase::Done),
    {
        match self.phase {
            Phase::Done => true,
            _ => false,
        }
    }

    /// Increments the control value by one step, in little-endian order.
    ///
    /// `cur_byte` is the byte currently being incremented: the state of the
    /// operation across calls.  When the negative-answer count passes the
    /// limit, or one more step would pass the byte's cap (its maximum when
    /// the control has one, 255 otherwise), the byte returns to its initial
    /// value and the next byte is incremented instead.  Returns `false`
    /// once every byte is exhausted.
    pub fn increment(&self, ctrl: &mut XuControl, cur_byte: &mut usize, neg_answer: &mut u16) -> (r:
        bool)
        requires
            old(ctrl)@.wf(),
        ensures
            ({
                let (c2, i2, n2, rr) = spec_increment(
                    old(ctrl)@,
                    *old(cur_byte) as nat,
                    *old(neg_answer),
                    self@.neg_answer_limit,
                    self@.inc_step,
                );
                &&& final(ctrl)@ == c2
                &&& *final(cur_byte) as nat == i2
                &&& *final(neg_answer) == n2
                &&& r == rr
            }),
            final(ctrl)@.wf(),
        decreases old(ctrl)@.cur.len() - *old(cur_byte),
    {
        proof {
            lemma_increment_frame(
                ctrl@,
                *cur_byte as nat,
                *neg_answer,
                self@.neg_answer_limit,
                self@.inc_step,
            );
        }
        if *cur_byte >= ctrl.cur().len() {
            return false;
        }
        let i = *cur_byte;
        let cap: u8 = match ctrl.max() {
            Some(m) => m[i],
            None => 255,
        };
        let cv = ctrl.cur()[i];
        if *neg_answer > self.neg_answer_limit || cap < cv || cap - cv < self.inc_step {
            let b = ctrl.init()[i];
            ctrl.set_cur_byte(i, b);
            *neg_answer = 0;
            *cur_byte = i + 1;
            return self.increment(ctrl, cur_byte, neg_answer);
        }
        ctrl.set_cur_byte(i, cv + self.inc_step);
        true
    }

    /// Turns to candidate `j`, as [`spec_advance`] describes.
    fn advance(&mut self, j: usize) -> (fx: Vec<Effect>)
        requires
            old(self)@.wf(),
            j <= old(self)@.candidates.len(),
            old(self)@.emitters >= 1,
        ensures
            ({
                let (m2, fxm) = spec_advance(old(self)@, j as int);
                &&& final(self)@ == m2
                &&& effects_model(fx@) == fxm
            }),
            final(self)@.wf(),
    {
        let mut fx: Vec<Effect> = Vec::new();
        if j >= self.candidates.len() {
            self.idx = self.candidates.len();
            self.phase = Phase::Done;
            fx.push(Effect::Send(Message::Failure));
            fx.push(Effect::Stop(Outcome::Exhausted));
            assert(effects_model(fx@) =~= seq![
                EffectModel::Send(MessageModel::Failure),
                EffectModel::Stop(Outcome::Exhausted),
            ]);
            assert(self@ =~= spec_advance(old(self)@, j as int).0);
            return fx;
        }
        self.idx = j;
        let mut c = self.candidates[j].duplicate();
        let mut cb: usize = 0;
        let mut neg: u16 = 0;
        let ok = self.increment(&mut c, &mut cb, &mut neg);
        self.cur_byte = cb;
        self.neg_answer = neg;
        if ok {
            self.phase = Phase::AwaitApply;
            fx.push(Effect::Send(Message::UpdateControl(c.essential_clone())));
            fx.push(Effect::Apply(c.duplicate()));
            let ghost c2 = c@;
            self.candidates.set(j, c);
            assert(self@.candidates =~= old(self)@.candidates.update(j as int, c2));
            assert(effects_model(fx@) =~= seq![
                EffectModel::Send(MessageModel::UpdateControl(essential_model(c2))),
                EffectModel::Apply(c2),
            ]);
            assert forall|i: int|
                0 <= i < self@.candidates.len() implies (#[trigger] self@.candidates[i]).wf() by {
                if i != j {
                    assert(self@.candidates[i] == old(self)@.candidates[i]);
                }
            }
            assert(self@ =~= spec_advance(old(self)@, j as int).0);
        } else {
            self.phase = Phase::AwaitResetApply;
            c.reset();
            fx.push(Effect::Apply(c.duplicate()));
            let ghost c3 = c@;
            assert(c3 == reset_model(
                spec_increment(
                    old(self)@.candidates[j as int],
                    0,
                    0,
                    old(self)@.neg_answer_limit,
                    old(self)@.inc_step,
                ).0,
            ));
            self.candidates.set(j, c);
            assert(self@.candidates =~= old(self)@.candidates.update(j as int, c3));
            assert forall|i: int|
                0 <= i < self@.candidates.len() implies (#[trigger] self@.candidates[i]).wf() by {
                if i != j {
                    assert(self@.candidates[i] == old(self)@.candidates[i]);
                }
            }
            assert(effects_model(fx@) =~= seq![EffectModel::Apply(c3)]);
            assert(self@ =~= spec_advance(old(self)@, j as int).0);
        }
        fx
    }

    /// One transition of the machine, as [`spec_step`] describes: consumes
    /// the observed event, updates the state and returns the effects the
    /// caller must carry out, in order.
    pub fn step(&mut self, event: Event) -> (fx: Vec<Effect>)
        requires
            old(self)@.wf(),
        ensures
            ({
                let (m2, fxm) = spec_step(old(self)@, event);
                &&& final(self)@ == m2
                &&& effects_model(fx@) == fxm
            }),
            final(self)@.wf(),
    {
        let mut fx: Vec<Effect> = Vec::new();
        assert(effects_model(fx@) =~= Seq::<EffectModel>::empty());
        match self.phase {
            Phase::Init => {
                match event {
                    Event::Start => {
                        self.phase = Phase::AwaitInitial;
                        fx.push(Effect::Send(Message::IsIrWorking));
                        fx.push(Effect::AwaitResponse);
                        assert(effects_model(fx@) =~= seq![
                            EffectModel::Send(MessageModel::IsIrWorking),
                            EffectModel::AwaitResponse,
                        ]);
                        assert(self@ =~= spec_step(old(self)@, event).0);
                    },
                    _ => {},
                }
            },
            Phase::AwaitInitial => {
                match event {
                    Event::Response(IsIrWorking::Yes) => {
                        self.phase = Phase::Done;
                        fx.push(Effect::Send(Message::AlreadyWorking));
                        fx.push(Effect::Stop(Outcome::AlreadyWorking));
                        assert(effects_model(fx@) =~= seq![
                            EffectModel::Send(MessageModel::AlreadyWorking),
                            EffectModel::Stop(Outcome::AlreadyWorking),
                        ]);
                        assert(self@ =~= spec_step(old(self)@, event).0);
                    },
                    Event::Response(IsIrWorking::Abort) => {
                        self.phase = Phase::Done;
                        self.abort = true;
                        fx.push(Effect::Stop(Outcome::AbortedEarly));
                        assert(effects_model(fx@) =~= seq![
                            EffectModel::Stop(Outcome::AbortedEarly),
                        ]);
                        assert(self@ =~= spec_step(old(self)@, event).0);
                    },
                    Event::Response(IsIrWorking::No) => {
                        let n = self.candidates.len();
                        let mut list: Vec<XuControl> = Vec::new();
                        let mut i: usize = 0;
                        while i < n
                            invariant
                                n == self.candidates@.len(),
                                i <= n,
                                self == old(self),
                                list@.len() == i,
                                forall|k: int|
                                    0 <= k < i ==> list@[k]@ == essential_model(
                                        self@.candidates[k],
                                    ),
                            decreases n - i,
                        {
                            list.push(self.candidates[i].essential_clone());
                            i += 1;
                        }
                        assert(list@.map_values(|c: XuControl| c@) =~= self@.candidates.map_values(
                            |c: XuControlModel| essential_model(c),
                        ));
                        fx.push(Effect::Send(Message::Controls(list)));
                        let mut rest = self.advance(0);
                        assert(effects_model(fx@) =~= seq![
                            EffectModel::Send(
                                MessageModel::Controls(
                                    old(self)@.candidates.map_values(
                                        |c: XuControlModel| essential_model(c),
                                    ),
                                ),
                            ),
                        ]);
                        let ghost fx_head = effects_model(fx@);
                        let ghost fx_tail = effects_model(rest@);
                        fx.append(&mut rest);
                        assert(effects_model(fx@) =~= fx_head + fx_tail);
                    },
                    _ => {},
                }
            },
            Phase::AwaitApply => {
                match event {
                    Event::ApplyOk => {
                        self.phase = Phase::AwaitAnswer;
                        fx.push(Effect::Send(Message::IsIrWorking));
                        fx.push(Effect::AwaitResponse);
                        assert(effects_model(fx@) =~= seq![
                            EffectModel::Send(MessageModel::IsIrWorking),
                            EffectModel::AwaitResponse,
                        ]);
                        assert(self@ =~= spec_step(old(self)@, event).0);
                    },
                    Event::ApplyFailed(_) => {
                        let j = self.idx;
                        let mut c = self.candidates[j].duplicate();
                        c.reset();
                        fx.push(Effect::Apply(c.duplicate()));
                        let ghost c3 = c@;
                        self.candidates.set(j, c);
                        assert(self@.candidates =~= old(self)@.candidates.update(
                            j as int,
                            c3,
                        ));
                        self.phase = Phase::AwaitResetApply;
                        assert(effects_model(fx@) =~= seq![EffectModel::Apply(c3)]);
                        assert(self@ =~= spec_step(old(self)@, event).0);
                    },
                    _ => {},
                }
            },
            Phase::AwaitAnswer => {
                match event {
                    Event::Response(IsIrWorking::Yes) => {
                        let j = self.idx;
                        let c = self.candidates[j].duplicate();
                        self.configuration.add_to_savelist(&c);
                        self.emitters = self.emitters - 1;
                        if self.emitters == 0 {
                            self.phase = Phase::Done;
                            fx.push(Effect::Send(Message::Success));
                            fx.push(Effect::Stop(Outcome::Succeeded));
                            assert(effects_model(fx@) =~= seq![
                                EffectModel::Send(MessageModel::Success),
                                EffectModel::Stop(Outcome::Succeeded),
                            ]);
                            assert(self@ =~= spec_step(old(self)@, event).0);
                        } else {
                            let n = self.candidates.len();
                            assert(j < n);
                            let rest = self.advance(j + 1);
                            fx = rest;
                        }
                    },
                    Event::Response(IsIrWorking::No) => {
                        if self.neg_answer < u16::MAX {
                            self.neg_answer = self.neg_answer + 1;
                        }
                        let j = self.idx;
                        let mut c = self.candidates[j].duplicate();
                        let mut cb = self.cur_byte;
                        let mut neg = self.neg_answer;
                        let ok = self.increment(&mut c, &mut cb, &mut neg);
                        self.cur_byte = cb;
                        self.neg_answer = neg;
                        if ok {
                            fx.push(Effect::Send(Message::UpdateControl(c.essential_clone())));
                            fx.push(Effect::Apply(c.duplicate()));
                            let ghost c2 = c@;
                            self.candidates.set(j, c);
                            assert(self@.candidates =~= old(self)@.candidates.update(
                                j as int,
                                c2,
                            ));
                            self.phase = Phase::AwaitApply;
                            assert(effects_model(fx@) =~= seq![
                                EffectModel::Send(
                                    MessageModel::UpdateControl(essential_model(c2)),
                                ),
                                EffectModel::Apply(c2),
                            ]);
                            assert(self@ =~= spec_step(old(self)@, event).0);
                        } else {
                            c.reset();
                            fx.push(Effect::Apply(c.duplicate()));
                            let ghost c3 = c@;
                            self.candidates.set(j, c);
                            assert(self@.candidates =~= old(self)@.candidates.update(
                                j as int,
                                c3,
                            ));
                            self.phase = Phase::AwaitResetApply;
                            assert(effects_model(fx@) =~= seq![EffectModel::Apply(c3)]);
                            assert(self@ =~= spec_step(old(self)@, event).0);
                        }
                    },
                    Event::Response(IsIrWorking::Abort) => {
                        self.abort = true;
                        let j = self.idx;
                        let mut c = self.candidates[j].duplicate();
                        c.reset();
                        fx.push(Effect::Apply(c.duplicate()));
                        let ghost c3 = c@;
                        self.candidates.set(j, c);
                        assert(self@.candidates =~= old(self)@.candidates.update(
                            j as int,
                            c3,
                        ));
                        self.phase = Phase::AwaitResetApply;
                        assert(effects_model(fx@) =~= seq![EffectModel::Apply(c3)]);
                        assert(self@ =~= spec_step(old(self)@, event).0);
                    },
                    _ => {},
                }
            },
            Phase::AwaitResetApply => {
                match event {
                    Event::ApplyOk => {
                        let j = self.idx;
                        fx.push(
                            Effect::Send(
                                Message::UpdateControl(self.candidates[j].essential_clone()),
                            ),
                        );
                        if self.abort {
                            self.phase = Phase::Done;
                            fx.push(Effect::SendBestEffort(Message::Failure));
                            fx.push(Effect::Stop(Outcome::Aborted));
                            assert(effects_model(fx@) =~= seq![
                                EffectModel::Send(
                                    MessageModel::UpdateControl(
                                        essential_model(old(self)@.candidates[j as int]),
                                    ),
                                ),
                                EffectModel::SendBestEffort(MessageModel::Failure),
                                EffectModel::Stop(Outcome::Aborted),
                            ]);
                            assert(self@ =~= spec_step(old(self)@, event).0);
                        } else {
                            let n = self.candidates.len();
                            assert(j < n);
                            let mut rest = self.advance(j + 1);
                            let ghost fx_head = effects_model(fx@);
                            let ghost fx_tail = effects_model(rest@);
                            fx.append(&mut rest);
                            assert(effects_model(fx@) =~= fx_head + fx_tail);
                            assert(fx_head =~= seq![
                                EffectModel::Send(
                                    MessageModel::UpdateControl(
                                        essential_model(old(self)@.candidates[j as int]),
                                    ),
                                ),
                            ]);
                        }
                    },
                    Event::ApplyFailed(e) => {
                        let j = self.idx;
                        let c = self.candidates[j].duplicate();
                        self.configuration.add_to_blacklist(&c);
                        self.phase = Phase::Done;
                        fx.push(Effect::Send(Message::Failure));
                        fx.push(Effect::Stop(Outcome::DeviceBroken(e)));
                        assert(effects_model(fx@) =~= seq![
                            EffectModel::Send(MessageModel::Failure),
                            EffectModel::Stop(Outcome::DeviceBroken(e)),
                        ]);
                        assert(self@ =~= spec_step(old(self)@, event).0);
                    },
                    _ => {},
                }
            },
            Phase::Done => {},
        }
        fx
    }
}

/// Every candidate kept by the filter is one of the given controls, so the
/// filter preserves well-formedness.
proof fn lemma_candidates_wf(s: Seq<XuControlModel>, cfg: ConfigurationModel)
    requires
        forall|i: int| 0 <= i < s.len() ==> (#[trigger] s[i]).wf(),
    ensures
        forall|i: int|
            0 <= i < spec_candidates(s, cfg).len() ==> (#[trigger] spec_candidates(s, cfg)[i]).wf(),
    decreases s.len(),
{
    if s.len() == 0 {
    } else {
        assert(forall|i: int|
            0 <= i < s.drop_first().len() ==> (#[trigger] s.drop_first()[i]).wf());
        lemma_candidates_wf(s.drop_first(), cfg);
        let rest = spec_candidates(s.drop_first(), cfg);
        if s[0].writable && !cfg.spec_blacklisted(s[0].unit, s[0].selector) {
            let t = seq![s[0]] + rest;
            assert(forall|i: int|
                0 <= i < t.len() ==> (#[trigger] t[i]) == if i == 0 {
                    s[0]
                } else {
                    rest[i - 1]
                });
        }
    }
}

} // verus!
