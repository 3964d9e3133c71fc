//! The local APIC, its timer, and the routing of the keyboard through the
//! I/O APIC.

use vstd::prelude::*;
use crate::shared::addr::VirtAddr;
use crate::shared::bits::{set_bit, set_bits, with_bit};

verus! {

pub const APIC_APICID: u32 = 0x20;

pub const APIC_APICVER: u32 = 0x30;

pub const APIC_TASKPRIOR: u32 = 0x80;

pub const APIC_EOI: u32 = 0x0B0;

pub const APIC_LDR: u32 = 0x0D0;

pub const APIC_DFR: u32 = 0x0E0;

pub const APIC_SPURIOUS: u32 = 0x0F0;

pub const APIC_ESR: u32 = 0x280;

pub const APIC_ICRL: u32 = 0x300;

pub const APIC_ICRH: u32 = 0x310;

pub const APIC_LVT_TMR: u32 = 0x320;

pub const APIC_LVT_PERF: u32 = 0x340;

pub const APIC_LVT_LINT0: u32 = 0x350;

pub const APIC_LVT_LINT1: u32 = 0x360;

pub const APIC_LVT_ERR: u32 = 0x370;

pub const APIC_TMRINITCNT: u32 = 0x380;

pub const APIC_TMRCURRCNT: u32 = 0x390;

pub const APIC_TMRDIV: u32 = 0x3E0;

pub const APIC_LAST: u32 = 0x38F;

pub const APIC_DISABLE: u32 = 0x10000;

pub const APIC_SW_ENABLE: u32 = 0x100;

pub const APIC_CPUFOCUS: u32 = 0x200;

pub const APIC_NMI: u32 = 0x400;

pub const TMR_PERIODIC: u32 = 0x20000;

pub const TMR_BASEDIV: u32 = 0x10_0000;

/// The value of the divide register that makes the timer count every
/// sixteenth bus cycle.
pub const DIVIDE_BY_16: u32 = 0x03;

/// The vector of the timer interrupt.
pub const TIMER_VECTOR: u32 = 32;

/// The vector of the keyboard interrupt.
pub const KEYBOARD_VECTOR: u64 = 33;

/// Timer interrupts per second.
pub const TIMER_FREQUENCY: u64 = 100;

/// The value that stands for a measurement that failed.
pub const NO_VALUE: u64 = 0xFFFF_FFFF_FFFF_FFFF;

/// The bytes of the local APIC's registers that are mapped.
pub const LOCAL_APIC_SPAN: u64 = 0x10_0000;

/// A value to write to the register of the local APIC at the byte offset
/// `offset`.
#[derive(Clone, Copy, PartialEq, Eq, Structural, Debug)]
pub struct RegisterWrite {
    pub offset: u32,
    pub value: u32,
}

/// The local APIC, by the address of its registers.
pub struct Apic {
    apic_base: VirtAddr,
}

/// The writes that bring the local APIC to a known state, given the value
/// `ldr` of its logical destination register: the flat model, the lowest
/// byte of the logical destination set, the timer and the two local
/// interrupt lines masked, the performance counter as a non-maskable
/// interrupt, and task priority 0.
pub open spec fn initialize_writes(ldr: u32) -> Seq<RegisterWrite> {
    seq![
        RegisterWrite { offset: APIC_DFR, value: 0xFFFF_FFFF },
        RegisterWrite { offset: APIC_LDR, value: (ldr & 0x00FF_FFFF) | 0b0000_0001 },
        RegisterWrite { offset: APIC_LVT_TMR, value: APIC_DISABLE },
        RegisterWrite { offset: APIC_LVT_PERF, value: APIC_NMI },
        RegisterWrite { offset: APIC_LVT_LINT0, value: APIC_DISABLE },
        RegisterWrite { offset: APIC_LVT_LINT1, value: APIC_DISABLE },
        RegisterWrite { offset: APIC_TASKPRIOR, value: 0 },
    ]
}

impl Apic {
    /// The address of the registers.
    pub closed spec fn base(&self) -> VirtAddr {
        self.apic_base
    }

    /// A local APIC whose registers have not been found yet.
    pub fn new() -> (apic: Apic)
        ensures
            apic.base().0 == 0,
    {
        Apic { apic_base: VirtAddr::new(0) }
    }

    /// Notes where the registers are, and returns the writes that bring the
    /// local APIC to a known state; `ldr` is the value read from its logical
    /// destination register.
    pub fn initialize(&mut self, addr: VirtAddr, ldr: u32) -> (writes: Vec<RegisterWrite>)
        ensures
            final(self).base() == addr,
            writes@ == initialize_writes(ldr),
    {
        self.apic_base = addr;
        let mut writes: Vec<RegisterWrite> = Vec::new();
        writes.push(RegisterWrite { offset: APIC_DFR, value: 0xFFFF_FFFF });
        writes.push(RegisterWrite { offset: APIC_LDR, value: (ldr & 0x00FF_FFFF) | 0b0000_0001 });
        writes.push(RegisterWrite { offset: APIC_LVT_TMR, value: APIC_DISABLE });
        writes.push(RegisterWrite { offset: APIC_LVT_PERF, value: APIC_NMI });
        writes.push(RegisterWrite { offset: APIC_LVT_LINT0, value: APIC_DISABLE });
        writes.push(RegisterWrite { offset: APIC_LVT_LINT1, value: APIC_DISABLE });
        writes.push(RegisterWrite { offset: APIC_TASKPRIOR, value: 0 });
        assert(writes@ =~= initialize_writes(ldr));
        writes
    }

    /// The address of the register at the byte offset `offset`.
    pub fn register_address(&self, offset: u32) -> (addr: u64)
        requires
            self.base().0 + offset <= u64::MAX,
        ensures
            addr == self.base().0 + offset,
    {
        self.apic_base.0 + offset as u64
    }

    /// The write that tells the local APIC that the interrupt is handled.
    pub fn notify_end_of_interrupt(&mut self) -> (write: RegisterWrite)
        ensures
            write == (RegisterWrite { offset: APIC_EOI, value: 0 }),
            final(self).base() == old(self).base(),
    {
        RegisterWrite { offset: APIC_EOI, value: 0 }
    }
}

/// The writes that disable the two legacy interrupt controllers: every
/// interrupt masked at both.
pub fn disable_pic() -> (writes: [crate::kernel::port::PortWrite; 2])
    ensures
        writes@[0] == (crate::kernel::port::PortWrite { port: 0x21, value: 0xff }),
        writes@[1] == (crate::kernel::port::PortWrite { port: 0xA1, value: 0xff }),
{
    [
        crate::kernel::port::PortWrite { port: 0x21, value: 0xff },
        crate::kernel::port::PortWrite { port: 0xA1, value: 0xff },
    ]
}

/// The reading of the reference timer between two readings of the time
/// stamp counter.
#[derive(Clone, Copy, PartialEq, Eq, Structural, Debug)]
pub struct ReferenceReading {
    pub before: u64,
    pub reference: u32,
    pub after: u64,
}

/// The two time stamps of a reading lie so close that nothing can have
/// disturbed it.
pub open spec fn undisturbed(r: ReferenceReading) -> bool {
    r.before <= r.after && r.after - r.before < 0x20000
}

/// The place of the first undisturbed reading from place `from` on, or the
/// length of the list where there is none.
pub open spec fn first_undisturbed(readings: Seq<ReferenceReading>, from: int) -> int
    decreases readings.len() - from,
{
    if from < 0 || from >= readings.len() {
        readings.len() as int
    } else if undisturbed(readings[from]) {
        from
    } else {
        first_undisturbed(readings, from + 1)
    }
}

/// Picks the first undisturbed reading of the reference timer and returns
/// its later time stamp with the reference. Where every reading was
/// disturbed, the time stamp is `NO_VALUE` and the reference that of the
/// last reading, or 0 without readings.
pub fn tsc_read_apic_ref(readings: &Vec<ReferenceReading>) -> (r: (u64, u32))
    ensures
        first_undisturbed(readings@, 0) < readings@.len() ==> r == (
            readings@[first_undisturbed(readings@, 0)].after,
            readings@[first_undisturbed(readings@, 0)].reference,
        ),
        first_undisturbed(readings@, 0) >= readings@.len() ==> r.0 == NO_VALUE && r.1 == (if readings@.len()
            > 0 {
            readings@.last().reference
        } else {
            0
        }),
{
    let mut apic_tmr: u32 = 0;
    let mut i: usize = 0;
    while i < readings.len()
        invariant
            i <= readings@.len(),
            first_undisturbed(readings@, 0) == first_undisturbed(readings@, i as int),
            apic_tmr == (if i > 0 {
                readings@[i - 1].reference
            } else {
                0
            }),
        decreases readings@.len() - i,
    {
        let reading = readings[i];
        apic_tmr = reading.reference;
        if reading.before <= reading.after && reading.after - reading.before < 0x20000 {
            return (reading.after, apic_tmr);
        }
        i = i + 1;
    }
    (NO_VALUE, apic_tmr)
}

/// What a loop over the programmable interval timer has seen of the time
/// stamp counter: the first and the last time stamp, the smallest and the
/// largest step between two, and the number of steps.
#[derive(Clone, Copy, PartialEq, Eq, Structural, Debug)]
pub struct PitLoop {
    pub first: u64,
    pub last: u64,
    pub tsc_min: u64,
    pub tsc_max: u64,
    pub count: u16,
}

impl PitLoop {
    /// A loop that starts at the time stamp `tsc`.
    pub fn new(tsc: u64) -> (l: PitLoop)
        ensures
            l == (PitLoop { first: tsc, last: tsc, tsc_min: NO_VALUE, tsc_max: 0, count: 0 }),
    {
        PitLoop { first: tsc, last: tsc, tsc_min: NO_VALUE, tsc_max: 0, count: 0 }
    }

    /// Takes the next time stamp into account. The counter of steps stops at
    /// its largest value.
    pub fn sample(&mut self, tsc: u64)
        requires
            old(self).last <= tsc,
        ensures
            *final(self) == (PitLoop {
                first: old(self).first,
                last: tsc,
                tsc_min: if tsc - old(self).last < old(self).tsc_min {
                    (tsc - old(self).last) as u64
                } else {
                    old(self).tsc_min
                },
                tsc_max: if tsc - old(self).last > old(self).tsc_max {
                    (tsc - old(self).last) as u64
                } else {
                    old(self).tsc_max
                },
                count: if old(self).count < u16::MAX {
                    (old(self).count + 1) as u16
                } else {
                    u16::MAX
                },
            }),
    {
        let delta = tsc - self.last;
        self.last = tsc;
        if delta < self.tsc_min {
            self.tsc_min = delta;
        }
        if delta > self.tsc_max {
            self.tsc_max = delta;
        }
        if self.count < u16::MAX {
            self.count = self.count + 1;
        }
    }
}

/// The frequency of the time stamp counter in kHz that a loop of `ms`
/// milliseconds over the programmable interval timer shows, or `NO_VALUE`
/// where the loop was disturbed: it made fewer than `loop_min` steps, or its
/// largest step was more than ten times its smallest.
pub open spec fn pit_frequency(l: PitLoop, ms: u64, loop_min: u16) -> u64 {
    if l.count < loop_min || l.tsc_max > 10 * l.tsc_min {
        NO_VALUE
    } else {
        ((l.last - l.first) / (ms as int)) as u64
    }
}

/// Judges a loop over the programmable interval timer: see `pit_frequency`.
pub fn pit_calibrate_tsc(l: &PitLoop, ms: u64, loop_min: u16) -> (khz: u64)
    requires
        ms > 0,
        l.first <= l.last,
    ensures
        khz == pit_frequency(*l, ms, loop_min),
{
    if l.count < loop_min || l.tsc_max as u128 > 10 * (l.tsc_min as u128) {
        return NO_VALUE;
    }
    (l.last - l.first) / ms
}

/// The span of the reference timer between the readings `pm1` and `pm2`; the
/// timer has 24 bits and may have wrapped once.
pub open spec fn reference_span(pm1: u64, pm2: u64) -> int {
    if pm2 < pm1 {
        pm2 + 0x100_0000 - pm1
    } else {
        pm2 - pm1
    }
}

/// The span of the reference timer in nanoseconds, at 3579545 ticks a
/// second.
pub open spec fn reference_nanoseconds(pm1: u64, pm2: u64) -> int {
    reference_span(pm1, pm2) * 1000000000 / 3579545
}

/// The readings of the reference timer give a span that can be divided by.
pub open spec fn reference_usable(pm1: u64, pm2: u64) -> bool {
    &&& (pm1 != 0 || pm2 != 0)
    &&& pm2 < pm1 ==> pm2 + 0x100_0000 <= u64::MAX
    &&& reference_span(pm1, pm2) >= 0
    &&& reference_span(pm1, pm2) * 1000000000 <= u64::MAX
    &&& reference_nanoseconds(pm1, pm2) > 0
}

/// Tells whether `calc_apic_timer_ref` can take the readings.
pub fn reference_is_usable(pm1: u64, pm2: u64) -> (ok: bool)
    ensures
        ok == (reference_usable(pm1, pm2) || (pm1 == 0 && pm2 == 0)),
{
    if pm1 == 0 && pm2 == 0 {
        return true;
    }
    let span: u128 = if pm2 < pm1 {
        if pm2 as u128 + 0x100_0000 < pm1 as u128 || pm2 > u64::MAX - 0x100_0000 {
            return false;
        }
        pm2 as u128 + 0x100_0000 - pm1 as u128
    } else {
        (pm2 - pm1) as u128
    };
    let scaled = span * 1000000000;
    scaled <= u64::MAX as u128 && scaled / 3579545 > 0
}

/// The frequency of the time stamp counter from the reference timer: the
/// time stamps `deltatsc` spent, divided by the nanoseconds between the
/// readings `pm1` and `pm2`. `NO_VALUE` where both readings are 0.
pub fn calc_apic_timer_ref(deltatsc: u64, pm1: u64, pm2: u64) -> (frequency: u64)
    requires
        reference_usable(pm1, pm2) || (pm1 == 0 && pm2 == 0),
    ensures
        frequency == (if pm1 == 0 && pm2 == 0 {
            NO_VALUE
        } else {
            (deltatsc as int / reference_nanoseconds(pm1, pm2)) as u64
        }),
{
    if pm1 == 0 && pm2 == 0 {
        return NO_VALUE;
    }
    let mut pm2 = pm2;
    if pm2 < pm1 {
        pm2 = pm2 + 0x100_0000;
    }
    pm2 = pm2 - pm1;
    let mut tmp: u64 = pm2 * 1000000000;
    tmp = tmp / 3579545;
    deltatsc / tmp
}

/// What one round of the calibration measured: a reading of the reference
/// timer, the frequency that the loop over the interval timer showed, and a
/// second reading of the reference timer.
#[derive(Clone, Copy, PartialEq, Eq, Structural, Debug)]
pub struct CalibrationRound {
    pub tsc1: u64,
    pub ref1: u32,
    pub tsc_pit_khz: u64,
    pub tsc2: u64,
    pub ref2: u32,
}

/// How the loop over the interval timer of the next round is to be run.
#[derive(Clone, Copy, PartialEq, Eq, Structural, Debug)]
pub struct CalibrationParams {
    pub latch: u32,
    pub ms: u64,
    pub loop_min: u16,
}

/// Why the calibration gave no frequency.
#[derive(Clone, Copy, PartialEq, Eq, Structural, Debug)]
pub enum CalibrationError {
    /// Neither the interval timer nor the reference timer gave a value.
    Failed,
    /// The readings of a round cannot be computed with.
    BadReading,
}

/// The smallest frequencies seen so far: from the interval timer and from
/// the reference timer.
#[derive(Clone, Copy, PartialEq, Eq, Structural, Debug)]
pub struct CalibrationState {
    pub tsc_pit_min: u64,
    pub tsc_ref_min: u64,
}

/// The lesser of two frequencies.
pub open spec fn lesser(a: u64, b: u64) -> u64 {
    if a <= b {
        a
    } else {
        b
    }
}

/// The round has two readings of the reference timer to compute with.
pub open spec fn round_has_reference(r: CalibrationRound) -> bool {
    r.tsc1 != NO_VALUE && r.tsc2 != NO_VALUE
}

/// The readings of the round can be computed with.
pub open spec fn round_usable(r: CalibrationRound) -> bool {
    round_has_reference(r) ==> r.tsc1 <= r.tsc2 && (r.tsc2 - r.tsc1) * 1000000 <= u64::MAX && (
    reference_usable(r.ref1 as u64, r.ref2 as u64) || (r.ref1 == 0 && r.ref2 == 0))
}

/// The frequency that the round's readings of the reference timer give.
pub open spec fn round_reference(r: CalibrationRound) -> u64 {
    if r.ref1 == 0 && r.ref2 == 0 {
        NO_VALUE
    } else {
        (((r.tsc2 - r.tsc1) * 1000000) / reference_nanoseconds(r.ref1 as u64, r.ref2 as u64)) as u64
    }
}

/// The state after the round.
pub open spec fn state_after(state: CalibrationState, r: CalibrationRound) -> CalibrationState {
    CalibrationState {
        tsc_pit_min: lesser(state.tsc_pit_min, r.tsc_pit_khz),
        tsc_ref_min: if round_has_reference(r) {
            lesser(state.tsc_ref_min, round_reference(r))
        } else {
            state.tsc_ref_min
        },
    }
}

/// The two timers agree after the round: the frequency from the interval
/// timer is 90 to 110 percent of that from the reference timer.
pub open spec fn timers_agree(state: CalibrationState, r: CalibrationRound) -> bool {
    let next = state_after(state, r);
    &&& round_has_reference(r)
    &&& next.tsc_pit_min * 100 <= u64::MAX
    &&& next.tsc_ref_min > 0
    &&& 90 <= next.tsc_pit_min * 100 / (next.tsc_ref_min as int) <= 110
}

/// The result of the calibration over the rounds from place `from` on. The
/// first round after which the timers agree gives the frequency from the
/// reference timer. Without such a round the smallest frequency from the
/// interval timer counts, or, where that timer never gave one, the smallest
/// from the reference timer.
pub open spec fn calibration_result(
    rounds: Seq<CalibrationRound>,
    from: int,
    state: CalibrationState,
) -> Result<u64, CalibrationError>
    decreases rounds.len() - from,
{
    if from < 0 || from >= rounds.len() {
        if state.tsc_pit_min == NO_VALUE {
            if state.tsc_ref_min == NO_VALUE {
                Err(CalibrationError::Failed)
            } else {
                Ok(state.tsc_ref_min)
            }
        } else {
            Ok(state.tsc_pit_min)
        }
    } else if !round_usable(rounds[from]) {
        Err(CalibrationError::BadReading)
    } else if timers_agree(state, rounds[from]) {
        Ok(state_after(state, rounds[from]).tsc_ref_min)
    } else {
        calibration_result(rounds, from + 1, state_after(state, rounds[from]))
    }
}

/// How to run the loop over the interval timer in round `round` (counted
/// from 0): a latch for 10 ms and at least 1000 steps; from the third round
/// on a latch for 50 ms and at least 5000 steps, if the interval timer has
/// given no frequency in the first two.
pub fn calibration_params(round: usize, tsc_pit_min: u64) -> (p: CalibrationParams)
    ensures
        p == (if round >= 2 && tsc_pit_min == NO_VALUE {
            CalibrationParams { latch: 59659, ms: 50, loop_min: 5000 }
        } else {
            CalibrationParams { latch: 11931, ms: 10, loop_min: 1000 }
        }),
{
    if round >= 2 && tsc_pit_min == NO_VALUE {
        CalibrationParams { latch: 59659, ms: 50, loop_min: 5000 }
    } else {
        CalibrationParams { latch: 11931, ms: 10, loop_min: 1000 }
    }
}

/// What a round of the calibration leads to.
#[derive(Clone, Copy, PartialEq, Eq, Structural, Debug)]
pub enum CalibrationStep {
    /// The two timers agree: this is the frequency.
    Agreed(u64),
    /// They do not: another round is due, or the end.
    Continue(CalibrationState),
    /// The readings of the round cannot be computed with.
    BadReading,
}

/// The state of a calibration before its first round.
pub fn calibration_start() -> (state: CalibrationState)
    ensures
        state == (CalibrationState { tsc_pit_min: NO_VALUE, tsc_ref_min: NO_VALUE }),
{
    CalibrationState { tsc_pit_min: NO_VALUE, tsc_ref_min: NO_VALUE }
}

/// Takes a round into account: the smallest frequencies are brought up to
/// date, and where the two timers agree after it the calibration is over.
pub fn calibration_step(state: &CalibrationState, round: &CalibrationRound) -> (step: CalibrationStep)
    ensures
        step == (if !round_usable(*round) {
            CalibrationStep::BadReading
        } else if timers_agree(*state, *round) {
            CalibrationStep::Agreed(state_after(*state, *round).tsc_ref_min)
        } else {
            CalibrationStep::Continue(state_after(*state, *round))
        }),
{
    let mut tsc_pit_min = state.tsc_pit_min;
    let mut tsc_ref_min = state.tsc_ref_min;
    if round.tsc_pit_khz < tsc_pit_min {
        tsc_pit_min = round.tsc_pit_khz;
    }
    if round.tsc1 != NO_VALUE && round.tsc2 != NO_VALUE {
        if round.tsc1 > round.tsc2 {
            return CalibrationStep::BadReading;
        }
        let delta = match (round.tsc2 - round.tsc1).checked_mul(1000000) {
            Some(delta) => delta,
            None => {
                return CalibrationStep::BadReading;
            },
        };
        if !reference_is_usable(round.ref1 as u64, round.ref2 as u64) {
            return CalibrationStep::BadReading;
        }
        let reference = calc_apic_timer_ref(delta, round.ref1 as u64, round.ref2 as u64);
        if reference < tsc_ref_min {
            tsc_ref_min = reference;
        }
        match tsc_pit_min.checked_mul(100) {
            Some(scaled) => {
                if tsc_ref_min > 0 {
                    let ratio = scaled / tsc_ref_min;
                    if ratio >= 90 && ratio <= 110 {
                        return CalibrationStep::Agreed(tsc_ref_min);
                    }
                }
            },
            None => {},
        }
    }
    CalibrationStep::Continue(CalibrationState { tsc_pit_min, tsc_ref_min })
}

/// The frequency of a calibration whose rounds never agreed: the smallest
/// from the interval timer, or, where that timer never gave one, the
/// smallest from the reference timer.
pub fn calibration_end(state: &CalibrationState) -> (r: Result<u64, CalibrationError>)
    ensures
        r == calibration_result(Seq::<CalibrationRound>::empty(), 0, *state),
{
    if state.tsc_pit_min == NO_VALUE {
        if state.tsc_ref_min == NO_VALUE {
            return Err(CalibrationError::Failed);
        }
        return Ok(state.tsc_ref_min);
    }
    Ok(state.tsc_pit_min)
}

/// Works out the frequency of the time stamp counter from the rounds that
/// were measured: see `calibration_result`.
pub fn pit_hpet_ptimer_calibrate_cpu(rounds: &Vec<CalibrationRound>) -> (r: Result<
    u64,
    CalibrationError,
>)
    ensures
        r == calibration_result(
            rounds@,
            0,
            CalibrationState { tsc_pit_min: NO_VALUE, tsc_ref_min: NO_VALUE },
        ),
{
    let mut state = calibration_start();
    let mut i: usize = 0;
    while i < rounds.len()
        invariant
            i <= rounds@.len(),
            calibration_result(
                rounds@,
                0,
                CalibrationState { tsc_pit_min: NO_VALUE, tsc_ref_min: NO_VALUE },
            ) == calibration_result(rounds@, i as int, state),
        decreases rounds@.len() - i,
    {
        match calibration_step(&state, &rounds[i]) {
            CalibrationStep::BadReading => {
                return Err(CalibrationError::BadReading);
            },
            CalibrationStep::Agreed(frequency) => {
                return Ok(frequency);
            },
            CalibrationStep::Continue(next) => {
                state = next;
            },
        }
        i = i + 1;
    }
    calibration_end(&state)
}

/// The calibration of the APIC timer against the seconds of the real-time
/// clock: whether a full second has begun, and the ticks counted in each of
/// up to three seconds after it.
#[derive(Clone, Copy, PartialEq, Eq, Structural, Debug)]
pub struct TimerCalibration {
    pub full_second_passing: bool,
    pub first_measure: u32,
    pub second_measure: u32,
    pub third_measure: u32,
}

impl TimerCalibration {
    /// A calibration before the first change of the second.
    pub fn new() -> (c: TimerCalibration)
        ensures
            c == (TimerCalibration {
                full_second_passing: false,
                first_measure: 0,
                second_measure: 0,
                third_measure: 0,
            }),
    {
        TimerCalibration {
            full_second_passing: false,
            first_measure: 0,
            second_measure: 0,
            third_measure: 0,
        }
    }

    /// The calibration after a change of the second at which the timer,
    /// started at its largest count, had come down to `current_count`.
    pub open spec fn after_second(self, current_count: u32) -> TimerCalibration {
        let ticks = (0xFFFF_FFFF - current_count) as u32;
        if !self.full_second_passing {
            TimerCalibration { full_second_passing: true, ..self }
        } else if self.first_measure == 0 {
            TimerCalibration { first_measure: ticks, ..self }
        } else if self.second_measure == 0 {
            TimerCalibration { second_measure: ticks, ..self }
        } else if self.third_measure == 0 {
            TimerCalibration { third_measure: ticks, ..self }
        } else {
            self
        }
    }

    /// Three seconds have been measured.
    pub open spec fn complete(self) -> bool {
        self.full_second_passing && self.first_measure != 0 && self.second_measure != 0
            && self.third_measure != 0
    }

    /// Notes a change of the second of the real-time clock, at which the
    /// timer had come down to `current_count`. Returns `true` once three
    /// seconds had been measured before: the calibration is over. Else the
    /// timer is to be started again, in one-shot mode from its largest count.
    pub fn on_second(&mut self, current_count: u32) -> (done: bool)
        ensures
            done == old(self).complete(),
            *final(self) == old(self).after_second(current_count),
    {
        let ticks_in_1s = 0xFFFF_FFFF - current_count;
        if !self.full_second_passing {
            self.full_second_passing = true;
        } else if self.first_measure == 0 {
            self.first_measure = ticks_in_1s;
        } else if self.second_measure == 0 {
            self.second_measure = ticks_in_1s;
        } else if self.third_measure == 0 {
            self.third_measure = ticks_in_1s;
        } else {
            return true;
        }
        false
    }

    /// The average of the three measures.
    pub fn average(&self) -> (avg: u64)
        ensures
            avg == (self.first_measure + self.second_measure + self.third_measure) / 3,
    {
        (self.first_measure as u64 + self.second_measure as u64 + self.third_measure as u64) / 3
    }

    /// The frequency of the bus in Hz: the timer counts every sixteenth cycle.
    pub fn bus_frequency(&self) -> (hz: u64)
        ensures
            hz == ((self.first_measure + self.second_measure + self.third_measure) / 3) * 16,
    {
        self.average() * 16
    }

    /// The count from which the timer runs down `TIMER_FREQUENCY` times a
    /// second.
    pub fn timer_value(&self) -> (value: u32)
        ensures
            value == ((self.first_measure + self.second_measure + self.third_measure) / 3)
                / (TIMER_FREQUENCY as int),
    {
        (self.average() / TIMER_FREQUENCY) as u32
    }
}

/// The writes that prepare the timer for the calibration: divide by 16, and
/// the local APIC enabled by software, given the value `spurious` of its
/// spurious interrupt register.
pub fn calibration_setup(spurious: u32) -> (writes: [RegisterWrite; 2])
    ensures
        writes@[0] == (RegisterWrite { offset: APIC_TMRDIV, value: DIVIDE_BY_16 }),
        writes@[1] == (RegisterWrite { offset: APIC_SPURIOUS, value: spurious | APIC_SW_ENABLE }),
{
    [
        RegisterWrite { offset: APIC_TMRDIV, value: DIVIDE_BY_16 },
        RegisterWrite { offset: APIC_SPURIOUS, value: spurious | APIC_SW_ENABLE },
    ]
}

/// The writes that start the timer for one second of the calibration: one
/// shot, from the largest count.
pub fn one_shot() -> (writes: [RegisterWrite; 2])
    ensures
        writes@[0] == (RegisterWrite { offset: APIC_LVT_TMR, value: TIMER_VECTOR }),
        writes@[1] == (RegisterWrite { offset: APIC_TMRINITCNT, value: 0xFFFF_FFFF }),
{
    [
        RegisterWrite { offset: APIC_LVT_TMR, value: TIMER_VECTOR },
        RegisterWrite { offset: APIC_TMRINITCNT, value: 0xFFFF_FFFF },
    ]
}

/// The writes that make the timer interrupt periodically, every
/// `timer_value` counts, with the divider set again to 16.
pub fn periodic(timer_value: u32) -> (writes: [RegisterWrite; 3])
    ensures
        writes@[0] == (RegisterWrite { offset: APIC_TMRINITCNT, value: timer_value }),
        writes@[1] == (RegisterWrite { offset: APIC_LVT_TMR, value: TIMER_VECTOR | TMR_PERIODIC }),
        writes@[2] == (RegisterWrite { offset: APIC_TMRDIV, value: DIVIDE_BY_16 }),
{
    [
        RegisterWrite { offset: APIC_TMRINITCNT, value: timer_value },
        RegisterWrite { offset: APIC_LVT_TMR, value: TIMER_VECTOR | TMR_PERIODIC },
        RegisterWrite { offset: APIC_TMRDIV, value: DIVIDE_BY_16 },
    ]
}

/// The low word of the I/O APIC's entry for the keyboard, made from the
/// word `low_reg` that was there: the keyboard vector ored in, fixed
/// delivery, and the bits 11, 13, 15 and 16 cleared: a physical
/// destination, a pin that is active high, an edge trigger, and no mask.
pub open spec fn keyboard_entry(low_reg: u32) -> u32 {
    let vectored = (low_reg as u64) | (KEYBOARD_VECTOR << 0);
    let delivered = vectored | (0u64 << 8);
    let cleared = with_bit(with_bit(with_bit(with_bit(delivered, 11, false), 13, false), 15, false), 16, false);
    cleared as u32
}

proof fn lemma_entry_fits(low_reg: u32)
    by (bit_vector)
    ensures
        ((((((low_reg as u64) | (33u64 << 0)) | (0u64 << 8)) & !(1u64 << 11)) & !(1u64 << 13)) & !(1u64
            << 15)) & !(1u64 << 16) <= 0xFFFF_FFFF,
{
}

/// The low word of the I/O APIC's entry that routes the keyboard: see
/// `keyboard_entry`.
pub fn keyboard_redirection(low_reg: u32) -> (entry: u32)
    ensures
        entry == keyboard_entry(low_reg),
{
    let mut low: u64 = low_reg as u64;
    set_bits(&mut low, KEYBOARD_VECTOR, 0);
    set_bits(&mut low, 0, 8);
    set_bit(&mut low, 11, false);
    set_bit(&mut low, 13, false);
    set_bit(&mut low, 15, false);
    set_bit(&mut low, 16, false);
    proof {
        lemma_entry_fits(low_reg);
    }
    low as u32
}

/// The register of the I/O APIC that holds the low word of the keyboard's
/// entry.
pub const IOAPIC_KEYBOARD_LOW: u32 = 0x12;

/// The register of the I/O APIC that holds the high word of the keyboard's
/// entry: the local APIC that the interrupt goes to.
pub const IOAPIC_KEYBOARD_HIGH: u32 = 0x13;

/// The byte offset of the I/O APIC's register that selects a register.
pub const IOAPIC_SELECT: u32 = 0;

/// The byte offset of the I/O APIC's register that holds the selected one.
pub const IOAPIC_WINDOW: u32 = 0x10;

/// The two writes that put `value` into the register `register` of the I/O
/// APIC: the register's number to the select register, the value to the
/// window.
pub fn write_io_apic(register: u32, value: u32) -> (writes: [RegisterWrite; 2])
    ensures
        writes@[0] == (RegisterWrite { offset: IOAPIC_SELECT, value: register & 0xff }),
        writes@[1] == (RegisterWrite { offset: IOAPIC_WINDOW, value }),
{
    [
        RegisterWrite { offset: IOAPIC_SELECT, value: register & 0xff },
        RegisterWrite { offset: IOAPIC_WINDOW, value },
    ]
}

} // verus!
