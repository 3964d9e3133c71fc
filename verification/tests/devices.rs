use rust_os::kernel::apic::{
    calc_apic_timer_ref, calibration_end, calibration_params, calibration_setup, calibration_start,
    calibration_step, disable_pic, keyboard_redirection, CalibrationState, CalibrationStep,
    one_shot, periodic, pit_calibrate_tsc, pit_hpet_ptimer_calibrate_cpu, reference_is_usable,
    tsc_read_apic_ref, write_io_apic, Apic, CalibrationError, CalibrationParams, CalibrationRound,
    PitLoop, ReferenceReading, RegisterWrite, TimerCalibration, APIC_DFR, APIC_EOI, APIC_LDR,
    APIC_LVT_TMR, APIC_SPURIOUS, APIC_TASKPRIOR, APIC_TMRDIV, APIC_TMRINITCNT, NO_VALUE,
};
use rust_os::kernel::chrono::{read_rtc, settled, update_in_progress, RtcRegisters, RtcTime};
use rust_os::kernel::ide::{
    compatibility_channel, construct_u32, get_u16_from_buffer, get_u32_from_buffer, ide_polling,
    ide_port, ide_write, identify_answer, identify_select, is_busy, ATAChannel, AtaError,
    AtaRegister, DriveType, IDEDevice, LbaMode,
};
use rust_os::kernel::pci::{get_device_type, is_multifunction, pci_config_address, pci_config_word};
use rust_os::kernel::pic::ChainedPics;
use rust_os::kernel::port::{Port, PortWrite};
use rust_os::kernel::serial::{get_bit_at, SerialPort};
use rust_os::shared::addr::VirtAddr;
use rust_os::shared::serial_logger::SerialLogger;
use rust_os::shared::{exit_qemu, interrupts_enabled, test_runner, QemuExitCode, Testable};

#[test]
fn local_apic_is_brought_to_a_known_state() {
    let mut apic = Apic::new();
    let writes = apic.initialize(VirtAddr(0x180_fee0_0000), 0xAB12_3456);
    assert_eq!(writes.len(), 7);
    assert_eq!(writes[0], RegisterWrite { offset: APIC_DFR, value: 0xFFFF_FFFF });
    assert_eq!(writes[1], RegisterWrite { offset: APIC_LDR, value: 0x0012_3457 });
    assert_eq!(writes[2], RegisterWrite { offset: APIC_LVT_TMR, value: 0x10000 });
    assert_eq!(writes[3].value, 0x400);
    assert_eq!(writes[6], RegisterWrite { offset: APIC_TASKPRIOR, value: 0 });
    assert_eq!(apic.register_address(APIC_EOI), 0x180_fee0_00B0);
    assert_eq!(apic.notify_end_of_interrupt(), RegisterWrite { offset: APIC_EOI, value: 0 });
    assert_eq!(disable_pic(), [PortWrite { port: 0x21, value: 0xff }, PortWrite { port: 0xA1, value: 0xff }]);
}

#[test]
fn timer_is_calibrated_over_three_seconds() {
    let mut calibration = TimerCalibration::new();
    assert!(!calibration.on_second(0xFFFF_FFFF));
    assert!(!calibration.on_second(0xFFFF_FFFF - 1_000_000));
    assert!(!calibration.on_second(0xFFFF_FFFF - 1_000_300));
    assert!(!calibration.on_second(0xFFFF_FFFF - 999_700));
    assert!(calibration.on_second(0));
    assert_eq!(calibration.average(), 1_000_000);
    assert_eq!(calibration.bus_frequency(), 16_000_000);
    assert_eq!(calibration.timer_value(), 10_000);
    assert_eq!(calibration_setup(0xFF)[1], RegisterWrite { offset: APIC_SPURIOUS, value: 0x1FF });
    assert_eq!(one_shot()[1], RegisterWrite { offset: APIC_TMRINITCNT, value: 0xFFFF_FFFF });
    let run = periodic(10_000);
    assert_eq!(run[0], RegisterWrite { offset: APIC_TMRINITCNT, value: 10_000 });
    assert_eq!(run[1], RegisterWrite { offset: APIC_LVT_TMR, value: 32 | 0x20000 });
    assert_eq!(run[2], RegisterWrite { offset: APIC_TMRDIV, value: 3 });
}

#[test]
fn keyboard_is_routed_unmasked_to_vector_33() {
    assert_eq!(keyboard_redirection(0x0001_0000), 33);
    assert_eq!(keyboard_redirection(0x0001_A800), 33);
    assert_eq!(keyboard_redirection(0xFFFE_0000), 0xFFFE_0021);
    let writes = write_io_apic(0x12, 33);
    assert_eq!(writes[0], RegisterWrite { offset: 0, value: 0x12 });
    assert_eq!(writes[1], RegisterWrite { offset: 0x10, value: 33 });
}

#[test]
fn reference_timer_gives_the_frequency() {
    assert_eq!(calc_apic_timer_ref(1_000_000, 0, 0), NO_VALUE);
    // 3579545 ticks are a second: 10^9 ns
    assert_eq!(calc_apic_timer_ref(5_000_000_000, 1000, 1000 + 3_579_545), 5);
    // the timer wrapped after 24 bits
    assert_eq!(calc_apic_timer_ref(2_000_000_000, 0xFF_FFFF, 3_579_544), 2);
    assert!(reference_is_usable(1000, 2000));
    assert!(!reference_is_usable(5, 5));
    assert!(!reference_is_usable(0x200_0000, 1));
}

#[test]
fn interval_timer_loop_is_judged_by_its_steps() {
    let mut l = PitLoop::new(1000);
    for t in [1100u64, 1190, 1300] {
        l.sample(t);
    }
    assert_eq!((l.tsc_min, l.tsc_max, l.count), (90, 110, 3));
    assert_eq!(pit_calibrate_tsc(&l, 10, 3), 30);
    assert_eq!(pit_calibrate_tsc(&l, 10, 4), NO_VALUE);
    l.sample(3000);
    assert_eq!(pit_calibrate_tsc(&l, 10, 3), NO_VALUE);
}

#[test]
fn first_undisturbed_reading_of_the_reference_counts() {
    let readings = vec![
        ReferenceReading { before: 0, reference: 11, after: 0x20000 },
        ReferenceReading { before: 0x30000, reference: 22, after: 0x30010 },
        ReferenceReading { before: 0x40000, reference: 33, after: 0x40001 },
    ];
    assert_eq!(tsc_read_apic_ref(&readings), (0x30010, 22));
    assert_eq!(tsc_read_apic_ref(&readings[..1].to_vec()), (NO_VALUE, 11));
    assert_eq!(tsc_read_apic_ref(&Vec::new()), (NO_VALUE, 0));
}

#[test]
fn calibration_takes_the_reference_when_the_timers_agree() {
    let agree = CalibrationRound {
        tsc1: 0,
        ref1: 1000,
        tsc_pit_khz: 2_000_000,
        tsc2: 2_000_000_000,
        ref2: 1000 + 3_579_545,
    };
    assert_eq!(pit_hpet_ptimer_calibrate_cpu(&vec![agree]), Ok(2_000_000));
    let no_reference = CalibrationRound { tsc1: NO_VALUE, ref1: 0, tsc_pit_khz: 777, tsc2: NO_VALUE, ref2: 0 };
    assert_eq!(pit_hpet_ptimer_calibrate_cpu(&vec![no_reference; 3]), Ok(777));
    let nothing = CalibrationRound { tsc1: NO_VALUE, ref1: 0, tsc_pit_khz: NO_VALUE, tsc2: NO_VALUE, ref2: 0 };
    assert_eq!(pit_hpet_ptimer_calibrate_cpu(&vec![nothing; 3]), Err(CalibrationError::Failed));
    let backwards = CalibrationRound { tsc1: 5, ref1: 1, tsc_pit_khz: 1, tsc2: 4, ref2: 2 };
    assert_eq!(pit_hpet_ptimer_calibrate_cpu(&vec![backwards]), Err(CalibrationError::BadReading));
    assert_eq!(calibration_step(&calibration_start(), &agree), CalibrationStep::Agreed(2_000_000));
    let after = CalibrationState { tsc_pit_min: 777, tsc_ref_min: NO_VALUE };
    assert_eq!(calibration_step(&calibration_start(), &no_reference), CalibrationStep::Continue(after));
    assert_eq!(calibration_step(&after, &backwards), CalibrationStep::BadReading);
    assert_eq!(calibration_end(&after), Ok(777));
    assert_eq!(calibration_end(&calibration_start()), Err(CalibrationError::Failed));
    assert_eq!(calibration_params(0, NO_VALUE), CalibrationParams { latch: 11931, ms: 10, loop_min: 1000 });
    assert_eq!(calibration_params(2, NO_VALUE), CalibrationParams { latch: 59659, ms: 50, loop_min: 5000 });
    assert_eq!(calibration_params(2, 5).ms, 10);
}

#[test]
fn clock_registers_are_decoded_from_decimal_digits() {
    let raw = RtcRegisters { second: 0x59, minute: 0x07, hour: 0x23, day: 0x28, month: 0x10, year: 0x26, century: 0x20 };
    assert_eq!(
        read_rtc(&raw, 0x02),
        RtcTime { year: 2026, month: 10, day: 28, hour: 23, minute: 7, second: 59 }
    );
    let binary = RtcRegisters { second: 59, minute: 7, hour: 23, day: 28, month: 10, year: 26, century: 20 };
    assert_eq!(read_rtc(&binary, 0x06).hour, 23);
    assert_eq!(read_rtc(&binary, 0x06).year, 2026);
    let afternoon = RtcRegisters { hour: 0x81, ..raw };
    assert_eq!(read_rtc(&afternoon, 0x00).hour, 13);
    let noon = RtcRegisters { hour: 0x92, ..raw };
    assert_eq!(read_rtc(&noon, 0x00).hour, 0);
    assert!(settled(&raw, &raw));
    assert!(!settled(&raw, &afternoon));
    assert!(update_in_progress(0x80));
    assert!(!update_in_progress(0x7f));
}

#[test]
fn legacy_controllers_are_initialized_together() {
    let pics = ChainedPics::new(32, 40);
    assert!(pics.handles_interrupt(32));
    assert!(pics.handles_interrupt(47));
    assert!(!pics.handles_interrupt(48));
    assert!(!pics.handles_interrupt(31));
    assert!(!ChainedPics::new(250, 252).handles_interrupt(1));
    let writes = pics.initialize([0xFF, 0xAB]);
    assert_eq!(writes.len(), 18);
    assert_eq!(writes[0], PortWrite { port: 0x20, value: 0x11 });
    assert_eq!(writes[1], PortWrite { port: 0x80, value: 0 });
    assert_eq!(writes[4], PortWrite { port: 0x21, value: 32 });
    assert_eq!(writes[6], PortWrite { port: 0xA1, value: 40 });
    assert_eq!(writes[16], PortWrite { port: 0x21, value: 0xFC });
    assert_eq!(writes[17], PortWrite { port: 0xA1, value: 0xAB });
    assert_eq!(pics.notify_end_of_interrupt(33), vec![PortWrite { port: 0x20, value: 0x20 }]);
    assert_eq!(
        pics.notify_end_of_interrupt(41),
        vec![PortWrite { port: 0xA0, value: 0x20 }, PortWrite { port: 0x20, value: 0x20 }]
    );
    assert!(pics.notify_end_of_interrupt(5).is_empty());
    assert_eq!(Port::new(0x60).write(7), PortWrite { port: 0x60, value: 7 });
}

#[test]
fn serial_line_rubs_out_with_backspace_blank_backspace() {
    let port = SerialPort::new(0x3F8);
    assert_eq!(port.send(b'a'), vec![b'a']);
    assert_eq!(port.send(8), vec![8, b' ', 8]);
    assert_eq!(port.send(0x7F), vec![8, b' ', 8]);
    assert_eq!(port.write_str(b"a\x08b"), vec![b'a', 8, b' ', 8, b'b']);
    assert_eq!(port.line_status_port(), 0x3FD);
    assert!(SerialPort::can_send(SerialPort::line_sts(0xFF)));
    assert!(!SerialPort::can_send(SerialPort::line_sts(0xDF)));
    let init = port.init();
    assert_eq!(init.len(), 8);
    assert_eq!(init[0], PortWrite { port: 0x3F9, value: 0 });
    assert_eq!(init[2], PortWrite { port: 0x3F8, value: 3 });
    assert_eq!(init[7], PortWrite { port: 0x3F9, value: 1 });
    assert!(get_bit_at(0b100, 2));
    assert!(!get_bit_at(0b100, 3));
    assert!(!get_bit_at(0xFF, 32));
    let (mut logger, writes) = SerialLogger::new();
    assert_eq!(writes, init);
    assert_eq!(logger.data_port(), 0x3F8);
    assert_eq!(logger.send(b'x'), vec![b'x']);
    assert_eq!(logger.write_str("ok\x7f"), vec![b'o', b'k', 8, b' ', 8]);
}

#[test]
fn pci_configuration_words_are_addressed_by_double_words() {
    assert_eq!(pci_config_address(0, 0, 0, 0), 0x8000_0000);
    assert_eq!(pci_config_address(1, 2, 3, 0xE), 0x8001_130C);
    assert_eq!(pci_config_word(0x1234_5678, 0xC), 0x5678);
    assert_eq!(pci_config_word(0x1234_5678, 0xE), 0x1234);
    assert!(is_multifunction(0x80));
    assert!(!is_multifunction(0x01));
    assert_eq!(get_device_type(6, 0, 0), "Host Bridge");
    assert_eq!(get_device_type(3, 0, 1), "VGA 8514-Compatible Controller");
    assert_eq!(get_device_type(1, 1, 0x80), "IDE ISA Compatibility mode-only controller, supports bus mastering");
    assert_eq!(get_device_type(1, 1, 0x33), "Some IDE Controller");
    assert_eq!(get_device_type(9, 9, 9), "");
}

fn identify_buffer() -> Vec<u16> {
    let mut buffer = vec![0u16; 256];
    buffer[0] = 0x0040;
    buffer[49] = 0x0200;
    buffer[60] = 0x5000;
    buffer[61] = 0x0001;
    buffer[82] = 0x0000;
    buffer[83] = 0x0400;
    buffer[100] = 0x0000;
    buffer[101] = 0x2000;
    for (i, pair) in b"QEMU HARDDISK                           ".chunks(2).enumerate() {
        buffer[27 + i] = u16::from_be_bytes([pair[0], pair[1]]);
    }
    buffer
}

#[test]
fn drive_is_described_by_its_identify_answer() {
    let buffer = identify_buffer();
    let device = IDEDevice::from_identify(ATAChannel::Primary, DriveType::Slave, &buffer);
    assert_eq!(device.size(), 0x2000_0000);
    assert_eq!(&device.model()[..13], b"QEMU HARDDISK");
    assert_eq!(device.model()[40], 0);
    assert_eq!(device.channel(), ATAChannel::Primary);
    assert_eq!(device.drive_type(), DriveType::Slave);
    assert!(device.enabled_48bit);
    let mut small = identify_buffer();
    small[83] = 0;
    assert_eq!(IDEDevice::from_identify(ATAChannel::Secondary, DriveType::Master, &small).size, 0x1_5000);
    assert_eq!(device.check_range(0x1FFF_FFFF, 1), Ok(()));
    assert_eq!(device.check_range(0x1FFF_FFFF, 2), Err(AtaError::OutOfRange));
    assert_eq!(device.check_range(u32::MAX, u32::MAX), Err(AtaError::OutOfRange));
    assert_eq!(construct_u32([0x5678, 0x1234]), 0x1234_5678);
    assert_eq!(get_u16_from_buffer(&buffer, 49), 0x0200);
    assert_eq!(get_u32_from_buffer(&buffer, 60), 0x0001_5000);
}

#[test]
fn transfer_is_planned_register_by_register() {
    let device = IDEDevice::from_identify(ATAChannel::Primary, DriveType::Slave, &identify_buffer());
    let plan = device.io_prepare(0x0123_4567, 2, false, false).unwrap();
    assert_eq!(plan.lba_mode, LbaMode::Lba28);
    assert_eq!(
        plan.registers,
        vec![
            (AtaRegister::HddEvSel, 0xF1),
            (AtaRegister::SecCount0, 2),
            (AtaRegister::Lba0, 0x67),
            (AtaRegister::Lba1, 0x45),
            (AtaRegister::Lba2, 0x23),
            (AtaRegister::CommandAndStatus, 0x20),
        ]
    );
    let plan = device.io_prepare(0x1234_5678, 1, false, true).unwrap();
    assert_eq!(plan.lba_mode, LbaMode::Lba48);
    assert_eq!(plan.registers.len(), 10);
    assert_eq!(plan.registers[0], (AtaRegister::HddEvSel, 0xF0));
    assert_eq!(plan.registers[2], (AtaRegister::Lba3, 0x12));
    assert_eq!(plan.registers[9], (AtaRegister::CommandAndStatus, 0x34));
    let mut no_lba = identify_buffer();
    no_lba[49] = 0;
    let chs = IDEDevice::from_identify(ATAChannel::Primary, DriveType::Master, &no_lba);
    assert!(chs.io_prepare(5, 1, false, false).is_none());
}

#[test]
fn channel_registers_lie_at_their_ports() {
    let primary = compatibility_channel(ATAChannel::Primary);
    assert_eq!(ide_port(&primary, AtaRegister::Data), 0x1F0);
    assert_eq!(ide_port(&primary, AtaRegister::CommandAndStatus), 0x1F7);
    assert_eq!(ide_port(&primary, AtaRegister::Lba3), 0x1F3);
    assert_eq!(ide_port(&primary, AtaRegister::ControlAndAltStatus), 0x3F6);
    assert_eq!(compatibility_channel(ATAChannel::Secondary).io_base, 0x170);
    assert_eq!(ide_write(&primary, AtaRegister::Lba0, 9), vec![PortWrite { port: 0x1F3, value: 9 }]);
    assert_eq!(
        ide_write(&primary, AtaRegister::Lba4, 9),
        vec![
            PortWrite { port: 0x3F6, value: 0x80 },
            PortWrite { port: 0x1F4, value: 9 },
            PortWrite { port: 0x3F6, value: 0 },
        ]
    );
    assert_eq!(identify_select(DriveType::Slave), 0xB0);
}

#[test]
fn drive_status_tells_what_went_wrong() {
    assert!(is_busy(0x80));
    assert!(!is_busy(0x7F));
    assert_eq!(identify_answer(0x01), Some(false));
    assert_eq!(identify_answer(0x08), Some(true));
    assert_eq!(identify_answer(0x88), None);
    assert_eq!(ide_polling(0x01, 0x04, true), AtaError::CommandAborted);
    assert_eq!(ide_polling(0x01, 0x01, true), AtaError::NoAddressMarkFound);
    assert_eq!(ide_polling(0x01, 0x80, true), AtaError::BadSectors);
    assert_eq!(ide_polling(0x01, 0x02, true), AtaError::NoMediaOrMediaError);
    assert_eq!(ide_polling(0x01, 0x10, true), AtaError::IdMarkNotFound);
    assert_eq!(ide_polling(0x01, 0x40, true), AtaError::UncorrectableDataError);
    assert_eq!(ide_polling(0x01, 0x00, true), AtaError::DeviceFault);
    assert_eq!(ide_polling(0x20, 0x00, true), AtaError::DeviceFault);
    assert_eq!(ide_polling(0x40, 0xFF, true), AtaError::NoError);
    assert_eq!(ide_polling(0x01, 0xFF, false), AtaError::NoError);
}

struct Counting<'a>(&'a std::cell::Cell<u32>);

impl Testable for Counting<'_> {
    fn run(&self) {
        self.0.set(self.0.get() + 1);
    }
}

#[test]
fn test_runner_runs_every_test_and_exits_with_success() {
    let runs = std::cell::Cell::new(0);
    let tests = [Counting(&runs), Counting(&runs), Counting(&runs)];
    assert_eq!(test_runner(&tests), PortWrite { port: 0xf4, value: 0x10 });
    assert_eq!(runs.get(), 3);
    assert_eq!(exit_qemu(QemuExitCode::Failed), PortWrite { port: 0xf4, value: 0x11 });
    assert!(interrupts_enabled(0x200));
    assert!(!interrupts_enabled(0x002));
}
