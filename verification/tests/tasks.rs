use rust_os::kernel::shell::Shell;
use rust_os::kernel::task::executor::{Executor, ExecutorError, Step, TaskIds};
use rust_os::kernel::task::keyboard::{print_keypresses, KeyPress, ScancodeStream};
use rust_os::kernel::task::timer::{
    raise_timer, Sleep, TimerError, TimerStream, TimerTasksManager, MS_PER_TICK, TIMER_FREQUENCY,
};
use rust_os::shared::logger::{FrameBufferInfo, PixelFormat};

#[test]
fn scancodes_leave_in_the_order_they_came() {
    let mut stream = ScancodeStream::new();
    for &code in &[0x1E, 0x30, 0x2E, 0x1C] {
        assert!(stream.add_scancode(code));
    }
    assert_eq!(stream.poll_next(), Some(0x1E));
    assert_eq!(stream.poll_next(), Some(0x30));
    assert_eq!(stream.poll_next(), Some(0x2E));
    assert_eq!(stream.poll_next(), Some(0x1C));
    assert_eq!(stream.poll_next(), None);
}

#[test]
fn full_scancode_queue_drops_what_comes() {
    let mut stream = ScancodeStream::new();
    for i in 0..100u8 {
        assert!(stream.add_scancode(i));
    }
    assert!(!stream.add_scancode(200));
    for i in 0..100u8 {
        assert_eq!(stream.poll_next(), Some(i));
    }
    assert_eq!(stream.poll_next(), None);
    assert!(stream.add_scancode(7));
    assert_eq!(stream.poll_next(), Some(7));
}

#[test]
fn timer_flag_is_taken_once() {
    let mut stream = TimerStream::new();
    assert_eq!(stream.poll_next(), None);
    assert!(!raise_timer(&mut stream));
    assert!(raise_timer(&mut stream));
    assert_eq!(stream.poll_next(), Some(()));
    assert_eq!(stream.poll_next(), None);
}

#[test]
fn sleeps_end_in_the_order_of_their_length() {
    assert_eq!(TIMER_FREQUENCY, 100);
    assert_eq!(MS_PER_TICK, 10);
    let mut manager = TimerTasksManager::new();
    let sleeps = vec![
        (50u64, Sleep::new(0, 50, &mut manager).unwrap()),
        (100, Sleep::new(1, 100, &mut manager).unwrap()),
        (30, Sleep::new(2, 30, &mut manager).unwrap()),
    ];
    let mut finished = Vec::new();
    let mut done = vec![false; 3];
    let mut ticks = 0u64;
    while finished.len() < 3 {
        manager.decrement_all();
        ticks += 1;
        for (i, (ms, sleep)) in sleeps.iter().enumerate() {
            if !done[i] && sleep.poll(&mut manager).unwrap() {
                done[i] = true;
                finished.push(*ms);
            }
        }
    }
    assert_eq!(finished, vec![30, 50, 100]);
    assert!(ticks * MS_PER_TICK >= 100);
    assert_eq!(ticks, 10);
}

#[test]
fn a_sleep_takes_its_ticks_and_one_at_least() {
    let mut manager = TimerTasksManager::new();
    let short = Sleep::new(7, 3, &mut manager).unwrap();
    let long = Sleep::new(8, 25, &mut manager).unwrap();
    assert_eq!(short.poll(&mut manager), Ok(false));
    assert_eq!(manager.decrement_all(), vec![7]);
    assert_eq!(short.poll(&mut manager), Ok(true));
    assert_eq!(short.poll(&mut manager), Err(TimerError::NoSuchTask));
    assert_eq!(long.poll(&mut manager), Ok(false));
    assert_eq!(manager.decrement_all(), vec![8]);
    assert_eq!(manager.decrement_all(), vec![8]);
    assert_eq!(long.poll(&mut manager), Ok(true));
    assert_eq!(manager.decrement_all(), Vec::<u64>::new());
}

#[test]
fn a_timer_id_is_registered_once() {
    let mut manager = TimerTasksManager::new();
    assert_eq!(manager.register_task(1, 5), Ok(()));
    assert_eq!(manager.register_task(1, 9), Err(TimerError::AlreadyRegistered));
    assert_eq!(manager.register_waker(1), Ok(()));
    assert_eq!(manager.register_waker(2), Err(TimerError::NoSuchTask));
    assert_eq!(manager.check_task(1), Ok(false));
    assert_eq!(manager.check_task(2), Err(TimerError::NoSuchTask));
}

#[test]
fn executor_polls_ready_tasks_in_turn() {
    let mut ids = TaskIds::new();
    let mut executor = Executor::new();
    let a = ids.next_id().unwrap();
    let b = ids.next_id().unwrap();
    assert_eq!((a, b), (0, 1));
    assert_eq!(executor.spawn(a), Ok(()));
    assert_eq!(executor.spawn(b), Ok(()));
    assert_eq!(executor.spawn(a), Err(ExecutorError::DuplicateTask));
    assert_eq!(executor.next_step(false), Step::Poll(a));
    assert_eq!(executor.next_step(false), Step::Poll(b));
    assert_eq!(executor.next_step(false), Step::Halt);
    executor.wake(b);
    executor.wake(a);
    executor.task_done(b);
    assert_eq!(executor.next_step(false), Step::Poll(a));
    assert_eq!(executor.next_step(false), Step::Halt);
    executor.wake(a);
    assert_eq!(executor.next_step(true), Step::Exit);
    assert_eq!(executor.next_step(false), Step::Poll(a));
}

fn shell() -> Shell {
    let info = FrameBufferInfo {
        addr: 0,
        size: 128 * 64 * 4,
        width: 128,
        height: 64,
        pixel_format: PixelFormat::Rgb,
        stride: 128,
    };
    Shell::new(info, vec![0xAA; 128 * 64 * 4])
}

#[test]
fn shutdown_typed_into_the_shell_stops_the_kernel() {
    let mut shell = shell();
    for c in "shutdown".chars() {
        assert!(!shell.char_input(c));
    }
    assert!(shell.char_input('\n'));
}

#[test]
fn other_lines_do_not_stop_the_kernel() {
    let mut shell = shell();
    for c in "help\nshutdow\n".chars() {
        assert!(!print_keypresses(&mut shell, KeyPress::Character(c)));
    }
    assert!(!print_keypresses(&mut shell, KeyPress::Raw));
    assert!(!print_keypresses(&mut shell, KeyPress::Nothing));
    assert!(!print_keypresses(&mut shell, KeyPress::Character('\u{e9}')));
    for c in "shutdown".chars() {
        assert!(!print_keypresses(&mut shell, KeyPress::Character(c)));
    }
    assert!(print_keypresses(&mut shell, KeyPress::Character('\n')));
}
