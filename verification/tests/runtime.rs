use greenthread::model::{Dispatch, Received, SendError, ThreadState};
use greenthread::registers::{save_and_switch, Registers};
use greenthread::scheduler::Scheduler;
use greenthread::stack::{StackFault, GUARD_SIZE};
use greenthread::trace::{Op, Outcome};

const STACK: usize = 2 * GUARD_SIZE;

#[test]
fn host_enters_and_returns_when_drained() {
    let mut s: Scheduler<u64> = Scheduler::new(STACK);
    assert!(!s.in_thread());
    let a = s.spawn_from_main(0x1000);
    assert!(s.in_thread());
    assert_eq!(s.get_id(), a);
    assert_eq!(s.state_of(a), Some(ThreadState::Running));
    assert_eq!(s.terminate(), Dispatch::Drained);
    assert!(!s.in_thread());
    assert_eq!(s.state_of(a), Some(ThreadState::Terminated));
}

#[test]
fn identifiers_grow_and_are_not_reused() {
    let mut s: Scheduler<u64> = Scheduler::new(STACK);
    let a = s.spawn_from_main(1);
    let b = s.spawn(2);
    assert_eq!((a, b), (0, 1));
    assert_eq!(s.terminate(), Dispatch::Run(b));
    let c = s.spawn(3);
    assert_eq!(c, 2);
    assert_eq!(s.state_of(a), Some(ThreadState::Terminated));
    assert_eq!(s.state_of(b), Some(ThreadState::Running));
    assert_eq!(s.state_of(c), Some(ThreadState::Ready));
    assert_eq!(s.state_of(3), None);
}

#[test]
fn a_new_thread_starts_at_its_entry_on_top_of_its_stack() {
    let mut s: Scheduler<u64> = Scheduler::new(STACK);
    s.spawn_from_main(0xabcd);
    let regs = s.registers();
    assert_eq!(regs, Registers::new(STACK as u64, 0xabcd));
    assert_eq!(regs.sp, 8192);
    assert_eq!(regs.lr, 0xabcd);
    assert_eq!(regs.x19, 0);
    assert_eq!(regs.fp, 0);
}

#[test]
fn spawn_does_not_switch() {
    let mut s: Scheduler<u64> = Scheduler::new(STACK);
    let a = s.spawn_from_main(1);
    let b = s.spawn(2);
    assert_eq!(s.get_id(), a);
    assert_eq!(s.state_of(b), Some(ThreadState::Ready));
}

#[test]
fn round_robin_over_three_threads() {
    let mut s: Scheduler<u64> = Scheduler::new(STACK);
    let a = s.spawn_from_main(1);
    let b = s.spawn(2);
    let c = s.spawn(3);
    let ring = [a, b, c];
    for cycle in 1..=7usize {
        assert_eq!(s.yield_now(), Dispatch::Run(ring[cycle % 3]));
        assert_eq!(s.get_id(), ring[cycle % 3]);
    }
}

#[test]
fn a_lone_thread_yields_to_itself() {
    let mut s: Scheduler<u64> = Scheduler::new(STACK);
    let a = s.spawn_from_main(1);
    assert_eq!(s.yield_now(), Dispatch::Run(a));
    assert_eq!(s.get_id(), a);
}

#[test]
fn mailbox_is_first_in_first_out() {
    let mut s: Scheduler<&'static str> = Scheduler::new(STACK);
    let a = s.spawn_from_main(1);
    let b = s.spawn(2);
    assert_eq!(s.send(b, "m1"), Ok(()));
    assert_eq!(s.send(b, "m2"), Ok(()));
    assert_eq!(s.send(b, "m3"), Ok(()));
    assert_eq!(s.pending(b), 3);
    assert_eq!(s.pending(a), 0);
    assert_eq!(s.yield_now(), Dispatch::Run(b));
    assert_eq!(s.recv(), Received::Message("m1"));
    assert_eq!(s.recv(), Received::Message("m2"));
    assert_eq!(s.recv(), Received::Message("m3"));
    assert_eq!(s.pending(b), 0);
}

#[test]
fn messages_to_different_targets_do_not_mix() {
    let mut s: Scheduler<u32> = Scheduler::new(STACK);
    let _a = s.spawn_from_main(1);
    let b = s.spawn(2);
    let c = s.spawn(3);
    assert_eq!(s.send(b, 10), Ok(()));
    assert_eq!(s.send(c, 20), Ok(()));
    assert_eq!(s.send(b, 11), Ok(()));
    assert_eq!(s.yield_now(), Dispatch::Run(b));
    assert_eq!(s.recv(), Received::Message(10));
    assert_eq!(s.recv(), Received::Message(11));
    assert_eq!(s.yield_now(), Dispatch::Run(c));
    assert_eq!(s.recv(), Received::Message(20));
}

#[test]
fn recv_blocks_until_send() {
    let mut s: Scheduler<u64> = Scheduler::new(STACK);
    let a = s.spawn_from_main(1);
    let b = s.spawn(2);
    let c = s.spawn(3);
    // a finds nothing and blocks; b and c go round without it.
    assert_eq!(s.recv(), Received::Blocked(Dispatch::Run(b)));
    assert_eq!(s.state_of(a), Some(ThreadState::Blocked));
    for _ in 0..5 {
        assert_eq!(s.yield_now(), Dispatch::Run(c));
        assert_eq!(s.state_of(a), Some(ThreadState::Blocked));
        assert_eq!(s.yield_now(), Dispatch::Run(b));
        assert_eq!(s.state_of(a), Some(ThreadState::Blocked));
    }
    // a message for a puts it behind c in the queue.
    assert_eq!(s.send(a, 7), Ok(()));
    assert_eq!(s.state_of(a), Some(ThreadState::Ready));
    assert_eq!(s.yield_now(), Dispatch::Run(c));
    assert_eq!(s.yield_now(), Dispatch::Run(a));
    assert_eq!(s.recv(), Received::Message(7));
}

#[test]
fn a_thread_can_send_to_itself() {
    let mut s: Scheduler<u8> = Scheduler::new(STACK);
    let a = s.spawn_from_main(1);
    assert_eq!(s.send(a, 1), Ok(()));
    assert_eq!(s.send(a, 2), Ok(()));
    assert_eq!(s.recv(), Received::Message(1));
    assert_eq!(s.recv(), Received::Message(2));
}

#[test]
fn send_to_a_thread_that_is_not_there_is_refused() {
    let mut s: Scheduler<u64> = Scheduler::new(STACK);
    // never spawned
    assert_eq!(s.send(0, 1), Err(SendError::NoSuchThread));
    let a = s.spawn_from_main(1);
    let b = s.spawn(2);
    assert_eq!(s.send(5, 1), Err(SendError::NoSuchThread));
    // terminated
    assert_eq!(s.terminate(), Dispatch::Run(b));
    assert_eq!(s.send(a, 1), Err(SendError::NoSuchThread));
    assert_eq!(s.pending(a), 0);
}

#[test]
fn the_mailbox_of_a_terminated_thread_is_dropped() {
    let mut s: Scheduler<u64> = Scheduler::new(STACK);
    let a = s.spawn_from_main(1);
    let b = s.spawn(2);
    assert_eq!(s.send(a, 9), Ok(()));
    assert_eq!(s.pending(a), 1);
    assert_eq!(s.terminate(), Dispatch::Run(b));
    assert_eq!(s.pending(a), 0);
}

#[test]
fn deadlock_is_told_apart_from_drain() {
    let mut s: Scheduler<u64> = Scheduler::new(STACK);
    let a = s.spawn_from_main(1);
    let b = s.spawn(2);
    // both wait for a message from the other
    assert_eq!(s.recv(), Received::Blocked(Dispatch::Run(b)));
    assert_eq!(s.recv(), Received::Blocked(Dispatch::Deadlocked));
    assert!(!s.in_thread());
    assert_eq!(s.state_of(a), Some(ThreadState::Blocked));
    assert_eq!(s.state_of(b), Some(ThreadState::Blocked));
    // the host stays where it is however often it schedules
    assert_eq!(s.schedule(), Dispatch::Deadlocked);
    // until it sends: then the woken thread runs
    assert_eq!(s.send(a, 1), Ok(()));
    assert_eq!(s.schedule(), Dispatch::Run(a));
    assert_eq!(s.recv(), Received::Message(1));
    assert_eq!(s.send(b, 2), Ok(()));
    assert_eq!(s.terminate(), Dispatch::Run(b));
    assert_eq!(s.recv(), Received::Message(2));
    assert_eq!(s.terminate(), Dispatch::Drained);
}

#[test]
fn the_host_gets_the_cpu_only_when_the_queue_is_empty() {
    let mut s: Scheduler<u64> = Scheduler::new(STACK);
    let _a = s.spawn_from_main(1);
    let b = s.spawn(2);
    let c = s.spawn(3);
    assert_eq!(s.terminate(), Dispatch::Run(b));
    assert!(s.in_thread());
    assert_eq!(s.terminate(), Dispatch::Run(c));
    assert!(s.in_thread());
    assert_eq!(s.terminate(), Dispatch::Drained);
    assert!(!s.in_thread());
    assert_eq!(s.schedule(), Dispatch::Drained);
}

#[test]
fn ping_pong_scenario() {
    let mut s: Scheduler<&'static str> = Scheduler::new(STACK);
    let mut trace: Vec<String> = Vec::new();

    let a = s.spawn_from_main(0xa);
    let b = s.spawn(0xb);
    let c = s.spawn(0xc);
    trace.push(format!("{} starts", s.get_id()));

    // A
    assert_eq!(s.send(b, "ping"), Ok(()));
    assert_eq!(s.yield_now(), Dispatch::Run(b));
    trace.push(format!("{} starts", s.get_id()));

    // B
    assert_eq!(s.recv(), Received::Message("ping"));
    assert_eq!(s.send(c, "pong"), Ok(()));
    assert_eq!(s.yield_now(), Dispatch::Run(c));
    trace.push(format!("{} starts", s.get_id()));

    // C
    assert_eq!(s.recv(), Received::Message("pong"));
    assert_eq!(s.terminate(), Dispatch::Run(a));
    trace.push(format!("{} resumes", s.get_id()));

    // A comes back after C, then B, then the host
    assert_eq!(s.terminate(), Dispatch::Run(b));
    trace.push(format!("{} resumes", s.get_id()));
    assert_eq!(s.terminate(), Dispatch::Drained);

    assert_eq!((a, b, c), (0, 1, 2));
    assert_eq!(trace, vec!["0 starts", "1 starts", "2 starts", "0 resumes", "1 resumes"]);
}

fn ping_pong_ops() -> Vec<Op<&'static str>> {
    vec![
        Op::Spawn { entry: 0xa },
        Op::Spawn { entry: 0xb },
        Op::Spawn { entry: 0xc },
        Op::Schedule,
        Op::Send { target: 1, message: "ping" },
        Op::Yield,
        Op::Recv,
        Op::Send { target: 2, message: "pong" },
        Op::Yield,
        Op::Recv,
        Op::Exit,
        Op::Exit,
        Op::Exit,
    ]
}

fn run_ops(ops: Vec<Op<&'static str>>) -> Vec<Outcome<&'static str>> {
    let mut s: Scheduler<&'static str> = Scheduler::new(STACK);
    s.run(ops)
}

#[test]
fn a_run_is_its_steps_one_after_the_other() {
    let mut stepped: Scheduler<&'static str> = Scheduler::new(STACK);
    let mut outcomes = Vec::new();
    for op in ping_pong_ops() {
        outcomes.push(stepped.step(op));
    }
    let mut ran: Scheduler<&'static str> = Scheduler::new(STACK);
    assert_eq!(ran.run(ping_pong_ops()), outcomes);
    assert_eq!(ran.in_thread(), stepped.in_thread());
    assert_eq!(ran.run(Vec::new()), Vec::new());
}

#[test]
fn ping_pong_trace_is_the_same_on_every_run() {
    let first = run_ops(ping_pong_ops());
    let second = run_ops(ping_pong_ops());
    assert_eq!(first, second);
    assert_eq!(
        first,
        vec![
            Outcome::Spawned(0),
            Outcome::Spawned(1),
            Outcome::Spawned(2),
            Outcome::Dispatched(Dispatch::Run(0)),
            Outcome::Sent(Ok(())),
            Outcome::Dispatched(Dispatch::Run(1)),
            Outcome::Received(Received::Message("ping")),
            Outcome::Sent(Ok(())),
            Outcome::Dispatched(Dispatch::Run(2)),
            Outcome::Received(Received::Message("pong")),
            Outcome::Dispatched(Dispatch::Run(0)),
            Outcome::Dispatched(Dispatch::Run(1)),
            Outcome::Dispatched(Dispatch::Drained),
        ]
    );
}

#[test]
fn step_rejects_what_the_state_does_not_allow() {
    let mut s: Scheduler<u64> = Scheduler::new(STACK);
    // the host cannot yield, receive, end or touch a stack
    assert_eq!(s.step(Op::Yield), Outcome::Rejected);
    assert_eq!(s.step(Op::Recv), Outcome::Rejected);
    assert_eq!(s.step(Op::Exit), Outcome::Rejected);
    assert_eq!(s.step(Op::Store { offset: 5000, value: 1 }), Outcome::Rejected);
    assert_eq!(s.step(Op::Schedule), Outcome::Dispatched(Dispatch::Drained));
    assert_eq!(s.step(Op::Spawn { entry: 1 }), Outcome::Spawned(0));
    assert_eq!(s.step(Op::Schedule), Outcome::Dispatched(Dispatch::Run(0)));
    // a thread cannot schedule without parking itself
    assert_eq!(s.step(Op::Schedule), Outcome::Rejected);
    assert_eq!(s.get_id(), 0);
    assert_eq!(s.step(Op::Send { target: 9, message: 1 }), Outcome::Sent(Err(SendError::NoSuchThread)));
    assert_eq!(s.step(Op::Store { offset: 5000, value: 1 }), Outcome::Stored(Ok(())));
    assert_eq!(s.step(Op::Store { offset: 1, value: 1 }), Outcome::Stored(Err(StackFault::GuardPage)));
    let regs = Registers::new(4, 2);
    assert_eq!(s.step(Op::SetRegisters { regs }), Outcome::Done);
    assert_eq!(s.registers(), regs);
    assert_eq!(s.step(Op::Recv), Outcome::Received(Received::Blocked(Dispatch::Deadlocked)));
}

#[test]
fn a_stack_keeps_its_pattern_across_switches() {
    let mut s: Scheduler<u64> = Scheduler::new(STACK);
    let a = s.spawn_from_main(1);
    let b = s.spawn(2);
    let pattern = [0xde_u8, 0xad, 0xbe, 0xef];
    for (i, byte) in pattern.iter().enumerate() {
        assert_eq!(s.stack_store(GUARD_SIZE + i, *byte), Ok(()));
    }
    assert_eq!(s.yield_now(), Dispatch::Run(b));
    // b sees its own, untouched stack and scribbles on the same offsets
    for i in 0..pattern.len() {
        assert_eq!(s.stack_load(GUARD_SIZE + i), Ok(0));
        assert_eq!(s.stack_store(GUARD_SIZE + i, 0x55), Ok(()));
    }
    let _c = s.spawn(3);
    assert_eq!(s.yield_now(), Dispatch::Run(a));
    for (i, byte) in pattern.iter().enumerate() {
        assert_eq!(s.stack_load(GUARD_SIZE + i), Ok(*byte));
    }
    assert_eq!(s.get_id(), a);
}

#[test]
fn overflowing_a_stack_faults_and_spares_the_neighbour() {
    let mut s: Scheduler<u64> = Scheduler::new(STACK);
    let _a = s.spawn_from_main(1);
    let b = s.spawn(2);
    assert_eq!(s.stack_store(STACK - 1, 7), Ok(()));
    assert_eq!(s.yield_now(), Dispatch::Run(b));
    // b runs down its whole stack, top to bottom
    let mut faulted_at = None;
    let mut offset = STACK;
    while offset > 0 {
        offset -= 1;
        match s.stack_store(offset, 0xff) {
            Ok(()) => {}
            Err(fault) => {
                faulted_at = Some((offset, fault));
                break;
            }
        }
    }
    assert_eq!(faulted_at, Some((GUARD_SIZE - 1, StackFault::GuardPage)));
    assert_eq!(s.stack_load(GUARD_SIZE - 1), Err(StackFault::GuardPage));
    assert_eq!(s.stack_load(0), Err(StackFault::GuardPage));
    assert_eq!(s.stack_load(GUARD_SIZE), Ok(0xff));
    assert_eq!(s.stack_store(STACK, 1), Err(StackFault::OutOfBounds));
    assert_eq!(s.stack_load(STACK), Err(StackFault::OutOfBounds));
    // a's stack is as a left it
    assert_eq!(s.yield_now(), Dispatch::Run(0));
    assert_eq!(s.stack_load(STACK - 1), Ok(7));
    assert_eq!(s.stack_load(STACK - 2), Ok(0));
}

#[test]
fn a_small_stack_is_all_guard() {
    let mut s: Scheduler<u64> = Scheduler::new(100);
    s.spawn_from_main(1);
    assert_eq!(s.stack_store(0, 1), Err(StackFault::GuardPage));
    assert_eq!(s.stack_store(99, 1), Err(StackFault::GuardPage));
    assert_eq!(s.stack_store(100, 1), Err(StackFault::OutOfBounds));
}

#[test]
fn registers_come_back_as_they_were_saved() {
    let mut s: Scheduler<u64> = Scheduler::new(STACK);
    let a = s.spawn_from_main(0x10);
    let b = s.spawn(0x20);
    let mut mine = s.registers();
    mine.x19 = 111;
    mine.sp -= 64;
    mine.lr = 0x14;
    s.set_registers(mine);
    assert_eq!(s.yield_now(), Dispatch::Run(b));
    assert_eq!(s.registers(), Registers::new(STACK as u64, 0x20));
    let mut theirs = s.registers();
    theirs.x19 = 222;
    s.set_registers(theirs);
    assert_eq!(s.yield_now(), Dispatch::Run(a));
    assert_eq!(s.registers(), mine);
    assert_eq!(s.yield_now(), Dispatch::Run(b));
    assert_eq!(s.registers(), theirs);
}

#[test]
fn the_host_finds_its_registers_when_it_resumes() {
    let mut s: Scheduler<u64> = Scheduler::new(STACK);
    let mut host = s.registers();
    host.x20 = 42;
    s.set_registers(host);
    s.spawn_from_main(1);
    assert_ne!(s.registers(), host);
    assert_eq!(s.terminate(), Dispatch::Drained);
    assert_eq!(s.registers(), host);
}

#[test]
fn save_and_switch_saves_the_live_file_and_loads_the_target() {
    let mut cpu = Registers::new(10, 20);
    cpu.x28 = 5;
    let before = cpu;
    let mut from = Registers::new(0, 0);
    let to = Registers::new(30, 40);
    save_and_switch(&mut cpu, &mut from, &to);
    assert_eq!(from, before);
    assert_eq!(cpu, to);
    assert_eq!(to, Registers::new(30, 40));
}

#[test]
fn can_spawn_as_long_as_identifiers_are_left() {
    let mut s: Scheduler<u64> = Scheduler::new(0);
    assert!(s.can_spawn());
    for expected in 0..100u64 {
        assert!(s.can_spawn());
        assert_eq!(s.spawn(expected), expected);
    }
}

#[test]
fn a_queued_thread_moves_up_one_place_per_decision() {
    let mut s: Scheduler<u64> = Scheduler::new(STACK);
    let a = s.spawn_from_main(1);
    let b = s.spawn(2);
    let c = s.spawn(3);
    let d = s.spawn(4);
    // d is third in the queue; sends and spawns do not move it
    assert_eq!(s.send(b, 1), Ok(()));
    let e = s.spawn(5);
    // a blocks, b ends, c yields: three decisions, then it is d's turn
    assert_eq!(s.recv(), Received::Blocked(Dispatch::Run(b)));
    assert_eq!(s.terminate(), Dispatch::Run(c));
    assert_eq!(s.yield_now(), Dispatch::Run(d));
    assert_eq!(s.get_id(), d);
    assert_eq!(s.yield_now(), Dispatch::Run(e));
    assert_eq!(s.yield_now(), Dispatch::Run(c));
    assert_eq!(s.state_of(a), Some(ThreadState::Blocked));
}

#[test]
fn a_terminated_stack_is_freed_by_the_next_thread_not_by_the_host() {
    let mut s: Scheduler<u64> = Scheduler::new(STACK);
    let _a = s.spawn_from_main(1);
    let b = s.spawn(2);
    assert_eq!(s.stack_store(GUARD_SIZE, 1), Ok(()));
    assert_eq!(s.terminate(), Dispatch::Run(b));
    // b runs on its own stack, which is untouched
    assert_eq!(s.stack_load(GUARD_SIZE), Ok(0));
    assert_eq!(s.terminate(), Dispatch::Drained);
    // a later thread gets a fresh, zeroed stack
    let _c = s.spawn_from_main(3);
    assert_eq!(s.stack_load(GUARD_SIZE), Ok(0));
}

#[test]
fn the_context_table_holds_the_record_of_every_live_thread() {
    let mut s: Scheduler<u64> = Scheduler::new(STACK);
    assert_eq!(s.context(0), None);
    let a = s.spawn_from_main(0x10);
    let b = s.spawn(0x20);
    let record = s.context(b).unwrap();
    assert_eq!(record.id, b);
    assert_eq!(record.regs, Registers::new(STACK as u64, 0x20));
    // each thread has a stack of its own
    assert_ne!(s.context(a).unwrap().stack, record.stack);
    // what a had in its registers is in its record once it is off the CPU
    let mut mine = s.registers();
    mine.x21 = 77;
    s.set_registers(mine);
    assert_eq!(s.yield_now(), Dispatch::Run(b));
    assert_eq!(s.context(a).unwrap().regs, mine);
    assert_eq!(s.terminate(), Dispatch::Run(a));
    assert_eq!(s.context(b), None);
}
