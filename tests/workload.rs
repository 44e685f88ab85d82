use scanbench::workload::{
    fill_memory, fill_memory_random, perform_command, prepare_input_line, set_address, set_memory_size, Command,
    Outcome, State,
};

#[test]
fn input_line_gets_prompt_in_front() {
    assert_eq!(
        prepare_input_line(b"  set-memory-size \t 0x10  "),
        vec![b"synthetic-load> ".to_vec(), b"set-memory-size".to_vec(), b"0x10".to_vec()]
    );
    assert_eq!(prepare_input_line(b""), vec![b"synthetic-load> ".to_vec()]);
}

#[test]
fn resize_zero_fills_and_truncates() {
    let mut s = State { memory: vec![7, 7] };
    set_memory_size(&mut s, 4);
    assert_eq!(s.memory, vec![7, 7, 0, 0]);
    set_memory_size(&mut s, 1);
    assert_eq!(s.memory, vec![7]);
}

#[test]
fn constant_fill() {
    let mut s = State { memory: vec![0; 5] };
    fill_memory(&mut s, 0xab);
    assert_eq!(s.memory, vec![0xab; 5]);
}

#[test]
fn random_fill_is_deterministic() {
    let mut a = State { memory: vec![255; 1000] };
    let mut b = State { memory: vec![0; 1000] };
    fill_memory_random(&mut a, 1);
    fill_memory_random(&mut b, 1);
    assert_eq!(a.memory, b.memory);
    assert!(a.memory.iter().all(|&x| x < 255));
    assert!(a.memory.iter().any(|&x| x != a.memory[0]));
}

#[test]
fn set_address_checks_range() {
    let mut s = State { memory: vec![] };
    assert_eq!(set_address(&mut s, 100, 100, 1), Outcome::MemoryEmpty);
    let mut s = State { memory: vec![0; 4] };
    assert_eq!(set_address(&mut s, 100, 99, 1), Outcome::AddressNotInRange);
    assert_eq!(set_address(&mut s, 100, 104, 1), Outcome::AddressNotInRange);
    assert_eq!(set_address(&mut s, 100, 103, 9), Outcome::Done);
    assert_eq!(s.memory, vec![0, 0, 0, 9]);
}

#[test]
fn commands_dispatch() {
    let mut s = State { memory: vec![] };
    assert_eq!(perform_command(&mut s, Command::SetMemorySize { new_memory_size: 3 }, 0), Outcome::Done);
    assert_eq!(perform_command(&mut s, Command::Fill { value: 2 }, 0), Outcome::Done);
    assert_eq!(s.memory, vec![2, 2, 2]);
    assert_eq!(perform_command(&mut s, Command::Info, 0), Outcome::InfoRequested);
    assert_eq!(perform_command(&mut s, Command::Exit, 0), Outcome::Exit);
    assert_eq!(perform_command(&mut s, Command::SetAddress { address: 1, value: 5 }, 0), Outcome::Done);
    assert_eq!(s.memory, vec![2, 5, 2]);
}

#[test]
fn fill_random_command_matches_direct_fill() {
    let mut a = State { memory: vec![0; 64] };
    let mut b = State { memory: vec![9; 64] };
    assert_eq!(perform_command(&mut a, Command::FillRandom { seed: 7 }, 0), Outcome::Done);
    fill_memory_random(&mut b, 7);
    assert_eq!(a.memory, b.memory);
    let mut c = State { memory: vec![0; 64] };
    fill_memory_random(&mut c, 8);
    assert_ne!(a.memory, c.memory);
}
