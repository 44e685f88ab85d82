use scanbench::protocol::{
    done_sentinel, exit_request, fill_random_request, matches_sentinel, on_line_read, parse_scanmem_commands,
    push_decimal, set_memory_size_request, split_commands, target_args, trim_ascii, ReadStep,
};

#[test]
fn setup_requests() {
    assert_eq!(set_memory_size_request(16777216), b"set-memory-size 16777216".to_vec());
    assert_eq!(fill_random_request(1), b"fill-random 1".to_vec());
    assert_eq!(exit_request(), b"exit".to_vec());
    assert_eq!(done_sentinel(), b"Done".to_vec());
}

#[test]
fn decimal_digits() {
    let mut v = Vec::new();
    push_decimal(&mut v, 0);
    assert_eq!(v, b"0".to_vec());
    let mut v = b"x".to_vec();
    push_decimal(&mut v, u64::MAX);
    assert_eq!(v, b"x18446744073709551615".to_vec());
}

#[test]
fn target_args_without_threads() {
    assert_eq!(target_args(1234, -1), vec![b"--pid=1234".to_vec()]);
}

#[test]
fn target_args_with_threads() {
    assert_eq!(target_args(7, 4), vec![b"--pid=7".to_vec(), b"-j=4".to_vec()]);
    assert_eq!(target_args(7, -3), vec![b"--pid=7".to_vec(), b"-j=-3".to_vec()]);
}

#[test]
fn sentinel_must_match_exactly() {
    assert!(matches_sentinel(b"Done\n", b"Done"));
    assert!(!matches_sentinel(b"Done", b"Done"));
    assert!(!matches_sentinel(b" Done\n", b"Done"));
    assert!(!matches_sentinel(b"Done \n", b"Done"));
    assert!(!matches_sentinel(b"", b"Done"));
}

#[test]
fn reading_until_sentinel() {
    assert_eq!(on_line_read(Some(b"Done\n"), b"Done"), ReadStep::Found);
    assert_eq!(on_line_read(Some(b"error: x\n"), b"Done"), ReadStep::KeepReading);
    assert_eq!(on_line_read(None, b"Done"), ReadStep::StreamClosed);
}

#[test]
fn commands_split_at_semicolons() {
    assert_eq!(split_commands(b"= 1; exit"), vec![b"= 1".to_vec(), b" exit".to_vec()]);
    assert_eq!(split_commands(b""), vec![Vec::<u8>::new()]);
    assert_eq!(split_commands(b"a;;b;"), vec![b"a".to_vec(), vec![], b"b".to_vec(), vec![]]);
}

#[test]
fn command_list_warning() {
    let (cmds, warn) = parse_scanmem_commands(b"= 1; exit ");
    assert_eq!(cmds.len(), 2);
    assert!(!warn);
    let (_, warn) = parse_scanmem_commands(b"= 1; list");
    assert!(warn);
    let (_, warn) = parse_scanmem_commands(b"exit;");
    assert!(warn);
}

#[test]
fn trimming() {
    assert_eq!(trim_ascii(b" \t exit\r\n"), b"exit".to_vec());
    assert_eq!(trim_ascii(b"   "), Vec::<u8>::new());
    assert_eq!(trim_ascii(b"a b"), b"a b".to_vec());
}
