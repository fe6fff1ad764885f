use hstr::hstr::{get_bash_history, get_zsh_history, process_history, strip_timestamp, unmetafy, Shell};

#[test]
fn unmetafy_unescapes_after_meta_byte() {
    let bytes = vec![0x83u8, 0x44];
    assert_eq!(unmetafy(&bytes), [0x44 ^ 0x20]);
}

#[test]
fn unmetafy_example_sequence() {
    let bytes = vec![b'a', b'b', b'c', 0x83, b'd', b'e', b'f'];
    assert_eq!(unmetafy(&bytes), [b'a', b'b', b'c', b'd' ^ 0x20, b'e', b'f']);
}

#[test]
fn unmetafy_without_meta_is_identity() {
    let bytes = vec![b'l', b's'];
    assert_eq!(unmetafy(&bytes), [b'l', b's']);
}

#[test]
fn strip_timestamp_removes_prefix() {
    let line = String::from(": 1330648651:0;sudo reboot");
    assert_eq!(strip_timestamp(&line), "sudo reboot");
}

#[test]
fn strip_timestamp_leaves_plain_lines() {
    let line = String::from("sudo reboot");
    assert_eq!(strip_timestamp(&line), "sudo reboot");
    let short = String::from(": 133:0;x");
    assert_eq!(strip_timestamp(&short), ": 133:0;x");
}

#[test]
fn process_history_decodes_lines() {
    let bytes: Vec<u8> = b": 1330648651:0;sudo reboot\n: 1330648652:0;cat spam".to_vec();
    let lines = process_history(&bytes);
    assert_eq!(lines, ["sudo reboot", "cat spam"]);
}

#[test]
fn get_bash_history_ranks_decoded_lines() {
    let bytes: Vec<u8> = b"ls\ncd\nls".to_vec();
    assert_eq!(get_bash_history(&bytes), ["ls", "cd"]);
}

#[test]
fn get_zsh_history_ranks_unescaped_lines() {
    let bytes: Vec<u8> = b": 1330648651:0;ls\n: 1330648652:0;cd\n: 1330648653:0;ls".to_vec();
    assert_eq!(get_zsh_history(&bytes), ["ls", "cd"]);
}

#[test]
fn shell_from_str() {
    assert_eq!(Shell::from_str("bash"), Some(Shell::Bash));
    assert_eq!(Shell::from_str("zsh"), Some(Shell::Zsh));
    assert_eq!(Shell::from_str("fish"), None);
}
