use hstr_rs::zsh::{zsh_process_history, zsh_unmetafy_history};

fn strings(items: &[&str]) -> Vec<String> {
    items.iter().map(|&x| x.into()).collect()
}

#[test]
fn unmetafy_removes_meta_and_unmasks_next_byte() {
    // (a, b, c, Meta, 'D' ^ 32, e, f) decodes to (a, b, c, 'D', e, f)
    let input = vec![b'a', b'b', b'c', 0x83, b'D' ^ 32, b'e', b'f'];
    let expected = vec![b'a', b'b', b'c', b'D', b'e', b'f'];
    assert_eq!(zsh_unmetafy_history(input), expected);
}

#[test]
fn unmetafy_without_meta_is_identity() {
    let input = b"sudo reboot\n".to_vec();
    assert_eq!(zsh_unmetafy_history(input.clone()), input);
}

#[test]
fn unmetafy_empty() {
    assert_eq!(zsh_unmetafy_history(Vec::new()), Vec::<u8>::new());
}

#[test]
fn process_history_strips_timestamps() {
    let raw = b": 1330648651:0;sudo reboot\n: 1330648652:0;ls -la\n".to_vec();
    let got = zsh_process_history(raw).unwrap();
    assert_eq!(got, strings(&["sudo reboot", "ls -la", ""]));
}

#[test]
fn process_history_keeps_plain_lines() {
    let raw = b"echo hi\nmake -j4\n".to_vec();
    let got = zsh_process_history(raw).unwrap();
    assert_eq!(got, strings(&["echo hi", "make -j4", ""]));
}

#[test]
fn process_history_keeps_short_prefix() {
    // too few digits: not timestamp metadata, the line stays whole
    let raw = b": 123:0;x\n".to_vec();
    let got = zsh_process_history(raw).unwrap();
    assert_eq!(got, strings(&[": 123:0;x", ""]));
}

#[test]
fn process_history_unmetafies_before_decoding() {
    let mut raw = b": 1330648651:0;echo ".to_vec();
    // metafied UTF-8 for a non-ASCII character
    raw.push(0xc3);
    raw.push(0x83);
    raw.push(0xa9 ^ 32);
    raw.push(b'\n');
    let got = zsh_process_history(raw).unwrap();
    assert_eq!(got, strings(&["echo \u{e9}", ""]));
}

#[test]
fn process_history_rejects_invalid_utf8() {
    let raw = vec![0xff, 0xfe, b'\n'];
    assert!(zsh_process_history(raw).is_none());
}

#[test]
fn process_history_empty_file() {
    let got = zsh_process_history(Vec::new()).unwrap();
    assert_eq!(got, strings(&[""]));
}
