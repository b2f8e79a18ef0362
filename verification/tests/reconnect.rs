use oken::reconnect::{exit_code, reconnect_notice, Step, Supervisor, CONNECTION_LOST};

fn run_with_codes(codes: &[i32], max_retries: u32) -> (i32, u32) {
    let mut s = Supervisor::new(max_retries, 5);
    let mut retries: u32 = 0;
    for &code in codes {
        match s.on_exit(code) {
            Step::Retry { attempt, delay_secs } => {
                retries += 1;
                assert_eq!(attempt, retries);
                assert_eq!(delay_secs, 5);
            }
            Step::Exit(c) => return (c, retries),
        }
    }
    panic!("the client was to run again");
}

#[test]
fn recovers_when_retries_suffice() {
    for n in 0u32..6 {
        for k in 0..=n {
            let mut codes = vec![255; k as usize];
            codes.push(0);
            assert_eq!(run_with_codes(&codes, n), (0, k));
        }
    }
}

#[test]
fn gives_up_when_retries_run_out() {
    for n in 0u32..5 {
        for k in (n + 1)..(n + 4) {
            let mut codes = vec![255; k as usize];
            codes.push(0);
            assert_eq!(run_with_codes(&codes, n), (255, n));
        }
    }
}

#[test]
fn other_codes_end_the_run_unchanged() {
    for code in [0, 1, 2, 127, 130, 254, 256, -1] {
        let mut s = Supervisor::new(3, 1);
        assert_eq!(s.on_exit(code), Step::Exit(code));
        assert_eq!(s.attempts_used, 0);
    }
}

#[test]
fn retries_are_counted() {
    let mut s = Supervisor::new(2, 7);
    assert_eq!(s.on_exit(CONNECTION_LOST), Step::Retry { attempt: 1, delay_secs: 7 });
    assert_eq!(s.on_exit(CONNECTION_LOST), Step::Retry { attempt: 2, delay_secs: 7 });
    assert_eq!(s.on_exit(CONNECTION_LOST), Step::Exit(255));
    assert_eq!(s.attempts_used, 2);
}

#[test]
fn a_client_without_a_code_exits_with_one() {
    assert_eq!(exit_code(Some(0)), 0);
    assert_eq!(exit_code(Some(255)), 255);
    assert_eq!(exit_code(None), 1);
}

#[test]
fn notice_names_the_attempt() {
    assert_eq!(reconnect_notice(1, 3), "Connection lost. Reconnecting (1/3)\u{2026}");
}
