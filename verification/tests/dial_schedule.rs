use pan_registrar::dial::{dial_failed, dial_start, DialNext, DIAL_ATTEMPTS, FIRST_DIAL_DELAY_MS};

#[test]
fn dialling_doubles_its_wait_then_gives_up() {
    let mut s = dial_start();
    assert_eq!(s.attempt, 1);
    assert_eq!(s.delay_ms, FIRST_DIAL_DELAY_MS);
    let mut waits = Vec::new();
    loop {
        let (next_state, next) = dial_failed(s);
        match next {
            DialNext::Retry { delay_ms } => {
                waits.push(delay_ms);
                s = next_state;
            }
            DialNext::GiveUp => {
                assert_eq!(next_state.attempt, DIAL_ATTEMPTS);
                break;
            }
        }
    }
    assert_eq!(waits, vec![250, 500, 1000, 2000, 4000, 8000, 16000]);
}
