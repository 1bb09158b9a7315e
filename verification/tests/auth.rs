use adsys_mount::{ask_password_cb, AuthGate, AuthState, Challenge, MountOperationResult};

fn challenge(anonymous_supported: bool, has_kerberos_ticket: bool) -> Challenge {
    Challenge { anonymous_supported, has_kerberos_ticket }
}

#[test]
fn new_gate_is_unset() {
    assert_eq!(AuthGate::new(true), AuthGate { is_anonymous: true, state: AuthState::Unset });
    assert_eq!(AuthGate::new(false), AuthGate { is_anonymous: false, state: AuthState::Unset });
}

#[test]
fn second_anonymous_prompt_is_aborted() {
    let mut gate = AuthGate::new(true);
    assert_eq!(ask_password_cb(&mut gate, challenge(true, false)), MountOperationResult::Handled);
    assert_eq!(gate.state, AuthState::Asked);
    assert_eq!(ask_password_cb(&mut gate, challenge(true, false)), MountOperationResult::Aborted);
    assert_eq!(gate, AuthGate { is_anonymous: true, state: AuthState::Asked });
}

#[test]
fn anonymous_retry_is_refused_even_with_a_ticket() {
    let mut gate = AuthGate::new(true);
    assert_eq!(ask_password_cb(&mut gate, challenge(true, true)), MountOperationResult::Handled);
    assert_eq!(ask_password_cb(&mut gate, challenge(true, true)), MountOperationResult::Aborted);
    assert_eq!(ask_password_cb(&mut gate, challenge(true, true)), MountOperationResult::Aborted);
}

#[test]
fn anonymous_access_is_offered_once_over_many_prompts() {
    let mut gate = AuthGate::new(true);
    let mut handled = 0;
    for _ in 0..20 {
        if ask_password_cb(&mut gate, challenge(true, false)) == MountOperationResult::Handled {
            handled += 1;
        }
    }
    assert_eq!(handled, 1);
}

#[test]
fn credentialed_prompt_without_ticket_is_aborted() {
    let mut gate = AuthGate::new(false);
    assert_eq!(ask_password_cb(&mut gate, challenge(false, false)), MountOperationResult::Aborted);
    assert_eq!(gate, AuthGate::new(false));
}

#[test]
fn credentialed_prompt_with_ticket_is_handled() {
    let mut gate = AuthGate::new(false);
    assert_eq!(ask_password_cb(&mut gate, challenge(false, true)), MountOperationResult::Handled);
    assert_eq!(gate, AuthGate::new(false));
}

#[test]
fn credentialed_entry_ignores_anonymous_support() {
    let mut gate = AuthGate::new(false);
    assert_eq!(ask_password_cb(&mut gate, challenge(true, false)), MountOperationResult::Aborted);
    assert_eq!(ask_password_cb(&mut gate, challenge(true, true)), MountOperationResult::Handled);
    assert_eq!(ask_password_cb(&mut gate, challenge(true, true)), MountOperationResult::Handled);
    assert_eq!(gate.state, AuthState::Unset);
}

#[test]
fn anonymous_entry_without_support_follows_the_ticket() {
    let mut gate = AuthGate::new(true);
    assert_eq!(ask_password_cb(&mut gate, challenge(false, false)), MountOperationResult::Aborted);
    assert_eq!(ask_password_cb(&mut gate, challenge(false, true)), MountOperationResult::Handled);
    assert_eq!(gate.state, AuthState::Unset);
    assert_eq!(ask_password_cb(&mut gate, challenge(true, false)), MountOperationResult::Handled);
    assert_eq!(gate.state, AuthState::Asked);
    assert_eq!(ask_password_cb(&mut gate, challenge(false, true)), MountOperationResult::Handled);
    assert_eq!(ask_password_cb(&mut gate, challenge(true, true)), MountOperationResult::Aborted);
}

#[test]
fn gates_of_two_operations_do_not_share_state() {
    let mut first = AuthGate::new(true);
    let mut second = AuthGate::new(true);
    assert_eq!(ask_password_cb(&mut first, challenge(true, false)), MountOperationResult::Handled);
    assert_eq!(ask_password_cb(&mut second, challenge(true, false)), MountOperationResult::Handled);
    assert_eq!(ask_password_cb(&mut first, challenge(true, false)), MountOperationResult::Aborted);
    assert_eq!(ask_password_cb(&mut second, challenge(true, false)), MountOperationResult::Aborted);
}
