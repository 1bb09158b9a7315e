use vstd::prelude::*;

verus! {

/// Whether a mount operation has already answered a prompt with anonymous
/// access.
#[derive(Clone, Copy, Debug, PartialEq, Eq, Structural)]
pub enum AuthState {
    /// No prompt was answered with anonymous access yet.
    Unset,
    /// Anonymous access was offered once.
    Asked,
}

/// The answer to an authentication prompt.
#[derive(Clone, Copy, Debug, PartialEq, Eq, Structural)]
pub enum MountOperationResult {
    /// The prompt is answered: the provider goes on with what the operation
    /// holds.
    Handled,
    /// The prompt is refused: the provider gives the attempt up.
    Aborted,
    /// The prompt is not dealt with.
    Unhandled,
}

/// What one mount operation knows when the provider prompts it for
/// credentials: whether its entry asked for anonymous access, and whether
/// that was offered before. Each operation owns one, and only its own prompts
/// change it.
#[derive(Clone, Copy, Debug, PartialEq, Eq, Structural)]
pub struct AuthGate {
    pub is_anonymous: bool,
    pub state: AuthState,
}

/// One prompt as an operation sees it: whether the provider accepts anonymous
/// access for it, and whether a Kerberos credential cache is announced in
/// the environment at that moment.
#[derive(Clone, Copy, Debug, PartialEq, Eq, Structural)]
pub struct Challenge {
    pub anonymous_supported: bool,
    pub has_kerberos_ticket: bool,
}

impl AuthGate {
    /// Whether `challenge` is answered on the anonymous path.
    pub open spec fn takes_anonymous_path(self, challenge: Challenge) -> bool {
        self.is_anonymous && challenge.anonymous_supported
    }

    /// The answer that is given to `challenge` in this state.
    pub open spec fn reply(self, challenge: Challenge) -> MountOperationResult {
        if self.takes_anonymous_path(challenge) {
            match self.state {
                AuthState::Unset => MountOperationResult::Handled,
                AuthState::Asked => MountOperationResult::Aborted,
            }
        } else if challenge.has_kerberos_ticket {
            MountOperationResult::Handled
        } else {
            MountOperationResult::Aborted
        }
    }

    /// The state that follows the answer to `challenge`.
    pub open spec fn after(self, challenge: Challenge) -> AuthGate {
        if self.takes_anonymous_path(challenge) {
            AuthGate { is_anonymous: self.is_anonymous, state: AuthState::Asked }
        } else {
            self
        }
    }

    /// The state that follows the answers to `challenges`, given in this
    /// order.
    pub open spec fn after_all(self, challenges: Seq<Challenge>) -> AuthGate
        decreases challenges.len(),
    {
        if challenges.len() == 0 {
            self
        } else {
            self.after_all(challenges.drop_last()).after(challenges.last())
        }
    }

    /// The state of an operation that has not been prompted yet.
    pub fn new(is_anonymous: bool) -> (gate: AuthGate)
        ensures
            gate == (AuthGate { is_anonymous, state: AuthState::Unset }),
    {
        AuthGate { is_anonymous, state: AuthState::Unset }
    }
}

/// Answers one authentication prompt of the operation that owns `gate`,
/// without ever asking a person.
///
/// Where the entry asked for anonymous access and the provider accepts it
/// for this prompt, the first prompt is answered `Handled` and every later
/// one `Aborted`. Any other prompt is answered `Handled` if a Kerberos
/// credential cache is announced and `Aborted` if not, and changes nothing.
pub fn ask_password_cb(gate: &mut AuthGate, challenge: Challenge) -> (reply: MountOperationResult)
    ensures
        reply == old(gate).reply(challenge),
        *final(gate) == old(gate).after(challenge),
{
    if gate.is_anonymous && challenge.anonymous_supported {
        match gate.state {
            AuthState::Unset => {
                gate.state = AuthState::Asked;
                MountOperationResult::Handled
            },
            AuthState::Asked => MountOperationResult::Aborted,
        }
    } else if challenge.has_kerberos_ticket {
        MountOperationResult::Handled
    } else {
        MountOperationResult::Aborted
    }
}

/// No prompt is left unhandled: each answer is `Handled` or
/// `Aborted`.
pub proof fn lemma_reply_is_decided(gate: AuthGate, challenge: Challenge)
    ensures
        gate.reply(challenge) != MountOperationResult::Unhandled,
{
}

/// A prompt off the anonymous path is answered by the Kerberos marker alone:
/// `Handled` where a credential cache is announced, `Aborted` where none is.
/// It changes nothing in `gate`.
pub proof fn lemma_credentialed_prompt_follows_ticket(gate: AuthGate, challenge: Challenge)
    requires
        !gate.takes_anonymous_path(challenge),
    ensures
        gate.reply(challenge) == if challenge.has_kerberos_ticket {
            MountOperationResult::Handled
        } else {
            MountOperationResult::Aborted
        },
        gate.after(challenge) == gate,
{
}

/// Two prompts in a row that accept anonymous access, on an operation whose
/// entry asked for it and that was not prompted before: the first is answered
/// `Handled`, the second `Aborted`.
pub proof fn lemma_second_anonymous_prompt_aborts(first: Challenge, second: Challenge)
    requires
        first.anonymous_supported,
        second.anonymous_supported,
    ensures
        ({
            let gate = AuthGate { is_anonymous: true, state: AuthState::Unset };
            &&& gate.reply(first) == MountOperationResult::Handled
            &&& gate.after(first).reply(second) == MountOperationResult::Aborted
        }),
{
}

/// Once a gate has offered anonymous access it stays in that state, whatever
/// prompts follow.
pub proof fn lemma_asked_is_final(gate: AuthGate, challenges: Seq<Challenge>)
    requires
        gate.state == AuthState::Asked,
    ensures
        gate.after_all(challenges).state == AuthState::Asked,
        gate.after_all(challenges).is_anonymous == gate.is_anonymous,
    decreases challenges.len(),
{
    if challenges.len() > 0 {
        lemma_asked_is_final(gate, challenges.drop_last());
    }
}

/// A run of prompts leaves the anonymous flag alone, and the state after it
/// is `Asked` exactly if one of the prompts took the anonymous path or the
/// gate was in that state to begin with.
pub proof fn lemma_state_after(gate: AuthGate, challenges: Seq<Challenge>)
    ensures
        gate.after_all(challenges).is_anonymous == gate.is_anonymous,
        gate.after_all(challenges).state == AuthState::Asked <==> (gate.state == AuthState::Asked
            || exists|i: int|
            0 <= i < challenges.len() && gate.takes_anonymous_path(#[trigger] challenges[i])),
    decreases challenges.len(),
{
    if challenges.len() > 0 {
        let front = challenges.drop_last();
        lemma_state_after(gate, front);
        let before = gate.after_all(front);
        if before.state == AuthState::Asked && gate.state != AuthState::Asked {
            let i = choose|i: int|
                0 <= i < front.len() && gate.takes_anonymous_path(#[trigger] front[i]);
            assert(challenges[i] == front[i]);
        }
        if gate.takes_anonymous_path(challenges.last()) {
            assert(gate.takes_anonymous_path(challenges[challenges.len() - 1]));
        }
        if gate.after_all(challenges).state != AuthState::Asked {
            assert forall|i: int| 0 <= i < challenges.len() implies !gate.takes_anonymous_path(
                #[trigger] challenges[i],
            ) by {
                if i < front.len() {
                    assert(front[i] == challenges[i]);
                }
            }
        }
    }
}

/// The one-shot law: over any run of prompts put to a fresh gate, anonymous
/// access is offered at most once. The prompt at `j` is answered `Handled` on
/// the anonymous path only if no earlier prompt took that path; if one did,
/// the answer is `Aborted`.
pub proof fn lemma_anonymous_offered_once(is_anonymous: bool, challenges: Seq<Challenge>, j: int)
    requires
        0 <= j < challenges.len(),
        is_anonymous && challenges[j].anonymous_supported,
    ensures
        ({
            let gate = AuthGate { is_anonymous, state: AuthState::Unset };
            let earlier = exists|i: int|
                0 <= i < j && gate.takes_anonymous_path(#[trigger] challenges[i]);
            gate.after_all(challenges.take(j)).reply(challenges[j]) == if earlier {
                MountOperationResult::Aborted
            } else {
                MountOperationResult::Handled
            }
        }),
{
    let gate = AuthGate { is_anonymous, state: AuthState::Unset };
    let front = challenges.take(j);
    lemma_state_after(gate, front);
    let earlier = exists|i: int| 0 <= i < j && gate.takes_anonymous_path(#[trigger] challenges[i]);
    if earlier {
        let i = choose|i: int| 0 <= i < j && gate.takes_anonymous_path(#[trigger] challenges[i]);
        assert(front[i] == challenges[i]);
    } else {
        assert forall|i: int| 0 <= i < front.len() implies !gate.takes_anonymous_path(
            #[trigger] front[i],
        ) by {
            assert(front[i] == challenges[i]);
        }
    }
}

} // verus!
