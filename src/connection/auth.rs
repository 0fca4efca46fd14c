//! The authentication ladder's decisions: which credential sources are tried
//! and in what order, how many agent keys, and which RSA signature hash.
use vstd::prelude::*;

use crate::server_registry::AuthMethod;
use crate::text::push_str;

verus! {

/// The most agent keys tried before giving up, to stay under servers'
/// limits on failed attempts.
pub const MAX_AGENT_KEYS: usize = 10;

/// One rung of the ladder.
#[derive(Debug, Clone, Copy, PartialEq, Eq, Structural)]
pub enum AuthStep {
    /// The configured identity file.
    IdentityFile,
    /// The keys held by the SSH agent.
    Agent,
    /// `~/.ssh/id_ed25519`, `~/.ssh/id_rsa`, `~/.ssh/id_ecdsa`, those that exist.
    DefaultKeys,
}

/// An authentication setting that cannot work.
#[derive(Debug, Clone, Copy, PartialEq, Eq, Structural)]
pub enum AuthConfigError {
    /// Method `key` with no identity file.
    MissingIdentity,
}

/// The rungs tried, in order, for `method`.
pub open spec fn ladder(method: AuthMethod, has_identity: bool) -> Result<Seq<AuthStep>, AuthConfigError> {
    match method {
        AuthMethod::Auto => Ok(
            if has_identity {
                seq![AuthStep::IdentityFile, AuthStep::Agent, AuthStep::DefaultKeys]
            } else {
                seq![AuthStep::Agent, AuthStep::DefaultKeys]
            },
        ),
        AuthMethod::Agent => Ok(seq![AuthStep::Agent]),
        AuthMethod::Key => if has_identity {
            Ok(seq![AuthStep::IdentityFile])
        } else {
            Err(AuthConfigError::MissingIdentity)
        },
    }
}

/// The rungs to try, in order: for `auto` the identity file (when one is
/// set), then the agent, then the default keys; `agent` and `key` select
/// their one rung, and `key` without an identity is a configuration error.
pub fn auth_steps(method: AuthMethod, has_identity: bool) -> (r: Result<Vec<AuthStep>, AuthConfigError>)
    ensures
        match r {
            Ok(v) => ladder(method, has_identity) == Ok::<Seq<AuthStep>, AuthConfigError>(v@),
            Err(e) => ladder(method, has_identity) == Err::<Seq<AuthStep>, AuthConfigError>(e),
        },
{
    match method {
        AuthMethod::Auto => {
            let mut v: Vec<AuthStep> = Vec::new();
            if has_identity {
                v.push(AuthStep::IdentityFile);
            }
            v.push(AuthStep::Agent);
            v.push(AuthStep::DefaultKeys);
            proof {
                if has_identity {
                    assert(v@ =~= seq![AuthStep::IdentityFile, AuthStep::Agent, AuthStep::DefaultKeys]);
                } else {
                    assert(v@ =~= seq![AuthStep::Agent, AuthStep::DefaultKeys]);
                }
            }
            Ok(v)
        },
        AuthMethod::Agent => {
            let v = vec![AuthStep::Agent];
            assert(v@ =~= seq![AuthStep::Agent]);
            Ok(v)
        },
        AuthMethod::Key => {
            if has_identity {
                let v = vec![AuthStep::IdentityFile];
                assert(v@ =~= seq![AuthStep::IdentityFile]);
                Ok(v)
            } else {
                Err(AuthConfigError::MissingIdentity)
            }
        },
    }
}

/// The positions of the agent's keys that are tried, in order: the first
/// `MAX_AGENT_KEYS` of `total`, no later one.
pub fn agent_keys_to_try(total: usize) -> (r: Vec<usize>)
    ensures
        r@.len() == if total < MAX_AGENT_KEYS { total } else { MAX_AGENT_KEYS },
        forall|i: int| 0 <= i < r@.len() ==> #[trigger] r@[i] == i,
        forall|i: int| 0 <= i < r@.len() ==> r@[i] < MAX_AGENT_KEYS && r@[i] < total,
{
    let n = if total < MAX_AGENT_KEYS { total } else { MAX_AGENT_KEYS };
    let mut r: Vec<usize> = Vec::new();
    let mut i: usize = 0;
    while i < n
        invariant
            i <= n,
            n <= MAX_AGENT_KEYS,
            n <= total,
            r@.len() == i,
            forall|j: int| 0 <= j < i ==> #[trigger] r@[j] == j,
        decreases n - i,
    {
        r.push(i);
        i = i + 1;
    }
    r
}

/// An RSA signature hash.
#[derive(Debug, Clone, Copy, PartialEq, Eq, Structural)]
pub enum RsaHash {
    Sha256,
    Sha512,
}

/// What the server said when asked for its preferred RSA signature hash.
pub enum RsaHashAnswer {
    /// The server named its preference (`None`: SHA-1).
    Advertised(Option<RsaHash>),
    /// The server did not say.
    NotAdvertised,
    /// The query failed.
    Failed,
}

/// The RSA hash to use for a session: the server's preference when it
/// states one, otherwise SHA-256.
pub fn negotiated_rsa_hash(answer: &RsaHashAnswer) -> (r: Option<RsaHash>)
    ensures
        r == match answer {
            RsaHashAnswer::Advertised(h) => *h,
            _ => Some(RsaHash::Sha256),
        },
{
    match answer {
        RsaHashAnswer::Advertised(h) => *h,
        _ => Some(RsaHash::Sha256),
    }
}

/// The hash hint for one key: the session's RSA hash for an RSA key, none
/// for any other key.
pub fn rsa_hash_for_key(key_is_rsa: bool, cached: Option<RsaHash>) -> (r: Option<RsaHash>)
    ensures
        r == if key_is_rsa { cached } else { None },
{
    if key_is_rsa {
        cached
    } else {
        None
    }
}

/// The message for an `auto` ladder that found no accepted credential.
pub open spec fn auto_failure_text(has_identity: bool) -> Seq<char> {
    "Authentication failed. Tried: "@ + (if has_identity { "identity file, "@ } else { seq![] })
        + "agent, default keys"@
        + ". Check your credentials and run 'ssh-hub add' to reconfigure."@
}

/// Builds the message for an `auto` ladder that found no accepted
/// credential, naming the rungs tried.
pub fn auto_failure_message(has_identity: bool) -> (r: String)
    ensures
        r@ == auto_failure_text(has_identity),
{
    let mut r = String::new();
    push_str(&mut r, "Authentication failed. Tried: ");
    if has_identity {
        push_str(&mut r, "identity file, ");
    }
    push_str(&mut r, "agent, default keys");
    push_str(&mut r, ". Check your credentials and run 'ssh-hub add' to reconfigure.");
    proof {
        if !has_identity {
            assert("Authentication failed. Tried: "@ + Seq::<char>::empty() =~= "Authentication failed. Tried: "@);
        }
    }
    r
}

/// One credential tried against the server.
#[derive(Debug, Clone, Copy, PartialEq, Eq, Structural)]
pub enum Attempt {
    /// The configured identity file.
    IdentityFile,
    /// The agent's key at this position.
    AgentKey(usize),
    /// The default key at this position: `id_ed25519`, `id_rsa`, `id_ecdsa`.
    DefaultKey(usize),
}

/// What the SSH agent offered.
#[derive(Debug, Clone, Copy, PartialEq, Eq, Structural)]
pub enum AgentStatus {
    /// No agent could be reached.
    Unavailable,
    /// The agent holds this many keys.
    Keys(usize),
}

/// The number of agent keys that an agent status lets the ladder try.
pub open spec fn agent_key_count(agent: AgentStatus) -> nat {
    match agent {
        AgentStatus::Unavailable => 0,
        AgentStatus::Keys(n) => if n < MAX_AGENT_KEYS { n as nat } else { MAX_AGENT_KEYS as nat },
    }
}

/// The agent keys tried, in order.
pub open spec fn agent_attempts(agent: AgentStatus) -> Seq<Attempt> {
    Seq::new(agent_key_count(agent), |i: int| Attempt::AgentKey(i as usize))
}

/// The default keys tried, in order.
pub open spec fn default_attempts() -> Seq<Attempt> {
    seq![Attempt::DefaultKey(0), Attempt::DefaultKey(1), Attempt::DefaultKey(2)]
}

/// Every credential the ladder tries, in order, for `method`: for `auto` the
/// identity file (when one is set), then the first ten agent keys, then the
/// default keys; `agent` and `key` keep their one rung.
pub open spec fn attempt_plan(method: AuthMethod, has_identity: bool, agent: AgentStatus) -> Result<
    Seq<Attempt>,
    AuthConfigError,
> {
    match method {
        AuthMethod::Auto => Ok(
            (if has_identity { seq![Attempt::IdentityFile] } else { seq![] }) + agent_attempts(agent)
                + default_attempts(),
        ),
        AuthMethod::Agent => Ok(agent_attempts(agent)),
        AuthMethod::Key => if has_identity {
            Ok(seq![Attempt::IdentityFile])
        } else {
            Err(AuthConfigError::MissingIdentity)
        },
    }
}

fn push_agent_attempts(v: &mut Vec<Attempt>, agent: AgentStatus)
    ensures
        final(v)@ == old(v)@ + agent_attempts(agent),
{
    let n = match agent {
        AgentStatus::Unavailable => 0,
        AgentStatus::Keys(n) => if n < MAX_AGENT_KEYS { n } else { MAX_AGENT_KEYS },
    };
    let mut i: usize = 0;
    while i < n
        invariant
            i <= n,
            n == agent_key_count(agent),
            v@ == old(v)@ + Seq::new(i as nat, |j: int| Attempt::AgentKey(j as usize)),
        decreases n - i,
    {
        v.push(Attempt::AgentKey(i));
        i = i + 1;
        assert(v@ =~= old(v)@ + Seq::new(i as nat, |j: int| Attempt::AgentKey(j as usize)));
    }
    assert(Seq::new(i as nat, |j: int| Attempt::AgentKey(j as usize)) =~= agent_attempts(agent));
}

/// The credentials to try, in order; see `attempt_plan`.
pub fn plan_attempts(method: AuthMethod, has_identity: bool, agent: AgentStatus) -> (r: Result<
    Vec<Attempt>,
    AuthConfigError,
>)
    ensures
        match r {
            Ok(v) => attempt_plan(method, has_identity, agent) == Ok::<Seq<Attempt>, AuthConfigError>(v@),
            Err(e) => attempt_plan(method, has_identity, agent) == Err::<Seq<Attempt>, AuthConfigError>(e),
        },
{
    let mut v: Vec<Attempt> = Vec::new();
    match method {
        AuthMethod::Auto => {
            if has_identity {
                v.push(Attempt::IdentityFile);
            }
            let ghost first = v@;
            push_agent_attempts(&mut v, agent);
            v.push(Attempt::DefaultKey(0));
            v.push(Attempt::DefaultKey(1));
            v.push(Attempt::DefaultKey(2));
            proof {
                assert(first =~= (if has_identity { seq![Attempt::IdentityFile] } else { seq![] }));
                assert(v@ =~= first + agent_attempts(agent) + default_attempts());
            }
            Ok(v)
        },
        AuthMethod::Agent => {
            push_agent_attempts(&mut v, agent);
            assert(v@ =~= agent_attempts(agent));
            Ok(v)
        },
        AuthMethod::Key => {
            if has_identity {
                v.push(Attempt::IdentityFile);
                assert(v@ =~= seq![Attempt::IdentityFile]);
                Ok(v)
            } else {
                Err(AuthConfigError::MissingIdentity)
            }
        },
    }
}

/// The file name of default key `k`, in the order they are tried.
pub fn default_key_name(k: usize) -> (r: &'static str)
    requires
        k < 3,
    ensures
        k == 0 ==> r@ == "id_ed25519"@,
        k == 1 ==> r@ == "id_rsa"@,
        k == 2 ==> r@ == "id_ecdsa"@,
{
    if k == 0 {
        "id_ed25519"
    } else if k == 1 {
        "id_rsa"
    } else {
        "id_ecdsa"
    }
}

/// The ladder's next step.
#[derive(Debug, Clone, Copy, PartialEq, Eq, Structural)]
pub enum LadderStep {
    /// Try this credential.
    Try(Attempt),
    /// The last credential tried was accepted: authentication is done.
    Succeeded,
    /// Every credential was refused.
    Exhausted,
}

/// The step after `done` credentials of `plan` were tried, the last one
/// accepted or not: stop at the first accepted credential, otherwise try the
/// next one in order until none is left.
pub fn next_step(plan: &Vec<Attempt>, done: usize, last_accepted: bool) -> (r: LadderStep)
    ensures
        r == if last_accepted {
            LadderStep::Succeeded
        } else if done < plan@.len() {
            LadderStep::Try(plan@[done as int])
        } else {
            LadderStep::Exhausted
        },
{
    if last_accepted {
        LadderStep::Succeeded
    } else if done < plan.len() {
        LadderStep::Try(plan[done])
    } else {
        LadderStep::Exhausted
    }
}

/// The message for a ladder that found no accepted credential.
pub open spec fn ladder_failure_text(method: AuthMethod, has_identity: bool, agent: AgentStatus) -> Seq<char> {
    match method {
        AuthMethod::Auto => auto_failure_text(has_identity),
        AuthMethod::Key => "Key authentication failed"@,
        AuthMethod::Agent => match agent {
            AgentStatus::Unavailable => "Failed to connect to SSH agent (is SSH_AUTH_SOCK set?)"@,
            AgentStatus::Keys(n) => if n == 0 {
                "SSH agent has no keys. Run 'ssh-add' first."@
            } else {
                "SSH agent has "@ + crate::text::decimal(n as nat) + " key(s) but none of the first "@
                    + crate::text::decimal(agent_key_count(agent)) + " were accepted"@
            },
        },
    }
}

/// Builds the message for a ladder that found no accepted credential.
pub fn ladder_failure_message(method: AuthMethod, has_identity: bool, agent: AgentStatus) -> (r: String)
    ensures
        r@ == ladder_failure_text(method, has_identity, agent),
{
    match method {
        AuthMethod::Auto => auto_failure_message(has_identity),
        AuthMethod::Key => {
            let mut r = String::new();
            push_str(&mut r, "Key authentication failed");
            r
        },
        AuthMethod::Agent => {
            let mut r = String::new();
            match agent {
                AgentStatus::Unavailable => push_str(&mut r, "Failed to connect to SSH agent (is SSH_AUTH_SOCK set?)"),
                AgentStatus::Keys(n) => {
                    if n == 0 {
                        push_str(&mut r, "SSH agent has no keys. Run 'ssh-add' first.");
                    } else {
                        let tried = if n < MAX_AGENT_KEYS { n } else { MAX_AGENT_KEYS };
                        push_str(&mut r, "SSH agent has ");
                        crate::text::push_decimal(&mut r, n as u64);
                        push_str(&mut r, " key(s) but none of the first ");
                        crate::text::push_decimal(&mut r, tried as u64);
                        push_str(&mut r, " were accepted");
                    }
                },
            }
            r
        },
    }
}

} // verus!
