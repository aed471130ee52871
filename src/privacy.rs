//! Admission modes and the gating rules for tokens and neurons.

use vstd::prelude::*;

use crate::principal::Principal;

verus! {

/// How a neuron's stake is locked.
#[derive(Clone, Copy, Debug, PartialEq, Eq, Structural)]
pub enum DissolveState {
    /// Locked for a fixed delay, not dissolving.
    DissolveDelaySeconds(u64),
    /// Dissolving; done at this timestamp.
    WhenDissolvedTimestampSeconds(u64),
}

/// What admission reads of a voting neuron.
#[derive(Clone, Copy, Debug)]
pub struct Neuron {
    pub dissolve_state: Option<DissolveState>,
    pub created_timestamp_seconds: u64,
    pub cached_neuron_stake_e8s: u64,
}

/// One rule that a neuron must pass.
#[derive(Clone, Copy, Debug, PartialEq, Eq, Structural)]
pub enum NeuronGatedRules {
    IsDisolving(bool),
    MinAge(u64),
    MinStake(u64),
    MinDissolveDelay(u64),
}

/// A governance source and the rules its neurons are held to.
#[derive(Clone, Debug)]
pub struct NeuronGated {
    pub name: String,
    pub description: String,
    pub governance_canister: Principal,
    pub ledger_canister: Principal,
    pub rules: Vec<NeuronGatedRules>,
}

/// A token contract, its standard and the minimum balance asked for.
#[derive(Clone, Debug)]
pub struct TokenGated {
    pub name: String,
    pub description: String,
    pub principal: Principal,
    pub amount: u64,
    pub standard: String,
}

#[derive(Clone, Debug)]
pub enum GatedType {
    Neuron(Vec<NeuronGated>),
    Token(Vec<TokenGated>),
}

/// The admission mode of a group.
#[derive(Clone, Debug)]
pub enum Privacy {
    Public,
    Private,
    InviteOnly,
    Gated(GatedType),
}

pub const E8S_PER_TOKEN: u64 = 100_000_000;

/// A stake in e8s, as whole tokens rounded up.
pub open spec fn whole_tokens_up(e8s: u64) -> int {
    (e8s + E8S_PER_TOKEN - 1) / (E8S_PER_TOKEN as int)
}

pub open spec fn rule_passes(n: Neuron, rule: NeuronGatedRules) -> bool {
    match rule {
        NeuronGatedRules::IsDisolving(_) => n.dissolve_state matches Some(DissolveState::WhenDissolvedTimestampSeconds(_)),
        NeuronGatedRules::MinAge(min) => n.created_timestamp_seconds >= min,
        NeuronGatedRules::MinStake(min) => whole_tokens_up(n.cached_neuron_stake_e8s) >= whole_tokens_up(min),
        NeuronGatedRules::MinDissolveDelay(min) => match n.dissolve_state {
            Some(DissolveState::DissolveDelaySeconds(d)) => min <= d,
            _ => false,
        },
    }
}

/// A neuron is valid when it passes every rule.
#[verifier::opaque]
pub open spec fn neuron_valid(n: Neuron, rules: Seq<NeuronGatedRules>) -> bool {
    forall|i: int| 0 <= i < rules.len() ==> rule_passes(n, #[trigger] rules[i])
}

/// A governance source passes when its answer holds at least one valid
/// neuron; a failed call passes nothing.
pub open spec fn neuron_source_passes(rules: Seq<NeuronGatedRules>, answer: Option<Seq<Neuron>>) -> bool {
    &&& answer is Some
    &&& exists|k: int| 0 <= k < answer->Some_0.len() && neuron_valid(#[trigger] answer->Some_0[k], rules)
}

proof fn lemma_source_passes(rules: Seq<NeuronGatedRules>, ns: Seq<Neuron>, k: int)
    requires
        0 <= k < ns.len(),
        neuron_valid(ns[k], rules),
    ensures
        neuron_source_passes(rules, Some(ns)),
{
    assert(0 <= k < ns.len() && neuron_valid(ns[k], rules));
    assert(exists|j: int| 0 <= j < ns.len() && neuron_valid(#[trigger] ns[j], rules));
    assert(Some(ns)->Some_0 == ns);
}

pub open spec fn answer_view(answer: Option<Vec<Neuron>>) -> Option<Seq<Neuron>> {
    match answer {
        Some(v) => Some(v@),
        None => None,
    }
}

pub open spec fn known_standard(s: Seq<char>) -> bool {
    s == "EXT"@ || s == "DIP20"@ || s == "DIP721"@ || s == "DIP721_LEGACY"@ || s == "ICRC"@
}

/// A token contract passes when its standard is known, the balance call
/// answered, the balance reaches the minimum, and, for EXT, an account
/// identifier was given.
pub open spec fn token_passes(t: TokenGated, has_account: bool, balance: Option<u128>) -> bool {
    &&& known_standard(t.standard@)
    &&& (t.standard@ == "EXT"@ ==> has_account)
    &&& balance matches Some(b)
    &&& b >= t.amount
}

/// Rounds a stake in e8s up to whole tokens.
pub fn e8s_to_whole_tokens_up(e8s: u64) -> (r: u64)
    ensures
        r == whole_tokens_up(e8s),
{
    let whole = e8s / E8S_PER_TOKEN;
    if e8s % E8S_PER_TOKEN == 0 {
        whole
    } else {
        whole + 1
    }
}

pub fn neuron_rule_passes(n: &Neuron, rule: &NeuronGatedRules) -> (r: bool)
    ensures
        r == rule_passes(*n, *rule),
{
    match rule {
        NeuronGatedRules::IsDisolving(_) => match n.dissolve_state {
            Some(DissolveState::WhenDissolvedTimestampSeconds(_)) => true,
            _ => false,
        },
        NeuronGatedRules::MinAge(min) => n.created_timestamp_seconds >= *min,
        NeuronGatedRules::MinStake(min) => e8s_to_whole_tokens_up(n.cached_neuron_stake_e8s) >= e8s_to_whole_tokens_up(*min),
        NeuronGatedRules::MinDissolveDelay(min) => match n.dissolve_state {
            Some(DissolveState::DissolveDelaySeconds(d)) => *min <= d,
            _ => false,
        },
    }
}

pub fn is_neuron_valid(n: &Neuron, rules: &Vec<NeuronGatedRules>) -> (r: bool)
    ensures
        r == neuron_valid(*n, rules@),
{
    proof {
        reveal(neuron_valid);
    }
    let mut i: usize = 0;
    while i < rules.len()
        invariant
            i <= rules.len(),
            forall|j: int| 0 <= j < i ==> rule_passes(*n, #[trigger] rules@[j]),
        decreases rules.len() - i,
    {
        if !neuron_rule_passes(n, &rules[i]) {
            proof {
                reveal(neuron_valid);
            }
            return false;
        }
        i = i + 1;
    }
    true
}

/// Whether the neurons a governance source listed for a principal hold at
/// least one that passes every rule; `None` stands for a failed call.
pub fn validate_neuron_gated(rules: &Vec<NeuronGatedRules>, answer: &Option<Vec<Neuron>>) -> (r: bool)
    ensures
        r == neuron_source_passes(rules@, answer_view(*answer)),
{
    match answer {
        Some(neurons) => {
            let mut k: usize = 0;
            while k < neurons.len()
                invariant
                    k <= neurons.len(),
                    answer_view(*answer) == Some(neurons@),
                    forall|j: int| 0 <= j < k ==> !neuron_valid(#[trigger] neurons@[j], rules@),
                decreases neurons.len() - k,
            {
                if is_neuron_valid(&neurons[k], rules) {
                    proof {
                        lemma_source_passes(rules@, neurons@, k as int);
                        assert(answer_view(*answer) == Some(neurons@));
                    }
                    return true;
                }
                k = k + 1;
            }
            false
        },
        None => false,
    }
}

/// Whether a token contract admits the caller, given the balance its
/// standard reported (`None` for a failed call).
pub fn validate_nft_gated(token: &TokenGated, has_account: bool, balance: Option<u128>) -> (r: bool)
    ensures
        r == token_passes(*token, has_account, balance),
{
    proof {
        reveal_strlit("EXT");
        reveal_strlit("DIP20");
        reveal_strlit("DIP721");
        reveal_strlit("DIP721_LEGACY");
        reveal_strlit("ICRC");
    }
    let ext = "EXT".to_owned();
    let known = token.standard == ext || token.standard == "DIP20".to_owned()
        || token.standard == "DIP721".to_owned() || token.standard == "DIP721_LEGACY".to_owned()
        || token.standard == "ICRC".to_owned();
    if !known {
        return false;
    }
    if token.standard == ext && !has_account {
        return false;
    }
    match balance {
        Some(b) => b >= token.amount as u128,
        None => false,
    }
}

/// Balances and neuron lists reported for the caller, one entry per gate
/// item, position by position; an absent entry stands for a failed call.
#[derive(Clone, Debug)]
pub struct GateEvidence {
    pub has_account: bool,
    pub balances: Vec<Option<u128>>,
    pub neurons: Vec<Option<Vec<Neuron>>>,
}

pub open spec fn balance_at(ev: GateEvidence, i: int) -> Option<u128> {
    if 0 <= i < ev.balances@.len() { ev.balances@[i] } else { None }
}

pub open spec fn neurons_at(ev: GateEvidence, i: int) -> Option<Seq<Neuron>> {
    if 0 <= i < ev.neurons@.len() {
        answer_view(ev.neurons@[i])
    } else {
        None
    }
}

pub open spec fn source_passes(gate: GatedType, ev: GateEvidence, i: int) -> bool {
    match gate {
        GatedType::Token(ts) => token_passes(ts@[i], ev.has_account, balance_at(ev, i)),
        GatedType::Neuron(ns) => neuron_source_passes(ns@[i].rules@, neurons_at(ev, i)),
    }
}

pub open spec fn source_count(gate: GatedType) -> nat {
    match gate {
        GatedType::Token(ts) => ts@.len(),
        GatedType::Neuron(ns) => ns@.len(),
    }
}

/// The number of sources among the first `n` of a gate that pass.
pub open spec fn passing_count(gate: GatedType, ev: GateEvidence, n: int) -> nat
    decreases n,
{
    if n <= 0 {
        0
    } else {
        passing_count(gate, ev, n - 1) + if source_passes(gate, ev, n - 1) { 1nat } else { 0nat }
    }
}

/// Admission through a gate: enough distinct sources pass.
pub open spec fn gate_admits(gate: GatedType, ev: GateEvidence, required: u64) -> bool {
    passing_count(gate, ev, source_count(gate) as int) >= required
}

proof fn lemma_passing_count_bound(gate: GatedType, ev: GateEvidence, n: int)
    requires
        n >= 0,
    ensures
        passing_count(gate, ev, n) <= n,
    decreases n,
{
    if n > 0 {
        lemma_passing_count_bound(gate, ev, n - 1);
    }
}

/// Counts the sources of a gate that pass for the caller.
pub fn count_passing_sources(gate: &GatedType, ev: &GateEvidence) -> (r: u64)
    ensures
        r == passing_count(*gate, *ev, source_count(*gate) as int),
{
    let mut count: u64 = 0;
    match gate {
        GatedType::Token(ts) => {
            let mut i: usize = 0;
            while i < ts.len()
                invariant
                    i <= ts.len(),
                    *gate == GatedType::Token(*ts),
                    count == passing_count(*gate, *ev, i as int),
                decreases ts.len() - i,
            {
                proof {
                    lemma_passing_count_bound(*gate, *ev, i as int);
                }
                let bal = if i < ev.balances.len() { ev.balances[i] } else { None };
                if validate_nft_gated(&ts[i], ev.has_account, bal) {
                    count = count + 1;
                }
                i = i + 1;
            }
        },
        GatedType::Neuron(ns) => {
            let mut i: usize = 0;
            while i < ns.len()
                invariant
                    i <= ns.len(),
                    *gate == GatedType::Neuron(*ns),
                    count == passing_count(*gate, *ev, i as int),
                decreases ns.len() - i,
            {
                proof {
                    lemma_passing_count_bound(*gate, *ev, i as int);
                }
                let passes = if i < ev.neurons.len() {
                    validate_neuron_gated(&ns[i].rules, &ev.neurons[i])
                } else {
                    validate_neuron_gated(&ns[i].rules, &None)
                };
                if passes {
                    count = count + 1;
                }
                i = i + 1;
            }
        },
    }
    count
}

/// Whether a gate admits the caller: at least `required` sources pass.
pub fn validate_gate(gate: &GatedType, ev: &GateEvidence, required: u64) -> (r: bool)
    ensures
        r == gate_admits(*gate, *ev, required),
{
    count_passing_sources(gate, ev) >= required
}

} // verus!
