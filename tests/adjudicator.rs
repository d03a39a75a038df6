use ed25519_dalek::{ExpandedSecretKey, PublicKey, SecretKey};
use oorandom::Rand64 as Prng;
use perun_adjudicator::amount::Amount;
use perun_adjudicator::crypto::{L2Account, L2Signature};
use perun_adjudicator::error::Error;
use perun_adjudicator::types::{
    default_account, encode_withdrawal, hash_to_channel_id, FullySignedState, Funding, L1Account,
    Nonce, Params, State, WithdrawalRequest, WithdrawalTestRq,
};
use perun_adjudicator::CanisterState;

const SEED: u128 = 0x5eed_0f_7e57;

/// A canister, two participants with their keys, and a channel state with
/// matching parameters.
struct Setup {
    parts: Vec<L2Account>,
    secrets: Vec<ExpandedSecretKey>,
    canister: CanisterState,
    params: Params,
    state: State,
    prng: Prng,
}

fn rand_hash(rng: &mut Prng) -> perun_adjudicator::crypto::Hash {
    perun_adjudicator::crypto::Hash::digest(&rng.rand_u64().to_ne_bytes())
}

fn rand_key(rand: &mut Prng) -> (ExpandedSecretKey, L2Account) {
    let mut bytes = [0u8; 32];
    for chunk in bytes.chunks_mut(8) {
        chunk.copy_from_slice(&rand.rand_u64().to_le_bytes());
    }
    let sk = SecretKey::from_bytes(&bytes).unwrap();
    let esk = ExpandedSecretKey::from(&sk);
    let pk: PublicKey = (&sk).into();
    (esk, L2Account(pk.to_bytes()))
}

fn amount(x: u64) -> Amount {
    Amount::from_u64(x)
}

impl Setup {
    fn new(finalized: bool, funded: bool) -> Self {
        Self::with_rng(Prng::new(SEED), finalized, funded)
    }

    fn with_rng(mut rand: Prng, finalized: bool, funded: bool) -> Self {
        let key0 = rand_key(&mut rand);
        let key1 = rand_key(&mut rand);
        let parts = vec![key0.1, key1.1];
        let secrets = vec![key0.0, key1.0];
        let nonce = rand_hash(&mut rand);
        let mut nonce_bytes = [0u8; 32];
        nonce_bytes.copy_from_slice(&nonce.0[..32]);
        let params = Params {
            nonce: Nonce(nonce_bytes),
            participants: parts.clone(),
            challenge_duration: 1,
        };
        let state = State {
            channel: params.id(),
            version: rand.rand_u64(),
            allocation: vec![amount(rand.rand_u64() >> 20), amount(rand.rand_u64() >> 20)],
            finalized,
        };
        let mut s = Setup {
            parts,
            secrets,
            canister: CanisterState::new(&L1Account::anonymous()),
            params,
            state,
            prng: rand,
        };
        if funded {
            for i in 0..s.parts.len() {
                let a = s.state.allocation[i].clone();
                s.canister.deposit(s.funding(i), a).unwrap();
            }
        }
        s
    }

    fn sign_state(&self) -> FullySignedState {
        self.sign_encoding(&self.state.encode())
    }

    fn sign_state_invalid(&self) -> FullySignedState {
        self.sign_encoding(b"invalid state")
    }

    fn funding(&self, part: usize) -> Funding {
        Funding::new(self.params.id(), self.parts[part])
    }

    fn withdrawal_to(&self, part: usize, receiver: L1Account) -> (WithdrawalTestRq, L2Signature) {
        let req = WithdrawalTestRq::new(self.funding(part), receiver);
        let sig = self.sign_withdrawal(&req, part);
        (req, sig)
    }

    fn withdrawal(&self, part: usize) -> (WithdrawalTestRq, L2Signature) {
        self.withdrawal_to(part, default_account())
    }

    fn sign_withdrawal(&self, req: &WithdrawalTestRq, part: usize) -> L2Signature {
        let enc = encode_withdrawal(&req.funding.channel, &req.funding.participant, &req.receiver);
        self.sign_bytes(&enc, part)
    }

    fn sign_bytes(&self, msg: &[u8], part: usize) -> L2Signature {
        let pk = PublicKey::from_bytes(&self.parts[part].0).unwrap();
        L2Signature(self.secrets[part].sign(msg, &pk).to_bytes())
    }

    fn sign_encoding(&self, enc: &[u8]) -> FullySignedState {
        let mut sigs = Vec::new();
        for i in 0..self.parts.len() {
            sigs.push(self.sign_bytes(enc, i));
        }
        FullySignedState { state: self.state.clone(), sigs }
    }

    /// A signed withdrawal request with the signature inside.
    fn signed_request(&self, part: usize, signer: usize, time: u64) -> WithdrawalRequest {
        let channel = self.params.id();
        let receiver = default_account();
        let enc = encode_withdrawal(&channel, &self.parts[part], &receiver);
        let sig = self.sign_bytes(&enc, signer);
        WithdrawalRequest::new(channel, self.parts[part], receiver, sig, time)
    }
}

#[test]
fn tests_test_deposit() {
    let mut s = Setup::new(false, false);
    let funding = Funding::new(s.params.id(), s.parts[0]);
    let funding2 = Funding::new(s.params.id(), s.parts[1]);
    assert_eq!(s.canister.query_holdings(funding), None);
    assert_eq!(s.canister.query_holdings(funding2), None);
    assert_eq!(s.canister.deposit(funding, amount(10)), Ok(()));
    assert_eq!(s.canister.query_holdings(funding), Some(amount(10)));
    assert_eq!(s.canister.query_holdings(funding2), None);
    assert_eq!(s.canister.query_holdings(funding2), None);
    assert_eq!(s.canister.deposit(funding, amount(20)), Ok(()));
    assert_eq!(s.canister.query_holdings(funding), Some(amount(30)));
    assert_eq!(s.canister.query_holdings(funding2), None);
    assert_eq!(s.canister.deposit(funding2, amount(45)), Ok(()));
    assert_eq!(s.canister.query_holdings(funding), Some(amount(30)));
    assert_eq!(s.canister.query_holdings(funding2), Some(amount(45)));
}

#[test]
fn lib_test_deposit() {
    let mut s = Setup::new(false, false);
    let funding = Funding::new(s.params.id(), s.parts[0]);
    let funding2 = Funding::new(s.params.id(), s.parts[1]);
    assert_eq!(s.canister.query_deposit(funding), None);
    assert_eq!(s.canister.query_deposit(funding2), None);
    assert_eq!(s.canister.deposit(funding, amount(10)), Ok(()));
    assert_eq!(s.canister.query_deposit(funding), Some(amount(10)));
    assert_eq!(s.canister.query_deposit(funding2), None);
    assert_eq!(s.canister.query_deposit(funding2), None);
    assert_eq!(s.canister.deposit(funding, amount(20)), Ok(()));
    assert_eq!(s.canister.query_deposit(funding), Some(amount(30)));
    assert_eq!(s.canister.query_deposit(funding2), None);
    assert_eq!(s.canister.deposit(funding2, amount(45)), Ok(()));
    assert_eq!(s.canister.query_deposit(funding), Some(amount(30)));
    assert_eq!(s.canister.query_deposit(funding2), Some(amount(45)));
}

#[test]
fn tests_test_conclude() {
    let mut s = Setup::new(true, true);
    let sstate = s.sign_state();
    assert_eq!(s.canister.conclude_can(s.params, sstate, 0), Ok(()));
}

#[test]
fn lib_test_conclude() {
    let mut s = Setup::new(true, true);
    let sstate = s.sign_state();
    assert_eq!(s.canister.conclude_can(s.params, sstate, 0), Ok(()));
}

#[test]
fn tests_test_conclude_nonfinal() {
    let mut s = Setup::new(false, true);
    let sstate = s.sign_state();
    assert_eq!(s.canister.conclude_can(s.params, sstate, 0), Err(Error::NotFinalized));
}

#[test]
fn lib_test_conclude_nonfinal() {
    let mut s = Setup::new(false, true);
    let sstate = s.sign_state();
    assert_eq!(s.canister.conclude_can(s.params, sstate, 0), Err(Error::NotFinalized));
}

#[test]
fn tests_test_conclude_invalid_params() {
    let mut s = Setup::new(true, true);
    let sstate = s.sign_state();
    s.params.challenge_duration += 1;
    assert_eq!(s.canister.conclude_can(s.params, sstate, 0), Err(Error::InvalidInput));
}

#[test]
fn lib_test_conclude_invalid_params() {
    let mut s = Setup::new(true, true);
    let sstate = s.sign_state();
    s.params.challenge_duration += 1;
    assert_eq!(s.canister.conclude_can(s.params, sstate, 0), Err(Error::InvalidInput));
}

#[test]
fn tests_test_conclude_not_signed() {
    let mut s = Setup::new(true, true);
    let sstate = s.sign_state_invalid();
    assert_eq!(s.canister.conclude_can(s.params, sstate, 0), Err(Error::Authentication));
}

#[test]
fn lib_test_conclude_not_signed() {
    let mut s = Setup::new(true, true);
    let sstate = s.sign_state_invalid();
    assert_eq!(s.canister.conclude_can(s.params, sstate, 0), Err(Error::Authentication));
}

#[test]
fn tests_test_conclude_insufficient_funds() {
    let mut s = Setup::new(true, true);
    s.state.allocation[0] = s.state.allocation[0].add(&amount(1000));
    let sstate = s.sign_state();
    assert_eq!(s.canister.conclude_can(s.params, sstate, 0), Err(Error::InsufficientFunding));
}

#[test]
fn lib_test_conclude_insufficient_funds() {
    let mut s = Setup::new(true, true);
    s.state.allocation[0] = s.state.allocation[0].add(&amount(1000));
    let sstate = s.sign_state();
    assert_eq!(s.canister.conclude_can(s.params, sstate, 0), Err(Error::InsufficientFunding));
}

#[test]
fn tests_test_conclude_invalid_allocation() {
    let mut s = Setup::new(true, true);
    s.state.allocation.push(amount(5));
    let signed = s.sign_state();
    assert_eq!(s.canister.conclude_can(s.params, signed, 0), Err(Error::InvalidInput));
}

#[test]
fn lib_test_conclude_invalid_allocation() {
    let mut s = Setup::new(true, true);
    s.state.allocation.push(amount(5));
    let signed = s.sign_state();
    assert_eq!(s.canister.conclude_can(s.params, signed, 0), Err(Error::InvalidInput));
}

#[test]
fn tests_test_dispute_nonfinal() {
    let mut s = Setup::new(false, true);
    let now = 0;
    let channel = s.params.id();
    let sstate = s.sign_state();
    assert_eq!(s.canister.dispute_can(s.params, sstate, now), Ok(()));
    assert!(!s.canister.state(&channel).unwrap().settled(now));
}

#[test]
fn lib_test_dispute_nonfinal() {
    let mut s = Setup::new(false, true);
    let now = 0;
    let channel = s.params.id();
    let sstate = s.sign_state();
    assert_eq!(s.canister.dispute_can(s.params, sstate, now), Ok(()));
    assert!(!s.canister.state(&channel).unwrap().settled(now));
}

#[test]
fn tests_test_dispute_final() {
    let time = 0;
    let mut s = Setup::new(true, true);
    let channel = s.params.id();
    let sstate = s.sign_state();
    assert_eq!(s.canister.dispute_can(s.params, sstate, time), Ok(()));
    assert!(s.canister.state(&channel).unwrap().settled(time));
}

#[test]
fn lib_test_dispute_final() {
    let time = 0;
    let mut s = Setup::new(true, true);
    let channel = s.params.id();
    let sstate = s.sign_state();
    assert_eq!(s.canister.dispute_can(s.params, sstate, time), Ok(()));
    assert!(s.canister.state(&channel).unwrap().settled(time));
}

#[test]
fn tests_test_dispute_valid_refutation() {
    let time = 0;
    let mut s = Setup::new(false, true);
    let channel = s.params.id();
    let mut sstate = s.sign_state();
    assert_eq!(s.canister.dispute_can(s.params.clone(), sstate, time), Ok(()));
    s.state.version += 1;
    s.state.finalized = true;
    sstate = s.sign_state();
    assert_eq!(s.canister.dispute_can(s.params, sstate, time), Ok(()));
    assert!(s.canister.state(&channel).unwrap().settled(time));
}

#[test]
fn lib_test_dispute_valid_refutation() {
    let time = 0;
    let mut s = Setup::new(false, true);
    let channel = s.params.id();
    let mut sstate = s.sign_state();
    assert_eq!(s.canister.dispute_can(s.params.clone(), sstate, time), Ok(()));
    s.state.version += 1;
    s.state.finalized = true;
    sstate = s.sign_state();
    assert_eq!(s.canister.dispute_can(s.params, sstate, time), Ok(()));
    assert!(s.canister.state(&channel).unwrap().settled(time));
}

#[test]
fn tests_test_dispute_outdated_refutation() {
    let time = 0;
    let version = 10;
    let mut s = Setup::new(false, true);
    let channel = s.params.id();
    s.state.version = version;
    let mut sstate = s.sign_state();
    assert_eq!(s.canister.dispute_can(s.params.clone(), sstate, time), Ok(()));
    s.state.version -= 1;
    sstate = s.sign_state();
    assert_eq!(s.canister.dispute_can(s.params, sstate, time), Err(Error::OutdatedState));
    assert!(!s.canister.state(&channel).unwrap().settled(time));
    assert_eq!(s.canister.state(&channel).unwrap().state.version, version);
}

#[test]
fn lib_test_dispute_outdated_refutation() {
    let time = 0;
    let version = 10;
    let mut s = Setup::new(false, true);
    let channel = s.params.id();
    s.state.version = version;
    let mut sstate = s.sign_state();
    assert_eq!(s.canister.dispute_can(s.params.clone(), sstate, time), Ok(()));
    s.state.version -= 1;
    sstate = s.sign_state();
    assert_eq!(s.canister.dispute_can(s.params, sstate, time), Err(Error::OutdatedState));
    assert!(!s.canister.state(&channel).unwrap().settled(time));
    assert_eq!(s.canister.state(&channel).unwrap().state.version, version);
}

#[test]
fn tests_test_dispute_settled_refutation() {
    let time = 0;
    let version = 10;
    let mut s = Setup::new(true, true);
    let channel = s.params.id();
    s.state.version = version;
    let mut sstate = s.sign_state();
    assert_eq!(s.canister.conclude_can(s.params.clone(), sstate, time), Ok(()));
    s.state.version += 1;
    sstate = s.sign_state();
    assert_eq!(s.canister.dispute_can(s.params, sstate, time), Err(Error::AlreadyConcluded));
    assert!(s.canister.state(&channel).unwrap().settled(time));
    assert_eq!(s.canister.state(&channel).unwrap().state.version, version);
}

#[test]
fn lib_test_dispute_settled_refutation() {
    let time = 0;
    let version = 10;
    let mut s = Setup::new(true, true);
    let channel = s.params.id();
    s.state.version = version;
    let mut sstate = s.sign_state();
    assert_eq!(s.canister.conclude_can(s.params.clone(), sstate, time), Ok(()));
    s.state.version += 1;
    sstate = s.sign_state();
    assert_eq!(s.canister.dispute_can(s.params, sstate, time), Err(Error::AlreadyConcluded));
    assert!(s.canister.state(&channel).unwrap().settled(time));
    assert_eq!(s.canister.state(&channel).unwrap().state.version, version);
}

#[test]
fn tests_test_dispute_underfunded_initial_state() {
    let mut time = 0;
    let mut s = Setup::new(false, false);
    let amount0 = s.state.allocation[0].clone();
    // Only one participant is funded.
    assert_eq!(s.canister.deposit(s.funding(0), amount0.clone()), Ok(()));
    s.state.version = 0;
    assert_eq!(s.canister.dispute_can(s.params.clone(), s.sign_state(), time), Ok(()));
    s.state.version = 1;
    assert_eq!(
        s.canister.dispute_can(s.params.clone(), s.sign_state(), time),
        Err(Error::InsufficientFunding)
    );
    // Wait for the channel to settle.
    time += s.params.challenge_duration;
    assert!(s.canister.state(&s.params.id()).unwrap().settled(time));
    let (req, sig) = s.withdrawal(0);
    assert_eq!(s.canister.withdraw_can(req, sig, time), Ok(amount0.clone()));
    let (req, sig) = s.withdrawal(1);
    assert_eq!(s.canister.withdraw_can(req, sig, time), Ok(Amount::default()));
}

#[test]
fn lib_test_dispute_underfunded_initial_state() {
    let mut time = 0;
    let mut s = Setup::new(false, false);
    let amount0 = s.state.allocation[0].clone();
    // Only one participant is funded.
    assert_eq!(s.canister.deposit(s.funding(0), amount0.clone()), Ok(()));
    s.state.version = 0;
    assert_eq!(s.canister.dispute_can(s.params.clone(), s.sign_state(), time), Ok(()));
    s.state.version = 1;
    assert_eq!(
        s.canister.dispute_can(s.params.clone(), s.sign_state(), time),
        Err(Error::InsufficientFunding)
    );
    // Wait for the channel to settle.
    time += s.params.challenge_duration;
    assert!(s.canister.state(&s.params.id()).unwrap().settled(time));
    let (req, sig) = s.withdrawal(0);
    assert_eq!(s.canister.withdraw_can(req, sig, time), Ok(amount0.clone()));
    let (req, sig) = s.withdrawal(1);
    assert_eq!(s.canister.withdraw_can(req, sig, time), Ok(Amount::default()));
}

#[test]
fn tests_test_holding_tracking_deposit() {
    let s = Setup::new(true, true);
    let sum = s.state.allocation[0].add(&s.state.allocation[1]);
    assert_eq!(s.canister.holdings_total(&s.params), sum);
    assert_eq!(s.canister.channel_funds(&s.params.id(), &s.params), s.state.total());
}

#[test]
fn lib_test_holding_tracking_deposit() {
    let s = Setup::new(true, true);
    let sum = s.state.allocation[0].add(&s.state.allocation[1]);
    assert_eq!(s.canister.holdings_total(&s.params), sum);
    assert_eq!(s.canister.channel_funds(&s.params.id(), &s.params), s.state.total());
}

#[test]
fn tests_test_holding_tracking_none() {
    let s = Setup::new(true, false);
    assert_eq!(s.canister.holdings_total(&s.params), amount(0));
}

#[test]
fn lib_test_holding_tracking_none() {
    let s = Setup::new(true, false);
    assert_eq!(s.canister.holdings_total(&s.params), amount(0));
}

#[test]
fn tests_test_withdraw() {
    let mut s = Setup::new(true, true);
    let sstate = s.sign_state();
    assert_eq!(s.canister.conclude_can(s.params.clone(), sstate, 0), Ok(()));
    let (req, sig) = s.withdrawal(0);
    let holdings = s.canister.query_holdings(s.funding(0)).unwrap();
    assert_eq!(s.canister.withdraw_can(req.clone(), sig, 0), Ok(holdings));
    // A repeated withdrawal pays nothing.
    assert_eq!(s.canister.withdraw_can(req, sig, 0), Ok(Amount::default()));
}

#[test]
fn lib_test_withdraw() {
    let mut s = Setup::new(true, true);
    let sstate = s.sign_state();
    assert_eq!(s.canister.conclude_can(s.params.clone(), sstate, 0), Ok(()));
    let (req, sig) = s.withdrawal(0);
    let holdings = s.canister.query_holdings(s.funding(0)).unwrap();
    assert_eq!(s.canister.withdraw_can(req.clone(), sig, 0), Ok(holdings));
    // A repeated withdrawal pays nothing.
    assert_eq!(s.canister.withdraw_can(req, sig, 0), Ok(Amount::default()));
}

#[test]
fn tests_test_withdraw_invalid_sig() {
    let mut s = Setup::new(true, true);
    let sstate = s.sign_state();
    assert_eq!(s.canister.conclude_can(s.params.clone(), sstate, 0), Ok(()));
    let (req, _) = s.withdrawal(0);
    // Signed by the wrong participant.
    let sig = s.sign_withdrawal(&req, 1);
    assert_eq!(s.canister.withdraw_can(req, sig, 0), Err(Error::Authentication));
}

#[test]
fn lib_test_withdraw_invalid_sig() {
    let mut s = Setup::new(true, true);
    let sstate = s.sign_state();
    assert_eq!(s.canister.conclude_can(s.params.clone(), sstate, 0), Ok(()));
    let (req, _) = s.withdrawal(0);
    // Signed by the wrong participant.
    let sig = s.sign_withdrawal(&req, 1);
    assert_eq!(s.canister.withdraw_can(req, sig, 0), Err(Error::Authentication));
}

#[test]
fn tests_test_withdraw_unknown_channel() {
    let mut s = Setup::new(true, true);
    let sstate = s.sign_state();
    assert_eq!(s.canister.conclude_can(s.params.clone(), sstate, 0), Ok(()));
    let (mut req, _) = s.withdrawal(0);
    let unknown_hash = rand_hash(&mut s.prng);
    req.funding.channel = hash_to_channel_id(&unknown_hash);
    let sig = s.sign_withdrawal(&req, 0);
    assert_eq!(s.canister.withdraw_can(req, sig, 0), Err(Error::NotFinalized));
}

#[test]
fn lib_test_withdraw_unknown_channel() {
    let mut s = Setup::new(true, true);
    let sstate = s.sign_state();
    assert_eq!(s.canister.conclude_can(s.params.clone(), sstate, 0), Ok(()));
    let (mut req, _) = s.withdrawal(0);
    let unknown_hash = rand_hash(&mut s.prng);
    req.funding.channel = hash_to_channel_id(&unknown_hash);
    let sig = s.sign_withdrawal(&req, 0);
    assert_eq!(s.canister.withdraw_can(req, sig, 0), Err(Error::NotFinalized));
}

#[test]
fn tests_test_withdraw_not_finalized() {
    let mut s = Setup::new(false, true);
    let now = 0;
    let sstate = s.sign_state();
    assert_eq!(s.canister.dispute_can(s.params.clone(), sstate, now), Ok(()));
    assert!(!s.canister.state(&s.params.id()).unwrap().settled(now));
    let (req, sig) = s.withdrawal(0);
    assert_eq!(s.canister.withdraw_can(req, sig, 0), Err(Error::NotFinalized));
}

#[test]
fn lib_test_withdraw_not_finalized() {
    let mut s = Setup::new(false, true);
    let now = 0;
    let sstate = s.sign_state();
    assert_eq!(s.canister.dispute_can(s.params.clone(), sstate, now), Ok(()));
    assert!(!s.canister.state(&s.params.id()).unwrap().settled(now));
    let (req, sig) = s.withdrawal(0);
    assert_eq!(s.canister.withdraw_can(req, sig, 0), Err(Error::NotFinalized));
}

// Channels between Alice (0) and Bob (1), a challenge duration of 1 ns and the
// allocation [7, 3].

fn two_party(version: u64, finalized: bool, funded: bool) -> Setup {
    let mut s = Setup::new(finalized, false);
    s.state.version = version;
    s.state.allocation = vec![amount(7), amount(3)];
    if funded {
        s.canister.deposit(s.funding(0), amount(7)).unwrap();
        s.canister.deposit(s.funding(1), amount(3)).unwrap();
    }
    s
}

#[test]
fn happy_conclude() {
    let mut s = two_party(5, true, true);
    let id = s.params.id();
    let signed = s.sign_state();
    assert_eq!(s.canister.conclude(s.params.clone(), signed, 0), Ok(()));
    let rs = s.canister.state(&id).unwrap();
    assert_eq!(rs.timeout, 0);
    assert!(rs.settled(0));
    assert_eq!(rs.state.version, 5);
    let alice = s.signed_request(0, 0, 0);
    assert_eq!(s.canister.withdraw(alice, 0), Ok(amount(7)));
    let alice_again = s.signed_request(0, 0, 0);
    assert_eq!(s.canister.withdraw(alice_again, 0), Ok(amount(0)));
    let bob = s.signed_request(1, 1, 0);
    assert_eq!(s.canister.withdraw(bob, 0), Ok(amount(3)));
}

#[test]
fn dispute_then_refute() {
    let mut s = two_party(2, false, true);
    let id = s.params.id();
    assert_eq!(s.canister.dispute(s.params.clone(), s.sign_state(), 0), Ok(()));
    let rs = s.canister.state(&id).unwrap();
    assert_eq!(rs.timeout, 1);
    assert!(!rs.settled(0));
    s.state.version = 3;
    s.state.finalized = true;
    assert_eq!(s.canister.dispute(s.params.clone(), s.sign_state(), 0), Ok(()));
    let rs = s.canister.state(&id).unwrap();
    assert!(rs.settled(0));
    assert_eq!(rs.state.version, 3);
    assert_eq!(s.canister.withdraw(s.signed_request(0, 0, 0), 0), Ok(amount(7)));
    assert_eq!(s.canister.withdraw(s.signed_request(1, 1, 0), 0), Ok(amount(3)));
}

#[test]
fn outdated_refutation() {
    let mut s = two_party(10, false, true);
    let id = s.params.id();
    assert_eq!(s.canister.dispute(s.params.clone(), s.sign_state(), 0), Ok(()));
    s.state.version = 9;
    assert_eq!(s.canister.dispute(s.params.clone(), s.sign_state(), 0), Err(Error::OutdatedState));
    assert_eq!(s.canister.state(&id).unwrap().state.version, 10);
}

#[test]
fn settled_refutation() {
    let mut s = two_party(10, true, true);
    let id = s.params.id();
    assert_eq!(s.canister.conclude(s.params.clone(), s.sign_state(), 0), Ok(()));
    s.state.version = 11;
    assert_eq!(
        s.canister.dispute(s.params.clone(), s.sign_state(), 0),
        Err(Error::AlreadyConcluded)
    );
    assert_eq!(s.canister.state(&id).unwrap().state.version, 10);
    // Nor can it be concluded again, even later.
    assert_eq!(
        s.canister.conclude(s.params.clone(), s.sign_state(), 100),
        Err(Error::AlreadyConcluded)
    );
}

#[test]
fn underfunded_initial() {
    let mut s = two_party(0, false, false);
    assert_eq!(s.canister.dispute(s.params.clone(), s.sign_state(), 0), Ok(()));
    s.state.version = 1;
    assert_eq!(
        s.canister.dispute(s.params.clone(), s.sign_state(), 0),
        Err(Error::InsufficientFunding)
    );
    let later = s.params.challenge_duration;
    assert_eq!(s.canister.withdraw(s.signed_request(0, 0, later), later), Ok(amount(0)));
    assert_eq!(s.canister.withdraw(s.signed_request(1, 1, later), later), Ok(amount(0)));
}

#[test]
fn underfunded_initial_with_one_deposit() {
    let mut s = two_party(0, false, false);
    s.canister.deposit(s.funding(0), amount(7)).unwrap();
    assert_eq!(s.canister.dispute(s.params.clone(), s.sign_state(), 0), Ok(()));
    // Still in the challenge period.
    assert_eq!(s.canister.withdraw(s.signed_request(0, 0, 0), 0), Err(Error::NotFinalized));
    let later = s.params.challenge_duration;
    assert_eq!(s.canister.withdraw(s.signed_request(0, 0, later), later), Ok(amount(7)));
    assert_eq!(s.canister.withdraw(s.signed_request(1, 1, later), later), Ok(amount(0)));
}

#[test]
fn wrong_signer() {
    let mut s = two_party(5, true, true);
    assert_eq!(s.canister.conclude(s.params.clone(), s.sign_state(), 0), Ok(()));
    let forged = s.signed_request(0, 1, 0);
    assert_eq!(s.canister.withdraw(forged, 0), Err(Error::Authentication));
    assert_eq!(s.canister.query_holdings(s.funding(0)), Some(amount(7)));
}

#[test]
fn ledger_failure_on_withdraw() {
    let mut s = two_party(5, true, true);
    assert_eq!(s.canister.conclude(s.params.clone(), s.sign_state(), 0), Ok(()));
    let drained = s.canister.withdraw(s.signed_request(0, 0, 0), 0).unwrap();
    assert_eq!(drained, amount(7));
    assert_eq!(s.canister.query_holdings(s.funding(0)), None);
    assert_eq!(
        s.canister.finish_withdrawal(s.funding(0), drained, false),
        Err(Error::LedgerError)
    );
    assert_eq!(s.canister.query_holdings(s.funding(0)), Some(amount(7)));
}

#[test]
fn successful_transfer_keeps_slot_empty() {
    let mut s = two_party(5, true, true);
    assert_eq!(s.canister.conclude(s.params.clone(), s.sign_state(), 0), Ok(()));
    let drained = s.canister.withdraw(s.signed_request(1, 1, 0), 0).unwrap();
    assert_eq!(s.canister.finish_withdrawal(s.funding(1), drained, true), Ok(()));
    assert_eq!(s.canister.query_holdings(s.funding(1)), None);
}

#[test]
fn one_bad_signature_is_refused() {
    let mut s = two_party(4, true, true);
    let id = s.params.id();
    let mut signed = s.sign_state();
    signed.sigs[1] = s.sign_bytes(b"something else", 1);
    let mut again = s.sign_state();
    again.sigs[0] = s.sign_bytes(b"something else", 0);
    assert_eq!(
        s.canister.conclude(s.params.clone(), signed, 0),
        Err(Error::Authentication)
    );
    assert_eq!(s.canister.dispute(s.params.clone(), again, 0), Err(Error::Authentication));
    assert!(s.canister.state(&id).is_none());
}

#[test]
fn signatures_swapped_are_refused() {
    let mut s = two_party(4, false, true);
    let mut signed = s.sign_state();
    signed.sigs.swap(0, 1);
    assert_eq!(s.canister.dispute(s.params.clone(), signed, 0), Err(Error::Authentication));
}

#[test]
fn dispute_versions_strictly_increase() {
    let mut s = two_party(3, false, true);
    let id = s.params.id();
    assert_eq!(s.canister.dispute(s.params.clone(), s.sign_state(), 0), Ok(()));
    // The same version again is outdated.
    assert_eq!(s.canister.dispute(s.params.clone(), s.sign_state(), 0), Err(Error::OutdatedState));
    s.state.version = 4;
    assert_eq!(s.canister.dispute(s.params.clone(), s.sign_state(), 0), Ok(()));
    assert_eq!(s.canister.state(&id).unwrap().state.version, 4);
}

#[test]
fn settled_by_timeout_refuses_dispute() {
    let mut s = two_party(3, false, true);
    assert_eq!(s.canister.dispute(s.params.clone(), s.sign_state(), 0), Ok(()));
    s.state.version = 4;
    // At the timeout the registered state is binding.
    assert_eq!(
        s.canister.dispute(s.params.clone(), s.sign_state(), 1),
        Err(Error::AlreadyConcluded)
    );
}

#[test]
fn conservation_through_the_lifecycle() {
    let mut s = two_party(5, true, true);
    assert_eq!(s.canister.holdings_total(&s.params), amount(10));
    assert_eq!(s.canister.conclude(s.params.clone(), s.sign_state(), 0), Ok(()));
    assert_eq!(s.canister.holdings_total(&s.params), amount(10));
    let paid = s.canister.withdraw(s.signed_request(0, 0, 0), 0).unwrap();
    assert_eq!(s.canister.holdings_total(&s.params).add(&paid), amount(10));
}

#[test]
fn final_dispute_has_no_timeout() {
    let mut s = two_party(8, true, true);
    let id = s.params.id();
    assert_eq!(s.canister.dispute(s.params.clone(), s.sign_state(), 50), Ok(()));
    assert_eq!(s.canister.state(&id).unwrap().timeout, 0);
}

#[test]
fn timeout_saturates() {
    let mut s = two_party(8, false, false);
    s.params.challenge_duration = u64::MAX;
    s.state.channel = s.params.id();
    s.canister.deposit(s.funding(0), amount(7)).unwrap();
    s.canister.deposit(s.funding(1), amount(3)).unwrap();
    let id = s.params.id();
    assert_eq!(s.canister.dispute(s.params.clone(), s.sign_state(), 50), Ok(()));
    assert_eq!(s.canister.state(&id).unwrap().timeout, u64::MAX);
}

#[test]
fn events_are_logged() {
    let mut s = two_party(2, false, true);
    let id = s.params.id();
    assert_eq!(s.canister.dispute(s.params.clone(), s.sign_state(), 5), Ok(()));
    s.state.version = 3;
    s.state.finalized = true;
    assert_eq!(s.canister.conclude(s.params.clone(), s.sign_state(), 5), Ok(()));
    let all = s.canister.events_after(&id, 0);
    assert_eq!(all.len(), 2);
    match &all[0] {
        perun_adjudicator::events::Event::Disputed { state, timestamp } => {
            assert_eq!(*timestamp, 5);
            assert_eq!(state.timeout, 6);
            assert_eq!(state.state.version, 2);
        },
        _ => panic!("expected a dispute"),
    }
    match &all[1] {
        perun_adjudicator::events::Event::Concluded { state, timestamp } => {
            assert_eq!(*timestamp, 5);
            assert_eq!(state.timeout, 0);
            assert_eq!(state.state.version, 3);
        },
        _ => panic!("expected a conclusion"),
    }
    assert_eq!(s.canister.events_after(&id, 5).len(), 2);
    assert_eq!(s.canister.events_after(&id, 6).len(), 0);
}

#[test]
fn refused_calls_log_nothing() {
    let mut s = two_party(2, false, false);
    let id = s.params.id();
    s.state.version = 2;
    assert_eq!(
        s.canister.dispute(s.params.clone(), s.sign_state(), 5),
        Err(Error::InsufficientFunding)
    );
    assert_eq!(s.canister.events_after(&id, 0).len(), 0);
}

#[test]
fn repeated_participant_is_refused() {
    let mut s = two_party(5, true, false);
    let alice = s.parts[0];
    s.params.participants = vec![alice, alice];
    s.state.channel = s.params.id();
    s.state.allocation = vec![amount(3), amount(5)];
    s.canister.deposit(Funding::new(s.params.id(), alice), amount(4)).unwrap();
    let mut signed = s.sign_state();
    signed.sigs = vec![s.sign_bytes(&s.state.encode(), 0), s.sign_bytes(&s.state.encode(), 0)];
    assert_eq!(s.canister.conclude(s.params.clone(), signed, 0), Err(Error::InvalidInput));
    let mut again = s.sign_state();
    again.sigs = vec![s.sign_bytes(&s.state.encode(), 0), s.sign_bytes(&s.state.encode(), 0)];
    assert_eq!(s.canister.dispute(s.params.clone(), again, 0), Err(Error::InvalidInput));
    assert_eq!(s.canister.query_holdings(Funding::new(s.params.id(), alice)), Some(amount(4)));
}

#[test]
fn withdrawal_is_judged_at_the_adjudicators_time() {
    let mut s = two_party(2, false, true);
    assert_eq!(s.canister.dispute(s.params.clone(), s.sign_state(), 0), Ok(()));
    // The request claims a time past the timeout, but it is still 0.
    let early = s.signed_request(0, 0, 1000);
    assert_eq!(s.canister.withdraw(early, 0), Err(Error::NotFinalized));
    let later = s.signed_request(0, 0, 0);
    assert_eq!(s.canister.withdraw(later, 1), Ok(amount(7)));
}

#[test]
fn repeated_participant_comes_after_signatures() {
    let mut s = two_party(5, true, true);
    let alice = s.parts[0];
    let mut params = s.params.clone();
    params.participants = vec![alice, alice];
    let mut state = s.state.clone();
    state.channel = params.id();
    let bad = FullySignedState {
        state: state.clone(),
        sigs: vec![s.sign_bytes(&state.encode(), 0), s.sign_bytes(b"other", 0)],
    };
    assert_eq!(s.canister.conclude(params.clone(), bad, 0), Err(Error::Authentication));
    let bad = FullySignedState {
        state: state.clone(),
        sigs: vec![s.sign_bytes(b"other", 0), s.sign_bytes(&state.encode(), 0)],
    };
    assert_eq!(s.canister.dispute(params.clone(), bad, 0), Err(Error::Authentication));
    // With every signature valid, the repeated participant itself is refused.
    let good = FullySignedState {
        state: state.clone(),
        sigs: vec![s.sign_bytes(&state.encode(), 0), s.sign_bytes(&state.encode(), 0)],
    };
    assert_eq!(s.canister.dispute(params.clone(), good, 0), Err(Error::InvalidInput));
}
