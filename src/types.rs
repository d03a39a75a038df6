//! Channel parameters and states, the records participants sign, and the
//! identifiers derived from them.

use crate::amount::{le_value, sum_nats, Amount};
use crate::crypto::{as_bytes32, sha512_of, strict_verifies, verify_strict, L2Account, L2Signature};
use crate::encoding::{bytes_equal, push_all, push_le_digits, read_u64_le, u32_le, u64_le};
use crate::error::{Error, Result};
use crate::table::TableKey;
use candid::Principal;
use vstd::prelude::*;

verus! {

/// Duration in nanoseconds.
pub type Duration = u64;

/// Timestamp in nanoseconds.
pub type Timestamp = u64;

/// Channel state version.
pub type Version = u64;

/// Unique channel identifier: the first 32 bytes of the SHA-512 digest of
/// the channel's encoded parameters.
#[derive(Clone, Copy, PartialEq, Eq, Debug, Hash)]
pub struct ChannelId(pub [u8; 32]);

/// Nonce chosen by the channel's opener.
#[derive(Clone, Copy, PartialEq, Eq, Debug, Hash)]
pub struct Nonce(pub [u8; 32]);

/// A payable identity on the external ledger, as the bytes of its principal.
#[derive(PartialEq, Eq, Debug, Hash)]
pub struct L1Account(pub Vec<u8>);

/// The immutable parameters of a channel.
pub struct Params {
    /// The channel's unique nonce, against replay across channels.
    pub nonce: Nonce,
    /// The participants' layer-2 identities, in channel order.
    pub participants: Vec<L2Account>,
    /// How long a disputed non-final state stays open to refutation.
    pub challenge_duration: Duration,
}

/// The mutable part of a channel: a versioned allocation of its funds.
pub struct State {
    /// The channel this state belongs to.
    pub channel: ChannelId,
    /// The state's revision number.
    pub version: Version,
    /// Each participant's balance, in the order of the participants.
    pub allocation: Vec<Amount>,
    /// Whether no further updates can be made.
    pub finalized: bool,
}

/// A state together with every participant's signature on it.
pub struct FullySignedState {
    /// The signed state.
    pub state: State,
    /// The signatures, in the order of the participants.
    pub sigs: Vec<L2Signature>,
}

/// A channel state as recorded by the adjudicator, with the time at which a
/// non-final state becomes binding.
pub struct RegisteredState {
    /// The registered state.
    pub state: State,
    /// The end of the challenge period; ignored for final states.
    pub timeout: Timestamp,
}

/// A signed request to pay out a participant's holdings in a channel.
pub struct WithdrawalRequest {
    /// The channel to withdraw from.
    pub channel: ChannelId,
    /// The participant whose holdings are paid out.
    pub participant: L2Account,
    /// Who receives the funds on the external ledger.
    pub receiver: L1Account,
    /// The participant's signature on the request.
    pub signature: L2Signature,
    /// When the requester made the request; settlement is judged at the
    /// adjudicator's own time instead.
    pub time: Timestamp,
}

/// An unsigned withdrawal request, naming the funding to pay out.
pub struct WithdrawalTestRq {
    /// The funds to be withdrawn.
    pub funding: Funding,
    /// Who receives the funds on the external ledger.
    pub receiver: L1Account,
}

/// One participant's slot in one channel.
#[derive(Clone, Copy, PartialEq, Eq, Debug, Hash)]
pub struct Funding {
    /// The channel.
    pub channel: ChannelId,
    /// The participant who owns the funds.
    pub participant: L2Account,
}

/// Parameters and a signed state in one flat record.
pub struct ConcludeRequest {
    /// The channel's nonce.
    pub nonce: Nonce,
    /// The participants' identities.
    pub participants: Vec<L2Account>,
    /// The challenge duration.
    pub challenge_duration: Duration,
    /// The channel of the state.
    pub channel: ChannelId,
    /// The state's version.
    pub version: Version,
    /// The state's allocation.
    pub allocation: Vec<Amount>,
    /// Whether the state is final.
    pub finalized: bool,
    /// The participants' signatures on the state.
    pub sigs: Vec<L2Signature>,
}

/// A channel state as a mathematical value.
pub struct StateView {
    pub channel: Seq<u8>,
    pub version: u64,
    pub allocation: Seq<nat>,
    pub finalized: bool,
}

/// A registered state as a mathematical value.
pub struct RegisteredView {
    pub state: StateView,
    pub timeout: u64,
}

/// The signed encoding of one amount: its digit count as four little-endian
/// bytes, then its minimal little-endian digits.
pub open spec fn amount_encoding(a: Amount) -> Seq<u8> {
    u32_le(a.le_bytes().len()) + a.le_bytes()
}

/// The encodings of the amounts, one after another.
pub open spec fn allocation_encoding(a: Seq<Amount>) -> Seq<u8>
    decreases a.len(),
{
    if a.len() == 0 {
        Seq::empty()
    } else {
        allocation_encoding(a.drop_last()) + amount_encoding(a.last())
    }
}

/// The public keys of the participants, one after another.
pub open spec fn participants_encoding(ps: Seq<L2Account>) -> Seq<u8>
    decreases ps.len(),
{
    if ps.len() == 0 {
        Seq::empty()
    } else {
        participants_encoding(ps.drop_last()) + ps.last().0@
    }
}

/// The key of a funding slot in the holdings.
pub open spec fn funding_key(channel: Seq<u8>, participant: Seq<u8>) -> Seq<u8> {
    channel + participant
}

/// The byte that encodes a flag.
pub open spec fn flag_byte(b: bool) -> u8 {
    if b {
        1
    } else {
        0
    }
}

impl View for State {
    type V = StateView;

    open spec fn view(&self) -> StateView {
        StateView {
            channel: self.channel.0@,
            version: self.version,
            allocation: self.allocation@.map_values(|a: Amount| a@),
            finalized: self.finalized,
        }
    }
}

impl View for RegisteredState {
    type V = RegisteredView;

    open spec fn view(&self) -> RegisteredView {
        RegisteredView { state: self.state@, timeout: self.timeout }
    }
}

impl TableKey for ChannelId {
    open spec fn key(&self) -> Seq<u8> {
        self.0@
    }

    fn same_key(&self, other: &Self) -> (r: bool) {
        bytes_equal(self.0.as_slice(), other.0.as_slice())
    }
}

/// Two concatenations with equally long first parts are equal exactly when
/// both parts are.
pub proof fn lemma_concat_injective(a1: Seq<u8>, b1: Seq<u8>, a2: Seq<u8>, b2: Seq<u8>)
    requires
        a1.len() == a2.len(),
    ensures
        (a1 + b1 == a2 + b2) == (a1 == a2 && b1 == b2),
{
    if a1 + b1 == a2 + b2 {
        assert(a1 =~= (a1 + b1).subrange(0, a1.len() as int));
        assert(a2 =~= (a2 + b2).subrange(0, a2.len() as int));
        assert(b1 =~= (a1 + b1).subrange(a1.len() as int, (a1 + b1).len() as int));
        assert(b2 =~= (a2 + b2).subrange(a2.len() as int, (a2 + b2).len() as int));
    }
}

impl TableKey for Funding {
    open spec fn key(&self) -> Seq<u8> {
        funding_key(self.channel.0@, self.participant.0@)
    }

    fn same_key(&self, other: &Self) -> (r: bool) {
        proof {
            lemma_concat_injective(
                self.channel.0@,
                self.participant.0@,
                other.channel.0@,
                other.participant.0@,
            );
        }
        bytes_equal(self.channel.0.as_slice(), other.channel.0.as_slice()) && self.participant.same(
            &other.participant,
        )
    }
}

impl ChannelId {
    /// Whether two identifiers are equal.
    pub fn same(&self, other: &ChannelId) -> (r: bool)
        ensures
            r == (self.0@ == other.0@),
    {
        bytes_equal(self.0.as_slice(), other.0.as_slice())
    }
}

impl Clone for L1Account {
    fn clone(&self) -> (r: L1Account)
        ensures
            r.0@ == self.0@,
    {
        L1Account(self.0.clone())
    }
}

/// The channel identifier made of the first 32 bytes of a digest.
pub fn hash_to_channel_id(hash: &crate::crypto::Hash) -> (r: ChannelId)
    ensures
        r.0@ == hash.0@.subrange(0, 32),
{
    let mut arr: [u8; 32] = [0u8; 32];
    let mut i: usize = 0;
    while i < 32
        invariant
            i <= 32,
            forall|j: int| 0 <= j < i ==> arr@[j] == hash.0@[j],
        decreases 32 - i,
    {
        arr[i] = hash.0[i];
        i = i + 1;
    }
    assert(arr@ =~= hash.0@.subrange(0, 32));
    ChannelId(arr)
}

/// A challenge period's end: `now + duration`, saturating at the largest
/// timestamp; final states have none.
pub open spec fn challenge_timeout(finalized: bool, now: u64, duration: u64) -> u64 {
    if finalized {
        0
    } else if now + duration > u64::MAX {
        u64::MAX
    } else {
        (now + duration) as u64
    }
}

/// Whether a registered state is binding at `now`.
pub open spec fn settled_at(rs: RegisteredView, now: u64) -> bool {
    rs.state.finalized || now >= rs.timeout
}

/// What a withdrawal request signs: channel, participant key, receiver.
pub open spec fn withdrawal_encoding(channel: Seq<u8>, participant: Seq<u8>, receiver: Seq<u8>) -> Seq<
    u8,
> {
    channel + participant + receiver
}

impl State {
    /// Every amount's digit count fits the four-byte length prefix.
    pub open spec fn encodable(&self) -> bool {
        forall|i: int|
            0 <= i < self.allocation@.len() ==> (#[trigger] self.allocation@[i]).le_bytes().len()
                <= u32::MAX
    }

    /// The bytes participants sign: channel, version, each amount, and the
    /// final flag.
    pub open spec fn encoding(&self) -> Seq<u8> {
        self.channel.0@ + u64_le(self.version) + allocation_encoding(self.allocation@) + seq![
            flag_byte(self.finalized),
        ]
    }

    /// The sum of the allocation.
    pub open spec fn total_view(&self) -> nat {
        sum_nats(self@.allocation)
    }

    /// Encodes the state for signing.
    pub fn encode(&self) -> (r: Vec<u8>)
        requires
            self.encodable(),
        ensures
            r@ == self.encoding(),
    {
        let mut out: Vec<u8> = Vec::new();
        push_all(&mut out, self.channel.0.as_slice());
        push_le_digits(&mut out, self.version, 8);
        let ghost head = out@;
        let mut i: usize = 0;
        while i < self.allocation.len()
            invariant
                i <= self.allocation@.len(),
                self.encodable(),
                out@ == head + allocation_encoding(self.allocation@.subrange(0, i as int)),
            decreases self.allocation@.len() - i,
        {
            let ghost before = out@;
            let b = self.allocation[i].to_le_bytes();
            assert(self.allocation@[i as int].le_bytes().len() <= u32::MAX);
            push_le_digits(&mut out, b.len() as u64, 4);
            push_all(&mut out, b.as_slice());
            let ghost sub = self.allocation@.subrange(0, i + 1);
            assert(sub.drop_last() =~= self.allocation@.subrange(0, i as int));
            assert(out@ =~= head + allocation_encoding(sub));
            i = i + 1;
        }
        assert(self.allocation@.subrange(0, self.allocation@.len() as int) =~= self.allocation@);
        out.push(if self.finalized {
            1u8
        } else {
            0u8
        });
        assert(out@ =~= self.encoding());
        out
    }

    /// Checks `sig` as `pk`'s strict signature on the state's encoding.
    pub fn validate_sig(&self, sig: &L2Signature, pk: &L2Account) -> (r: Result<()>)
        requires
            self.encodable(),
        ensures
            r == (if strict_verifies(pk.0@, self.encoding(), sig.0@) {
                Ok(())
            } else {
                Err(Error::Authentication)
            }),
    {
        let enc = self.encode();
        if verify_strict(pk, enc.as_slice(), sig) {
            Ok(())
        } else {
            Err(Error::Authentication)
        }
    }

    /// The sum of the allocation.
    pub fn total(&self) -> (r: Amount)
        ensures
            r@ == self.total_view(),
    {
        let mut acc = Amount::zero();
        let mut i: usize = 0;
        while i < self.allocation.len()
            invariant
                i <= self.allocation@.len(),
                acc@ == sum_nats(self@.allocation.subrange(0, i as int)),
            decreases self.allocation@.len() - i,
        {
            acc = acc.add(&self.allocation[i]);
            let ghost sub = self@.allocation.subrange(0, i + 1);
            assert(sub.drop_last() =~= self@.allocation.subrange(0, i as int));
            i = i + 1;
        }
        assert(self@.allocation.subrange(0, i as int) =~= self@.allocation);
        acc
    }

    /// Whether the state may be registered without full funding: only the
    /// initial, non-final state, so that a channel whose opening never
    /// completed can still be refunded.
    pub fn may_be_underfunded(&self) -> (r: bool)
        ensures
            r == (self.version == 0 && !self.finalized),
    {
        self.version == 0 && !self.finalized
    }
}

impl Clone for State {
    fn clone(&self) -> (r: State)
        ensures
            r@ == self@,
            r.encoding() == self.encoding(),
            r.encodable() == self.encodable(),
    {
        let mut allocation: Vec<Amount> = Vec::new();
        let mut i: usize = 0;
        while i < self.allocation.len()
            invariant
                i <= self.allocation@.len(),
                allocation@.len() == i,
                forall|j: int|
                    0 <= j < i ==> (#[trigger] allocation@[j])@ == self.allocation@[j]@
                        && allocation@[j].le_bytes() == self.allocation@[j].le_bytes(),
            decreases self.allocation@.len() - i,
        {
            allocation.push(self.allocation[i].clone());
            i = i + 1;
        }
        let r = State {
            channel: self.channel,
            version: self.version,
            allocation,
            finalized: self.finalized,
        };
        assert(r@.allocation =~= self@.allocation);
        assert forall|k: int| 0 <= k < r.allocation@.len() implies (
        #[trigger] r.allocation@[k]).le_bytes() == self.allocation@[k].le_bytes() by {
            assert(allocation@[k].le_bytes() == self.allocation@[k].le_bytes());
        }
        proof {
            if self.encodable() {
                assert forall|k: int| 0 <= k < r.allocation@.len() implies (
                #[trigger] r.allocation@[k]).le_bytes().len() <= u32::MAX by {
                    assert(self.allocation@[k].le_bytes().len() <= u32::MAX);
                }
            }
            if r.encodable() {
                assert forall|k: int| 0 <= k < self.allocation@.len() implies (
                #[trigger] self.allocation@[k]).le_bytes().len() <= u32::MAX by {
                    assert(r.allocation@[k].le_bytes().len() <= u32::MAX);
                }
            }
        }
        proof {
            lemma_allocation_encoding_eq(r.allocation@, self.allocation@);
        }
        r
    }
}

/// Allocations whose amounts have the same digits encode alike.
pub proof fn lemma_allocation_encoding_eq(a: Seq<Amount>, b: Seq<Amount>)
    requires
        a.len() == b.len(),
        forall|j: int| 0 <= j < a.len() ==> (#[trigger] a[j]).le_bytes() == b[j].le_bytes(),
    ensures
        allocation_encoding(a) == allocation_encoding(b),
    decreases a.len(),
{
    if a.len() > 0 {
        lemma_allocation_encoding_eq(a.drop_last(), b.drop_last());
        assert(a.last().le_bytes() == b.last().le_bytes());
    }
}

impl Params {
    /// The bytes whose digest identifies the channel: nonce, every
    /// participant's key, and the challenge duration.
    pub open spec fn encoding(&self) -> Seq<u8> {
        self.nonce.0@ + participants_encoding(self.participants@) + u64_le(
            self.challenge_duration,
        )
    }

    /// The channel identifier the parameters derive.
    pub open spec fn id_view(&self) -> Seq<u8> {
        sha512_of(self.encoding()).subrange(0, 32)
    }

    /// The participants' keys as byte strings.
    pub open spec fn keys(&self) -> Seq<Seq<u8>> {
        self.participants@.map_values(|p: L2Account| p.0@)
    }

    /// Derives the channel identifier.
    pub fn id(&self) -> (r: ChannelId)
        ensures
            r.0@ == self.id_view(),
    {
        let mut out: Vec<u8> = Vec::new();
        push_all(&mut out, self.nonce.0.as_slice());
        let ghost head = out@;
        let mut i: usize = 0;
        while i < self.participants.len()
            invariant
                i <= self.participants@.len(),
                out@ == head + participants_encoding(self.participants@.subrange(0, i as int)),
            decreases self.participants@.len() - i,
        {
            push_all(&mut out, self.participants[i].0.as_slice());
            let ghost sub = self.participants@.subrange(0, i + 1);
            assert(sub.drop_last() =~= self.participants@.subrange(0, i as int));
            assert(out@ =~= head + participants_encoding(sub));
            i = i + 1;
        }
        assert(self.participants@.subrange(0, i as int) =~= self.participants@);
        push_le_digits(&mut out, self.challenge_duration, 8);
        assert(out@ =~= self.encoding());
        let h = crate::crypto::Hash::digest(out.as_slice());
        hash_to_channel_id(&h)
    }
}

impl Params {
    /// Whether no participant is listed twice.
    pub fn distinct_participants(&self) -> (r: bool)
        ensures
            r == self.keys().no_duplicates(),
    {
        let ghost keys = self.keys();
        let n = self.participants.len();
        let mut i: usize = 0;
        while i < n
            invariant
                i <= n,
                n == self.participants@.len(),
                keys == self.keys(),
                forall|a: int, b: int| 0 <= a < i && a < b < n ==> keys[a] != keys[b],
            decreases n - i,
        {
            let mut j: usize = i + 1;
            while j < n
                invariant
                    i < n,
                    i + 1 <= j <= n,
                    n == self.participants@.len(),
                    keys == self.keys(),
                    forall|a: int, b: int| 0 <= a < i && a < b < n ==> keys[a] != keys[b],
                    forall|b: int| i < b < j ==> keys[i as int] != keys[b],
                decreases n - j,
            {
                if self.participants[i].same(&self.participants[j]) {
                    proof {
                        assert(keys[i as int] == keys[j as int]);
                    }
                    return false;
                }
                j = j + 1;
            }
            i = i + 1;
        }
        proof {
            assert forall|a: int, b: int|
                0 <= a < keys.len() && 0 <= b < keys.len() && a != b implies keys[a] != keys[b] by {
                if b < a {
                    assert(keys[b] != keys[a]);
                }
            }
        }
        true
    }

    /// Whether `state` belongs to the channel of these parameters and has
    /// one amount per participant.
    pub fn matches(&self, state: &State) -> (r: bool)
        ensures
            r == (state.channel.0@ == self.id_view() && self.participants@.len()
                == state.allocation@.len()),
    {
        self.id().same(&state.channel) && self.participants.len() == state.allocation.len()
    }
}

impl Clone for Params {
    fn clone(&self) -> (r: Params)
        ensures
            r.nonce == self.nonce,
            r.participants@ == self.participants@,
            r.challenge_duration == self.challenge_duration,
    {
        let mut participants: Vec<L2Account> = Vec::new();
        let mut i: usize = 0;
        while i < self.participants.len()
            invariant
                i <= self.participants@.len(),
                participants@ == self.participants@.subrange(0, i as int),
            decreases self.participants@.len() - i,
        {
            participants.push(self.participants[i]);
            assert(participants@ =~= self.participants@.subrange(0, i + 1));
            i = i + 1;
        }
        assert(participants@ =~= self.participants@);
        Params { nonce: self.nonce, participants, challenge_duration: self.challenge_duration }
    }
}

impl FullySignedState {
    /// The state fits the parameters: same channel, one signature and one
    /// amount per participant.
    pub open spec fn fits(&self, params: &Params) -> bool {
        &&& self.state.channel.0@ == params.id_view()
        &&& self.sigs@.len() == params.participants@.len()
        &&& self.sigs@.len() == self.state.allocation@.len()
    }

    /// Every participant's signature verifies on the state's encoding.
    pub open spec fn signed_by_all(&self, params: &Params) -> bool {
        forall|i: int|
            0 <= i < params.participants@.len() ==> strict_verifies(
                #[trigger] params.participants@[i].0@,
                self.state.encoding(),
                self.sigs@[i].0@,
            )
    }

    /// What validation against `params` returns.
    pub open spec fn validation(&self, params: &Params) -> Result<()> {
        if !self.fits(params) {
            Err(Error::InvalidInput)
        } else if !self.signed_by_all(params) {
            Err(Error::Authentication)
        } else {
            Ok(())
        }
    }

    /// Checks that the state fits the parameters.
    pub fn check_fit(&self, params: &Params) -> (r: bool)
        ensures
            r == self.fits(params),
    {
        let id = params.id();
        id.same(&self.state.channel) && self.sigs.len() == params.participants.len()
            && self.sigs.len() == self.state.allocation.len()
    }

    /// Checks every participant's signature on the state.
    pub fn check_signatures(&self, params: &Params) -> (r: bool)
        requires
            self.state.encodable(),
            self.sigs@.len() == params.participants@.len(),
        ensures
            r == self.signed_by_all(params),
    {
        let enc = self.state.encode();
        let mut i: usize = 0;
        while i < params.participants.len()
            invariant
                i <= params.participants@.len(),
                self.sigs@.len() == params.participants@.len(),
                enc@ == self.state.encoding(),
                forall|j: int|
                    0 <= j < i ==> strict_verifies(
                        #[trigger] params.participants@[j].0@,
                        self.state.encoding(),
                        self.sigs@[j].0@,
                    ),
            decreases params.participants@.len() - i,
        {
            if !verify_strict(&params.participants[i], enc.as_slice(), &self.sigs[i]) {
                return false;
            }
            i = i + 1;
        }
        true
    }

    /// Checks that the state fits the parameters and carries every
    /// participant's valid signature.
    pub fn validate(&self, params: &Params) -> (r: Result<()>)
        requires
            self.state.encodable(),
        ensures
            r == self.validation(params),
    {
        if !self.check_fit(params) {
            return Err(Error::InvalidInput);
        }
        if !self.check_signatures(params) {
            return Err(Error::Authentication);
        }
        Ok(())
    }

    /// Like [`FullySignedState::validate`], for a state that must be final.
    pub fn validate_final(&self, params: &Params) -> (r: Result<()>)
        requires
            self.state.encodable(),
        ensures
            r == (if !self.state.finalized {
                Err(Error::NotFinalized)
            } else {
                self.validation(params)
            }),
    {
        if !self.state.finalized {
            return Err(Error::NotFinalized);
        }
        self.validate(params)
    }
}

impl RegisteredState {
    /// Registers a final, fully signed state; it is binding at once.
    pub fn conclude(state: FullySignedState, params: &Params) -> (r: Result<RegisteredState>)
        requires
            state.state.encodable(),
        ensures
            match r {
                Ok(rs) => state.state.finalized && state.validation(params) is Ok && rs@
                    == RegisteredView { state: state.state@, timeout: 0 },
                Err(e) => (if !state.state.finalized {
                    Err(Error::NotFinalized)
                } else {
                    state.validation(params)
                }) == Err::<(), Error>(e),
            },
    {
        match state.validate_final(params) {
            Ok(()) => Ok(RegisteredState { state: state.state, timeout: 0 }),
            Err(e) => Err(e),
        }
    }

    /// Registers a fully signed state for dispute at `now`.
    pub fn dispute(state: FullySignedState, params: &Params, now: Timestamp) -> (r: Result<
        RegisteredState,
    >)
        requires
            state.state.encodable(),
        ensures
            match r {
                Ok(rs) => state.validation(params) is Ok && rs@ == RegisteredView {
                    state: state.state@,
                    timeout: challenge_timeout(
                        state.state.finalized,
                        now,
                        params.challenge_duration,
                    ),
                },
                Err(e) => state.validation(params) == Err::<(), Error>(e),
            },
    {
        match state.validate(params) {
            Ok(()) => {
                let timeout = if state.state.finalized {
                    0
                } else {
                    now.saturating_add(params.challenge_duration)
                };
                Ok(RegisteredState { state: state.state, timeout })
            },
            Err(e) => Err(e),
        }
    }

    /// Whether the state is binding at `now`: final, or past its timeout.
    pub fn settled(&self, now: Timestamp) -> (r: bool)
        ensures
            r == settled_at(self@, now),
    {
        self.state.finalized || now >= self.timeout
    }
}

impl Clone for RegisteredState {
    fn clone(&self) -> (r: RegisteredState)
        ensures
            r@ == self@,
    {
        RegisteredState { state: self.state.clone(), timeout: self.timeout }
    }
}

impl WithdrawalRequest {
    /// A request with every field given.
    pub fn new(
        channel: ChannelId,
        participant: L2Account,
        receiver: L1Account,
        signature: L2Signature,
        time: Timestamp,
    ) -> (r: WithdrawalRequest)
        ensures
            r.channel == channel,
            r.participant == participant,
            r.receiver == receiver,
            r.signature == signature,
            r.time == time,
    {
        WithdrawalRequest { channel, participant, receiver, signature, time }
    }

    /// The bytes the participant signs.
    pub open spec fn encoding(&self) -> Seq<u8> {
        withdrawal_encoding(self.channel.0@, self.participant.0@, self.receiver.0@)
    }

    /// Checks `sig` as the participant's strict signature on the request.
    pub fn validate_sig(&self, sig: &L2Signature) -> (r: Result<()>)
        ensures
            r == (if strict_verifies(self.participant.0@, self.encoding(), sig.0@) {
                Ok(())
            } else {
                Err(Error::Authentication)
            }),
    {
        let enc = encode_withdrawal(&self.channel, &self.participant, &self.receiver);
        if verify_strict(&self.participant, enc.as_slice(), sig) {
            Ok(())
        } else {
            Err(Error::Authentication)
        }
    }
}

/// Encodes a withdrawal for signing.
pub fn encode_withdrawal(channel: &ChannelId, participant: &L2Account, receiver: &L1Account) -> (r:
    Vec<u8>)
    ensures
        r@ == withdrawal_encoding(channel.0@, participant.0@, receiver.0@),
{
    let mut out: Vec<u8> = Vec::new();
    push_all(&mut out, channel.0.as_slice());
    push_all(&mut out, participant.0.as_slice());
    push_all(&mut out, receiver.0.as_slice());
    assert(out@ =~= withdrawal_encoding(channel.0@, participant.0@, receiver.0@));
    out
}

impl WithdrawalTestRq {
    /// A request for `funding`, paid to `receiver`.
    pub fn new(funding: Funding, receiver: L1Account) -> (r: WithdrawalTestRq)
        ensures
            r.funding == funding,
            r.receiver == receiver,
    {
        WithdrawalTestRq { funding, receiver }
    }

    /// The bytes the participant signs.
    pub open spec fn encoding(&self) -> Seq<u8> {
        withdrawal_encoding(
            self.funding.channel.0@,
            self.funding.participant.0@,
            self.receiver.0@,
        )
    }

    /// Checks `sig` as the funding participant's strict signature on the
    /// request.
    pub fn validate_sig(&self, sig: &L2Signature) -> (r: Result<()>)
        ensures
            r == (if strict_verifies(self.funding.participant.0@, self.encoding(), sig.0@) {
                Ok(())
            } else {
                Err(Error::Authentication)
            }),
    {
        let enc = encode_withdrawal(&self.funding.channel, &self.funding.participant, &self.receiver);
        if verify_strict(&self.funding.participant, enc.as_slice(), sig) {
            Ok(())
        } else {
            Err(Error::Authentication)
        }
    }
}

impl Clone for WithdrawalTestRq {
    fn clone(&self) -> (r: WithdrawalTestRq)
        ensures
            r.funding == self.funding,
            r.receiver.0@ == self.receiver.0@,
    {
        WithdrawalTestRq { funding: self.funding, receiver: self.receiver.clone() }
    }
}

impl Funding {
    /// The slot of `participant` in `channel`.
    pub fn new(channel: ChannelId, participant: L2Account) -> (r: Funding)
        ensures
            r.channel == channel,
            r.participant == participant,
    {
        Funding { channel, participant }
    }

    /// The memo that tags external payments for this slot: the first eight
    /// bytes of the SHA-512 digest of channel and participant key, read
    /// little-endian.
    pub open spec fn memo_view(&self) -> nat {
        le_value(sha512_of(self.channel.0@ + self.participant.0@).subrange(0, 8))
    }

    /// Derives the slot's memo.
    pub fn memo(&self) -> (r: u64)
        ensures
            r as nat == self.memo_view(),
    {
        let mut data: Vec<u8> = Vec::new();
        push_all(&mut data, self.channel.0.as_slice());
        push_all(&mut data, self.participant.0.as_slice());
        let h = crate::crypto::Hash::digest(data.as_slice());
        read_u64_le(h.0.as_slice())
    }
}

impl ConcludeRequest {
    /// The parameters and the signed state the record holds.
    pub fn split(self) -> (r: (Params, FullySignedState))
        ensures
            r.0.nonce == self.nonce,
            r.0.participants == self.participants,
            r.0.challenge_duration == self.challenge_duration,
            r.1.state.channel == self.channel,
            r.1.state.version == self.version,
            r.1.state.allocation == self.allocation,
            r.1.state.finalized == self.finalized,
            r.1.sigs == self.sigs,
    {
        (
            Params {
                nonce: self.nonce,
                participants: self.participants,
                challenge_duration: self.challenge_duration,
            },
            FullySignedState {
                state: State {
                    channel: self.channel,
                    version: self.version,
                    allocation: self.allocation,
                    finalized: self.finalized,
                },
                sigs: self.sigs,
            },
        )
    }
}

/// The bytes of the principal written as `text`, if `text` is a valid
/// principal in textual form.
pub uninterp spec fn principal_of_text(text: Seq<char>) -> Option<Seq<u8>>;

/// Relies on candid's `Principal::from_text`, which checks the text's
/// base32 form and checksum and yields at most 29 bytes.
#[verifier::external_body]
fn parse_principal(text: &str) -> (r: Option<Vec<u8>>)
    ensures
        match r {
            Some(b) => principal_of_text(text@) == Some(b@) && b@.len() <= 29,
            None => principal_of_text(text@) is None,
        },
{
    match Principal::from_text(text) {
        Ok(p) => Some(p.as_slice().to_vec()),
        Err(_) => None,
    }
}

impl L1Account {
    /// The account of the principal written as `text`, if it is valid.
    pub fn from_text(text: &str) -> (r: Option<L1Account>)
        ensures
            match r {
                Some(a) => principal_of_text(text@) == Some(a.0@) && a.0@.len() <= 29,
                None => principal_of_text(text@) is None,
            },
    {
        match parse_principal(text) {
            Some(b) => Some(L1Account(b)),
            None => None,
        }
    }

    /// The anonymous principal.
    pub fn anonymous() -> (r: L1Account)
        ensures
            r.0@ == seq![4u8],
    {
        let r = L1Account(vec![4u8]);
        assert(r.0@ =~= seq![4u8]);
        r
    }
}

/// The default receiving account, the principal
/// `bkyz2-fmaaa-aaaaa-qaaaq-cai`.
pub fn default_account() -> (r: L1Account)
    ensures
        r.0@ == seq![128u8, 0, 0, 0, 0, 16, 0, 1, 1, 1],
{
    let r = L1Account(vec![128u8, 0, 0, 0, 0, 16, 0, 1, 1, 1]);
    assert(r.0@ =~= seq![128u8, 0, 0, 0, 0, 16, 0, 1, 1, 1]);
    r
}

impl ChannelId {
    /// An identifier from its 32 bytes; `None` for any other length.
    pub fn from_slice(v: &[u8]) -> (r: Option<ChannelId>)
        ensures
            r is Some <==> v@.len() == 32,
            r is Some ==> (r->0).0@ == v@,
    {
        match as_bytes32(v) {
            Some(b) => Some(ChannelId(b)),
            None => None,
        }
    }
}

impl Nonce {
    /// A nonce from its 32 bytes; `None` for any other length.
    pub fn from_slice(v: &[u8]) -> (r: Option<Nonce>)
        ensures
            r is Some <==> v@.len() == 32,
            r is Some ==> (r->0).0@ == v@,
    {
        match as_bytes32(v) {
            Some(b) => Some(Nonce(b)),
            None => None,
        }
    }
}

} // verus!
