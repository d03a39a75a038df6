//! The adjudicator: per-channel holdings, the registry of channel states,
//! and the deposit / conclude / dispute / withdraw protocol over them.

use crate::amount::{sum_nats, Amount};
use crate::crypto::{strict_verifies, L2Signature};
use crate::error::{Error, ICPReceiverError, Result};
use crate::events::{events_from, inserted_in_order, Event, EventView, LocalEventRegisterer, LogEntry};
use crate::icp::{unspent_of, BlockHeight, Receiver, TransactionNotification};
use crate::table::{Table, TableKey};
use crate::types::{
    challenge_timeout, funding_key, settled_at, ChannelId, FullySignedState, Funding, L1Account,
    Params, RegisteredState, RegisteredView, State, Timestamp, WithdrawalRequest,
    WithdrawalTestRq,
};
use vstd::prelude::*;

verus! {

/// The amount held in slot `k`, zero if the slot is empty.
pub open spec fn holding(m: Map<Seq<u8>, nat>, k: Seq<u8>) -> nat {
    if m.contains_key(k) {
        m[k]
    } else {
        0
    }
}

/// The sum of the holdings of `channel` over the participants `keys`.
pub open spec fn channel_total(m: Map<Seq<u8>, nat>, channel: Seq<u8>, keys: Seq<Seq<u8>>) -> nat
    decreases keys.len(),
{
    if keys.len() == 0 {
        0
    } else {
        channel_total(m, channel, keys.drop_last()) + holding(
            m,
            funding_key(channel, keys.last()),
        )
    }
}

/// The holdings after setting, in participant order, the first `n`
/// participants' slots of `channel` to their amounts in `alloc`.
pub open spec fn apply_allocation(
    m: Map<Seq<u8>, nat>,
    channel: Seq<u8>,
    keys: Seq<Seq<u8>>,
    alloc: Seq<nat>,
    n: nat,
) -> Map<Seq<u8>, nat>
    decreases n,
{
    if n == 0 {
        m
    } else {
        apply_allocation(m, channel, keys, alloc, (n - 1) as nat).insert(
            funding_key(channel, keys[n - 1]),
            alloc[n - 1],
        )
    }
}

/// The adjudicator's state: the payment receiver, every funding slot's
/// holdings, every registered channel, and the event log.
pub struct CanisterState {
    icp_receiver: Receiver,
    holdings: Table<Funding, Amount>,
    channels: Table<ChannelId, RegisteredState>,
    events: LocalEventRegisterer,
}

impl CanisterState {
    /// The tables and the log are well formed.
    pub closed spec fn wf(&self) -> bool {
        &&& self.holdings.wf()
        &&& self.channels.wf()
        &&& self.events.wf()
    }

    /// The holdings by funding slot key.
    pub closed spec fn holdings_view(&self) -> Map<Seq<u8>, nat> {
        self.holdings@
    }

    /// The registered state of each channel, by channel identifier.
    pub closed spec fn channels_view(&self) -> Map<Seq<u8>, RegisteredView> {
        self.channels@
    }

    /// The payment receiver.
    pub closed spec fn receiver(&self) -> Receiver {
        self.icp_receiver
    }

    /// The event log.
    pub closed spec fn log(&self) -> Seq<LogEntry> {
        self.events@
    }

    /// Channel `id` is registered and its state is binding at `now`.
    pub open spec fn settled_channel(&self, id: Seq<u8>, now: Timestamp) -> bool {
        self.channels_view().contains_key(id) && settled_at(self.channels_view()[id], now)
    }

    /// The funds held for the channel of `params`, over its participants.
    pub open spec fn funds_of(&self, params: &Params) -> nat {
        channel_total(self.holdings_view(), params.id_view(), params.keys())
    }

    /// Whether the funds held cover the state's allocation.
    pub open spec fn covers(&self, params: &Params, fss: &FullySignedState) -> bool {
        self.funds_of(params) >= fss.state.total_view()
    }

    /// What `conclude` returns.
    pub open spec fn conclude_outcome(
        &self,
        params: &Params,
        fss: &FullySignedState,
        now: Timestamp,
    ) -> Result<()> {
        if !fss.fits(params) {
            Err(Error::InvalidInput)
        } else if self.settled_channel(params.id_view(), now) {
            Err(Error::AlreadyConcluded)
        } else if !fss.state.finalized {
            Err(Error::NotFinalized)
        } else if !fss.signed_by_all(params) {
            Err(Error::Authentication)
        } else if !params.keys().no_duplicates() {
            Err(Error::InvalidInput)
        } else if !self.covers(params, fss) {
            Err(Error::InsufficientFunding)
        } else {
            Ok(())
        }
    }

    /// What `dispute` returns.
    pub open spec fn dispute_outcome(
        &self,
        params: &Params,
        fss: &FullySignedState,
        now: Timestamp,
    ) -> Result<()> {
        let id = params.id_view();
        if !fss.fits(params) {
            Err(Error::InvalidInput)
        } else if !fss.signed_by_all(params) {
            Err(Error::Authentication)
        } else if self.settled_channel(id, now) {
            Err(Error::AlreadyConcluded)
        } else if self.channels_view().contains_key(id) && self.channels_view()[id].state.version
            >= fss.state.version {
            Err(Error::OutdatedState)
        } else if !params.keys().no_duplicates() {
            Err(Error::InvalidInput)
        } else if !self.covers(params, fss) && !(fss.state.version == 0
            && !fss.state.finalized) {
            Err(Error::InsufficientFunding)
        } else {
            Ok(())
        }
    }

    /// The holdings once `fss` is registered: set to its allocation when the
    /// funds cover it, untouched otherwise.
    pub open spec fn registered_holdings(&self, params: &Params, fss: &FullySignedState) -> Map<
        Seq<u8>,
        nat,
    > {
        if self.covers(params, fss) {
            apply_allocation(
                self.holdings_view(),
                params.id_view(),
                params.keys(),
                fss.state@.allocation,
                params.participants@.len(),
            )
        } else {
            self.holdings_view()
        }
    }

    /// What `withdraw` returns: the slot's holdings once the signature
    /// checks and the channel is settled at `now`.
    pub open spec fn withdraw_outcome(&self, req: &WithdrawalRequest, now: Timestamp) -> core::result::Result<
        nat,
        Error,
    > {
        if !strict_verifies(req.participant.0@, req.encoding(), req.signature.0@) {
            Err(Error::Authentication)
        } else if !self.settled_channel(req.channel.0@, now) {
            Err(Error::NotFinalized)
        } else {
            Ok(holding(self.holdings_view(), funding_key(req.channel.0@, req.participant.0@)))
        }
    }

    /// An adjudicator with no funds and no channels, receiving payments at
    /// `my_principal`'s default ledger account.
    pub fn new(my_principal: &L1Account) -> (r: CanisterState)
        requires
            my_principal.0@.len() <= 29,
        ensures
            r.wf(),
            r.holdings_view() == Map::<Seq<u8>, nat>::empty(),
            r.channels_view() == Map::<Seq<u8>, RegisteredView>::empty(),
            r.log() == Seq::<LogEntry>::empty(),
            r.receiver().account() == crate::icp::default_account_of(my_principal.0@),
            r.receiver().known() == Set::<BlockHeight>::empty(),
            r.receiver().unspent_view() == Map::<u64, Amount>::empty(),
    {
        CanisterState {
            icp_receiver: Receiver::new(my_principal),
            holdings: Table::new(),
            channels: Table::new(),
            events: LocalEventRegisterer::new(),
        }
    }

    /// Credits `amount` to the funding slot; never fails.
    pub fn deposit(&mut self, funding: Funding, amount: Amount) -> (r: Result<()>)
        requires
            old(self).wf(),
        ensures
            final(self).wf(),
            r is Ok,
            final(self).holdings_view() == old(self).holdings_view().insert(
                funding.key(),
                holding(old(self).holdings_view(), funding.key()) + amount@,
            ),
            final(self).channels_view() == old(self).channels_view(),
            final(self).receiver() == old(self).receiver(),
            final(self).log() == old(self).log(),
    {
        let credited = match self.holdings.get(&funding) {
            Some(prev) => prev.add(&amount),
            None => amount,
        };
        self.holdings.insert(funding, credited);
        Ok(())
    }

    /// Moves what the payment receiver holds under the slot's memo into the
    /// slot, and logs the slot's new total at `time`.
    pub fn deposit_icp(&mut self, time: Timestamp, funding: Funding) -> (r: Result<()>)
        requires
            old(self).wf(),
        ensures
            final(self).wf(),
            r is Ok,
            final(self).holdings_view() == old(self).holdings_view().insert(
                funding.key(),
                holding(old(self).holdings_view(), funding.key()) + unspent_of(
                    old(self).receiver().unspent_view(),
                    funding.memo_view() as u64,
                ),
            ),
            final(self).receiver().unspent_view() == old(self).receiver().unspent_view().remove(
                funding.memo_view() as u64,
            ),
            final(self).receiver().known() == old(self).receiver().known(),
            final(self).receiver().account() == old(self).receiver().account(),
            final(self).channels_view() == old(self).channels_view(),
            inserted_in_order(
                old(self).log(),
                final(self).log(),
                (
                    funding.channel.0@,
                    time,
                    EventView::Funded {
                        who: funding.participant.0@,
                        total: holding(final(self).holdings_view(), funding.key()),
                        timestamp: time,
                    },
                ),
            ),
    {
        let memo = funding.memo();
        let amount = self.icp_receiver.drain(memo);
        let _ = self.deposit(funding, amount);
        let total = match self.holdings.get(&funding) {
            Some(t) => t.clone(),
            None => Amount::zero(),
        };
        self.events.register_event(
            time,
            funding.channel,
            Event::Funded { who: funding.participant, total, timestamp: time },
        );
        Ok(())
    }

    /// Credits the payment of block `tx`, given what querying the ledger for
    /// it returned: the credited amount, or the receiver's refusal (a block
    /// credited before is refused as `DuplicateTransaction`).
    pub fn process_icp_tx(
        &mut self,
        tx: BlockHeight,
        queried: core::result::Result<TransactionNotification, ICPReceiverError>,
    ) -> (r: Result<Amount>)
        ensures
            match r {
                Ok(a) => old(self).receiver().verify_outcome(tx, queried) == Ok::<
                    nat,
                    ICPReceiverError,
                >(a@),
                Err(e) => e is ReceiverError && old(self).receiver().verify_outcome(tx, queried)
                    == Err::<nat, ICPReceiverError>(e->ReceiverError_0),
            },
            r is Ok ==> crate::icp::credited(
                old(self).receiver(),
                final(self).receiver(),
                tx,
                queried->Ok_0,
            ),
            r is Err ==> final(self).receiver() == old(self).receiver(),
            final(self).holdings_view() == old(self).holdings_view(),
            final(self).channels_view() == old(self).channels_view(),
            final(self).log() == old(self).log(),
    {
        match self.icp_receiver.verify(tx, queried) {
            Ok(v) => Ok(v),
            Err(e) => Err(Error::ReceiverError(e)),
        }
    }

    /// Whether the payment receiver already credited block `block_height`.
    pub fn receiver_knows(&self, block_height: BlockHeight) -> (r: bool)
        requires
            self.wf(),
        ensures
            r == self.receiver().known().contains(block_height),
    {
        self.icp_receiver.is_known(block_height)
    }

    /// The holdings of a funding slot, if it has any.
    pub fn query_holdings(&self, funding: Funding) -> (r: Option<Amount>)
        requires
            self.wf(),
        ensures
            r is Some <==> self.holdings_view().contains_key(funding.key()),
            r is Some ==> r->0@ == self.holdings_view()[funding.key()],
    {
        match self.holdings.get(&funding) {
            Some(a) => Some(a.clone()),
            None => None,
        }
    }

    /// The registered state of a channel, if it has one.
    pub fn state(&self, id: &ChannelId) -> (r: Option<RegisteredState>)
        requires
            self.wf(),
        ensures
            r is Some <==> self.channels_view().contains_key(id.0@),
            r is Some ==> r->0@ == self.channels_view()[id.0@],
    {
        match self.channels.get(id) {
            Some(rs) => Some(rs.clone()),
            None => None,
        }
    }

    /// The logged events of channel `ch` registered at or after `time`.
    pub fn events_after(&self, ch: &ChannelId, time: Timestamp) -> (r: Vec<Event>)
        requires
            self.wf(),
        ensures
            r@.map_values(|e: Event| e@) == events_from(self.log(), ch.0@, time),
    {
        self.events.events_after(ch, time)
    }

    /// The funds held in `channel` for the participants of `params`.
    pub fn channel_funds(&self, channel: &ChannelId, params: &Params) -> (r: Amount)
        requires
            self.wf(),
        ensures
            r@ == channel_total(self.holdings_view(), channel.0@, params.keys()),
    {
        let ghost keys = params.keys();
        let mut acc = Amount::zero();
        let mut i: usize = 0;
        while i < params.participants.len()
            invariant
                i <= params.participants@.len(),
                keys == params.keys(),
                self.wf(),
                acc@ == channel_total(self.holdings_view(), channel.0@, keys.subrange(0, i as int)),
            decreases params.participants@.len() - i,
        {
            let funding = Funding::new(*channel, params.participants[i]);
            match self.holdings.get(&funding) {
                Some(a) => {
                    acc = acc.add(a);
                },
                None => {},
            }
            let ghost sub = keys.subrange(0, i + 1);
            assert(sub.drop_last() =~= keys.subrange(0, i as int));
            assert(sub.last() == params.participants@[i as int].0@);
            i = i + 1;
        }
        assert(keys.subrange(0, i as int) =~= keys);
        acc
    }

    /// The funds held for the channel of `params`, summed over its
    /// participants; zero for a channel nobody funded.
    pub fn holdings_total(&self, params: &Params) -> (r: Amount)
        requires
            self.wf(),
        ensures
            r@ == self.funds_of(params),
    {
        let id = params.id();
        self.channel_funds(&id, params)
    }

    /// The holdings of a funding slot, if it has any.
    pub fn query_deposit(&self, funding: Funding) -> (r: Option<Amount>)
        requires
            self.wf(),
        ensures
            r is Some <==> self.holdings_view().contains_key(funding.key()),
            r is Some ==> r->0@ == self.holdings_view()[funding.key()],
    {
        self.query_holdings(funding)
    }

    /// Sets the holdings of the channel's participants to the state's
    /// allocation, in participant order.
    fn update_holdings(&mut self, params: &Params, state: &State)
        requires
            old(self).wf(),
            params.participants@.len() == state.allocation@.len(),
        ensures
            final(self).wf(),
            final(self).holdings_view() == apply_allocation(
                old(self).holdings_view(),
                state.channel.0@,
                params.keys(),
                state@.allocation,
                params.participants@.len(),
            ),
            final(self).channels_view() == old(self).channels_view(),
            final(self).receiver() == old(self).receiver(),
            final(self).log() == old(self).log(),
    {
        let mut i: usize = 0;
        while i < state.allocation.len()
            invariant
                i <= state.allocation@.len(),
                params.participants@.len() == state.allocation@.len(),
                self.wf(),
                self.holdings_view() == apply_allocation(
                    old(self).holdings_view(),
                    state.channel.0@,
                    params.keys(),
                    state@.allocation,
                    i as nat,
                ),
                self.channels_view() == old(self).channels_view(),
                self.receiver() == old(self).receiver(),
                self.log() == old(self).log(),
            decreases state.allocation@.len() - i,
        {
            let funding = Funding::new(state.channel, params.participants[i]);
            self.holdings.insert(funding, state.allocation[i].clone());
            i = i + 1;
        }
    }

    /// Registers `rs` for the channel of `params`, first setting the
    /// holdings to its allocation when `funded`.
    fn register_channel(&mut self, params: &Params, rs: RegisteredState, funded: bool)
        requires
            old(self).wf(),
            params.participants@.len() == rs.state.allocation@.len(),
        ensures
            final(self).wf(),
            final(self).holdings_view() == (if funded {
                apply_allocation(
                    old(self).holdings_view(),
                    rs.state.channel.0@,
                    params.keys(),
                    rs.state@.allocation,
                    params.participants@.len(),
                )
            } else {
                old(self).holdings_view()
            }),
            final(self).channels_view() == old(self).channels_view().insert(
                rs.state.channel.0@,
                rs@,
            ),
            final(self).receiver() == old(self).receiver(),
            final(self).log() == old(self).log(),
    {
        if funded {
            self.update_holdings(params, &rs.state);
        }
        let id = rs.state.channel;
        self.channels.insert(id, rs);
    }

    /// Whether the funds held for the channel cover the state's allocation.
    fn check_funding(&self, params: &Params, fss: &FullySignedState) -> (r: bool)
        requires
            self.wf(),
        ensures
            r == self.covers(params, fss),
    {
        let funds = self.holdings_total(params);
        let total = fss.state.total();
        !funds.less_than(&total)
    }

    /// Concludes a channel cooperatively with a final, fully signed state,
    /// which becomes binding at once; the holdings become its allocation.
    /// Nothing changes on error.
    pub fn conclude_can(&mut self, params: Params, fss: FullySignedState, now: Timestamp) -> (r:
        Result<()>)
        requires
            old(self).wf(),
            fss.state.encodable(),
        ensures
            final(self).wf(),
            r == old(self).conclude_outcome(&params, &fss, now),
            r is Err ==> *final(self) == *old(self),
            r is Ok ==> {
                &&& channel_total(final(self).holdings_view(), params.id_view(), params.keys())
                    == fss.state.total_view()
                &&& final(self).channels_view() == old(self).channels_view().insert(
                    params.id_view(),
                    RegisteredView { state: fss.state@, timeout: 0 },
                )
                &&& final(self).holdings_view() == old(self).registered_holdings(&params, &fss)
                &&& final(self).receiver() == old(self).receiver()
                &&& final(self).log() == old(self).log()
            },
    {
        if !fss.check_fit(&params) {
            return Err(Error::InvalidInput);
        }
        match self.channels.get(&fss.state.channel) {
            Some(prior) => {
                if prior.settled(now) {
                    return Err(Error::AlreadyConcluded);
                }
            },
            None => {},
        }
        if !fss.state.finalized {
            return Err(Error::NotFinalized);
        }
        if !fss.check_signatures(&params) {
            return Err(Error::Authentication);
        }
        if !params.distinct_participants() {
            return Err(Error::InvalidInput);
        }
        if !self.check_funding(&params, &fss) {
            return Err(Error::InsufficientFunding);
        }
        proof {
            lemma_applied_allocation_total(
                self.holdings_view(),
                params.id_view(),
                params.keys(),
                fss.state@.allocation,
            );
        }
        let rs = RegisteredState { state: fss.state, timeout: 0 };
        self.register_channel(&params, rs, true);
        Ok(())
    }

    /// Like [`CanisterState::conclude_can`], and logs the conclusion at
    /// `now`.
    pub fn conclude(&mut self, params: Params, fss: FullySignedState, now: Timestamp) -> (r:
        Result<()>)
        requires
            old(self).wf(),
            fss.state.encodable(),
        ensures
            final(self).wf(),
            r == old(self).conclude_outcome(&params, &fss, now),
            r is Err ==> *final(self) == *old(self),
            r is Ok ==> {
                &&& channel_total(final(self).holdings_view(), params.id_view(), params.keys())
                    == fss.state.total_view()
                &&& final(self).channels_view() == old(self).channels_view().insert(
                    params.id_view(),
                    RegisteredView { state: fss.state@, timeout: 0 },
                )
                &&& final(self).holdings_view() == old(self).registered_holdings(&params, &fss)
                &&& final(self).receiver() == old(self).receiver()
                &&& inserted_in_order(
                    old(self).log(),
                    final(self).log(),
                    (
                        params.id_view(),
                        now,
                        EventView::Concluded {
                            state: RegisteredView { state: fss.state@, timeout: 0 },
                            timestamp: now,
                        },
                    ),
                )
            },
    {
        let logged = fss.state.clone();
        let channel = fss.state.channel;
        let r = self.conclude_can(params, fss, now);
        if r.is_ok() {
            self.events.register_event(
                now,
                channel,
                Event::Concluded {
                    state: RegisteredState { state: logged, timeout: 0 },
                    timestamp: now,
                },
            );
        }
        r
    }

    /// Registers a fully signed state for dispute, or refutes a registered
    /// one with a newer state. A final state is binding at once; otherwise
    /// after the challenge duration. The holdings become its allocation when
    /// the funds cover it; only the initial non-final state may be
    /// registered without. Nothing changes on error.
    pub fn dispute_can(&mut self, params: Params, fss: FullySignedState, now: Timestamp) -> (r:
        Result<()>)
        requires
            old(self).wf(),
            fss.state.encodable(),
        ensures
            final(self).wf(),
            r == old(self).dispute_outcome(&params, &fss, now),
            r is Err ==> *final(self) == *old(self),
            r is Ok && old(self).covers(&params, &fss) ==> channel_total(
                final(self).holdings_view(),
                params.id_view(),
                params.keys(),
            ) == fss.state.total_view(),
            r is Ok ==> {
                &&& final(self).channels_view() == old(self).channels_view().insert(
                    params.id_view(),
                    RegisteredView {
                        state: fss.state@,
                        timeout: challenge_timeout(
                            fss.state.finalized,
                            now,
                            params.challenge_duration,
                        ),
                    },
                )
                &&& final(self).holdings_view() == old(self).registered_holdings(&params, &fss)
                &&& final(self).receiver() == old(self).receiver()
                &&& final(self).log() == old(self).log()
            },
    {
        if !fss.check_fit(&params) {
            return Err(Error::InvalidInput);
        }
        if !fss.check_signatures(&params) {
            return Err(Error::Authentication);
        }
        match self.channels.get(&fss.state.channel) {
            Some(prior) => {
                if prior.settled(now) {
                    return Err(Error::AlreadyConcluded);
                }
                if prior.state.version >= fss.state.version {
                    return Err(Error::OutdatedState);
                }
            },
            None => {},
        }
        if !params.distinct_participants() {
            return Err(Error::InvalidInput);
        }
        let funded = self.check_funding(&params, &fss);
        if !funded && !fss.state.may_be_underfunded() {
            return Err(Error::InsufficientFunding);
        }
        let timeout = if fss.state.finalized {
            0
        } else {
            now.saturating_add(params.challenge_duration)
        };
        proof {
            lemma_applied_allocation_total(
                self.holdings_view(),
                params.id_view(),
                params.keys(),
                fss.state@.allocation,
            );
        }
        let rs = RegisteredState { state: fss.state, timeout };
        self.register_channel(&params, rs, funded);
        Ok(())
    }

    /// Like [`CanisterState::dispute_can`], and logs the registered state
    /// at `now`.
    pub fn dispute(&mut self, params: Params, fss: FullySignedState, now: Timestamp) -> (r:
        Result<()>)
        requires
            old(self).wf(),
            fss.state.encodable(),
        ensures
            final(self).wf(),
            r == old(self).dispute_outcome(&params, &fss, now),
            r is Err ==> *final(self) == *old(self),
            r is Ok && old(self).covers(&params, &fss) ==> channel_total(
                final(self).holdings_view(),
                params.id_view(),
                params.keys(),
            ) == fss.state.total_view(),
            r is Ok ==> {
                let rv = RegisteredView {
                    state: fss.state@,
                    timeout: challenge_timeout(fss.state.finalized, now, params.challenge_duration),
                };
                &&& final(self).channels_view() == old(self).channels_view().insert(
                    params.id_view(),
                    rv,
                )
                &&& final(self).holdings_view() == old(self).registered_holdings(&params, &fss)
                &&& final(self).receiver() == old(self).receiver()
                &&& inserted_in_order(
                    old(self).log(),
                    final(self).log(),
                    (params.id_view(), now, EventView::Disputed { state: rv, timestamp: now }),
                )
            },
    {
        let logged = fss.state.clone();
        let channel = fss.state.channel;
        let timeout = if fss.state.finalized {
            0
        } else {
            now.saturating_add(params.challenge_duration)
        };
        let r = self.dispute_can(params, fss, now);
        if r.is_ok() {
            self.events.register_event(
                now,
                channel,
                Event::Disputed {
                    state: RegisteredState { state: logged, timeout },
                    timestamp: now,
                },
            );
        }
        r
    }

    /// Pays out a participant's holdings in a settled channel: checks the
    /// request's signature, requires the channel to be settled at `now`, the
    /// adjudicator's current time, and empties the slot. A repeated withdrawal returns
    /// zero. Nothing changes on error.
    pub fn withdraw(&mut self, req: WithdrawalRequest, now: Timestamp) -> (r: Result<Amount>)
        requires
            old(self).wf(),
        ensures
            final(self).wf(),
            match r {
                Ok(a) => old(self).withdraw_outcome(&req, now) == Ok::<nat, Error>(a@),
                Err(e) => old(self).withdraw_outcome(&req, now) == Err::<nat, Error>(e),
            },
            r is Err ==> *final(self) == *old(self),
            r is Ok ==> {
                &&& final(self).holdings_view() == old(self).holdings_view().remove(
                    funding_key(req.channel.0@, req.participant.0@),
                )
                &&& final(self).channels_view() == old(self).channels_view()
                &&& final(self).receiver() == old(self).receiver()
                &&& final(self).log() == old(self).log()
            },
    {
        match req.validate_sig(&req.signature) {
            Ok(()) => {},
            Err(e) => {
                return Err(e);
            },
        }
        let funding = Funding::new(req.channel, req.participant);
        self.drain_settled(&funding, now)
    }

    /// Empties the slot if its channel is settled at `now`.
    fn drain_settled(&mut self, funding: &Funding, now: Timestamp) -> (r: Result<Amount>)
        requires
            old(self).wf(),
        ensures
            final(self).wf(),
            !old(self).settled_channel(funding.channel.0@, now) ==> r == Err::<Amount, Error>(
                Error::NotFinalized,
            ) && *final(self) == *old(self),
            old(self).settled_channel(funding.channel.0@, now) ==> {
                &&& r is Ok
                &&& r->Ok_0@ == holding(old(self).holdings_view(), funding.key())
                &&& final(self).holdings_view() == old(self).holdings_view().remove(
                    funding.key(),
                )
                &&& final(self).channels_view() == old(self).channels_view()
                &&& final(self).receiver() == old(self).receiver()
                &&& final(self).log() == old(self).log()
            },
    {
        match self.channels.get(&funding.channel) {
            None => Err(Error::NotFinalized),
            Some(rs) => {
                if !rs.settled(now) {
                    return Err(Error::NotFinalized);
                }
                match self.holdings.remove(funding) {
                    Some(a) => Ok(a),
                    None => Ok(Amount::zero()),
                }
            },
        }
    }

    /// Like [`CanisterState::withdraw`], for a request whose signature
    /// `auth` is given apart and which is judged at `now`.
    pub fn withdraw_can(&mut self, req: WithdrawalTestRq, auth: L2Signature, now: Timestamp) -> (r:
        Result<Amount>)
        requires
            old(self).wf(),
        ensures
            final(self).wf(),
            !strict_verifies(req.funding.participant.0@, req.encoding(), auth.0@) ==> r == Err::<
                Amount,
                Error,
            >(Error::Authentication) && *final(self) == *old(self),
            strict_verifies(req.funding.participant.0@, req.encoding(), auth.0@)
                && !old(self).settled_channel(req.funding.channel.0@, now) ==> r == Err::<
                Amount,
                Error,
            >(Error::NotFinalized) && *final(self) == *old(self),
            strict_verifies(req.funding.participant.0@, req.encoding(), auth.0@)
                && old(self).settled_channel(req.funding.channel.0@, now) ==> {
                &&& r is Ok
                &&& r->Ok_0@ == holding(old(self).holdings_view(), req.funding.key())
                &&& final(self).holdings_view() == old(self).holdings_view().remove(
                    req.funding.key(),
                )
                &&& final(self).channels_view() == old(self).channels_view()
                &&& final(self).receiver() == old(self).receiver()
                &&& final(self).log() == old(self).log()
            },
    {
        match req.validate_sig(&auth) {
            Ok(()) => {},
            Err(e) => {
                return Err(e);
            },
        }
        self.drain_settled(&req.funding, now)
    }

    /// Finishes a withdrawal once the external transfer of `amount` was
    /// attempted: on failure the amount goes back into the slot and the
    /// withdrawal fails with `LedgerError`.
    pub fn finish_withdrawal(&mut self, funding: Funding, amount: Amount, transferred: bool) -> (r:
        Result<()>)
        requires
            old(self).wf(),
        ensures
            final(self).wf(),
            transferred ==> r is Ok && *final(self) == *old(self),
            !transferred ==> {
                &&& r == Err::<(), Error>(Error::LedgerError)
                &&& final(self).holdings_view() == old(self).holdings_view().insert(
                    funding.key(),
                    holding(old(self).holdings_view(), funding.key()) + amount@,
                )
                &&& final(self).channels_view() == old(self).channels_view()
                &&& final(self).receiver() == old(self).receiver()
                &&& final(self).log() == old(self).log()
            },
    {
        if transferred {
            return Ok(());
        }
        let _ = self.deposit(funding, amount);
        Err(Error::LedgerError)
    }
}

/// A state that fits its parameters but misses one participant's valid
/// signature is refused with `Authentication` by a dispute, and by a
/// conclusion of an open channel with a final state; a refused call leaves
/// the registry as it was.
pub proof fn lemma_signature_rigour(
    s: CanisterState,
    params: Params,
    fss: FullySignedState,
    now: Timestamp,
    i: int,
)
    requires
        fss.fits(&params),
        0 <= i < params.participants@.len(),
        !strict_verifies(params.participants@[i].0@, fss.state.encoding(), fss.sigs@[i].0@),
    ensures
        s.dispute_outcome(&params, &fss, now) == Err::<(), Error>(Error::Authentication),
        fss.state.finalized && !s.settled_channel(params.id_view(), now) ==> s.conclude_outcome(
            &params,
            &fss,
            now,
        ) == Err::<(), Error>(Error::Authentication),
{
    assert(!fss.signed_by_all(&params));
}

/// A successful dispute of a registered channel registers a strictly newer
/// version than the one it replaces.
pub proof fn lemma_dispute_raises_version(
    s: CanisterState,
    params: Params,
    fss: FullySignedState,
    now: Timestamp,
)
    requires
        s.dispute_outcome(&params, &fss, now) is Ok,
        s.channels_view().contains_key(params.id_view()),
    ensures
        fss.state.version > s.channels_view()[params.id_view()].state.version,
{
}

/// Once a channel is settled it stays settled, and every later conclusion
/// or dispute of it fails.
pub proof fn lemma_settled_is_final(
    s: CanisterState,
    params: Params,
    fss: FullySignedState,
    now: Timestamp,
    later: Timestamp,
)
    requires
        s.settled_channel(params.id_view(), now),
        later >= now,
    ensures
        s.settled_channel(params.id_view(), later),
        s.conclude_outcome(&params, &fss, later) is Err,
        s.dispute_outcome(&params, &fss, later) is Err,
{
}

/// After a successful withdrawal, the same request again pays out zero.
pub proof fn lemma_withdraw_again_pays_zero(
    s: CanisterState,
    after: CanisterState,
    req: WithdrawalRequest,
    now: Timestamp,
)
    requires
        s.withdraw_outcome(&req, now) is Ok,
        after.holdings_view() == s.holdings_view().remove(
            funding_key(req.channel.0@, req.participant.0@),
        ),
        after.channels_view() == s.channels_view(),
    ensures
        after.withdraw_outcome(&req, now) == Ok::<nat, Error>(0),
{
}

/// A dispute registers a state its channel's funds do not cover only if it
/// is the initial, non-final state.
pub proof fn lemma_underfunded_only_initial(
    s: CanisterState,
    params: Params,
    fss: FullySignedState,
    now: Timestamp,
)
    requires
        s.dispute_outcome(&params, &fss, now) is Ok,
        !s.covers(&params, &fss),
    ensures
        fss.state.version == 0,
        !fss.state.finalized,
{
}

/// The channel total counts a slot's holding once per occurrence of its
/// participant; with distinct participants, changing one slot changes the
/// total by the same amount if the slot is a participant's, and not at all
/// otherwise.
pub proof fn lemma_channel_total_change(
    m: Map<Seq<u8>, nat>,
    m2: Map<Seq<u8>, nat>,
    channel: Seq<u8>,
    keys: Seq<Seq<u8>>,
    p: Seq<u8>,
)
    requires
        keys.no_duplicates(),
        forall|k: Seq<u8>| k != funding_key(channel, p) ==> holding(m2, k) == holding(m, k),
    ensures
        channel_total(m2, channel, keys) + (if keys.contains(p) {
            holding(m, funding_key(channel, p))
        } else {
            0
        }) == channel_total(m, channel, keys) + (if keys.contains(p) {
            holding(m2, funding_key(channel, p))
        } else {
            0
        }),
    decreases keys.len(),
{
    if keys.len() > 0 {
        let rest = keys.drop_last();
        let q = keys.last();
        assert(rest.no_duplicates()) by {
            assert forall|a: int, b: int| 0 <= a < rest.len() && 0 <= b < rest.len() && a != b implies rest[a] != rest[b] by {
                assert(rest[a] == keys[a] && rest[b] == keys[b]);
            }
        }
        lemma_channel_total_change(m, m2, channel, rest, p);
        crate::types::lemma_concat_injective(channel, q, channel, p);
        if q == p {
            assert(!rest.contains(p)) by {
                if rest.contains(p) {
                    let j = choose|j: int| 0 <= j < rest.len() && rest[j] == p;
                    assert(keys[j] == keys[keys.len() - 1]);
                }
            }
            assert(keys.contains(p)) by {
                assert(keys[keys.len() - 1] == p);
            }
        } else {
            assert(keys.contains(p) == rest.contains(p)) by {
                if keys.contains(p) {
                    let j = choose|j: int| 0 <= j < keys.len() && keys[j] == p;
                    assert(rest[j] == p);
                }
                if rest.contains(p) {
                    let j = choose|j: int| 0 <= j < rest.len() && rest[j] == p;
                    assert(keys[j] == p);
                }
            }
        }
    }
}

/// Conservation under deposits: crediting `amount` to a participant's slot
/// raises the channel total by exactly `amount`.
pub proof fn lemma_deposit_adds_to_channel_total(
    s: CanisterState,
    after: CanisterState,
    params: Params,
    funding: Funding,
    amount: nat,
)
    requires
        params.keys().no_duplicates(),
        funding.channel.0@ == params.id_view(),
        params.keys().contains(funding.participant.0@),
        after.holdings_view() == s.holdings_view().insert(
            funding.key(),
            holding(s.holdings_view(), funding.key()) + amount,
        ),
    ensures
        after.funds_of(&params) == s.funds_of(&params) + amount,
{
    lemma_channel_total_change(
        s.holdings_view(),
        after.holdings_view(),
        params.id_view(),
        params.keys(),
        funding.participant.0@,
    );
}

/// Conservation under withdrawals: paying out a participant's slot lowers
/// the channel total by exactly the amount paid.
pub proof fn lemma_withdraw_takes_from_channel_total(
    s: CanisterState,
    after: CanisterState,
    params: Params,
    req: WithdrawalRequest,
    now: Timestamp,
)
    requires
        params.keys().no_duplicates(),
        req.channel.0@ == params.id_view(),
        params.keys().contains(req.participant.0@),
        s.withdraw_outcome(&req, now) is Ok,
        after.holdings_view() == s.holdings_view().remove(
            funding_key(req.channel.0@, req.participant.0@),
        ),
    ensures
        after.funds_of(&params) + s.withdraw_outcome(&req, now)->Ok_0 == s.funds_of(&params),
{
    lemma_channel_total_change(
        s.holdings_view(),
        after.holdings_view(),
        params.id_view(),
        params.keys(),
        req.participant.0@,
    );
}

/// After setting the first `n` slots to their amounts, with distinct
/// participants, each of those slots holds its amount.
pub proof fn lemma_apply_allocation_holds(
    m: Map<Seq<u8>, nat>,
    channel: Seq<u8>,
    keys: Seq<Seq<u8>>,
    alloc: Seq<nat>,
    n: nat,
    j: int,
)
    requires
        keys.no_duplicates(),
        n <= keys.len(),
        n <= alloc.len(),
        0 <= j < n,
    ensures
        holding(apply_allocation(m, channel, keys, alloc, n), funding_key(channel, keys[j]))
            == alloc[j],
    decreases n,
{
    if j < n - 1 {
        lemma_apply_allocation_holds(m, channel, keys, alloc, (n - 1) as nat, j);
        crate::types::lemma_concat_injective(channel, keys[n - 1], channel, keys[j]);
    }
}

/// Conservation under registration: a registration whose allocation sums
/// to exactly the channel's funds leaves the channel total unchanged, and
/// one the funds do not cover leaves the holdings untouched.
pub proof fn lemma_registration_keeps_channel_total(
    s: CanisterState,
    params: Params,
    fss: FullySignedState,
)
    requires
        fss.fits(&params),
        params.keys().no_duplicates(),
        !s.covers(&params, &fss) || s.funds_of(&params) == fss.state.total_view(),
    ensures
        channel_total(s.registered_holdings(&params, &fss), params.id_view(), params.keys())
            == s.funds_of(&params),
{
    if s.covers(&params, &fss) {
        let keys = params.keys();
        let alloc = fss.state@.allocation;
        let n = params.participants@.len();
        let mm = apply_allocation(s.holdings_view(), params.id_view(), keys, alloc, n);
        assert forall|i: int| 0 <= i <= n implies #[trigger] channel_total(
            mm,
            params.id_view(),
            keys.subrange(0, i),
        ) == sum_nats(alloc.subrange(0, i)) by {
            lemma_total_of_applied(s.holdings_view(), params.id_view(), keys, alloc, i);
        }
        assert(keys.subrange(0, n as int) =~= keys);
        assert(alloc.subrange(0, n as int) =~= alloc);
    }
}

/// Once every participant's slot is set, with distinct participants, the
/// channel total is the sum of the allocation.
pub proof fn lemma_applied_allocation_total(
    m: Map<Seq<u8>, nat>,
    channel: Seq<u8>,
    keys: Seq<Seq<u8>>,
    alloc: Seq<nat>,
)
    requires
        keys.no_duplicates(),
        keys.len() == alloc.len(),
    ensures
        channel_total(apply_allocation(m, channel, keys, alloc, keys.len()), channel, keys)
            == sum_nats(alloc),
{
    lemma_total_of_applied(m, channel, keys, alloc, keys.len() as int);
    assert(keys.subrange(0, keys.len() as int) =~= keys);
    assert(alloc.subrange(0, alloc.len() as int) =~= alloc);
}

/// The first `i` participants' slots, once set, hold the first `i`
/// amounts of the allocation in total.
pub proof fn lemma_total_of_applied(
    m: Map<Seq<u8>, nat>,
    channel: Seq<u8>,
    keys: Seq<Seq<u8>>,
    alloc: Seq<nat>,
    i: int,
)
    requires
        keys.no_duplicates(),
        keys.len() == alloc.len(),
        0 <= i <= keys.len(),
    ensures
        channel_total(
            apply_allocation(m, channel, keys, alloc, keys.len()),
            channel,
            keys.subrange(0, i),
        ) == sum_nats(alloc.subrange(0, i)),
    decreases i,
{
    if i > 0 {
        lemma_total_of_applied(m, channel, keys, alloc, i - 1);
        assert(keys.subrange(0, i).drop_last() =~= keys.subrange(0, i - 1));
        assert(alloc.subrange(0, i).drop_last() =~= alloc.subrange(0, i - 1));
        lemma_apply_allocation_holds(m, channel, keys, alloc, keys.len(), i - 1);
    }
}

} // verus!
