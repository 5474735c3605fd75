use crate::error::ContractError;
use crate::fee_msg::{StakerResponse, StateResponse};
use crate::ve_token::VeToken;
use crate::wide::U256;
use crate::SECONDS_PER_WEEK;
use vstd::prelude::*;

verus! {

/// Claims take at most this many weekly buckets unless told otherwise.
pub const DEFAULT_CLAIM_LIMIT: u32 = 20;

/// Who owns the distributor and which contracts it works with (`None` until registered).
#[derive(Clone, Copy, Debug, PartialEq, Eq, Structural)]
pub struct Config {
    pub owner: u64,
    pub glow_token: Option<u64>,
    pub ve_token: Option<u64>,
    pub terraswap_factory: Option<u64>,
}

/// The distributor's own address and what it has distributed but not yet paid out.
#[derive(Clone, Copy, Debug, PartialEq, Eq, Structural)]
pub struct State {
    pub contract_addr: u64,
    pub total_distributed_unclaimed_fees: u128,
}

/// The last week whose fees `user` has claimed.
#[derive(Clone, Copy, Debug, PartialEq, Eq, Structural)]
pub struct ClaimCursor {
    pub user: u64,
    pub timestamp: u64,
}

/// Sum of a sequence of amounts.
pub open spec fn sum_amounts(s: Seq<u128>) -> int
    decreases s.len(),
{
    if s.len() == 0 {
        0
    } else {
        sum_amounts(s.drop_last()) + s.last()
    }
}

/// Changing one amount changes the sum by the difference.
pub proof fn lemma_sum_update(s: Seq<u128>, i: int, v: u128)
    requires
        0 <= i < s.len(),
    ensures
        sum_amounts(s.update(i, v)) == sum_amounts(s) - s[i] + v,
    decreases s.len(),
{
    let u = s.update(i, v);
    if i == s.len() - 1 {
        assert(u.drop_last() == s.drop_last());
    } else {
        assert(u.drop_last() == s.drop_last().update(i, v));
        lemma_sum_update(s.drop_last(), i, v);
    }
}

pub proof fn lemma_sum_push_zero(s: Seq<u128>)
    ensures
        sum_amounts(s.push(0)) == sum_amounts(s),
{
    assert(s.push(0).drop_last() == s);
}

/// The amount distributed for week number `k` (zero where none was).
pub open spec fn amount_at(weekly: Seq<u128>, k: int) -> int {
    if 0 <= k < weekly.len() {
        weekly[k] as int
    } else {
        0
    }
}

/// Index of the last cursor entry of `user`, or -1.
pub open spec fn cursor_index(cursors: Seq<ClaimCursor>, user: u64) -> int
    decreases cursors.len(),
{
    if cursors.len() == 0 {
        -1
    } else if cursors.last().user == user {
        cursors.len() - 1
    } else {
        cursor_index(cursors.drop_last(), user)
    }
}

pub proof fn lemma_cursor_index_bounds(cursors: Seq<ClaimCursor>, user: u64)
    ensures
        -1 <= cursor_index(cursors, user) < cursors.len(),
        cursor_index(cursors, user) >= 0 ==> cursors[cursor_index(cursors, user)].user == user,
    decreases cursors.len(),
{
    if cursors.len() > 0 && cursors.last().user != user {
        lemma_cursor_index_bounds(cursors.drop_last(), user);
    }
}

/// Tables with the same owners in the same places find every user at the same index.
pub proof fn lemma_cursor_index_same_owners(a: Seq<ClaimCursor>, b: Seq<ClaimCursor>, user: u64)
    requires
        a.len() == b.len(),
        forall|i: int| 0 <= i < a.len() ==> #[trigger] a[i].user == b[i].user,
    ensures
        cursor_index(a, user) == cursor_index(b, user),
    decreases a.len(),
{
    if a.len() > 0 {
        assert(a.last().user == b.last().user);
        let a2 = a.drop_last();
        let b2 = b.drop_last();
        assert forall|i: int| 0 <= i < a2.len() implies #[trigger] a2[i].user == b2[i].user by {
            assert(a[i].user == b[i].user);
        }
        lemma_cursor_index_same_owners(a2, b2, user);
    }
}

/// The last week `user` has claimed, zero where it never claimed.
pub open spec fn cursor_of(cursors: Seq<ClaimCursor>, user: u64) -> u64 {
    let i = cursor_index(cursors, user);
    if i >= 0 {
        cursors[i].timestamp
    } else {
        0
    }
}

/// The total voting balance at `t`, as the voting-power engine reports it; `None` where
/// its query fails.
pub open spec fn total_balance_at(ve: &VeToken, t: int) -> Option<int> {
    match ve.state_response(t) {
        Some(s) => Some(s.total_balance as int),
        None => None,
    }
}

/// `user`'s voting balance at `t`, as the voting-power engine reports it; `None` where
/// its query fails.
pub open spec fn user_balance_at(ve: &VeToken, user: u64, t: int) -> Option<int> {
    match ve.staker_response(user, t) {
        Some(s) => Some(s.balance as int),
        None => None,
    }
}

/// The total voting balance at `timestamp` (`now` where none is given), as the
/// voting-power engine reports it; `Overflow` where its query fails.
pub fn query_total_voting_balance_at_timestamp(ve: &VeToken, timestamp: Option<u64>, now: u64) -> (r: Result<u128, ContractError>)
    ensures
        r == match total_balance_at(ve, match timestamp { Some(t) => t, None => now } as int) {
            Some(b) => Ok::<u128, ContractError>(b as u128),
            None => Err(ContractError::Overflow {  }),
        },
{
    match ve.query_state(timestamp, now) {
        Ok(s) => Ok(s.total_balance),
        Err(_) => Err(ContractError::Overflow {}),
    }
}

/// `address`'s voting balance at `timestamp` (`now` where none is given), as the
/// voting-power engine reports it; `Overflow` where its query fails.
pub fn query_address_voting_balance_at_timestamp(
    ve: &VeToken,
    timestamp: Option<u64>,
    address: u64,
    now: u64,
) -> (r: Result<u128, ContractError>)
    requires
        ve.wf(),
    ensures
        r == match user_balance_at(ve, address, match timestamp { Some(t) => t, None => now } as int) {
            Some(b) => Ok::<u128, ContractError>(b as u128),
            None => Err(ContractError::Overflow {  }),
        },
{
    match ve.query_staker(address, timestamp, now) {
        Ok(s) => Ok(s.balance),
        Err(_) => Err(ContractError::Overflow {}),
    }
}

/// `amount * user_vp / total_vp`, rounded down and computed in full; nothing where the
/// total is zero; `None` where a balance is unknown or the share exceeds a `u128`.
pub open spec fn share_of(amount: int, user_vp: Option<int>, total_vp: Option<int>) -> Option<int> {
    match (user_vp, total_vp) {
        (Some(u), Some(t)) => if t == 0 {
            Some(0)
        } else if amount * u / t > u128::MAX {
            None
        } else {
            Some(amount * u / t)
        },
        _ => None,
    }
}

/// The claim over weeks `k ..= end_k` taking at most `limit` non-empty buckets:
/// `(buckets taken, last week taken or -1, amount owed)`; `None` where a value leaves its range.
pub open spec fn claim_scan(
    weekly: Seq<u128>,
    ve: &VeToken,
    user: u64,
    k: int,
    end_k: int,
    limit: nat,
) -> Option<(nat, int, int)>
    decreases (if k <= end_k { end_k - k + 1 } else { 0 }),
{
    if k > end_k || limit == 0 {
        Some((0, -1, 0))
    } else if amount_at(weekly, k) == 0 {
        claim_scan(weekly, ve, user, k + 1, end_k, limit)
    } else {
        let w = k * SECONDS_PER_WEEK;
        match share_of(amount_at(weekly, k), user_balance_at(ve, user, w), total_balance_at(ve, w)) {
            None => None,
            Some(sh) => match claim_scan(weekly, ve, user, k + 1, end_k, (limit - 1) as nat) {
                None => None,
                Some(rest) => if sh + rest.2 > u128::MAX {
                    None
                } else {
                    Some(((rest.0 + 1) as nat, if rest.0 == 0 { w } else { rest.1 }, sh + rest.2))
                },
            },
        }
    }
}

pub proof fn lemma_claim_scan_facts(
    weekly: Seq<u128>,
    ve: &VeToken,
    user: u64,
    k: int,
    end_k: int,
    limit: nat,
)
    ensures
        claim_scan(weekly, ve, user, k, end_k, limit) matches Some(r) ==> r.2 >= 0 && r.2 <= u128::MAX && r.0 <= limit
            && (r.0 > 0 ==> k * SECONDS_PER_WEEK <= r.1 <= end_k * SECONDS_PER_WEEK && r.1
            % SECONDS_PER_WEEK as int == 0) && (r.0 == 0 ==> r.1 == -1 && r.2 == 0),
    decreases (if k <= end_k { end_k - k + 1 } else { 0 }),
{
    if k > end_k || limit == 0 {
    } else if amount_at(weekly, k) == 0 {
        lemma_claim_scan_facts(weekly, ve, user, k + 1, end_k, limit);
        assert(k * SECONDS_PER_WEEK <= (k + 1) * SECONDS_PER_WEEK) by (nonlinear_arith);
    } else {
        lemma_claim_scan_facts(weekly, ve, user, k + 1, end_k, (limit - 1) as nat);
        let w = k * SECONDS_PER_WEEK;
        assert(k * SECONDS_PER_WEEK <= (k + 1) * SECONDS_PER_WEEK) by (nonlinear_arith);
        assert(w <= end_k * SECONDS_PER_WEEK) by (nonlinear_arith)
            requires
                k <= end_k,
                w == k * SECONDS_PER_WEEK,
        ;
        assert(w % SECONDS_PER_WEEK as int == 0) by (nonlinear_arith)
            requires
                w == k * SECONDS_PER_WEEK,
        ;
        let a = amount_at(weekly, k);
        if let (Some(uv), Some(tv)) = (user_balance_at(ve, user, w), total_balance_at(ve, w)) {
            assert(a * uv >= 0) by (nonlinear_arith)
                requires
                    a >= 0,
                    uv >= 0,
            ;
            if tv > 0 {
                vstd::arithmetic::div_mod::lemma_div_pos_is_pos(a * uv, tv);
            }
        }
    }
}

/// The first week number at or after `t`.
pub open spec fn first_week_from(t: int) -> int {
    (t + SECONDS_PER_WEEK - 1) / SECONDS_PER_WEEK as int
}

/// The outcome of a claim for `user` at `now` starting after `cursor`:
/// `(cursor, new cursor, owed)`, with the weeks from the one after `cursor` to the
/// last completed week, at most `limit` non-empty buckets of them.
pub open spec fn claimable(
    weekly: Seq<u128>,
    ve: &VeToken,
    user: u64,
    cursor: u64,
    now: u64,
    limit: nat,
) -> Option<(u64, u64, int)> {
    let start_k = first_week_from(cursor + SECONDS_PER_WEEK);
    let end_k = now as int / SECONDS_PER_WEEK as int - 1;
    match claim_scan(weekly, ve, user, start_k, end_k, limit) {
        None => None,
        Some(r) => Some((cursor, if r.0 == 0 { cursor } else { r.1 as u64 }, r.2)),
    }
}

/// A claim's running totals `(count, last, owed)` followed by the rest of the scan.
pub open spec fn scan_combine(count: int, last: int, owed: int, rest: Option<(nat, int, int)>) -> Option<(nat, int, int)> {
    match rest {
        None => None,
        Some(r) => if owed + r.2 > u128::MAX {
            None
        } else {
            Some(((count + r.0) as nat, if r.0 == 0 { if count == 0 { -1 } else { last } } else { r.1 }, owed + r.2))
        },
    }
}

/// The fee ledger: amounts distributed per week, what users have claimed up to,
/// and what is distributed but not yet claimed.
pub struct FeeDistributor {
    pub config: Config,
    pub state: State,
    /// `weekly_token_distribution[k]` is the amount distributed for week number `k`.
    pub weekly_token_distribution: Vec<u128>,
    pub user_last_claimed_fee_timestamp: Vec<ClaimCursor>,
    /// Everything ever claimed.
    pub claimed: Ghost<int>,
}

impl FeeDistributor {
    /// Distributed less claimed is what stays unclaimed, and every cursor is a week.
    pub open spec fn wf(&self) -> bool {
        &&& sum_amounts(self.weekly_token_distribution@) - self.claimed@
            == self.state.total_distributed_unclaimed_fees
        &&& forall|i: int|
            0 <= i < self.user_last_claimed_fee_timestamp@.len() ==> (
            #[trigger] self.user_last_claimed_fee_timestamp@[i]).timestamp as int % SECONDS_PER_WEEK as int == 0
    }

    pub open spec fn cursor(&self, user: u64) -> u64 {
        cursor_of(self.user_last_claimed_fee_timestamp@, user)
    }

    /// Rebuilds a distributor from its parts, counting as claimed whatever was
    /// distributed and is no longer unclaimed; `None` where a cursor is not a week.
    pub fn restore(
        config: Config,
        state: State,
        weekly_token_distribution: Vec<u128>,
        user_last_claimed_fee_timestamp: Vec<ClaimCursor>,
    ) -> (r: Option<FeeDistributor>)
        ensures
            r.is_some() == (forall|i: int|
                0 <= i < user_last_claimed_fee_timestamp@.len() ==> (
                #[trigger] user_last_claimed_fee_timestamp@[i]).timestamp as int % SECONDS_PER_WEEK as int == 0),
            r matches Some(f) ==> f.wf() && f.config == config && f.state == state
                && f.weekly_token_distribution@ == weekly_token_distribution@
                && f.user_last_claimed_fee_timestamp@ == user_last_claimed_fee_timestamp@,
    {
        let mut i: usize = 0;
        while i < user_last_claimed_fee_timestamp.len()
            invariant
                i <= user_last_claimed_fee_timestamp@.len(),
                forall|k: int|
                    0 <= k < i ==> (#[trigger] user_last_claimed_fee_timestamp@[k]).timestamp as int
                        % SECONDS_PER_WEEK as int == 0,
            decreases user_last_claimed_fee_timestamp.len() - i,
        {
            if user_last_claimed_fee_timestamp[i].timestamp % SECONDS_PER_WEEK != 0 {
                return None;
            }
            i = i + 1;
        }
        let ghost claimed = sum_amounts(weekly_token_distribution@) - state.total_distributed_unclaimed_fees;
        Some(
            FeeDistributor {
                config,
                state,
                weekly_token_distribution,
                user_last_claimed_fee_timestamp,
                claimed: Ghost(claimed),
            },
        )
    }

    pub fn instantiate(owner: u64, contract_addr: u64) -> (r: FeeDistributor)
        ensures
            r.wf(),
            r.config == (Config { owner, glow_token: None, ve_token: None, terraswap_factory: None }),
            r.state.contract_addr == contract_addr,
            r.state.total_distributed_unclaimed_fees == 0,
            r.weekly_token_distribution@.len() == 0,
            r.user_last_claimed_fee_timestamp@.len() == 0,
    {
        FeeDistributor {
            config: Config { owner, glow_token: None, ve_token: None, terraswap_factory: None },
            state: State { contract_addr, total_distributed_unclaimed_fees: 0 },
            weekly_token_distribution: Vec::new(),
            user_last_claimed_fee_timestamp: Vec::new(),
            claimed: Ghost(0),
        }
    }

    /// Registers the reward token, the voting-power engine and the exchange factory, once.
    pub fn register_contracts(
        &mut self,
        glow_token: u64,
        ve_token: u64,
        terraswap_factory: u64,
    ) -> (r: Result<(), ContractError>)
        ensures
            old(self).config.glow_token.is_some() <==> r == Err::<(), ContractError>(ContractError::Unauthorized {  }),
            r.is_ok() <==> old(self).config.glow_token.is_none(),
            r.is_err() ==> *final(self) == *old(self),
            r.is_ok() ==> final(self).config == (Config {
                owner: old(self).config.owner,
                glow_token: Some(glow_token),
                ve_token: Some(ve_token),
                terraswap_factory: Some(terraswap_factory),
            }),
            r.is_ok() ==> final(self).state.total_distributed_unclaimed_fees == old(self).state.total_distributed_unclaimed_fees,
            r.is_ok() ==> final(self).weekly_token_distribution == old(self).weekly_token_distribution,
            r.is_ok() ==> final(self).user_last_claimed_fee_timestamp == old(self).user_last_claimed_fee_timestamp,
            r.is_ok() ==> final(self).claimed == old(self).claimed,
            r.is_ok() ==> final(self).state.contract_addr == old(self).state.contract_addr,
    {
        if self.config.glow_token.is_some() {
            return Err(ContractError::Unauthorized {});
        }
        self.config.glow_token = Some(glow_token);
        self.config.ve_token = Some(ve_token);
        self.config.terraswap_factory = Some(terraswap_factory);
        Ok(())
    }

    /// Hands ownership to `owner` where given; only the owner may call.
    pub fn update_config(&mut self, sender: u64, owner: Option<u64>) -> (r: Result<(), ContractError>)
        ensures
            sender != old(self).config.owner <==> r == Err::<(), ContractError>(ContractError::Unauthorized {  }),
            r.is_ok() <==> sender == old(self).config.owner,
            r.is_err() ==> *final(self) == *old(self),
            r.is_ok() ==> final(self).config.owner == match owner { Some(o) => o, None => old(self).config.owner },
            r.is_ok() ==> final(self).config.glow_token == old(self).config.glow_token,
            r.is_ok() ==> final(self).config.ve_token == old(self).config.ve_token,
            r.is_ok() ==> final(self).config.terraswap_factory == old(self).config.terraswap_factory,
            r.is_ok() ==> final(self).state.total_distributed_unclaimed_fees == old(self).state.total_distributed_unclaimed_fees,
            r.is_ok() ==> final(self).weekly_token_distribution == old(self).weekly_token_distribution,
            r.is_ok() ==> final(self).user_last_claimed_fee_timestamp == old(self).user_last_claimed_fee_timestamp,
            r.is_ok() ==> final(self).claimed == old(self).claimed,
            r.is_ok() ==> final(self).state.contract_addr == old(self).state.contract_addr,
    {
        if self.config.owner != sender {
            return Err(ContractError::Unauthorized {});
        }
        if let Some(o) = owner {
            self.config.owner = o;
        }
        Ok(())
    }

    pub fn query_state(&self) -> (r: StateResponse)
        ensures
            r == (StateResponse {
                contract_addr: self.state.contract_addr,
                total_distributed_unclaimed_fees: self.state.total_distributed_unclaimed_fees,
            }),
    {
        StateResponse {
            contract_addr: self.state.contract_addr,
            total_distributed_unclaimed_fees: self.state.total_distributed_unclaimed_fees,
        }
    }

    /// Index of `user`'s cursor entry.
    fn find_cursor(&self, user: u64) -> (r: Option<usize>)
        ensures
            match r {
                Some(i) => i as int == cursor_index(self.user_last_claimed_fee_timestamp@, user)
                    && i < self.user_last_claimed_fee_timestamp@.len(),
                None => cursor_index(self.user_last_claimed_fee_timestamp@, user) == -1,
            },
    {
        let mut i: usize = self.user_last_claimed_fee_timestamp.len();
        assert(self.user_last_claimed_fee_timestamp@.subrange(
            0,
            self.user_last_claimed_fee_timestamp@.len() as int,
        ) == self.user_last_claimed_fee_timestamp@);
        while i > 0
            invariant
                i <= self.user_last_claimed_fee_timestamp@.len(),
                cursor_index(self.user_last_claimed_fee_timestamp@, user) == cursor_index(
                    self.user_last_claimed_fee_timestamp@.subrange(0, i as int),
                    user,
                ),
            decreases i,
        {
            let ghost prefix = self.user_last_claimed_fee_timestamp@.subrange(0, i as int);
            assert(prefix.drop_last() == self.user_last_claimed_fee_timestamp@.subrange(0, i - 1));
            if self.user_last_claimed_fee_timestamp[i - 1].user == user {
                return Some(i - 1);
            }
            i = i - 1;
        }
        None
    }

    /// The last week `user` has claimed, zero where it never claimed.
    pub fn last_claimed_fee_timestamp(&self, user: u64) -> (r: u64)
        requires
            self.wf(),
        ensures
            r == self.cursor(user),
            r as int % SECONDS_PER_WEEK as int == 0,
    {
        proof {
            lemma_cursor_index_bounds(self.user_last_claimed_fee_timestamp@, user);
        }
        match self.find_cursor(user) {
            Some(i) => self.user_last_claimed_fee_timestamp[i].timestamp,
            None => 0,
        }
    }

    /// What a claim by `user` at `now` would settle, without settling it: the cursor it
    /// starts after (`start_after`, else the user's own), the cursor it leaves, and the
    /// amount owed over at most `limit` (default 20) non-empty weekly buckets, from the
    /// week after the cursor through the last completed week. Each bucket pays
    /// `amount * user_vp / total_vp` at its week, from the voting-power engine `ve`,
    /// with the product kept in full; `Overflow` where a balance cannot be evaluated or
    /// the amount owed exceeds a `u128`.
    pub fn compute_claimable(
        &self,
        ve: &VeToken,
        user: u64,
        now: u64,
        limit: Option<u32>,
        start_after: Option<u64>,
    ) -> (r: Result<(u64, u64, u128), ContractError>)
        requires
            self.wf(),
            ve.wf(),
        ensures
            r == (match claimable(
                self.weekly_token_distribution@,
                ve,
                user,
                match start_after { Some(t) => t, None => self.cursor(user) },
                now,
                match limit { Some(l) => l, None => DEFAULT_CLAIM_LIMIT } as nat,
            ) {
                None => Err(ContractError::Overflow {  }),
                Some(c) => Ok::<(u64, u64, u128), ContractError>((c.0, c.1, c.2 as u128)),
            }),
    {
        let initial: u64 = match start_after {
            Some(t) => t,
            None => self.last_claimed_fee_timestamp(user),
        };
        let max_buckets: u64 = match limit {
            Some(l) => l as u64,
            None => DEFAULT_CLAIM_LIMIT as u64,
        };
        let ghost weekly = self.weekly_token_distribution@;
        let ghost start_k = first_week_from(initial + SECONDS_PER_WEEK);
        let ghost end_k = now as int / SECONDS_PER_WEEK as int - 1;
        let end_excl: u64 = now / SECONDS_PER_WEEK;
        if initial > u64::MAX - SECONDS_PER_WEEK {
            proof {
                assert(start_k > end_k) by (nonlinear_arith)
                    requires
                        start_k == (initial + SECONDS_PER_WEEK + SECONDS_PER_WEEK - 1) / SECONDS_PER_WEEK as int,
                        end_k == now as int / SECONDS_PER_WEEK as int - 1,
                        initial + SECONDS_PER_WEEK > u64::MAX,
                        now <= u64::MAX,
                ;
            }
            return Ok((initial, initial, 0));
        }
        let start: u64 = initial + SECONDS_PER_WEEK;
        let mut k: u64 = start / SECONDS_PER_WEEK;
        if start % SECONDS_PER_WEEK != 0 {
            k = k + 1;
        }
        proof {
            let q = start as int / SECONDS_PER_WEEK as int;
            let rm = start as int % SECONDS_PER_WEEK as int;
            vstd::arithmetic::div_mod::lemma_fundamental_div_mod(start as int, SECONDS_PER_WEEK as int);
            if rm == 0 {
                vstd::arithmetic::div_mod::lemma_fundamental_div_mod_converse(
                    start + SECONDS_PER_WEEK - 1,
                    SECONDS_PER_WEEK as int,
                    q,
                    SECONDS_PER_WEEK - 1,
                );
            } else {
                vstd::arithmetic::div_mod::lemma_fundamental_div_mod_converse(
                    start + SECONDS_PER_WEEK - 1,
                    SECONDS_PER_WEEK as int,
                    q + 1,
                    rm - 1,
                );
            }
            assert(k as int == start_k);
        }
        proof {
            lemma_claim_scan_facts(weekly, ve, user, start_k, end_k, max_buckets as nat);
        }
        let mut remaining: u64 = max_buckets;
        let mut owed: u128 = 0;
        let mut count: u64 = 0;
        let mut last: u64 = initial;
        while k < end_excl && remaining > 0
            invariant
                weekly == self.weekly_token_distribution@,
                start_k == first_week_from(initial + SECONDS_PER_WEEK),
                end_k == now as int / SECONDS_PER_WEEK as int - 1,
                initial == match start_after { Some(t) => t, None => self.cursor(user) },
                max_buckets as nat == match limit { Some(l) => l, None => DEFAULT_CLAIM_LIMIT } as nat,
                self.wf(),
                ve.wf(),
                end_excl as int == end_k + 1,
                end_excl == now / SECONDS_PER_WEEK,
                count <= max_buckets,
                count + remaining == max_buckets,
                count == 0 ==> last == initial,
                claim_scan(weekly, ve, user, start_k, end_k, max_buckets as nat) == scan_combine(
                    count as int,
                    last as int,
                    owed as int,
                    claim_scan(weekly, ve, user, k as int, end_k, remaining as nat),
                ),
            decreases end_excl - k,
        {
            let amount: u128 = if k < self.weekly_token_distribution.len() as u64 {
                self.weekly_token_distribution[k as usize]
            } else {
                0
            };
            assert(amount as int == amount_at(weekly, k as int));
            proof {
                lemma_claim_scan_facts(weekly, ve, user, k + 1, end_k, (remaining - 1) as nat);
                lemma_claim_scan_facts(weekly, ve, user, k + 1, end_k, remaining as nat);
            }
            if amount != 0 {
                assert(k * SECONDS_PER_WEEK <= now) by (nonlinear_arith)
                    requires
                        k < end_excl,
                        end_excl == now / SECONDS_PER_WEEK,
                ;
                let w: u64 = k * SECONDS_PER_WEEK;
                let total_vp = match query_total_voting_balance_at_timestamp(ve, Some(w), now) {
                    Ok(x) => x,
                    Err(_) => {
                        assert(claim_scan(weekly, ve, user, k as int, end_k, remaining as nat).is_none());
                        assert(claim_scan(weekly, ve, user, start_k, end_k, max_buckets as nat).is_none());
                        return Err(ContractError::Overflow {});
                    },
                };
                let user_vp = match query_address_voting_balance_at_timestamp(ve, Some(w), user, now) {
                    Ok(x) => x,
                    Err(_) => {
                        assert(claim_scan(weekly, ve, user, k as int, end_k, remaining as nat).is_none());
                        assert(claim_scan(weekly, ve, user, start_k, end_k, max_buckets as nat).is_none());
                        return Err(ContractError::Overflow {});
                    },
                };
                assert(total_balance_at(ve, w as int) == Some(total_vp as int));
                assert(user_balance_at(ve, user, w as int) == Some(user_vp as int));
                let share: u128 = if total_vp == 0 {
                    0
                } else {
                    match U256::mul_wide(amount, user_vp).div_u128(total_vp) {
                        Some(x) => x,
                        None => {
                            assert(share_of(amount as int, Some(user_vp as int), Some(total_vp as int)).is_none());
                            assert(claim_scan(weekly, ve, user, k as int, end_k, remaining as nat).is_none());
                            assert(claim_scan(weekly, ve, user, start_k, end_k, max_buckets as nat).is_none());
                            return Err(ContractError::Overflow {});
                        },
                    }
                };
                assert(share_of(amount as int, Some(user_vp as int), Some(total_vp as int)) == Some(share as int));
                owed = match owed.checked_add(share) {
                    Some(x) => x,
                    None => {
                        assert(claim_scan(weekly, ve, user, k as int, end_k, remaining as nat) == match claim_scan(
                            weekly, ve, user, k + 1, end_k, (remaining - 1) as nat) {
                            None => None,
                            Some(rest) => if share + rest.2 > u128::MAX {
                                None
                            } else {
                                Some(((rest.0 + 1) as nat, if rest.0 == 0 { w as int } else { rest.1 }, share + rest.2))
                            },
                        });
                        assert(claim_scan(weekly, ve, user, start_k, end_k, max_buckets as nat).is_none());
                        return Err(ContractError::Overflow {});
                    },
                };
                last = w;
                count = count + 1;
                remaining = remaining - 1;
            }
            k = k + 1;
        }
        Ok((initial, last, owed))
    }

    /// Settles `user`'s claim at `now` over at most `limit` buckets: moves the cursor,
    /// takes the owed amount off the unclaimed total, and returns it for transfer.
    pub fn claim(&mut self, ve: &VeToken, user: u64, now: u64, limit: Option<u32>) -> (r: Result<
        u128,
        ContractError,
    >)
        requires
            old(self).wf(),
            ve.wf(),
        ensures
            final(self).wf(),
            r.is_err() ==> *final(self) == *old(self),
            r == (match claimable(
                old(self).weekly_token_distribution@,
                ve,
                user,
                old(self).cursor(user),
                now,
                match limit { Some(l) => l, None => DEFAULT_CLAIM_LIMIT } as nat,
            ) {
                None => Err(ContractError::Overflow {  }),
                Some(c) => if c.2 > old(self).state.total_distributed_unclaimed_fees {
                    Err(ContractError::Overflow {  })
                } else {
                    Ok::<u128, ContractError>(c.2 as u128)
                },
            }),
            r.is_ok() ==> final(self).cursor(user) == claimable(
                old(self).weekly_token_distribution@,
                ve,
                user,
                old(self).cursor(user),
                now,
                match limit { Some(l) => l, None => DEFAULT_CLAIM_LIMIT } as nat,
            ).unwrap().1,
            r.is_ok() ==> final(self).cursor(user) >= old(self).cursor(user),
            r.is_ok() ==> forall|u: u64| u != user ==> final(self).cursor(u) == old(self).cursor(u),
            r.is_ok() ==> final(self).state.total_distributed_unclaimed_fees == old(self).state.total_distributed_unclaimed_fees - r.unwrap(),
            r.is_ok() ==> final(self).claimed@ == old(self).claimed@ + r.unwrap(),
            r.is_ok() ==> final(self).weekly_token_distribution == old(self).weekly_token_distribution,
            r.is_ok() ==> final(self).config == old(self).config,
            r.is_ok() ==> final(self).state.contract_addr == old(self).state.contract_addr,
    {
        let ghost cursor = self.cursor(user);
        let ghost lim = match limit { Some(l) => l, None => DEFAULT_CLAIM_LIMIT } as nat;
        let (initial, last, owed) = match self.compute_claimable(ve, user, now, limit, None) {
            Ok(c) => c,
            Err(e) => return Err(e),
        };
        proof {
            lemma_claim_scan_facts(
                self.weekly_token_distribution@,
                ve,
                user,
                first_week_from(cursor + SECONDS_PER_WEEK),
                now as int / SECONDS_PER_WEEK as int - 1,
                lim,
            );
        }
        let total = match self.state.total_distributed_unclaimed_fees.checked_sub(owed) {
            Some(x) => x,
            None => return Err(ContractError::Overflow {}),
        };
        proof {
            let start_k = first_week_from(cursor + SECONDS_PER_WEEK);
            let end_k = now as int / SECONDS_PER_WEEK as int - 1;
            lemma_claim_scan_facts(self.weekly_token_distribution@, ve, user, start_k, end_k, lim);
            lemma_cursor_index_bounds(self.user_last_claimed_fee_timestamp@, user);
            let i = cursor_index(self.user_last_claimed_fee_timestamp@, user);
            if i >= 0 {
                assert(self.user_last_claimed_fee_timestamp@[i].timestamp as int % SECONDS_PER_WEEK as int == 0);
            }
            let t = cursor + SECONDS_PER_WEEK;
            vstd::arithmetic::div_mod::lemma_fundamental_div_mod(t + SECONDS_PER_WEEK - 1, SECONDS_PER_WEEK as int);
            assert(start_k * SECONDS_PER_WEEK >= t) by (nonlinear_arith)
                requires
                    start_k == (t + SECONDS_PER_WEEK - 1) / SECONDS_PER_WEEK as int,
                    t + SECONDS_PER_WEEK - 1 == SECONDS_PER_WEEK * start_k + (t + SECONDS_PER_WEEK - 1) % SECONDS_PER_WEEK as int,
                    (t + SECONDS_PER_WEEK - 1) % (SECONDS_PER_WEEK as int) < SECONDS_PER_WEEK,
            ;
        }
        let ghost cursors_before = self.user_last_claimed_fee_timestamp@;
        proof {
            lemma_cursor_index_bounds(cursors_before, user);
        }
        match self.find_cursor(user) {
            Some(i) => {
                self.user_last_claimed_fee_timestamp.set(i, ClaimCursor { user, timestamp: last });
                proof {
                    lemma_cursor_index_same_owners(self.user_last_claimed_fee_timestamp@, cursors_before, user);
                    assert forall|u: u64| u != user implies cursor_of(self.user_last_claimed_fee_timestamp@, u)
                        == cursor_of(cursors_before, u) by {
                        lemma_cursor_index_same_owners(self.user_last_claimed_fee_timestamp@, cursors_before, u);
                        lemma_cursor_index_bounds(cursors_before, u);
                    }
                }
            },
            None => {
                self.user_last_claimed_fee_timestamp.push(ClaimCursor { user, timestamp: last });
                proof {
                    assert(self.user_last_claimed_fee_timestamp@.drop_last() == cursors_before);
                    assert forall|u: u64| u != user implies cursor_of(self.user_last_claimed_fee_timestamp@, u)
                        == cursor_of(cursors_before, u) by {
                        lemma_cursor_index_bounds(cursors_before, u);
                    }
                }
            },
        }
        self.state.total_distributed_unclaimed_fees = total;
        self.claimed = Ghost(self.claimed@ + owed);
        proof {
            assert forall|i: int| 0 <= i < self.user_last_claimed_fee_timestamp@.len() implies (
            #[trigger] self.user_last_claimed_fee_timestamp@[i]).timestamp as int % SECONDS_PER_WEEK as int == 0 by {
                if i < cursors_before.len() && self.user_last_claimed_fee_timestamp@[i] == cursors_before[i] {
                    assert(cursors_before[i].timestamp as int % SECONDS_PER_WEEK as int == 0);
                }
            }
        }
        Ok(owed)
    }

    /// Grows the weekly table with empty weeks until it has an entry for week `k`.
    fn reserve_distribution_week(&mut self, k: u64)
        ensures
            final(self).weekly_token_distribution@.len() > k,
            forall|j: int| amount_at(final(self).weekly_token_distribution@, j) == amount_at(old(self).weekly_token_distribution@, j),
            sum_amounts(final(self).weekly_token_distribution@) == sum_amounts(old(self).weekly_token_distribution@),
            final(self).config == old(self).config,
            final(self).state.contract_addr == old(self).state.contract_addr,
            final(self).state.total_distributed_unclaimed_fees == old(self).state.total_distributed_unclaimed_fees,
            final(self).user_last_claimed_fee_timestamp == old(self).user_last_claimed_fee_timestamp,
            final(self).claimed == old(self).claimed,
    {
        while (self.weekly_token_distribution.len() as u64) <= k
            invariant
                forall|j: int| amount_at(self.weekly_token_distribution@, j) == amount_at(old(self).weekly_token_distribution@, j),
                sum_amounts(self.weekly_token_distribution@) == sum_amounts(old(self).weekly_token_distribution@),
                self.config == old(self).config,
                self.state.contract_addr == old(self).state.contract_addr,
                self.state.total_distributed_unclaimed_fees == old(self).state.total_distributed_unclaimed_fees,
                self.user_last_claimed_fee_timestamp == old(self).user_last_claimed_fee_timestamp,
                self.claimed == old(self).claimed,
            decreases k + 1 - self.weekly_token_distribution@.len(),
        {
            let ghost before = self.weekly_token_distribution@;
            self.weekly_token_distribution.push(0);
            proof {
                lemma_sum_push_zero(before);
                assert forall|j: int| amount_at(self.weekly_token_distribution@, j) == amount_at(before, j) by {
                    if 0 <= j < before.len() {
                        assert(self.weekly_token_distribution@[j] == before[j]);
                    }
                }
            }
        }
    }

    /// Attributes the newly arrived reward-token balance to the current week.
    /// `token_balance` is the distributor's balance of the reward token; the total
    /// voting balance comes from `ve` at the current week boundary.
    pub fn distribute_glow(&mut self, ve: &VeToken, token_balance: u128, now: u64) -> (r: Result<
        u128,
        ContractError,
    >)
        requires
            old(self).wf(),
            ve.wf(),
        ensures
            final(self).wf(),
            r.is_err() ==> *final(self) == *old(self),
            ({
                let week = now as int / SECONDS_PER_WEEK as int;
                let tv = total_balance_at(ve, week * SECONDS_PER_WEEK);
                let unclaimed = old(self).state.total_distributed_unclaimed_fees;
                &&& tv.is_none() ==> r == Err::<u128, ContractError>(ContractError::Overflow {  })
                &&& tv == Some(0int) ==> r == Err::<u128, ContractError>(ContractError::NothingStaked {  })
                &&& tv != Some(0int) && token_balance < unclaimed ==> r == Err::<u128, ContractError>(ContractError::Overflow {  })
                &&& tv.is_some() && tv != Some(0int) && token_balance == unclaimed ==> r == Err::<u128, ContractError>(ContractError::NothingToDistribute {  })
                &&& tv.is_some() && tv != Some(0int) && token_balance > unclaimed ==> (r.is_ok() <==> amount_at(
                    old(self).weekly_token_distribution@, week) + token_balance - unclaimed <= u128::MAX)
                &&& tv != Some(0int) && token_balance > unclaimed && r.is_err() ==> r == Err::<u128, ContractError>(ContractError::Overflow {  })
                &&& r.is_ok() ==> r.unwrap() == token_balance - unclaimed
                &&& r.is_ok() ==> forall|j: int| amount_at(final(self).weekly_token_distribution@, j) == amount_at(
                    old(self).weekly_token_distribution@, j) + if j == week { r.unwrap() as int } else { 0 }
                &&& r.is_ok() ==> final(self).state.total_distributed_unclaimed_fees == token_balance
            }),
            r.is_ok() ==> final(self).user_last_claimed_fee_timestamp == old(self).user_last_claimed_fee_timestamp,
            r.is_ok() ==> final(self).claimed == old(self).claimed,
            r.is_ok() ==> final(self).config == old(self).config,
            r.is_ok() ==> final(self).state.contract_addr == old(self).state.contract_addr,
    {
        let week: u64 = now / SECONDS_PER_WEEK;
        let week_timestamp: u64 = week * SECONDS_PER_WEEK;
        let total_voting_balance = match query_total_voting_balance_at_timestamp(ve, Some(week_timestamp), now) {
            Ok(x) => x,
            Err(e) => return Err(e),
        };
        if total_voting_balance == 0 {
            return Err(ContractError::NothingStaked {});
        }
        let amount_to_distribute = match token_balance.checked_sub(self.state.total_distributed_unclaimed_fees) {
            Some(x) => x,
            None => return Err(ContractError::Overflow {}),
        };
        if amount_to_distribute == 0 {
            return Err(ContractError::NothingToDistribute {});
        }
        let current: u128 = if week < self.weekly_token_distribution.len() as u64 {
            self.weekly_token_distribution[week as usize]
        } else {
            0
        };
        let updated = match current.checked_add(amount_to_distribute) {
            Some(x) => x,
            None => return Err(ContractError::Overflow {}),
        };
        self.reserve_distribution_week(week);
        let ghost before = self.weekly_token_distribution@;
        let n_weeks: usize = self.weekly_token_distribution.len();
        assert(week < n_weeks);
        assert(week as usize as int == week as int);
        assert(before[week as int] == current) by {
            assert(amount_at(before, week as int) == current as int);
        }
        self.weekly_token_distribution.set(week as usize, updated);
        proof {
            lemma_sum_update(before, week as int, updated);
            assert forall|j: int| amount_at(self.weekly_token_distribution@, j) == amount_at(before, j)
                + if j == week { amount_to_distribute as int } else { 0 } by {
                if 0 <= j < before.len() && j != week {
                    assert(self.weekly_token_distribution@[j] == before[j]);
                }
            }
        }
        self.state.total_distributed_unclaimed_fees = token_balance;
        Ok(amount_to_distribute)
    }

    /// `address`'s standing at `now`: its voting balance now (`Overflow` where the
    /// engine cannot evaluate it) and what a claim of at most `fee_limit` buckets after `fee_start_after`
    /// (else the user's cursor) would settle.
    pub fn query_staker(
        &self,
        ve: &VeToken,
        address: u64,
        now: u64,
        fee_limit: Option<u32>,
        fee_start_after: Option<u64>,
    ) -> (r: Result<StakerResponse, ContractError>)
        requires
            self.wf(),
            ve.wf(),
        ensures
            r == (match claimable(
                self.weekly_token_distribution@,
                ve,
                address,
                match fee_start_after { Some(t) => t, None => self.cursor(address) },
                now,
                match fee_limit { Some(l) => l, None => DEFAULT_CLAIM_LIMIT } as nat,
            ) {
                None => Err(ContractError::Overflow {  }),
                Some(c) => match user_balance_at(ve, address, now as int) {
                    None => Err(ContractError::Overflow {  }),
                    Some(b) => Ok::<StakerResponse, ContractError>(StakerResponse {
                        balance: b as u128,
                        initial_last_claimed_fee_timestamp: c.0,
                        last_claimed_fee_timestamp: c.1,
                        claimable_fees_lower_bound: c.2 as u128,
                    }),
                },
            }),
    {
        let (initial, last, amount) = match self.compute_claimable(ve, address, now, fee_limit, fee_start_after) {
            Ok(c) => c,
            Err(e) => return Err(e),
        };
        let balance = match query_address_voting_balance_at_timestamp(ve, None, address, now) {
            Ok(x) => x,
            Err(e) => return Err(e),
        };
        Ok(StakerResponse {
            balance,
            initial_last_claimed_fee_timestamp: initial,
            last_claimed_fee_timestamp: last,
            claimable_fees_lower_bound: amount,
        })
    }
}

} // verus!
