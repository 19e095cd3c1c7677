//! How much memory each app may use, and how much the account's apps may use
//! together.
//!
//! The per-app maxima deliberately add up to more than the account's slice
//! allows. That overcommit is what makes usage elastic: one app alone reaches
//! most of the pool, and the kernel reclaims from whoever overran once others
//! compete.

use vstd::prelude::*;

verus! {

/// Smallest guarantee an app gets. Node needs roughly 30–50 MB just to start,
/// so anything below this produces an app that cannot run.
pub const FLOOR: u64 = 48 * 1024 * 1024;

/// Gap between `MemoryHigh` and `MemoryMax`, so throttling has room to act
/// before the OOM killer does.
pub const HEADROOM: u64 = 16 * 1024 * 1024;

/// Share of the pool a single app may reach, in parts of a hundred. The
/// remainder is slack for another app to start into.
pub const ELASTIC_PERCENT: u64 = 80;

/// The memory properties applied to one app's systemd scope.
#[derive(Debug, Clone, Copy, PartialEq, Eq, Structural)]
pub struct AppLimits {
    /// `MemoryMin`: protected from reclaim.
    pub min: u64,
    /// `MemoryHigh`: throttle point.
    pub high: u64,
    /// `MemoryMax`: hard ceiling.
    pub max: u64,
}

pub open spec fn least(a: int, b: int) -> int {
    if a <= b {
        a
    } else {
        b
    }
}

pub open spec fn most(a: int, b: int) -> int {
    if a <= b {
        b
    } else {
        a
    }
}

/// What a single app may reach of the pool.
pub open spec fn elastic(pool: int) -> int {
    pool * ELASTIC_PERCENT / 100
}

/// An equal share of the pool.
pub open spec fn fair_share(pool: int, running: int) -> int {
    pool / most(running, 1)
}

/// What an app without a pin is guaranteed: its fair share, but no less than a
/// process needs to boot and no more than it may reach.
pub open spec fn guarantee(pool: int, running: int) -> int {
    let low = least(FLOOR as int, pool);
    least(most(fair_share(pool, running), low), most(elastic(pool), low))
}

/// The ceiling of an app: what it may reach, and what it is guaranteed in any
/// case, narrowed by the pin where there is one.
pub open spec fn ceiling(pool: int, running: int, pinned: Option<u64>) -> int {
    let open = most(elastic(pool), guarantee(pool, running));
    match pinned {
        Some(cap) => least(open, cap as int),
        None => open,
    }
}

/// The throttle point below a ceiling.
pub open spec fn throttle(max: int, min: int) -> int {
    most(most(max - HEADROOM, 0), min)
}

/// The limits of an app in a pool shared by `running` apps.
pub open spec fn limits_are(
    l: AppLimits,
    pool: int,
    running: int,
    pinned: Option<u64>,
) -> bool {
    &&& l.max == ceiling(pool, running, pinned)
    &&& l.min == least(guarantee(pool, running), l.max as int)
    &&& l.high == throttle(l.max as int, l.min as int)
}

/// The limits of an app in a pool shared by `running` apps, for pools of a size
/// that [`app_limits`] takes.
pub open spec fn limits_of(pool: int, running: int, pinned: Option<u64>) -> AppLimits {
    let max = ceiling(pool, running, pinned);
    let min = least(guarantee(pool, running), max);
    AppLimits { min: min as u64, high: throttle(max, min) as u64, max: max as u64 }
}

/// Ceiling for all of an account's apps together: the whole DirectAdmin
/// allowance, which is already the agreed limit for the account.
pub fn slice_cap(account_limit: u64) -> (r: u64)
    ensures
        r == account_limit,
{
    account_limit
}

pub open spec fn slice_unit(username: Seq<char>) -> Seq<char> {
    "selynt-"@ + username + ".slice"@
}

/// systemd unit name of the account's slice.
pub fn slice_unit_name(username: &str) -> (r: String)
    ensures
        r@ == slice_unit(username@),
{
    let mut out = "selynt-".to_string();
    out.append(username);
    out.append(".slice");
    out
}

/// Two accounts never share a slice.
pub proof fn law_slices_are_apart(a: Seq<char>, b: Seq<char>)
    requires
        slice_unit(a) == slice_unit(b),
    ensures
        a == b,
{
    let head = "selynt-"@.len() as int;
    assert(slice_unit(a).len() == head + a.len() + ".slice"@.len());
    assert(slice_unit(b).len() == head + b.len() + ".slice"@.len());
    assert(slice_unit(a).subrange(head, head + a.len()) =~= a);
    assert(slice_unit(b).subrange(head, head + b.len()) =~= b);
}

pub open spec fn slice_dir(username: Seq<char>) -> Seq<char> {
    "/sys/fs/cgroup/selynt.slice/"@ + slice_unit(username)
}

/// cgroup path of the account's slice.
pub fn slice_cgroup(username: &str) -> (r: String)
    ensures
        r@ == slice_dir(username@),
{
    let mut out = "/sys/fs/cgroup/selynt.slice/".to_string();
    out.append(&slice_unit_name(username));
    out
}

/// Resolves one app's limits.
///
/// `pool` is [`slice_cap`], `running` counts the apps sharing it (including
/// this one), and `pinned` is the ceiling the user chose, if any.
pub fn app_limits(pool: u64, running: usize, pinned: Option<u64>) -> (r: AppLimits)
    requires
        pool * ELASTIC_PERCENT <= u64::MAX,
    ensures
        limits_are(r, pool as int, running as int, pinned),
        r == limits_of(pool as int, running as int, pinned),
        r.min <= r.high <= r.max,
{
    let sharing: u64 = if running < 1 {
        1
    } else {
        running as u64
    };
    let fair: u64 = pool / sharing;
    let reach: u64 = pool * ELASTIC_PERCENT / 100;
    let low: u64 = if FLOOR <= pool {
        FLOOR
    } else {
        pool
    };
    let top: u64 = if reach <= low {
        low
    } else {
        reach
    };
    let mut min: u64 = if fair <= low {
        low
    } else {
        fair
    };
    if min > top {
        min = top;
    }
    let mut max: u64 = if reach <= min {
        min
    } else {
        reach
    };
    if let Some(cap) = pinned {
        if cap < max {
            max = cap;
        }
        if max < min {
            min = max;
        }
    }
    let below: u64 = max.saturating_sub(HEADROOM);
    let high: u64 = if below <= min {
        min
    } else {
        below
    };
    AppLimits { min, high, max }
}

/// A pin only ever narrows what an app may take.
pub proof fn law_pin_only_narrows(pool: u64, running: usize, cap: u64, open: AppLimits, pinned: AppLimits)
    requires
        limits_are(open, pool as int, running as int, None),
        limits_are(pinned, pool as int, running as int, Some(cap)),
    ensures
        pinned.max <= open.max,
        pinned.max <= cap,
        pinned.max == open.max || pinned.max == cap,
        pinned.min <= open.min,
{
}

/// No app may take more than the account has.
pub proof fn law_no_app_exceeds_the_pool(pool: u64, running: usize, pinned: Option<u64>, l: AppLimits)
    requires
        limits_are(l, pool as int, running as int, pinned),
    ensures
        l.max <= pool,
{
    lemma_shares(pool as int, running as int);
}

/// An app without a pin is guaranteed enough to boot, as far as the account has
/// that much.
pub proof fn law_guarantee_is_enough_to_boot(pool: u64, running: usize, l: AppLimits)
    requires
        limits_are(l, pool as int, running as int, None),
    ensures
        l.min >= least(FLOOR as int, pool as int),
{
    lemma_shares(pool as int, running as int);
}

/// A lone app with an account that is not tiny can reach its elastic share, and
/// leaves the rest for a second app to start into.
pub proof fn law_elastic_share_is_reached(pool: u64, running: usize, l: AppLimits)
    requires
        limits_are(l, pool as int, running as int, None),
        elastic(pool as int) >= FLOOR,
    ensures
        l.max == elastic(pool as int),
{
    lemma_shares(pool as int, running as int);
}

/// More apps to share with never raise what one of them is guaranteed.
pub proof fn law_guarantee_shrinks_with_company(
    pool: u64,
    few: usize,
    many: usize,
    a: AppLimits,
    b: AppLimits,
)
    requires
        few <= many,
        limits_are(a, pool as int, few as int, None),
        limits_are(b, pool as int, many as int, None),
    ensures
        b.min <= a.min,
{
    lemma_shares(pool as int, few as int);
    lemma_shares(pool as int, many as int);
    let (p, x, y) = (pool as int, most(few as int, 1), most(many as int, 1));
    assert(p / y <= p / x) by (nonlinear_arith)
        requires
            0 <= p,
            1 <= x <= y,
    ;
}

proof fn lemma_shares(pool: int, running: int)
    requires
        0 <= pool,
    ensures
        0 <= fair_share(pool, running) <= pool,
        0 <= elastic(pool) <= pool,
{
    let n = most(running, 1);
    assert(0 <= pool / n <= pool) by (nonlinear_arith)
        requires
            0 <= pool,
            1 <= n,
    ;
}

/// What an app may take of an account, in numbers. It reaches four fifths of the
/// account, or 48 MiB of it where that is more; it is guaranteed an equal share,
/// within those two; and it is slowed down 16 MiB below its ceiling.
pub proof fn law_shares_in_numbers(pool: u64, running: usize, l: AppLimits)
    requires
        running >= 1,
        limits_are(l, pool as int, running as int, None),
    ensures
        pool * 80 / 100 >= 50331648 ==> l.max == pool * 80 / 100,
        pool * 80 / 100 < 50331648 <= pool ==> l.max == 50331648,
        pool < 50331648 ==> l.max == pool && l.min == pool,
        50331648 <= pool as int / running as int <= pool * 80 / 100 ==> l.min == pool as int
            / running as int,
        pool as int / running as int <= 50331648 <= pool ==> l.min == 50331648,
        pool as int / running as int >= pool * 80 / 100 >= 50331648 ==> l.min == pool * 80 / 100,
        l.max - 16777216 >= l.min ==> l.high == l.max - 16777216,
        l.max - 16777216 < l.min ==> l.high == l.min,
{
    lemma_shares(pool as int, running as int);
}

/// A pin is the ceiling where it lies below the one that the account gives, and
/// then bounds the guarantee too.
pub proof fn law_pin_in_numbers(pool: u64, running: usize, cap: u64, open: AppLimits, l: AppLimits)
    requires
        limits_are(open, pool as int, running as int, None),
        limits_are(l, pool as int, running as int, Some(cap)),
    ensures
        cap <= open.max ==> l.max == cap,
        cap > open.max ==> l.max == open.max,
        open.min <= cap ==> l.min == open.min,
        open.min > cap ==> l.min == cap,
        l.max - 16777216 >= l.min ==> l.high == l.max - 16777216,
        l.max - 16777216 < l.min ==> l.high == l.min,
{
    lemma_shares(pool as int, running as int);
}

/// The limits of an app are numbers of 64 bits, in order, and within the pool and
/// the pin.
pub proof fn lemma_limits_fit(pool: u64, running: int, pinned: Option<u64>)
    ensures
        limits_are(limits_of(pool as int, running, pinned), pool as int, running, pinned),
        limits_of(pool as int, running, pinned).max <= pool,
        pinned matches Some(cap) ==> limits_of(pool as int, running, pinned).max <= cap,
        limits_of(pool as int, running, pinned).min <= limits_of(pool as int, running, pinned).high
            <= limits_of(pool as int, running, pinned).max,
{
    lemma_shares(pool as int, running);
}

/// What has to be there for apps to get a systemd scope of their own: a live
/// system manager and `systemd-run`.
pub const SYSTEM_MANAGER_DIR: &'static str = "/run/systemd/system";

pub const SYSTEMD_RUN: &'static str = "/usr/bin/systemd-run";

pub const SYSTEMD_RUN_OLD: &'static str = "/bin/systemd-run";

/// True when this host can place apps in their own systemd scope.
///
/// A container without systemd as PID 1 has the binary but no bus to talk to.
pub fn can_run_scopes(manager: bool, run: bool, run_old: bool) -> (r: bool)
    ensures
        r == (manager && (run || run_old)),
{
    manager && (run || run_old)
}

} // verus!
