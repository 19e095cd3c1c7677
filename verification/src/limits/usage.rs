//! Per-app resource usage, read from the app's systemd scope cgroup, and the
//! memory each app of an account is held to.

use vstd::prelude::*;

use crate::command;
use crate::command::CommandLine;
use crate::limits::policy;
use crate::limits::policy::AppLimits;
use crate::sys::output;
use crate::sys::output::{Json, Members, Response};
use crate::sys::proc;
use crate::sys::state;
use crate::sys::state::AppMeta;
use crate::text;

verus! {

// ---------------------------------------------------------------------------
// Scopes
// ---------------------------------------------------------------------------

pub open spec fn scope_unit(username: Seq<char>, name: Seq<char>) -> Seq<char> {
    "selynt-"@ + username + "-"@ + name + ".scope"@
}

/// Name of the transient systemd scope backing an app.
pub fn scope_unit_name(username: &str, name: &str) -> (r: String)
    ensures
        r@ == scope_unit(username@, name@),
{
    let mut out = "selynt-".to_string();
    out.append(username);
    out.append("-");
    out.append(name);
    out.append(".scope");
    out
}

/// Where account and app meet in a unit name: the account ends at the first
/// hyphen of what follows `selynt-`.
proof fn lemma_scope_unit(username: Seq<char>, name: Seq<char>)
    requires
        !username.contains('-'),
    ensures
        ({
            let rest = scope_unit(username, name).skip("selynt-"@.len() as int);
            &&& text::first_at(rest, '-') == username.len()
            &&& rest.take(username.len() as int) == username
            &&& rest.subrange(username.len() as int + 1, rest.len() - ".scope"@.len()) == name
        }),
{
    reveal_strlit("-");
    let rest = scope_unit(username, name).skip("selynt-"@.len() as int);
    assert(rest =~= username + "-"@ + name + ".scope"@);
    assert(rest[username.len() as int] == '-');
    assert forall|j: int| 0 <= j < username.len() implies rest[j] != '-' by {
        assert(rest[j] == username[j]);
        assert(username.contains(username[j]));
    }
    text::lemma_first_at_is(rest, '-', username.len() as int);
    assert(rest.take(username.len() as int) =~= username);
    assert(rest.subrange(username.len() as int + 1, rest.len() - ".scope"@.len()) =~= name);
}

/// Two apps never share a scope, of whatever accounts they are, as long as
/// account names hold no hyphen.
pub proof fn law_scopes_are_apart(u1: Seq<char>, n1: Seq<char>, u2: Seq<char>, n2: Seq<char>)
    requires
        !u1.contains('-'),
        !u2.contains('-'),
        scope_unit(u1, n1) == scope_unit(u2, n2),
    ensures
        u1 == u2,
        n1 == n2,
{
    lemma_scope_unit(u1, n1);
    lemma_scope_unit(u2, n2);
}

/// The cgroup of an app's scope. Apps live under the account's slice; one that
/// an earlier version started may still sit in `system.slice`.
pub open spec fn scope_dir(username: Seq<char>, name: Seq<char>, in_slice: bool) -> Seq<char> {
    if in_slice {
        slice_scope_dir(username, name)
    } else {
        "/sys/fs/cgroup/system.slice/"@ + scope_unit(username, name)
    }
}

pub open spec fn slice_scope_dir(username: Seq<char>, name: Seq<char>) -> Seq<char> {
    policy::slice_dir(username) + "/"@ + scope_unit(username, name)
}

/// Where an app's scope is when it lies in the account's slice.
pub fn scope_cgroup_in_slice(username: &str, name: &str) -> (r: String)
    ensures
        r@ == slice_scope_dir(username@, name@),
{
    let mut out = policy::slice_cgroup(username);
    out.append("/");
    out.append(&scope_unit_name(username, name));
    out
}

/// cgroup v2 path for an app's scope. `in_slice` says whether
/// [`scope_cgroup_in_slice`] is there.
pub fn scope_cgroup(username: &str, name: &str, in_slice: bool) -> (r: String)
    ensures
        r@ == scope_dir(username@, name@, in_slice),
{
    if in_slice {
        return scope_cgroup_in_slice(username, name);
    }
    let mut out = "/sys/fs/cgroup/system.slice/".to_string();
    out.append(&scope_unit_name(username, name));
    out
}

/// The pids that these lines of `cgroup.procs` name.
pub open spec fn pids_in(ls: Seq<Seq<char>>) -> Seq<nat>
    decreases ls.len(),
{
    if ls.len() == 0 {
        Seq::empty()
    } else {
        match text::number(text::trimmed(ls.last()), u32::MAX as nat) {
            Some(n) => pids_in(ls.drop_last()).push(n),
            None => pids_in(ls.drop_last()),
        }
    }
}

pub open spec fn nats(v: Seq<u32>) -> Seq<nat> {
    Seq::new(v.len(), |i: int| v[i] as nat)
}

/// Every PID in an app's scope, from its `cgroup.procs`: the app itself plus
/// anything it spawned.
pub fn scope_pids(procs: &str) -> (r: Vec<u32>)
    ensures
        nats(r@) == pids_in(text::lines(procs@)),
{
    let ls = text::split_lines(procs);
    let ghost vs = text::views(ls@);
    let mut out: Vec<u32> = Vec::new();
    let mut i: usize = 0;
    assert(nats(out@) =~= pids_in(vs.take(0)));
    while i < ls.len()
        invariant
            vs == text::views(ls@),
            i <= ls@.len(),
            nats(out@) == pids_in(vs.take(i as int)),
        decreases ls@.len() - i,
    {
        let ghost before = nats(out@);
        assert(vs.take(i + 1).drop_last() =~= vs.take(i as int));
        assert(vs.take(i + 1).last() == ls@[i as int]@);
        if let Some(pid) = text::parse_u32(&text::trim(&ls[i])) {
            out.push(pid);
            assert(nats(out@) =~= before.push(pid as nat));
        }
        i = i + 1;
    }
    assert(vs.take(i as int) =~= vs);
    out
}

// ---------------------------------------------------------------------------
// Counters
// ---------------------------------------------------------------------------

/// The number that a counter file holds, if it holds one.
pub open spec fn counter(content: Option<Seq<char>>) -> Option<nat> {
    match content {
        Some(c) => text::number(text::trimmed(c), u64::MAX as nat),
        None => None,
    }
}

/// The number behind a label in a statistics file.
pub open spec fn statistic(content: Option<Seq<char>>, label: Seq<char>) -> Option<nat> {
    match content {
        Some(c) => match proc::first_after(text::lines(c), label) {
            Some(rest) => text::number(text::trimmed(rest), u64::MAX as nat),
            None => None,
        },
        None => None,
    }
}

pub open spec fn opt_string(s: Option<String>) -> Option<Seq<char>> {
    command::opt(s)
}

/// Reads a single integer from a cgroup file. `max` (no limit) yields `None`.
pub fn read_num(content: &Option<String>) -> (r: Option<u64>)
    ensures
        state::nat_of(r) == counter(opt_string(*content)),
{
    match content {
        Some(c) => text::parse_u64(&text::trim(c)),
        None => None,
    }
}

fn read_statistic(content: &Option<String>, label: &str) -> (r: Option<u64>)
    ensures
        state::nat_of(r) == statistic(opt_string(*content), label@),
{
    match content {
        Some(c) => match proc::after_label(c, label) {
            Some(rest) => text::parse_u64(&text::trim(&rest)),
            None => None,
        },
        None => None,
    }
}

/// Anonymous memory of the cgroup in bytes, from `memory.stat`: the app's own
/// pages, without the page cache that the kernel reclaims under pressure.
pub fn read_anon_bytes(memory_stat: &Option<String>) -> (r: Option<u64>)
    ensures
        state::nat_of(r) == statistic(opt_string(*memory_stat), "anon "@),
{
    read_statistic(memory_stat, "anon ")
}

/// Cumulative CPU time of the cgroup in microseconds, from `cpu.stat`.
pub fn read_cpu_usec(cpu_stat: &Option<String>) -> (r: Option<u64>)
    ensures
        state::nat_of(r) == statistic(opt_string(*cpu_stat), "usage_usec "@),
{
    read_statistic(cpu_stat, "usage_usec ")
}

pub open spec fn or_else(a: Option<nat>, b: Option<nat>) -> Option<nat> {
    match a {
        Some(n) => Some(n),
        None => b,
    }
}

pub open spec fn or_zero(a: Option<nat>) -> nat {
    match a {
        Some(n) => n,
        None => 0,
    }
}

/// Live resource usage of one app's scope.
#[derive(Debug, Clone, Copy, PartialEq, Eq, Structural)]
pub struct ScopeUsage {
    pub memory_bytes: u64,
    pub cpu_usec: u64,
}

/// The files of an app's cgroup, as far as they could be read.
pub struct ScopeFiles {
    pub memory_stat: Option<String>,
    pub memory_current: Option<String>,
    pub cpu_stat: Option<String>,
    pub pids_current: Option<String>,
}

/// The memory an app holds: its own pages, or everything charged to it where
/// those are not broken down.
pub open spec fn memory_used(f: ScopeFiles) -> nat {
    or_zero(
        or_else(statistic(opt_string(f.memory_stat), "anon "@), counter(
            opt_string(f.memory_current),
        )),
    )
}

pub open spec fn cpu_used(f: ScopeFiles) -> nat {
    or_zero(statistic(opt_string(f.cpu_stat), "usage_usec "@))
}

fn read_memory_used(f: &ScopeFiles) -> (r: u64)
    ensures
        r as nat == memory_used(*f),
{
    match read_anon_bytes(&f.memory_stat) {
        Some(n) => n,
        None => match read_num(&f.memory_current) {
            Some(n) => n,
            None => 0,
        },
    }
}

fn read_cpu_used(f: &ScopeFiles) -> (r: u64)
    ensures
        r as nat == cpu_used(*f),
{
    match read_cpu_usec(&f.cpu_stat) {
        Some(n) => n,
        None => 0,
    }
}

/// An app's cgroup usage, or `None` when the scope is not present.
pub fn read_scope_usage(live: bool, files: &ScopeFiles) -> (r: Option<ScopeUsage>)
    ensures
        r is Some <==> live,
        r matches Some(u) ==> u.memory_bytes as nat == memory_used(*files) && u.cpu_usec as nat
            == cpu_used(*files),
{
    if live {
        Some(
            ScopeUsage {
                memory_bytes: read_memory_used(files),
                cpu_usec: read_cpu_used(files),
            },
        )
    } else {
        None
    }
}

// ---------------------------------------------------------------------------
// The account's allowance
// ---------------------------------------------------------------------------

/// What systemd's suffix for a size multiplies by.
pub open spec fn size_unit(c: char) -> Option<nat> {
    if c == 'K' || c == 'k' {
        Some(1024)
    } else if c == 'M' || c == 'm' {
        Some(1024 * 1024)
    } else if c == 'G' || c == 'g' {
        Some(1024 * 1024 * 1024)
    } else {
        None
    }
}

/// The bytes that a systemd memory limit (`512M`, `2G`) stands for; none for
/// `infinity` and for what is not a limit.
pub open spec fn memory_limit(raw: Seq<char>) -> Option<nat> {
    let t = text::trimmed(raw);
    if t.len() == 0 || text::lower(t) == "infinity"@ {
        None
    } else {
        let (digits, unit) = match size_unit(t.last()) {
            Some(u) => (t.drop_last(), u),
            None => (t, 1nat),
        };
        match text::number(text::trimmed(digits), u64::MAX as nat) {
            Some(n) => Some(n * unit),
            None => None,
        }
    }
}

/// Whether the limit is a number of 64 bits.
pub open spec fn memory_limit_fits(raw: Seq<char>) -> bool {
    memory_limit(raw) matches Some(n) ==> n <= u64::MAX
}

fn size_in(digits: &str, unit: u64) -> (r: Option<Option<u64>>)
    requires
        0 < unit <= 1024 * 1024 * 1024,
    ensures
        match text::number(text::trimmed(digits@), u64::MAX as nat) {
            Some(n) => r == Some(
                if n * unit <= u64::MAX {
                    Some((n * unit) as u64)
                } else {
                    None
                },
            ),
            None => r is None,
        },
{
    match text::parse_u64(&text::trim(digits)) {
        Some(n) => {
            Some(n.checked_mul(unit))
        },
        None => None,
    }
}

/// The limit that `raw` states, where it states one, and its bytes, where they
/// fit.
fn read_memory_limit(raw: &str) -> (r: Option<Option<u64>>)
    ensures
        match memory_limit(raw@) {
            Some(n) => r == Some(
                if n <= u64::MAX {
                    Some(n as u64)
                } else {
                    None
                },
            ),
            None => r is None,
        },
{
    let t = text::trim(raw);
    let cs = text::chars(&t);
    let n: usize = cs.len();
    if n == 0 {
        return None;
    }
    let low = text::to_lower(&t);
    if text::same(&low, "infinity") {
        return None;
    }
    let c: char = cs[n - 1];
    let digits = text::slice(&cs, 0, n - 1);
    assert(digits@ =~= t@.drop_last());
    if c == 'K' || c == 'k' {
        size_in(&digits, 1024)
    } else if c == 'M' || c == 'm' {
        size_in(&digits, 1024 * 1024)
    } else if c == 'G' || c == 'g' {
        size_in(&digits, 1024 * 1024 * 1024)
    } else {
        size_in(&t, 1)
    }
}

/// Whether a systemd memory limit is a number of 64 bits.
pub fn limit_fits(raw: &str) -> (r: bool)
    ensures
        r == memory_limit_fits(raw@),
{
    match read_memory_limit(raw) {
        Some(None) => false,
        _ => true,
    }
}

/// Parses a systemd memory limit (`512M`, `2G`, `infinity`) into bytes.
pub fn parse_memory_limit(raw: &str) -> (r: Option<u64>)
    requires
        memory_limit_fits(raw@),
    ensures
        state::nat_of(r) == memory_limit(raw@),
{
    match read_memory_limit(raw) {
        Some(n) => n,
        None => None,
    }
}

/// `s` without any `c` at its end.
pub open spec fn without_last(s: Seq<char>, c: char) -> Seq<char>
    decreases s.len(),
{
    if s.len() > 0 && s.last() == c {
        without_last(s.drop_last(), c)
    } else {
        s
    }
}

fn trim_last(s: &str, c: char) -> (r: String)
    ensures
        r@ == without_last(s@, c),
{
    let cs = text::chars(s);
    let mut n: usize = cs.len();
    assert(cs@.take(n as int) =~= s@);
    while n > 0 && cs[n - 1] == c
        invariant
            n <= cs@.len(),
            cs@ == s@,
            without_last(cs@.take(n as int), c) == without_last(s@, c),
        decreases n,
    {
        assert(cs@.take(n as int).drop_last() =~= cs@.take(n - 1));
        n = n - 1;
    }
    assert(cs@.subrange(0, n as int) =~= cs@.take(n as int));
    text::slice(&cs, 0, n)
}

/// The percentage that a systemd CPU quota (`50%`, `150%`) stands for.
pub open spec fn cpu_quota(raw: Seq<char>) -> Option<nat> {
    text::number(text::trimmed(without_last(text::trimmed(raw), '%')), u32::MAX as nat)
}

pub open spec fn nat_of_u32(n: Option<u32>) -> Option<nat> {
    match n {
        Some(k) => Some(k as nat),
        None => None,
    }
}

/// Parses a systemd CPU quota (`50%`, `150%`) into a percentage of one core.
pub fn parse_cpu_quota(raw: &str) -> (r: Option<u32>)
    ensures
        nat_of_u32(r) == cpu_quota(raw@),
{
    text::parse_u32(&text::trim(&trim_last(&text::trim(raw), '%')))
}

/// The first value of a key that is not empty. DirectAdmin writes the key with
/// an empty value when no limit is set, and a later line may carry the real
/// one.
pub open spec fn first_value(ls: Seq<Seq<char>>, prefix: Seq<char>) -> Option<Seq<char>>
    decreases ls.len(),
{
    if ls.len() == 0 {
        None
    } else {
        let line = text::trimmed(ls[0]);
        let value = text::trimmed(line.skip(prefix.len() as int));
        if prefix.is_prefix_of(line) && value.len() > 0 {
            Some(value)
        } else {
            first_value(ls.skip(1), prefix)
        }
    }
}

pub open spec fn limit_value(conf: Seq<char>, key: Seq<char>) -> Option<Seq<char>> {
    first_value(text::lines(conf), key + "="@)
}

/// Reads a `key=value` field from the body of a DirectAdmin `user.conf`.
pub fn da_limit(conf: &str, key: &str) -> (r: Option<String>)
    ensures
        command::opt(r) == limit_value(conf@, key@),
{
    let prefix = text::cat(key, "=");
    let ls = text::split_lines(conf);
    let ghost vs = text::views(ls@);
    let mut i: usize = 0;
    assert(vs.skip(0) =~= vs);
    while i < ls.len()
        invariant
            vs == text::views(ls@),
            vs == text::lines(conf@),
            prefix@ == key@ + "="@,
            i <= ls@.len(),
            limit_value(conf@, key@) == first_value(vs.skip(i as int), prefix@),
        decreases ls@.len() - i,
    {
        assert(vs.skip(i as int)[0] == ls@[i as int]@);
        let line = text::trim(&ls[i]);
        if let Some(rest) = text::strip_prefix(&line, &prefix) {
            let value = text::trim(&rest);
            if !value.as_str().is_empty() {
                return Some(value);
            }
        }
        assert(vs.skip(i as int).skip(1) =~= vs.skip(i + 1));
        i = i + 1;
    }
    None
}

/// Account resource limits as configured in DirectAdmin.
#[derive(Debug, Clone, Copy, PartialEq, Eq, Structural)]
pub struct DaLimits {
    pub memory_max: Option<u64>,
    pub cpu_quota_percent: Option<u32>,
}

/// The memory that a `user.conf` allows the account.
pub open spec fn memory_allowance(conf: Option<Seq<char>>) -> Option<nat> {
    match conf {
        Some(c) => match limit_value(c, "MemoryMax"@) {
            Some(raw) => memory_limit(raw),
            None => None,
        },
        None => None,
    }
}

/// The processor share that a `user.conf` allows the account.
pub open spec fn cpu_allowance(conf: Option<Seq<char>>) -> Option<nat> {
    match conf {
        Some(c) => match limit_value(c, "CPUQuota"@) {
            Some(raw) => cpu_quota(raw),
            None => None,
        },
        None => None,
    }
}

/// Whether the memory that a `user.conf` allows is a number of 64 bits.
pub fn allowance_fits(conf: Option<&str>) -> (r: bool)
    ensures
        r == (memory_allowance(state::opt_view(conf)) matches Some(n) ==> n <= u64::MAX),
{
    match conf {
        Some(c) => match da_limit(c, "MemoryMax") {
            Some(raw) => limit_fits(&raw),
            None => true,
        },
        None => true,
    }
}

/// The account's limits, from the body of its `user.conf` where that could be
/// read. Where it could not, the account looks unlimited.
pub fn read_da_limits(conf: Option<&str>) -> (r: DaLimits)
    requires
        memory_allowance(state::opt_view(conf)) matches Some(n) ==> n <= u64::MAX,
    ensures
        state::nat_of(r.memory_max) == memory_allowance(state::opt_view(conf)),
        nat_of_u32(r.cpu_quota_percent) == cpu_allowance(state::opt_view(conf)),
{
    match conf {
        Some(c) => {
            let memory_max = match da_limit(c, "MemoryMax") {
                Some(raw) => parse_memory_limit(&raw),
                None => None,
            };
            let cpu_quota_percent = match da_limit(c, "CPUQuota") {
                Some(raw) => parse_cpu_quota(&raw),
                None => None,
            };
            DaLimits { memory_max, cpu_quota_percent }
        },
        None => DaLimits { memory_max: None, cpu_quota_percent: None },
    }
}

// ---------------------------------------------------------------------------
// What each app is held to
// ---------------------------------------------------------------------------

/// An app of an account: its name, whether its scope is there, whether its
/// metadata could be loaded, and the cap it was given.
pub struct Sibling {
    pub name: String,
    pub live: bool,
    pub loaded: bool,
    pub pin: Option<u64>,
}

/// Whether another app competes with `name` for the account's memory: it runs,
/// or is about to, and is not on its way out.
pub open spec fn competes(
    other: Sibling,
    name: Seq<char>,
    pending: Seq<char>,
    leaving: Seq<char>,
) -> bool {
    other.name@ != name && other.name@ != leaving && (other.live || other.name@ == pending)
}

pub open spec fn competitors(
    others: Seq<Sibling>,
    name: Seq<char>,
    pending: Seq<char>,
    leaving: Seq<char>,
) -> nat
    decreases others.len(),
{
    if others.len() == 0 {
        0
    } else {
        let before = competitors(others.drop_last(), name, pending, leaving);
        if competes(others.last(), name, pending, leaving) {
            before + 1
        } else {
            before
        }
    }
}

/// The limits of an app with a cap of its own and no account allowance.
pub open spec fn pinned_alone(cap: u64) -> AppLimits {
    AppLimits {
        min: 0,
        high: policy::most(policy::most(cap - policy::HEADROOM, 0), 1) as u64,
        max: cap,
    }
}

/// The limits of the app `name`. With no account allowance there is no pool to
/// divide, but a pin is still enforced.
pub open spec fn resolved_limits(
    account: Option<u64>,
    name: Seq<char>,
    pin: Option<u64>,
    apps: Seq<Sibling>,
    pending: Seq<char>,
    leaving: Seq<char>,
) -> Option<AppLimits> {
    match account {
        None => match pin {
            Some(cap) => Some(pinned_alone(cap)),
            None => None,
        },
        Some(pool) => Some(
            policy::limits_of(
                pool as int,
                1 + competitors(apps, name, pending, leaving) as int,
                pin,
            ),
        ),
    }
}

/// Whether an allowance is of a size that limits can be worked out from.
pub open spec fn workable(account: Option<u64>) -> bool {
    account matches Some(pool) ==> pool * policy::ELASTIC_PERCENT <= u64::MAX
}

/// Whether an allowance is of a size that limits can be worked out from.
pub fn is_workable(account: Option<u64>) -> (r: bool)
    ensures
        r == workable(account),
{
    match account {
        Some(pool) => pool <= u64::MAX / policy::ELASTIC_PERCENT,
        None => true,
    }
}

/// Resolves the memory limits of one app. `apps` are the apps of its account.
/// `pending` is an app that is about to start, and counts although its scope is
/// not there yet; `leaving` is one that is about to stop, and does not count
/// although its scope still is.
pub fn app_limits_for_with(
    account: Option<u64>,
    name: &str,
    pin: Option<u64>,
    apps: &Vec<Sibling>,
    pending: &str,
    leaving: &str,
) -> (r: Option<AppLimits>)
    requires
        workable(account),
        apps@.len() < usize::MAX,
    ensures
        r == resolved_limits(account, name@, pin, apps@, pending@, leaving@),
{
    match account {
        None => match pin {
            Some(cap) => {
                let below: u64 = cap.saturating_sub(policy::HEADROOM);
                let high: u64 = if below <= 1 {
                    1
                } else {
                    below
                };
                Some(AppLimits { min: 0, high, max: cap })
            },
            None => None,
        },
        Some(pool) => {
            let mut running: usize = 1;
            let mut i: usize = 0;
            assert(apps@.take(0) =~= Seq::<Sibling>::empty());
            while i < apps.len()
                invariant
                    i <= apps@.len(),
                    apps@.len() < usize::MAX,
                    running == 1 + competitors(apps@.take(i as int), name@, pending@, leaving@),
                    running <= 1 + i,
                decreases apps@.len() - i,
            {
                assert(apps@.take(i + 1).drop_last() =~= apps@.take(i as int));
                let other = &apps[i];
                if !text::same(&other.name, name) && !text::same(&other.name, leaving) && (
                other.live || text::same(&other.name, pending)) {
                    running = running + 1;
                }
                i = i + 1;
            }
            assert(apps@.take(i as int) =~= apps@);
            Some(policy::app_limits(policy::slice_cap(pool), running, pin))
        },
    }
}

/// Resolves the memory limits of one app among those that run.
pub fn app_limits_for(account: Option<u64>, name: &str, pin: Option<u64>, apps: &Vec<Sibling>) -> (r:
    Option<AppLimits>)
    requires
        workable(account),
        apps@.len() < usize::MAX,
    ensures
        r == resolved_limits(account, name@, pin, apps@, ""@, ""@),
{
    app_limits_for_with(account, name, pin, apps, "", "")
}

/// The properties that hold a scope to these limits. Without limits they are
/// cleared one by one: a property left out would keep its old value.
pub open spec fn limit_properties(limits: Option<AppLimits>) -> Seq<Seq<char>> {
    match limits {
        Some(l) => seq![
            "MemoryMin="@ + text::decimal(l.min as nat),
            "MemoryHigh="@ + text::decimal(l.high as nat),
            "MemoryMax="@ + text::decimal(l.max as nat),
        ],
        None => seq!["MemoryMin=0"@, "MemoryHigh=infinity"@, "MemoryMax=infinity"@],
    }
}

/// The command that sets properties of a live unit.
pub open spec fn set_property(unit: Seq<char>, props: Seq<Seq<char>>) -> command::CommandV {
    command::CommandV {
        program: "systemctl"@,
        args: seq!["set-property"@, "--runtime"@, unit] + props,
        env: Seq::empty(),
        current_dir: None,
    }
}

fn property_command(unit: &str, props: &Vec<String>) -> (r: CommandLine)
    ensures
        r@ == set_property(unit@, text::views(props@)),
{
    let mut cmd = CommandLine::new("systemctl");
    cmd.arg("set-property");
    cmd.arg("--runtime");
    cmd.arg(unit);
    assert(cmd@.args =~= seq!["set-property"@, "--runtime"@, unit@]);
    cmd.args(props);
    cmd
}

fn limit_property_list(limits: Option<AppLimits>) -> (r: Vec<String>)
    ensures
        text::views(r@) == limit_properties(limits),
{
    let mut out: Vec<String> = Vec::new();
    match limits {
        Some(l) => {
            out.push(text::cat("MemoryMin=", &text::show_u64(l.min)));
            out.push(text::cat("MemoryHigh=", &text::show_u64(l.high)));
            out.push(text::cat("MemoryMax=", &text::show_u64(l.max)));
        },
        None => {
            out.push("MemoryMin=0".to_string());
            out.push("MemoryHigh=infinity".to_string());
            out.push("MemoryMax=infinity".to_string());
        },
    }
    assert(text::views(out@) =~= limit_properties(limits));
    out
}

pub open spec fn command_views(v: Seq<CommandLine>) -> Seq<command::CommandV> {
    Seq::new(v.len(), |i: int| v[i]@)
}

/// Whether the limits of an app are to be pushed onto its scope: it is known
/// and its scope is there to stay. A stopped app gets its limits at start.
pub open spec fn is_held(app: Sibling, leaving: Seq<char>) -> bool {
    app.loaded && app.live && app.name@ != leaving
}

/// The commands that push the limits onto the running apps among the first `n`.
pub open spec fn reapplied(
    username: Seq<char>,
    account: Option<u64>,
    apps: Seq<Sibling>,
    pending: Seq<char>,
    leaving: Seq<char>,
    n: nat,
) -> Seq<command::CommandV>
    decreases n,
{
    if n == 0 {
        Seq::empty()
    } else {
        let before = reapplied(username, account, apps, pending, leaving, (n - 1) as nat);
        let app = apps[n - 1];
        if is_held(app, leaving) {
            before.push(
                set_property(
                    scope_unit(username, app.name@),
                    limit_properties(
                        resolved_limits(account, app.name@, app.pin, apps, pending, leaving),
                    ),
                ),
            )
        } else {
            before
        }
    }
}

/// The commands that push the resolved limits onto every running app of an
/// account. Where scopes cannot be run there are none.
pub fn reapply_app_limits_with(
    can_run_scopes: bool,
    username: &str,
    account: Option<u64>,
    apps: &Vec<Sibling>,
    pending: &str,
    leaving: &str,
) -> (r: Vec<CommandLine>)
    requires
        workable(account),
        apps@.len() < usize::MAX,
    ensures
        command_views(r@) == (if can_run_scopes {
            reapplied(username@, account, apps@, pending@, leaving@, apps@.len())
        } else {
            Seq::empty()
        }),
{
    let mut out: Vec<CommandLine> = Vec::new();
    if !can_run_scopes {
        assert(command_views(out@) =~= Seq::<command::CommandV>::empty());
        return out;
    }
    let mut i: usize = 0;
    assert(command_views(out@) =~= reapplied(
        username@,
        account,
        apps@,
        pending@,
        leaving@,
        0,
    ));
    while i < apps.len()
        invariant
            i <= apps@.len(),
            apps@.len() < usize::MAX,
            workable(account),
            command_views(out@) == reapplied(
                username@,
                account,
                apps@,
                pending@,
                leaving@,
                i as nat,
            ),
        decreases apps@.len() - i,
    {
        let app = &apps[i];
        let ghost before = command_views(out@);
        if app.loaded && app.live && !text::same(&app.name, leaving) {
            let limits = app_limits_for_with(account, &app.name, app.pin, apps, pending, leaving);
            let props = limit_property_list(limits);
            let unit = scope_unit_name(username, &app.name);
            let cmd = property_command(&unit, &props);
            out.push(cmd);
            assert(command_views(out@) =~= before.push(cmd@));
        }
        i = i + 1;
    }
    out
}

/// The commands that push the resolved limits onto every running app.
pub fn reapply_app_limits(
    can_run_scopes: bool,
    username: &str,
    account: Option<u64>,
    apps: &Vec<Sibling>,
) -> (r: Vec<CommandLine>)
    requires
        workable(account),
        apps@.len() < usize::MAX,
    ensures
        command_views(r@) == (if can_run_scopes {
            reapplied(username@, account, apps@, ""@, ""@, apps@.len())
        } else {
            Seq::empty()
        }),
{
    reapply_app_limits_with(can_run_scopes, username, account, apps, "", "")
}

/// The same, with `leaving` treated as already gone: its scope outlives the
/// moment at which limits are decided.
pub fn reapply_app_limits_excluding(
    can_run_scopes: bool,
    username: &str,
    account: Option<u64>,
    apps: &Vec<Sibling>,
    leaving: &str,
) -> (r: Vec<CommandLine>)
    requires
        workable(account),
        apps@.len() < usize::MAX,
    ensures
        command_views(r@) == (if can_run_scopes {
            reapplied(username@, account, apps@, ""@, leaving@, apps@.len())
        } else {
            Seq::empty()
        }),
{
    reapply_app_limits_with(can_run_scopes, username, account, apps, "", leaving)
}

/// The same, with `pending` counted: it is about to start and has no scope yet.
pub fn reapply_app_limits_including(
    can_run_scopes: bool,
    username: &str,
    account: Option<u64>,
    apps: &Vec<Sibling>,
    pending: &str,
) -> (r: Vec<CommandLine>)
    requires
        workable(account),
        apps@.len() < usize::MAX,
    ensures
        command_views(r@) == (if can_run_scopes {
            reapplied(username@, account, apps@, pending@, ""@, apps@.len())
        } else {
            Seq::empty()
        }),
{
    reapply_app_limits_with(can_run_scopes, username, account, apps, pending, "")
}

/// The ceiling of a slice as a property.
pub open spec fn slice_property(cap: Option<u64>) -> Seq<char> {
    match cap {
        Some(bytes) => "MemoryMax="@ + text::decimal(bytes as nat),
        None => "MemoryMax=infinity"@,
    }
}

/// The command that applies the collective ceiling to the account's slice: the
/// limit the kernel actually enforces over all of its apps.
pub fn ensure_slice_cap(can_run_scopes: bool, username: &str, cap: Option<u64>) -> (r: Option<
    CommandLine,
>)
    ensures
        r is Some <==> can_run_scopes,
        r matches Some(c) ==> c@ == set_property(
            policy::slice_unit(username@),
            seq![slice_property(cap)],
        ),
{
    if !can_run_scopes {
        return None;
    }
    let mut props: Vec<String> = Vec::new();
    match cap {
        Some(bytes) => {
            props.push(text::cat("MemoryMax=", &text::show_u64(bytes)));
        },
        None => {
            props.push("MemoryMax=infinity".to_string());
        },
    }
    assert(text::views(props@) =~= seq![slice_property(cap)]);
    let unit = policy::slice_unit_name(username);
    Some(property_command(&unit, &props))
}

/// An app that is leaving frees its share for the others: among apps with names
/// of their own, the competitors of each are as many as before without it, and
/// one fewer where it ran.
pub proof fn law_leaving_app_no_longer_counts(
    apps: Seq<Sibling>,
    name: Seq<char>,
    leaving: Seq<char>,
)
    requires
        leaving != name,
        forall|i: int| 0 <= i < apps.len() ==> (#[trigger] apps[i]).name@.len() > 0,
        forall|i: int, j: int|
            0 <= i < j < apps.len() ==> (#[trigger] apps[i]).name@ != (#[trigger] apps[j]).name@,
    ensures
        competitors(apps, name, Seq::empty(), leaving) == competitors(
            apps,
            name,
            Seq::empty(),
            Seq::empty(),
        ) - (if exists|i: int|
            0 <= i < apps.len() && (#[trigger] apps[i]).name@ == leaving && apps[i].live {
            1int
        } else {
            0
        }),
    decreases apps.len(),
{
    if apps.len() > 0 {
        let front = apps.drop_last();
        assert forall|i: int, j: int| 0 <= i < j < front.len() implies (#[trigger] front[i]).name@
            != (#[trigger] front[j]).name@ by {
            assert(apps[i].name@ != apps[j].name@);
        }
        assert forall|i: int| 0 <= i < front.len() implies (#[trigger] front[i]).name@.len() > 0 by {
            assert(apps[i].name@.len() > 0);
        }
        law_leaving_app_no_longer_counts(front, name, leaving);
        assert(apps[apps.len() - 1].name@.len() > 0);
        let last = apps.last();
        let n = apps.len() - 1;
        if exists|i: int|
            0 <= i < front.len() && (#[trigger] front[i]).name@ == leaving && front[i].live {
            let i = choose|i: int|
                0 <= i < front.len() && (#[trigger] front[i]).name@ == leaving && front[i].live;
            assert(apps[i].name@ == leaving && apps[i].live);
            assert(apps[i].name@ != apps[n].name@);
            assert(last.name@ != leaving);
        } else {
            if exists|i: int|
                0 <= i < apps.len() && (#[trigger] apps[i]).name@ == leaving && apps[i].live {
                let i = choose|i: int|
                    0 <= i < apps.len() && (#[trigger] apps[i]).name@ == leaving && apps[i].live;
                if i < n {
                    assert(front[i].name@ == leaving && front[i].live);
                }
            } else {
                assert(apps[n] == last);
            }
        }
    }
}

/// A cap is always enforced, with an allowance or without one: it is never passed,
/// and without an allowance it is the ceiling itself. Without either there is no
/// limit, and with an allowance no app is given more than that.
pub proof fn law_cap_is_always_enforced(
    account: Option<u64>,
    name: Seq<char>,
    pin: Option<u64>,
    apps: Seq<Sibling>,
    pending: Seq<char>,
    leaving: Seq<char>,
)
    requires
        workable(account),
    ensures
        ({
            let r = resolved_limits(account, name, pin, apps, pending, leaving);
            &&& r is Some <==> account is Some || pin is Some
            &&& pin matches Some(cap) ==> (r matches Some(l) && l.max <= cap)
            &&& account matches Some(pool) ==> (r matches Some(l) && l.max <= pool && l.min <= l.max
                && l.high <= l.max)
            &&& (account is None && pin is Some) ==> (r matches Some(l) && l.max == pin->0 && l.min
                == 0 && l.high < l.max + 2 && (l.max > 16777216 ==> l.high == l.max - 16777216))
        }),
{
    if let Some(pool) = account {
        let n = 1 + competitors(apps, name, pending, leaving) as int;
        policy::lemma_limits_fit(pool, n, pin);
    }
}

// ---------------------------------------------------------------------------
// Reporting
// ---------------------------------------------------------------------------

/// `s` without any `p` at its end.
pub open spec fn without_suffix(s: Seq<char>, p: Seq<char>) -> Seq<char>
    decreases s.len(),
{
    if p.len() > 0 && p.is_suffix_of(s) {
        without_suffix(s.take(s.len() - p.len()), p)
    } else {
        s
    }
}

fn trim_suffix(s: &str, p: &str) -> (r: String)
    requires
        p@.len() > 0,
    ensures
        r@ == without_suffix(s@, p@),
    decreases s@.len(),
{
    match text::strip_suffix(s, p) {
        Some(t) => trim_suffix(&t, p),
        None => s.to_string(),
    }
}

/// The machine's memory in kilobytes, as `/proc/meminfo` gives it.
pub open spec fn total_kb(meminfo: Option<Seq<char>>) -> Option<nat> {
    match meminfo {
        Some(c) => match proc::first_after(text::lines(c), "MemTotal:"@) {
            Some(rest) => text::number(
                text::trimmed(without_suffix(text::trimmed(rest), " kB"@)),
                u64::MAX as nat,
            ),
            None => None,
        },
        None => None,
    }
}

/// The machine's memory in kilobytes, from `/proc/meminfo`.
pub fn read_total_kb(meminfo: &Option<String>) -> (r: Option<u64>)
    ensures
        state::nat_of(r) == total_kb(opt_string(*meminfo)),
{
    proof {
        reveal_strlit(" kB");
    }
    match meminfo {
        Some(c) => match proc::after_label(c, "MemTotal:") {
            Some(rest) => text::parse_u64(
                &text::trim(&trim_suffix(&text::trim(&rest), " kB")),
            ),
            None => None,
        },
        None => None,
    }
}

/// What a report on an app is made from.
pub struct StatsProbe {
    /// Whether the app's process is its own and up.
    pub running: bool,
    /// Whether the app's cgroup is there.
    pub scope_exists: bool,
    pub files: ScopeFiles,
    /// `memory.stat` of the account's slice.
    pub slice_stat: Option<String>,
    pub meminfo: Option<String>,
}

/// What an app is actually held to, most specific first: the resolved ceiling,
/// then the user's own pin, then the account, and as a last resort the
/// machine's memory.
pub open spec fn effective_limit(
    app: Option<AppLimits>,
    pin: Option<u64>,
    account: Option<u64>,
    kb: Option<nat>,
) -> Option<nat> {
    match (app, pin, account) {
        (Some(l), _, _) => Some(l.max as nat),
        (None, Some(n), _) => Some(n as nat),
        (None, None, Some(n)) => Some(n as nat),
        (None, None, None) => match kb {
            Some(k) => Some(k * 1024),
            None => None,
        },
    }
}

pub open spec fn num(n: Option<nat>) -> output::JsonV {
    match n {
        Some(k) => output::JsonV::Num(k),
        None => output::JsonV::Null,
    }
}

/// The memory part of a report.
pub open spec fn memory_report(
    up: bool,
    probe: StatsProbe,
    app: Option<AppLimits>,
    pin: Option<u64>,
    account: Option<u64>,
) -> Seq<(Seq<char>, output::JsonV)> {
    seq![
        ("used"@, output::JsonV::Num(if up { memory_used(probe.files) } else { 0 })),
        ("limit"@, num(effective_limit(app, pin, account, total_kb(opt_string(probe.meminfo))))),
        ("min"@, num(match app { Some(l) => Some(l.min as nat), None => None })),
        ("high"@, num(match app { Some(l) => Some(l.high as nat), None => None })),
        ("max"@, num(match app { Some(l) => Some(l.max as nat), None => None })),
        ("pinned"@, num(state::nat_of(pin))),
        ("account"@, num(state::nat_of(account))),
        ("slice_cap"@, num(state::nat_of(account))),
        (
            "slice_used"@,
            num(
                if account is Some {
                    statistic(opt_string(probe.slice_stat), "anon "@)
                } else {
                    None
                },
            ),
        ),
    ]
}

/// A report on an app. A stopped app has no cgroup and reports zeroes.
pub open spec fn report(
    probe: StatsProbe,
    app: Option<AppLimits>,
    pin: Option<u64>,
    limits: DaLimits,
) -> Seq<(Seq<char>, output::JsonV)> {
    let up = probe.running && probe.scope_exists;
    seq![
        ("running"@, output::JsonV::Bool(up)),
        (
            "memory"@,
            output::JsonV::Obj(memory_report(up, probe, app, pin, limits.memory_max)),
        ),
        (
            "cpu"@,
            output::JsonV::Obj(
                seq![
                    (
                        "usage_usec"@,
                        output::JsonV::Num(if up { cpu_used(probe.files) } else { 0 }),
                    ),
                    ("quota_percent"@, num(nat_of_u32(limits.cpu_quota_percent))),
                ],
            ),
        ),
        (
            "pids"@,
            output::JsonV::Num(
                if up {
                    or_zero(counter(opt_string(probe.files.pids_current)))
                } else {
                    0
                },
            ),
        ),
    ]
}

/// Whether the machine's memory, in bytes, is a number of 64 bits.
pub open spec fn memory_fits(meminfo: Option<Seq<char>>) -> bool {
    total_kb(meminfo) matches Some(k) ==> k * 1024 <= u64::MAX
}

fn limit_parts(app: Option<AppLimits>) -> (r: (Option<u64>, Option<u64>, Option<u64>))
    ensures
        state::nat_of(r.0) == (match app { Some(l) => Some(l.min as nat), None => None }),
        state::nat_of(r.1) == (match app { Some(l) => Some(l.high as nat), None => None }),
        state::nat_of(r.2) == (match app { Some(l) => Some(l.max as nat), None => None }),
{
    match app {
        Some(l) => (Some(l.min), Some(l.high), Some(l.max)),
        None => (None, None, None),
    }
}

fn memory_part(
    up: bool,
    probe: &StatsProbe,
    app: Option<AppLimits>,
    pin: Option<u64>,
    account: Option<u64>,
) -> (r: Json)
    requires
        app is None && pin is None && account is None ==> memory_fits(opt_string(probe.meminfo)),
    ensures
        r@ == output::JsonV::Obj(memory_report(up, *probe, app, pin, account)),
{
    let used: u64 = if up {
        read_memory_used(&probe.files)
    } else {
        0
    };
    let limit: Option<u64> = match (app, pin, account) {
        (Some(l), _, _) => Some(l.max),
        (None, Some(n), _) => Some(n),
        (None, None, Some(n)) => Some(n),
        (None, None, None) => match read_total_kb(&probe.meminfo) {
            Some(kb) => Some(kb * 1024),
            None => None,
        },
    };
    let parts = limit_parts(app);
    let cap = match account {
        Some(n) => Some(policy::slice_cap(n)),
        None => None,
    };
    let slice_used = if account.is_some() {
        read_anon_bytes(&probe.slice_stat)
    } else {
        None
    };
    let mut m = Members::new();
    m.put_number("used", used);
    m.put_optional("limit", limit);
    m.put_optional("min", parts.0);
    m.put_optional("high", parts.1);
    m.put_optional("max", parts.2);
    m.put_optional("pinned", pin);
    m.put_optional("account", account);
    m.put_optional("slice_cap", cap);
    m.put_optional("slice_used", slice_used);
    assert(m@ =~= memory_report(up, *probe, app, pin, account));
    m.object()
}

/// The answer to a request that names an app that is not there.
pub open spec fn no_such_app(name: Seq<char>) -> output::ResponseV {
    output::refused("app_not_found"@, "app '"@ + name + "' not found"@)
}

/// The answer to a request that names an app that is not there.
pub fn app_not_found(name: &str) -> (r: Response)
    ensures
        r@ == no_such_app(name@),
{
    let mut message = "app '".to_string();
    message.append(name);
    message.append("' not found");
    output::user_error("app_not_found", &message)
}

/// Reports memory and CPU for one app, alongside the account's limits.
///
/// `account` is the allowance that the app's own limits are worked out from.
/// CPU is a cumulative counter, so a single reading cannot express a rate: the
/// raw value is returned and the caller samples twice.
pub fn cmd_stats(
    name: &str,
    meta: Option<&AppMeta>,
    account: Option<u64>,
    apps: &Vec<Sibling>,
    probe: &StatsProbe,
    limits: DaLimits,
    debug: Option<Json>,
) -> (r: Response)
    requires
        workable(account),
        apps@.len() < usize::MAX,
        meta matches Some(m) ==> resolved_limits(
            account,
            name@,
            m.memory_max,
            apps@,
            ""@,
            ""@,
        ) is None && m.memory_max is None && limits.memory_max is None ==> memory_fits(
            opt_string(probe.meminfo),
        ),
    ensures
        r@ == (match meta {
            None => no_such_app(name@),
            Some(m) => output::accepted(
                output::debugged(
                    report(
                        *probe,
                        resolved_limits(account, name@, m.memory_max, apps@, ""@, ""@),
                        m.memory_max,
                        limits,
                    ),
                    output::debug_view(debug),
                ),
            ),
        }),
{
    let meta = match meta {
        Some(m) => m,
        None => {
            return app_not_found(name);
        },
    };
    let up = probe.running && probe.scope_exists;
    let app = app_limits_for(account, name, meta.memory_max, apps);
    let cpu_usec: u64 = if up {
        read_cpu_used(&probe.files)
    } else {
        0
    };
    let pids: u64 = if up {
        match read_num(&probe.files.pids_current) {
            Some(n) => n,
            None => 0,
        }
    } else {
        0
    };
    let quota = match limits.cpu_quota_percent {
        Some(n) => Some(n as u64),
        None => None,
    };
    let mut cpu = Members::new();
    cpu.put_number("usage_usec", cpu_usec);
    cpu.put_optional("quota_percent", quota);
    let mut m = Members::new();
    m.put_bool("running", up);
    m.put("memory", memory_part(up, probe, app, meta.memory_max, limits.memory_max));
    let ghost cpu_members = cpu@;
    m.put("cpu", cpu.object());
    m.put_number("pids", pids);
    assert(cpu_members =~= report(*probe, app, meta.memory_max, limits)[2].1->Obj_0);
    assert(m@ =~= report(*probe, app, meta.memory_max, limits));
    output::success(output::with_debug(m, debug))
}

proof fn lemma_digits_are_bare(n: nat)
    ensures
        text::decimal(n).len() > 0,
        !text::is_space(text::decimal(n)[0]) && !text::is_space(text::decimal(n).last()),
        size_unit(text::decimal(n).last()) is None,
        text::decimal(n).last() != '%',
        !text::decimal(n).contains('\n'),
{
    text::law_numbers_read_back(n, n);
    let d = text::decimal(n);
    assert('0' <= d[0] <= '9');
    assert('0' <= d[d.len() - 1] <= '9');
    assert forall|i: int| 0 <= i < d.len() implies d[i] != '\n' by {
        assert('0' <= d[i] <= '9');
    }
}

/// A memory limit is a number of bytes, or of as many as its letter says: 1024 for
/// K, 1024 times that for M and again for G, in either case. `infinity` is no
/// limit.
pub proof fn law_memory_limits_count_by_their_letter(
    left: Seq<char>,
    n: nat,
    c: char,
    right: Seq<char>,
)
    requires
        n <= u64::MAX,
        forall|i: int| 0 <= i < left.len() ==> text::is_space(#[trigger] left[i]),
        forall|i: int| 0 <= i < right.len() ==> text::is_space(#[trigger] right[i]),
    ensures
        memory_limit(left + text::decimal(n) + right) == Some(n),
        c == 'K' || c == 'k' ==> memory_limit(left + text::decimal(n).push(c) + right) == Some(
            n * 1024,
        ),
        c == 'M' || c == 'm' ==> memory_limit(left + text::decimal(n).push(c) + right) == Some(
            n * 1048576,
        ),
        c == 'G' || c == 'g' ==> memory_limit(left + text::decimal(n).push(c) + right) == Some(
            n * 1073741824,
        ),
        memory_limit("infinity"@) is None,
        memory_limit(left) is None,
{
    let d = text::decimal(n);
    let none = Seq::<char>::empty();
    lemma_digits_are_bare(n);
    text::law_numbers_read_back(n, u64::MAX as nat);
    assert('0' <= d[0] <= '9');
    reveal_strlit("infinity");
    text::law_trimming_takes_white_space(left, d, right);
    assert(none + d + none =~= d);
    text::law_trimming_takes_white_space(none, d, none);
    text::law_lower_case_moves_capitals(d, 0);
    assert(text::lower(d)[0] != 'i');
    assert(text::lower(d) != "infinity"@);
    assert(text::trimmed(left + d + right) == d);
    assert(n * 1nat == n);
    if c == 'K' || c == 'k' || c == 'M' || c == 'm' || c == 'G' || c == 'g' {
        let t = d.push(c);
        assert(t[0] == d[0] && t.last() == c);
        assert(t.drop_last() =~= d);
        text::law_lower_case_moves_capitals(t, 0);
        assert(text::lower(t)[0] != 'i');
        text::law_trimming_takes_white_space(left, t, right);
    }
    let inf = "infinity"@;
    assert(inf[0] == 'i' && inf.last() == 'y');
    assert(none + inf + none =~= inf);
    text::law_trimming_takes_white_space(none, inf, none);
    assert(text::lower(inf) =~= inf) by {
        assert forall|i: int| 0 <= i < inf.len() implies text::lower(inf)[i] == inf[i] by {
            text::law_lower_case_moves_capitals(inf, i);
        }
        text::law_lower_case_moves_capitals(inf, 0);
    }
    assert(left + none + none =~= left);
    text::law_trimming_takes_white_space(left, none, none);
}

/// A share of the processor is a number of percent, with its sign or without.
pub proof fn law_quotas_are_percentages(n: nat)
    requires
        n <= u32::MAX,
    ensures
        cpu_quota(text::decimal(n)) == Some(n),
        cpu_quota(text::decimal(n).push('%')) == Some(n),
        cpu_quota(text::decimal(n).push('%').push('\n')) == Some(n),
{
    let d = text::decimal(n);
    let none = Seq::<char>::empty();
    let feed = seq!['\n'];
    lemma_digits_are_bare(n);
    text::law_numbers_read_back(n, u32::MAX as nat);
    assert(none + d + none =~= d);
    text::law_trimming_takes_white_space(none, d, none);
    let t = d.push('%');
    assert(t[0] == d[0] && t.last() == '%');
    assert(t.drop_last() =~= d);
    assert(none + t + none =~= t);
    text::law_trimming_takes_white_space(none, t, none);
    assert(none + t + feed =~= t.push('\n'));
    text::law_trimming_takes_white_space(none, t, feed);
    assert(without_last(t, '%') == without_last(d, '%'));
    assert(without_last(d, '%') == d);
}

/// A limit of an account is the first value that its file states for the key; a key
/// that stands there without a value states none.
pub proof fn law_first_stated_limit_counts(
    key: Seq<char>,
    line: Seq<char>,
    v: Seq<char>,
    below: Seq<char>,
)
    requires
        key.len() > 0,
        !text::is_space(key[0]),
        !key.contains('\n') && !v.contains('\n') && !line.contains('\n'),
        v.len() > 0,
        !text::is_space(v[0]) && !text::is_space(v.last()),
        line.len() > 0 ==> line.last() != '\r',
    ensures
        limit_value((key + "="@ + v).push('\n') + below, key) == Some(v),
        limit_value((key + "="@).push('\n') + below, key) == limit_value(below, key),
        !(key + "="@).is_prefix_of(text::trimmed(line)) ==> limit_value(
            line.push('\n') + below,
            key,
        ) == limit_value(below, key),
        limit_value(Seq::empty(), key) is None,
{
    reveal_strlit("=");
    let prefix = key + "="@;
    let none = Seq::<char>::empty();
    let full = prefix + v;
    assert(full.last() == v.last() && full[0] == key[0]);
    assert forall|i: int| 0 <= i < full.len() implies full[i] != '\n' by {
        if i < key.len() {
            assert(key.contains(key[i]));
        } else if i > key.len() {
            assert(full[i] == v[i - key.len() - 1]);
            assert(v.contains(v[i - key.len() - 1]));
        }
    }
    assert(key + "="@ + v =~= full);
    text::law_line_ends_at_its_feed(full, below);
    assert(none + full + none =~= full);
    text::law_trimming_takes_white_space(none, full, none);
    assert(none + v + none =~= v);
    text::law_trimming_takes_white_space(none, v, none);
    assert(full.take(prefix.len() as int) =~= prefix);
    assert(prefix.is_prefix_of(full));
    assert(full.skip(prefix.len() as int) =~= v);
    let ls = text::lines(full.push('\n') + below);
    assert(ls[0] == full);

    assert forall|i: int| 0 <= i < prefix.len() implies prefix[i] != '\n' by {
        if i < key.len() {
            assert(key.contains(key[i]));
        }
    }
    assert(prefix.last() == '=' && prefix[0] == key[0]);
    text::law_line_ends_at_its_feed(prefix, below);
    assert(none + prefix + none =~= prefix);
    text::law_ascii_white_space('=');
    text::law_trimming_takes_white_space(none, prefix, none);
    assert(prefix.skip(prefix.len() as int) =~= none);
    assert(none + none + none =~= none);
    text::law_trimming_takes_white_space(none, none, none);
    let ks = text::lines(prefix.push('\n') + below);
    assert(ks[0] == prefix);
    assert(ks.skip(1) =~= text::lines(below));

    text::law_line_ends_at_its_feed(line, below);
    let os = text::lines(line.push('\n') + below);
    assert(os[0] == line);
    assert(os.skip(1) =~= text::lines(below));
    text::law_last_line_needs_no_feed(none);
}

/// The allowances of an account stand under the names that systemd gives them.
pub proof fn law_allowances_by_name(n: nat, below: Seq<char>)
    requires
        n <= u32::MAX,
    ensures
        memory_allowance(Some(("MemoryMax="@ + text::decimal(n).push('M')).push('\n') + below))
            == Some(n * 1048576),
        cpu_allowance(Some(("CPUQuota="@ + text::decimal(n).push('%')).push('\n') + below)) == Some(
            n,
        ),
        memory_allowance(None) is None,
        cpu_allowance(None) is None,
{
    reveal_strlit("MemoryMax=");
    reveal_strlit("MemoryMax");
    reveal_strlit("CPUQuota=");
    reveal_strlit("CPUQuota");
    reveal_strlit("=");
    let none = Seq::<char>::empty();
    lemma_digits_are_bare(n);
    let d = text::decimal(n);
    let m = d.push('M');
    let p = d.push('%');
    text::law_ascii_white_space('M');
    text::law_ascii_white_space('C');
    text::law_ascii_white_space('%');
    assert(m[0] == d[0] && p[0] == d[0]);
    assert forall|i: int| 0 <= i < m.len() implies m[i] != '\n' && p[i] != '\n' by {
        if i < d.len() {
            assert(d.contains(d[i]));
        }
    }
    assert("MemoryMax"@ + "="@ + m =~= "MemoryMax="@ + m);
    assert("CPUQuota"@ + "="@ + p =~= "CPUQuota="@ + p);
    assert(!"MemoryMax"@.contains('\n') && !"CPUQuota"@.contains('\n'));
    law_first_stated_limit_counts("MemoryMax"@, none, m, below);
    law_first_stated_limit_counts("CPUQuota"@, none, p, below);
    assert(none + m + none =~= m);
    law_memory_limits_count_by_their_letter(none, n, 'M', none);
    law_quotas_are_percentages(n);
}

/// Another app competes for the memory of the account when it runs, or is the one
/// about to, and is neither the app itself nor the one on its way out.
pub proof fn law_other_running_apps_compete(
    apps: Seq<Sibling>,
    a: Sibling,
    name: Seq<char>,
    pending: Seq<char>,
    leaving: Seq<char>,
)
    ensures
        competitors(Seq::empty(), name, pending, leaving) == 0,
        competitors(apps.push(a), name, pending, leaving) == competitors(
            apps,
            name,
            pending,
            leaving,
        ) + (if a.name@ != name && a.name@ != leaving && (a.live || a.name@ == pending) {
            1nat
        } else {
            0
        }),
{
    assert(apps.push(a).drop_last() =~= apps);
}

/// The limits are told to systemd by their three names. Without limits all three
/// are lifted.
pub proof fn law_limits_are_three_properties(l: AppLimits, unit: Seq<char>, props: Seq<Seq<char>>)
    ensures
        limit_properties(Some(l)) == seq![
            "MemoryMin="@ + text::decimal(l.min as nat),
            "MemoryHigh="@ + text::decimal(l.high as nat),
            "MemoryMax="@ + text::decimal(l.max as nat),
        ],
        limit_properties(None) == seq![
            "MemoryMin=0"@,
            "MemoryHigh=infinity"@,
            "MemoryMax=infinity"@,
        ],
        set_property(unit, props).program == "systemctl"@,
        set_property(unit, props).args == seq!["set-property"@, "--runtime"@, unit] + props,
        slice_property(Some(l.max)) == "MemoryMax="@ + text::decimal(l.max as nat),
        slice_property(None) == "MemoryMax=infinity"@,
{
}

/// The limits are pushed onto every app that is known and runs, but for the one on
/// its way out, each with its own cap.
pub proof fn law_running_apps_are_held_to_their_limits(
    username: Seq<char>,
    account: Option<u64>,
    apps: Seq<Sibling>,
    pending: Seq<char>,
    leaving: Seq<char>,
    n: nat,
)
    requires
        n < apps.len(),
    ensures
        reapplied(username, account, apps, pending, leaving, 0).len() == 0,
        ({
            let a = apps[n as int];
            let before = reapplied(username, account, apps, pending, leaving, n);
            let with_it = reapplied(username, account, apps, pending, leaving, n + 1);
            if a.loaded && a.live && a.name@ != leaving {
                with_it == before.push(
                    set_property(
                        "selynt-"@ + username + "-"@ + a.name@ + ".scope"@,
                        limit_properties(
                            resolved_limits(account, a.name@, a.pin, apps, pending, leaving),
                        ),
                    ),
                )
            } else {
                with_it == before
            }
        }),
{
}

/// A statistic is the number on the first line that begins with its label.
pub proof fn law_statistics_stand_behind_their_label(
    above: Seq<char>,
    label: Seq<char>,
    n: nat,
    below: Seq<char>,
)
    requires
        n <= u64::MAX,
        above.len() > 0 ==> above.last() == '\n',
        forall|i: int|
            0 <= i < text::lines(above).len() ==> !label.is_prefix_of(
                #[trigger] text::lines(above)[i],
            ),
        !label.contains('\n'),
    ensures
        statistic(Some(above + (label + text::decimal(n)).push('\n') + below), label) == Some(n),
        statistic(None, label) is None,
{
    let d = text::decimal(n);
    let none = Seq::<char>::empty();
    lemma_digits_are_bare(n);
    text::law_numbers_read_back(n, u64::MAX as nat);
    let line = label + d;
    assert(line.last() == d.last());
    text::law_ascii_white_space('\r');
    assert forall|i: int| 0 <= i < line.len() implies line[i] != '\n' by {
        if i < label.len() {
            assert(label.contains(label[i]));
        } else {
            assert(line[i] == d[i - label.len()]);
            assert(d.contains(d[i - label.len()]));
        }
    }
    proc::law_first_labelled_line_counts(above, label, d, below, u64::MAX as nat);
    assert(none + d + none =~= d);
    text::law_trimming_takes_white_space(none, d, none);
}

/// The memory of the machine is what `MemTotal` says in kilobytes, the unit written
/// behind it.
pub proof fn law_total_memory_is_read(spaces: Seq<char>, n: nat, below: Seq<char>)
    requires
        n <= u64::MAX,
        forall|i: int| 0 <= i < spaces.len() ==> #[trigger] spaces[i] == ' ',
    ensures
        total_kb(
            Some(("MemTotal:"@ + (spaces + (text::decimal(n) + " kB"@))).push('\n') + below),
        ) == Some(n),
        total_kb(None) is None,
{
    let d = text::decimal(n);
    let none = Seq::<char>::empty();
    reveal_strlit("MemTotal:");
    reveal_strlit(" kB");
    lemma_digits_are_bare(n);
    text::law_numbers_read_back(n, u64::MAX as nat);
    text::law_ascii_white_space(' ');
    text::law_ascii_white_space('B');
    text::law_ascii_white_space('\r');
    let t = d + " kB"@;
    let rest = spaces + t;
    let line = "MemTotal:"@ + rest;
    assert(t.last() == 'B' && t[0] == d[0]);
    assert(line.last() == 'B');
    assert forall|i: int| 0 <= i < line.len() implies line[i] != '\n' by {
        if i >= 9 {
            let k = i - 9;
            if k < spaces.len() {
                assert(line[i] == spaces[k]);
            } else if k < spaces.len() + d.len() {
                assert(line[i] == d[k - spaces.len()]);
                assert(d.contains(d[k - spaces.len()]));
            } else {
                assert(line[i] == " kB"@[k - spaces.len() - d.len()]);
            }
        }
    }
    text::law_last_line_needs_no_feed(none);
    assert(none + line.push('\n') + below =~= line.push('\n') + below);
    proc::law_first_labelled_line_counts(none, "MemTotal:"@, rest, below, u64::MAX as nat);
    assert(spaces + t + none =~= rest);
    text::law_trimming_takes_white_space(spaces, t, none);
    assert(t.skip(d.len() as int) =~= " kB"@);
    assert(t.take(t.len() - 3) =~= d);
    assert(" kB"@.is_suffix_of(t));
    assert(without_suffix(t, " kB"@) == without_suffix(d, " kB"@));
    if " kB"@.is_suffix_of(d) {
        assert(d.last() == " kB"@[2]);
        assert('0' <= d[d.len() - 1] <= '9');
    }
    assert(none + d + none =~= d);
    text::law_trimming_takes_white_space(none, d, none);
}

/// An app is held to the most specific limit there is: its own, its pin, the
/// account's, and the memory of the machine.
pub proof fn law_most_specific_limit_counts(
    l: AppLimits,
    pin: Option<u64>,
    p: u64,
    account: Option<u64>,
    a: u64,
    kb: Option<nat>,
)
    ensures
        effective_limit(Some(l), pin, account, kb) == Some(l.max as nat),
        effective_limit(None, Some(p), account, kb) == Some(p as nat),
        effective_limit(None, None, Some(a), kb) == Some(a as nat),
        kb matches Some(k) ==> effective_limit(None, None, None, kb) == Some(k * 1024),
        effective_limit(None, None, None, None) is None,
{
}

/// The memory that an app uses is that of its own pages, and all that is charged to
/// it only where those are not known.
pub proof fn law_own_pages_count_as_used(f: ScopeFiles)
    ensures
        ({
            let own = statistic(opt_string(f.memory_stat), "anon "@);
            let all = counter(opt_string(f.memory_current));
            &&& own matches Some(n) ==> memory_used(f) == n
            &&& own is None ==> (all matches Some(n) ==> memory_used(f) == n)
            &&& own is None && all is None ==> memory_used(f) == 0
        }),
        statistic(opt_string(f.cpu_stat), "usage_usec "@) matches Some(n) ==> cpu_used(f) == n,
        statistic(opt_string(f.cpu_stat), "usage_usec "@) is None ==> cpu_used(f) == 0,
{
}

/// Every line of a `cgroup.procs` that is a number names a process.
pub proof fn law_numbered_lines_name_processes(ls: Seq<Seq<char>>, n: nat, line: Seq<char>)
    requires
        n <= u32::MAX,
    ensures
        pids_in(Seq::empty()).len() == 0,
        pids_in(ls.push(text::decimal(n))) == pids_in(ls).push(n),
        text::number(text::trimmed(line), u32::MAX as nat) is None ==> pids_in(ls.push(line))
            == pids_in(ls),
{
    let d = text::decimal(n);
    let none = Seq::<char>::empty();
    lemma_digits_are_bare(n);
    text::law_numbers_read_back(n, u32::MAX as nat);
    assert(none + d + none =~= d);
    text::law_trimming_takes_white_space(none, d, none);
    assert(ls.push(d).drop_last() =~= ls);
    assert(ls.push(line).drop_last() =~= ls);
}

/// A report on an app that is not up says that it uses nothing, and still what it
/// would be held to.
pub proof fn law_stopped_apps_use_nothing(
    probe: StatsProbe,
    app: Option<AppLimits>,
    pin: Option<u64>,
    limits: DaLimits,
)
    ensures
        ({
            let r = report(probe, app, pin, limits);
            let up = probe.running && probe.scope_exists;
            &&& r.len() == 4
            &&& r[0] == ("running"@, output::JsonV::Bool(up))
            &&& r[1].0 == "memory"@ && (r[1].1 matches output::JsonV::Obj(ms) && ms.len() == 9
                && ms[0] == (
                "used"@,
                output::JsonV::Num(
                    if up {
                        memory_used(probe.files)
                    } else {
                        0
                    },
                ),
            ) && ms[1].0 == "limit"@ && (app matches Some(l) ==> ms[1].1 == output::JsonV::Num(
                l.max as nat,
            )))
            &&& r[2].0 == "cpu"@ && (r[2].1 matches output::JsonV::Obj(cs) && cs.len() == 2 && cs[0]
                == (
                "usage_usec"@,
                output::JsonV::Num(
                    if up {
                        cpu_used(probe.files)
                    } else {
                        0
                    },
                ),
            ))
            &&& r[3].0 == "pids"@ && (!up ==> r[3].1 == output::JsonV::Num(0))
        }),
{
}

/// The cgroup of an app lies in the slice of its account, and in the system's where
/// it is not there.
pub proof fn law_cgroups_by_name(username: Seq<char>, name: Seq<char>)
    ensures
        policy::slice_dir(username) == "/sys/fs/cgroup/selynt.slice/"@ + ("selynt-"@ + username
            + ".slice"@),
        scope_dir(username, name, true) == policy::slice_dir(username) + "/"@ + ("selynt-"@
            + username + "-"@ + name + ".scope"@),
        scope_dir(username, name, false) == "/sys/fs/cgroup/system.slice/"@ + ("selynt-"@ + username
            + "-"@ + name + ".scope"@),
{
}

/// The memory part of a report gives each limit of the app by its name, and what the
/// whole account uses only where it is limited.
pub proof fn law_reports_name_each_limit(
    probe: StatsProbe,
    l: AppLimits,
    pin: Option<u64>,
    account: u64,
    up: bool,
)
    ensures
        ({
            let r = memory_report(up, probe, Some(l), pin, Some(account));
            &&& r[1] == ("limit"@, output::JsonV::Num(l.max as nat))
            &&& r[2] == ("min"@, output::JsonV::Num(l.min as nat))
            &&& r[3] == ("high"@, output::JsonV::Num(l.high as nat))
            &&& r[4] == ("max"@, output::JsonV::Num(l.max as nat))
            &&& r[5].0 == "pinned"@ && (pin matches Some(p) ==> r[5].1 == output::JsonV::Num(
                p as nat,
            )) && (pin is None ==> r[5].1 == output::JsonV::Null)
            &&& r[6] == ("account"@, output::JsonV::Num(account as nat))
            &&& r[7] == ("slice_cap"@, output::JsonV::Num(account as nat))
            &&& r[8].0 == "slice_used"@ && (statistic(opt_string(probe.slice_stat), "anon "@)
                matches Some(n) ==> r[8].1 == output::JsonV::Num(n))
        }),
        ({
            let r = memory_report(up, probe, None, None, None);
            &&& r[2] == ("min"@, output::JsonV::Null)
            &&& r[4] == ("max"@, output::JsonV::Null)
            &&& r[6] == ("account"@, output::JsonV::Null)
            &&& r[8] == ("slice_used"@, output::JsonV::Null)
        }),
{
}

/// A limit may stand apart from its letter; a letter that is none of these, or one
/// too many, is no limit.
pub proof fn law_other_limits_are_none(n: nat, gap: Seq<char>, c: char)
    requires
        n <= u64::MAX,
        forall|i: int| 0 <= i < gap.len() ==> #[trigger] gap[i] == ' ',
    ensures
        memory_limit((text::decimal(n) + gap).push('M')) == Some(n * 1048576),
        'a' <= c <= 'z' && c != 'k' && c != 'm' && c != 'g' ==> memory_limit(
            text::decimal(n).push(c),
        ) is None,
        'A' <= c <= 'Z' && c != 'K' && c != 'M' && c != 'G' ==> memory_limit(
            text::decimal(n).push(c),
        ) is None,
        memory_limit(text::decimal(n).push('M').push('B')) is None,
{
    let d = text::decimal(n);
    let none = Seq::<char>::empty();
    lemma_digits_are_bare(n);
    text::law_numbers_read_back(n, u64::MAX as nat);
    text::law_ascii_white_space('M');
    text::law_ascii_white_space('B');
    text::law_ascii_white_space(' ');
    reveal_strlit("infinity");
    assert('0' <= d[0] <= '9');
    let t = (d + gap).push('M');
    assert(t[0] == d[0] && t.last() == 'M');
    assert(none + t + none =~= t);
    text::law_trimming_takes_white_space(none, t, none);
    text::law_lower_case_moves_capitals(t, 0);
    assert(text::lower(t)[0] != 'i');
    assert(t.drop_last() =~= none + d + gap);
    assert forall|i: int| 0 <= i < gap.len() implies text::is_space(#[trigger] gap[i]) by {
        assert(gap[i] == ' ');
    }
    text::law_trimming_takes_white_space(none, d, gap);
    if ('a' <= c <= 'z' && c != 'k' && c != 'm' && c != 'g') || ('A' <= c <= 'Z' && c != 'K' && c
        != 'M' && c != 'G') {
        text::law_ascii_white_space(c);
        let u = d.push(c);
        assert(u[0] == d[0] && u.last() == c);
        assert(none + u + none =~= u);
        text::law_trimming_takes_white_space(none, u, none);
        text::law_digits_count_by_tens(d, n, u64::MAX as nat, c, u64::MAX as nat);
    }
    let m = d.push('M');
    let w = m.push('B');
    assert(w[0] == d[0] && w.last() == 'B');
    assert(none + w + none =~= w);
    text::law_trimming_takes_white_space(none, w, none);
    lemma_not_a_number(m, d.len() as int);
    lemma_not_a_number(w, d.len() as int);
}

proof fn lemma_not_a_number(s: Seq<char>, i: int)
    requires
        0 < i < s.len(),
        s[0] != '+',
        s[i] == 'M',
    ensures
        text::number(s, u64::MAX as nat) is None,
{
    assert(!text::is_digit(s[i]));
}

} // verus!
